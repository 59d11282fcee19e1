use vstd::prelude::*;

verus! {

/// Failure reported by the decoders. Two kinds suffice: a structural or
/// encoding violation, and a violation of the timestamp grammar. Decoding is
/// fail-fast and non-recovering; the first violation aborts the whole decode.
#[derive(Clone, Copy, Debug, PartialEq, Eq, Structural)]
pub enum Error {
    /// Malformed or non-canonical DER: a bad tag or length, truncated input,
    /// a tag mismatch, leftover bytes, or an invalid scalar value.
    BadDer,
    /// A malformed UTCTime or GeneralizedTime value: a non-digit byte, an
    /// out-of-range date or time field, a missing trailing 'Z', or a composed
    /// instant outside the supported range.
    BadDerTime,
}

} // verus!
