use crate::calendar::{days_in_month, spec_days_in_month, spec_seconds_from_ymdhms_utc,
    time_from_ymdhms_utc};
use crate::error::Error;
use crate::reader::Reader;
use crate::time::Time;
use vstd::prelude::*;

verus! {

/// The constructed bit of a DER tag byte.
pub const CONSTRUCTED: u8 = 0x20;

/// The context-specific class bits of a DER tag byte.
pub const CONTEXT_SPECIFIC: u8 = 0x80;

/// The closed set of DER tags this decoder understands. Each variant has a
/// fixed one-byte wire encoding; the set is exhaustive by design, since only
/// specific certificate fields are decoded.
#[derive(Clone, Copy, Debug, PartialEq, Eq, Structural)]
pub enum Tag {
    Boolean,
    Integer,
    BitString,
    OctetString,
    OID,
    Enum,
    UTF8String,
    Sequence,
    SetOf,
    UTCTime,
    GeneralizedTime,
    ContextSpecificConstructed0,
    ContextSpecificConstructed1,
    ContextSpecificConstructed3,
}

impl Tag {
    /// The one-byte wire encoding of this tag. The constructed variants
    /// compose [`CONSTRUCTED`] (and, for the context-specific ones,
    /// [`CONTEXT_SPECIFIC`]) with the tag number.
    pub open spec fn spec_wire(self) -> u8 {
        match self {
            Tag::Boolean => 0x01,
            Tag::Integer => 0x02,
            Tag::BitString => 0x03,
            Tag::OctetString => 0x04,
            Tag::OID => 0x06,
            Tag::Enum => 0x0a,
            Tag::UTF8String => 0x0c,
            Tag::Sequence => 0x30,  // CONSTRUCTED | 0x10
            Tag::SetOf => 0x31,  // CONSTRUCTED | 0x11
            Tag::UTCTime => 0x17,
            Tag::GeneralizedTime => 0x18,
            Tag::ContextSpecificConstructed0 => 0xa0,  // CONTEXT_SPECIFIC | CONSTRUCTED | 0
            Tag::ContextSpecificConstructed1 => 0xa1,  // CONTEXT_SPECIFIC | CONSTRUCTED | 1
            Tag::ContextSpecificConstructed3 => 0xa3,  // CONTEXT_SPECIFIC | CONSTRUCTED | 3
        }
    }

    /// Executable twin of [`Tag::spec_wire`].
    pub fn wire(self) -> (b: u8)
        ensures
            b == self.spec_wire(),
    {
        match self {
            Tag::Boolean => 0x01,
            Tag::Integer => 0x02,
            Tag::BitString => 0x03,
            Tag::OctetString => 0x04,
            Tag::OID => 0x06,
            Tag::Enum => 0x0a,
            Tag::UTF8String => 0x0c,
            Tag::Sequence => 0x30,
            Tag::SetOf => 0x31,
            Tag::UTCTime => 0x17,
            Tag::GeneralizedTime => 0x18,
            Tag::ContextSpecificConstructed0 => 0xa0,
            Tag::ContextSpecificConstructed1 => 0xa1,
            Tag::ContextSpecificConstructed3 => 0xa3,
        }
    }
}

impl From<Tag> for u8 {
    fn from(tag: Tag) -> (b: u8) {
        tag.wire()
    }
}

impl vstd::std_specs::convert::FromSpecImpl<Tag> for u8 {
    open spec fn obeys_from_spec() -> bool {
        true
    }

    open spec fn from_spec(tag: Tag) -> u8 {
        tag.spec_wire()
    }
}

/// An opaque wrapper around the borrowed bytes that form one TLV's value,
/// not including its tag and length header. The bytes are always a
/// contiguous sub-range of the original input, never synthesized.
pub struct Value<'a> {
    value: &'a [u8],
}

impl<'a> View for Value<'a> {
    type V = Seq<u8>;

    closed spec fn view(&self) -> Seq<u8> {
        self.value@
    }
}

impl<'a> Value<'a> {
    /// The wrapped value bytes.
    pub fn value(&self) -> (res: &'a [u8])
        ensures
            res@ == self@,
    {
        self.value
    }
}

/// A DER length field at the front of `s`, canonical form only:
/// `Some((length, octets))` gives the decoded length and how many bytes the
/// length field itself occupies. `None` rejects everything else, in
/// particular every non-minimal encoding: lengths up to 127 must use the
/// short form, a one-byte long form must encode 128..=255, a two-byte long
/// form must encode at least 256, and longer or indefinite forms are never
/// accepted.
pub open spec fn spec_parse_length(s: Seq<u8>) -> Option<(int, int)> {
    if s.len() < 1 {
        None
    } else if s[0] < 0x80 {
        Some((s[0] as int, 1))
    } else if s[0] == 0x81 {
        if s.len() < 2 {
            None
        } else if s[1] < 0x80 {
            None
        } else {
            Some((s[1] as int, 2))
        }
    } else if s[0] == 0x82 {
        if s.len() < 3 {
            None
        } else {
            let combined = 0x100 * (s[1] as int) + (s[2] as int);
            if combined <= 0xff {
                None
            } else {
                Some((combined, 3))
            }
        }
    } else {
        None
    }
}

/// One TLV at the front of `s`: `Some((tag, value, consumed))` gives the tag
/// byte, the value bytes, and the total number of bytes consumed (header plus
/// value). `None` rejects a high-tag-number tag, a non-canonical length, and
/// an input holding fewer value bytes than the length declares.
pub open spec fn spec_parse_tlv(s: Seq<u8>) -> Option<(u8, Seq<u8>, int)> {
    if s.len() < 1 {
        None
    } else if s[0] & 0x1f == 0x1f {
        None
    } else {
        match spec_parse_length(s.skip(1)) {
            Option::None => None,
            Option::Some((length, length_octets)) => {
                let consumed = 1 + length_octets + length;
                if s.len() < consumed {
                    None
                } else {
                    Some((s[0], s.subrange(1 + length_octets, consumed), consumed))
                }
            },
        }
    }
}

/// Every accepted length encoding is the canonical one: values up to 127
/// decode only from the one-byte short form, a two-byte encoding only ever
/// yields 128..=255, and a three-byte encoding only ever yields 256 and up.
pub proof fn lemma_length_canonical(s: Seq<u8>)
    ensures
        spec_parse_length(s) matches Some((length, octets)) ==> {
            &&& 0 <= length
            &&& 1 <= octets <= 3
            &&& length <= 0x7f ==> octets == 1
            &&& octets == 2 ==> 0x80 <= length <= 0xff
            &&& octets == 3 ==> 0x100 <= length <= 0xffff
        },
{
}

/// Every successfully read TLV consumes exactly its header plus the declared
/// length, no more and no less, and a TLV is read at all only when that many
/// bytes are present.
pub proof fn lemma_tlv_consumes_declared_length(s: Seq<u8>)
    ensures
        spec_parse_tlv(s) matches Some((tag, value, consumed)) ==> {
            &&& spec_parse_length(s.skip(1)) matches Some((length, octets)) && value.len()
                == length && consumed == 1 + octets + length
            &&& consumed <= s.len()
            &&& value == s.subrange(consumed - value.len(), consumed)
        },
{
    if s.len() >= 1 {
        lemma_length_canonical(s.skip(1));
    }
}

/// Reads one TLV: one tag byte, then a canonically-encoded length, then
/// exactly that many value bytes, which are returned with the raw tag byte.
/// Fails with [`Error::BadDer`] exactly when [`spec_parse_tlv`] rejects the
/// remaining input: on a high-tag-number tag, a non-canonical or oversized
/// length encoding, or a read that would run past the end of input.
pub fn read_tag_and_get_value_limited<'a>(input: &mut Reader<'a>) -> (res: Result<
    (u8, &'a [u8]),
    Error,
>)
    ensures
        ({
            let s = old(input).remaining();
            match spec_parse_tlv(s) {
                Option::None => res matches Err(e) && e == Error::BadDer,
                Option::Some((tag, value, consumed)) => res matches Ok(out) && out.0 == tag
                    && out.1@ == value && final(input).remaining() == s.skip(consumed),
            }
        }),
{
    let ghost s = input.remaining();
    let tag = match input.read_byte() {
        Ok(b) => b,
        Err(_) => { return Err(Error::BadDer) },
    };
    if tag & 0x1f == 0x1f {
        // High tag number form is not allowed.
        return Err(Error::BadDer);
    }
    let ghost after_tag = input.remaining();
    proof {
        assert(after_tag =~= s.skip(1));
    }
    let first = match input.read_byte() {
        Ok(b) => b,
        Err(_) => { return Err(Error::BadDer) },
    };
    let length: usize = if first < 0x80 {
        first as usize
    } else if first == 0x81 {
        proof {
            assert(after_tag.skip(1) =~= s.skip(2));
        }
        let second = match input.read_byte() {
            Ok(b) => b,
            Err(_) => { return Err(Error::BadDer) },
        };
        if second < 0x80 {
            // Not the canonical encoding: short form was required.
            return Err(Error::BadDer);
        }
        second as usize
    } else if first == 0x82 {
        proof {
            assert(after_tag.skip(1) =~= s.skip(2));
        }
        let second = match input.read_byte() {
            Ok(b) => b,
            Err(_) => { return Err(Error::BadDer) },
        };
        proof {
            assert(s.skip(2).skip(1) =~= s.skip(3));
        }
        let third = match input.read_byte() {
            Ok(b) => b,
            Err(_) => { return Err(Error::BadDer) },
        };
        let combined: usize = (second as usize) * 0x100 + (third as usize);
        if combined <= 0xff {
            // Not the canonical encoding: one length byte was enough.
            return Err(Error::BadDer);
        }
        combined
    } else {
        // Indefinite lengths and lengths of three or more bytes are rejected.
        return Err(Error::BadDer);
    };
    let ghost header_len: int = if first < 0x80 {
        2
    } else if first == 0x81 {
        3
    } else {
        4
    };
    proof {
        assert(input.remaining() =~= s.skip(header_len));
        assert(spec_parse_length(s.skip(1)) == Some((length as int, header_len - 1)));
    }
    let value = match input.read_bytes(length) {
        Ok(v) => v,
        Err(_) => { return Err(Error::BadDer) },
    };
    proof {
        let consumed = header_len + length;
        assert(value@ =~= s.subrange(header_len, consumed));
        assert(input.remaining() =~= s.skip(consumed));
    }
    Ok((tag, value))
}

/// Reads one TLV, as [`read_tag_and_get_value_limited`] does.
#[inline(always)]
pub fn read_tag_and_get_value<'a>(input: &mut Reader<'a>) -> (res: Result<(u8, &'a [u8]), Error>)
    ensures
        ({
            let s = old(input).remaining();
            match spec_parse_tlv(s) {
                Option::None => res matches Err(e) && e == Error::BadDer,
                Option::Some((tag, value, consumed)) => res matches Ok(out) && out.0 == tag
                    && out.1@ == value && final(input).remaining() == s.skip(consumed),
            }
        }),
{
    read_tag_and_get_value_limited(input)
}

/// Reads one TLV and checks its tag byte against `tag`. Succeeds with the
/// value bytes exactly when the TLV is well-formed and the tag matches;
/// everything else fails with [`Error::BadDer`].
#[inline(always)]
pub fn expect_tag_and_get_value<'a>(input: &mut Reader<'a>, tag: Tag) -> (res: Result<
    &'a [u8],
    Error,
>)
    ensures
        ({
            let s = old(input).remaining();
            match spec_parse_tlv(s) {
                Option::None => res matches Err(e) && e == Error::BadDer,
                Option::Some((actual, value, consumed)) => if actual != tag.spec_wire() {
                    res matches Err(e) && e == Error::BadDer
                } else {
                    res matches Ok(out) && out@ == value && final(input).remaining() == s.skip(
                        consumed,
                    )
                },
            }
        }),
{
    let (actual_tag, inner) = match read_tag_and_get_value(input) {
        Ok(p) => p,
        Err(e) => { return Err(e) },
    };
    if u8::from(tag) != actual_tag {
        return Err(Error::BadDer);
    }
    Ok(inner)
}

/// Reads one TLV and checks its tag, as [`expect_tag_and_get_value`] does,
/// wrapping the value bytes in a [`Value`].
pub fn expect_tag<'a>(input: &mut Reader<'a>, tag: Tag) -> (res: Result<Value<'a>, Error>)
    ensures
        ({
            let s = old(input).remaining();
            match spec_parse_tlv(s) {
                Option::None => res matches Err(e) && e == Error::BadDer,
                Option::Some((actual, value, consumed)) => if actual != tag.spec_wire() {
                    res matches Err(e) && e == Error::BadDer
                } else {
                    res matches Ok(out) && out@ == value && final(input).remaining() == s.skip(
                        consumed,
                    )
                },
            }
        }),
{
    let (actual_tag, value) = match read_tag_and_get_value(input) {
        Ok(p) => p,
        Err(e) => { return Err(e) },
    };
    if u8::from(tag) != actual_tag {
        return Err(Error::BadDer);
    }
    Ok(Value { value })
}

/// Reads one TLV matching `tag` — any failure there, a tag mismatch
/// included, is mapped to the caller-supplied `error` value unchanged — and
/// hands a fresh reader over exactly the value bytes to `decoder`, which
/// returns its result together with that reader. The decoder must consume
/// the value bytes exactly: any leftover byte fails with `error`. A decoder
/// failure is returned as the decoder left it.
pub fn nested<'a, R, E: Copy, F: FnOnce(Reader<'a>) -> Result<(R, Reader<'a>), E>>(
    input: &mut Reader<'a>,
    tag: Tag,
    error: E,
    decoder: F,
) -> (res: Result<R, E>)
    requires
        (match spec_parse_tlv(old(input).remaining()) {
            Option::Some(t) => t.0 == tag.spec_wire() ==> (forall|r: Reader<'a>|
                r.remaining() == t.1 ==> #[trigger] call_requires(decoder, (r,))),
            Option::None => true,
        }),
    ensures
        ({
            let s = old(input).remaining();
            match spec_parse_tlv(s) {
                Option::None => res == Err::<R, E>(error),
                Option::Some((t, v, n)) => if t != tag.spec_wire() {
                    res == Err::<R, E>(error)
                } else {
                    final(input).remaining() == s.skip(n) && exists|
                        inner: Reader<'a>,
                        out: Result<(R, Reader<'a>), E>,
                    |
                        {
                            &&& inner.remaining() == v
                            &&& #[trigger] call_ensures(decoder, (inner,), out)
                            &&& (match out {
                                Result::Err(e) => res == Err::<R, E>(e),
                                Result::Ok((r, rest)) => if rest.remaining().len() == 0 {
                                    res == Ok::<R, E>(r)
                                } else {
                                    res == Err::<R, E>(error)
                                },
                            })
                        }
                },
            }
        }),
{
    let v = match expect_tag_and_get_value(input, tag) {
        Ok(v) => v,
        Err(_) => { return Err(error) },
    };
    let inner = Reader::new(v);
    let out = decoder(inner);
    match out {
        Err(e) => Err(e),
        Ok((decoded, rest)) => {
            if rest.at_end() {
                Ok(decoded)
            } else {
                Err(error)
            }
        },
    }
}

/// The value bytes of the inner TLVs of `s`: `Some(values)` exactly when `s`
/// is a concatenation of one or more TLVs, each tagged `tag`, with nothing
/// before, between or after them; `values` lists their value bytes in
/// encoded order. An empty `s` yields `None`: at least one inner TLV is
/// required.
pub open spec fn spec_inner_values(s: Seq<u8>, tag: u8) -> Option<Seq<Seq<u8>>>
    decreases s.len(),
{
    match spec_parse_tlv(s) {
        Option::None => None,
        Option::Some((t, v, n)) => {
            if t != tag {
                None
            } else if s.len() == n {
                Some(seq![v])
            } else {
                match spec_inner_values(s.skip(n), tag) {
                    Option::None => None,
                    Option::Some(rest) => Some(seq![v] + rest),
                }
            }
        },
    }
}

/// A sequence of inner TLVs is never empty: at least one is required.
pub proof fn lemma_inner_values_nonempty(s: Seq<u8>, tag: u8)
    ensures
        spec_inner_values(s, tag) matches Some(vals) ==> vals.len() >= 1,
{
}

/// Reads one TLV matching `outer_tag` whose value bytes must be a non-empty
/// sequence of TLVs each matching `inner_tag`, and returns their value bytes
/// in encoded order — SEQUENCE OF semantics. An outer value holding zero
/// inner TLVs fails: at least one is required. Every failure — a malformed
/// TLV or a tag mismatch, outer or inner, or leftover bytes between or after
/// the inner TLVs — surfaces the caller-supplied `error` value unchanged.
#[verifier::loop_isolation(false)]
pub fn nested_of_mut<'a, E: Copy>(
    input: &mut Reader<'a>,
    outer_tag: Tag,
    inner_tag: Tag,
    error: E,
) -> (res: Result<Vec<Value<'a>>, E>)
    ensures
        ({
            let s = old(input).remaining();
            match spec_parse_tlv(s) {
                Option::None => res matches Err(e) && e == error,
                Option::Some((t, v, n)) => if t != outer_tag.spec_wire() {
                    res matches Err(e) && e == error
                } else {
                    match spec_inner_values(v, inner_tag.spec_wire()) {
                        Option::None => res matches Err(e) && e == error,
                        Option::Some(vals) => res matches Ok(out) && out@.len() == vals.len() && (
                        forall|i: int| 0 <= i < vals.len() ==> (#[trigger] out@[i])@ == vals[i])
                            && final(input).remaining() == s.skip(n),
                    }
                },
            }
        }),
{
    let v = match expect_tag_and_get_value(input, outer_tag) {
        Ok(v) => v,
        Err(_) => { return Err(error) },
    };
    let ghost tag_spec = inner_tag.spec_wire();
    let ghost whole = spec_inner_values(v@, tag_spec);
    let mut outer = Reader::new(v);
    let mut out: Vec<Value<'a>> = Vec::new();
    let mut done = false;
    proof {
        assert(v@.skip(0) =~= v@);
    }
    while !done
        invariant
            !done ==> (match whole {
                Option::None => spec_inner_values(outer.remaining(), tag_spec) is None,
                Option::Some(vals) => {
                    &&& out@.len() < vals.len()
                    &&& spec_inner_values(outer.remaining(), tag_spec) == Some(
                        vals.skip(out@.len() as int),
                    )
                    &&& forall|i: int| 0 <= i < out@.len() ==> (#[trigger] out@[i])@ == vals[i]
                },
            }),
            done ==> (match whole {
                Option::None => false,
                Option::Some(vals) => out@.len() == vals.len() && (forall|i: int|
                    0 <= i < out@.len() ==> (#[trigger] out@[i])@ == vals[i])
                    && outer.remaining().len() == 0,
            }),
            whole == spec_inner_values(v@, tag_spec),
            tag_spec == inner_tag.spec_wire(),
        decreases outer.remaining().len() + (if done {
            0int
        } else {
            1int
        }),
    {
        let ghost rem = outer.remaining();
        let ghost k = out@.len() as int;
        let inner = match expect_tag_and_get_value(&mut outer, inner_tag) {
            Ok(x) => x,
            Err(_) => {
                proof {
                    if whole is Some {
                        // The suffix still holds at least one inner TLV, so
                        // the read cannot have failed.
                        assert(spec_inner_values(rem, tag_spec) is Some);
                        match spec_parse_tlv(rem) {
                            Option::None => {
                                assert(spec_inner_values(rem, tag_spec) is None);
                            },
                            Option::Some((t, iv, n)) => {
                                if t != tag_spec {
                                    assert(spec_inner_values(rem, tag_spec) is None);
                                }
                            },
                        }
                        assert(false);
                    }
                }
                return Err(error)
            },
        };
        out.push(Value { value: inner });
        proof {
            let (t, iv, n) = spec_parse_tlv(rem)->Some_0;
            if whole is Some {
                let vals = whole->Some_0;
                assert(spec_inner_values(rem, tag_spec) == Some(vals.skip(k)));
                if rem.len() == n {
                    assert(vals.skip(k) =~= seq![iv]);
                    assert(vals[k] == vals.skip(k)[0]);
                    assert(vals[k] == iv);
                } else {
                    let rest = spec_inner_values(rem.skip(n), tag_spec)->Some_0;
                    lemma_inner_values_nonempty(rem.skip(n), tag_spec);
                    assert(vals.skip(k) == seq![iv] + rest);
                    assert(vals.skip(k).len() == 1 + rest.len());
                    assert(vals[k] == vals.skip(k)[0]);
                    assert(vals[k] == iv);
                    assert forall|i: int| 0 <= i < rest.len() implies vals.skip(k + 1)[i]
                        == rest[i] by {
                        assert(rest[i] == (seq![iv] + rest)[i + 1]);
                        assert(vals.skip(k)[i + 1] == vals[k + i + 1]);
                        assert(vals.skip(k + 1)[i] == vals[k + 1 + i]);
                    }
                    assert(vals.skip(k + 1) =~= rest);
                }
            } else {
                assert(spec_inner_values(rem, tag_spec) is None);
            }
        }
        if outer.at_end() {
            done = true;
        }
    }
    Ok(out)
}

/// Reads an optional BOOLEAN. When the next tag is not BOOLEAN (or the input
/// is empty), returns `false` without consuming anything, per DER's
/// default-value-omitted convention. Otherwise the BOOLEAN's single value
/// byte must be exactly 0x00 (false) or 0xff (true); anything else fails.
/// Strict DER forbids explicitly encoding the default value false, but this
/// decoder deliberately accepts it for compatibility with real-world
/// non-conformant certificates — the only relaxation in the decoder.
pub fn optional_boolean<'a>(input: &mut Reader<'a>) -> (res: Result<bool, Error>)
    ensures
        ({
            let s = old(input).remaining();
            if !(s.len() > 0 && s[0] == Tag::Boolean.spec_wire()) {
                res == Ok::<bool, Error>(false) && final(input).remaining() == s
            } else {
                match spec_parse_tlv(s) {
                    Option::None => res matches Err(e) && e == Error::BadDer,
                    Option::Some((tag, value, consumed)) => if value.len() == 1 && value[0]
                        == 0xff {
                        res == Ok::<bool, Error>(true) && final(input).remaining() == s.skip(
                            consumed,
                        )
                    } else if value.len() == 1 && value[0] == 0x00 {
                        res == Ok::<bool, Error>(false) && final(input).remaining() == s.skip(
                            consumed,
                        )
                    } else {
                        res matches Err(e) && e == Error::BadDer
                    },
                }
            }
        }),
{
    if !input.peek(u8::from(Tag::Boolean)) {
        return Ok(false);
    }
    let v = match expect_tag_and_get_value(input, Tag::Boolean) {
        Ok(v) => v,
        Err(e) => { return Err(e) },
    };
    let mut value = Reader::new(v);
    let byte = match value.read_byte() {
        Ok(b) => b,
        Err(_) => { return Err(Error::BadDer) },
    };
    let decoded = if byte == 0xff {
        true
    } else if byte == 0x00 {
        false
    } else {
        return Err(Error::BadDer);
    };
    if !value.at_end() {
        return Err(Error::BadDer);
    }
    Ok(decoded)
}

/// Reads a BIT STRING whose "unused bits" count (the first value byte) is
/// exactly zero, and returns the remaining value bytes as the borrowed
/// payload. Only bit strings whose bit length is a multiple of 8 are
/// supported; a nonzero count, a missing count byte, a tag other than BIT
/// STRING, or a malformed TLV fails with [`Error::BadDer`].
pub fn bit_string_with_no_unused_bits<'a>(input: &mut Reader<'a>) -> (res: Result<&'a [u8], Error>)
    ensures
        ({
            let s = old(input).remaining();
            match spec_parse_tlv(s) {
                Option::None => res matches Err(e) && e == Error::BadDer,
                Option::Some((tag, value, consumed)) => if tag != Tag::BitString.spec_wire() {
                    res matches Err(e) && e == Error::BadDer
                } else if value.len() == 0 || value[0] != 0x00 {
                    res matches Err(e) && e == Error::BadDer
                } else {
                    res matches Ok(payload) && payload@ == value.skip(1)
                        && final(input).remaining() == s.skip(consumed)
                },
            }
        }),
{
    let v = match expect_tag_and_get_value(input, Tag::BitString) {
        Ok(v) => v,
        Err(e) => { return Err(e) },
    };
    let mut value = Reader::new(v);
    let unused_bits_at_end = match value.read_byte() {
        Ok(b) => b,
        Err(_) => { return Err(Error::BadDer) },
    };
    if unused_bits_at_end != 0 {
        return Err(Error::BadDer);
    }
    Ok(value.read_bytes_to_end())
}

/// Reads an INTEGER constrained to values representable as a single
/// non-negative byte: either one value byte with the sign bit clear, or —
/// for values 128..=255, which DER pads to avoid a sign-bit
/// misinterpretation — a zero byte followed by one value byte with the sign
/// bit set. Everything else (an empty value, a negative value, a
/// non-minimal leading zero, a longer value) fails with [`Error::BadDer`].
pub fn small_nonnegative_integer<'a>(input: &mut Reader<'a>) -> (res: Result<u8, Error>)
    ensures
        ({
            let s = old(input).remaining();
            match spec_parse_tlv(s) {
                Option::None => res matches Err(e) && e == Error::BadDer,
                Option::Some((tag, value, consumed)) => if tag != Tag::Integer.spec_wire() {
                    res matches Err(e) && e == Error::BadDer
                } else if value.len() == 1 && value[0] < 0x80 {
                    res == Ok::<u8, Error>(value[0]) && final(input).remaining() == s.skip(consumed)
                } else if value.len() == 2 && value[0] == 0x00 && value[1] >= 0x80 {
                    res == Ok::<u8, Error>(value[1]) && final(input).remaining() == s.skip(consumed)
                } else {
                    res matches Err(e) && e == Error::BadDer
                },
            }
        }),
{
    let v = match expect_tag_and_get_value(input, Tag::Integer) {
        Ok(v) => v,
        Err(e) => { return Err(e) },
    };
    let mut value = Reader::new(v);
    let first_byte = match value.read_byte() {
        Ok(b) => b,
        Err(_) => { return Err(Error::BadDer) },
    };
    if first_byte == 0x00 {
        if value.at_end() {
            // The single zero byte is the legal encoding of zero.
            return Ok(0);
        }
        let second_byte = match value.read_byte() {
            Ok(b) => b,
            Err(_) => { return Err(Error::BadDer) },
        };
        if second_byte < 0x80 {
            // A leading zero is only allowed when the value's high bit is set.
            return Err(Error::BadDer);
        }
        if !value.at_end() {
            return Err(Error::BadDer);
        }
        return Ok(second_byte);
    }
    if first_byte >= 0x80 {
        // Negative values are not allowed.
        return Err(Error::BadDer);
    }
    if !value.at_end() {
        return Err(Error::BadDer);
    }
    Ok(first_byte)
}


/// An ASCII decimal digit.
pub open spec fn spec_is_digit(b: u8) -> bool {
    0x30 <= b <= 0x39
}

/// The numeric value of an ASCII decimal digit.
pub open spec fn spec_digit(b: u8) -> int {
    b - 0x30
}

/// The two ASCII digits of `s` at `off`, read as one number, when both bytes
/// are present and are digits and the number lies in `min..=max`.
pub open spec fn spec_two_digits(s: Seq<u8>, off: int, min: int, max: int) -> Option<int> {
    if s.len() >= off + 2 && spec_is_digit(s[off]) && spec_is_digit(s[off + 1]) {
        let val = 10 * spec_digit(s[off]) + spec_digit(s[off + 1]);
        if min <= val <= max {
            Some(val)
        } else {
            None
        }
    } else {
        None
    }
}

/// Reading two digits from the front of a suffix is reading them at the
/// suffix's offset in the whole.
proof fn lemma_two_digits_shift(s: Seq<u8>, off: int, min: int, max: int)
    requires
        0 <= off <= s.len(),
    ensures
        spec_two_digits(s.skip(off), 0, min, max) == spec_two_digits(s, off, min, max),
{
    if s.len() >= off + 2 {
        assert(s.skip(off)[0] == s[off]);
        assert(s.skip(off)[1] == s[off + 1]);
    }
}

/// The fields of a timestamp value body: year (two digits windowed at 50 for
/// UTCTime, four digits for GeneralizedTime), then month, day-of-month
/// (leap-year-aware), hour, minute and second as range-checked digit pairs,
/// then the mandatory trailing 'Z'. `None` rejects any non-digit byte, any
/// out-of-range field, and a missing 'Z'; bytes after the 'Z' are not this
/// function's concern.
pub open spec fn spec_time_fields(v: Seq<u8>, utc: bool) -> Option<(int, int, int, int, int, int)> {
    let off: int = if utc {
        2
    } else {
        4
    };
    let year_opt: Option<int> = if utc {
        match spec_two_digits(v, 0, 0, 99) {
            Option::Some(lo) => Some(
                if lo >= 50 {
                    1900 + lo
                } else {
                    2000 + lo
                },
            ),
            Option::None => None,
        }
    } else {
        match spec_two_digits(v, 0, 0, 99) {
            Option::Some(hi) => match spec_two_digits(v, 2, 0, 99) {
                Option::Some(lo) => Some(100 * hi + lo),
                Option::None => None,
            },
            Option::None => None,
        }
    };
    match year_opt {
        Option::None => None,
        Option::Some(year) => match spec_two_digits(v, off, 1, 12) {
            Option::None => None,
            Option::Some(month) => match spec_two_digits(v, off + 2, 1, spec_days_in_month(year, month)) {
                Option::None => None,
                Option::Some(day) => match spec_two_digits(v, off + 4, 0, 23) {
                    Option::None => None,
                    Option::Some(hour) => match spec_two_digits(v, off + 6, 0, 59) {
                        Option::None => None,
                        Option::Some(minute) => match spec_two_digits(v, off + 8, 0, 59) {
                            Option::None => None,
                            Option::Some(second) => if v.len() >= off + 11 && v[off + 10] == 0x5a {
                                Some((year, month, day, hour, minute, second))
                            } else {
                                None
                            },
                        },
                    },
                },
            },
        },
    }
}

/// The UTCTime two-digit year is windowed at 50: digit values 50..=99 land
/// in 19xx and digit values 0..=49 in 20xx, so every UTCTime year lies in
/// 1950..=2049.
pub proof fn lemma_utc_century_window(v: Seq<u8>)
    ensures
        spec_time_fields(v, true) matches Some(t) ==> {
            &&& spec_two_digits(v, 0, 0, 99) matches Some(lo) && t.0 == (if lo >= 50 {
                1900 + lo
            } else {
                2000 + lo
            })
            &&& 1950 <= t.0 <= 2049
        },
{
}

/// Reads one ASCII decimal digit byte and returns its numeric value; any
/// other byte, or end of input, fails with [`Error::BadDerTime`].
fn read_digit(inner: &mut Reader<'_>) -> (res: Result<u64, Error>)
    ensures
        ({
            let s = old(inner).remaining();
            if s.len() > 0 && spec_is_digit(s[0]) {
                res == Ok::<u64, Error>(spec_digit(s[0]) as u64) && final(inner).remaining()
                    == s.skip(1)
            } else {
                res matches Err(e) && e == Error::BadDerTime
            }
        }),
{
    let b = match inner.read_byte() {
        Ok(b) => b,
        Err(_) => { return Err(Error::BadDerTime) },
    };
    if 0x30 <= b && b <= 0x39 {
        Ok((b - 0x30) as u64)
    } else {
        Err(Error::BadDerTime)
    }
}

/// Reads two ASCII decimal digits as one number and checks it against the
/// inclusive range `min..=max`; a non-digit byte, a truncated input, or an
/// out-of-range number fails with [`Error::BadDerTime`].
fn read_two_digits(inner: &mut Reader<'_>, min: u64, max: u64) -> (res: Result<u64, Error>)
    ensures
        ({
            let s = old(inner).remaining();
            match spec_two_digits(s, 0, min as int, max as int) {
                Option::Some(val) => res == Ok::<u64, Error>(val as u64)
                    && final(inner).remaining() == s.skip(2),
                Option::None => res matches Err(e) && e == Error::BadDerTime,
            }
        }),
{
    let ghost s = inner.remaining();
    let hi = match read_digit(inner) {
        Ok(d) => d,
        Err(e) => { return Err(e) },
    };
    proof {
        if s.len() >= 2 {
            assert(s.skip(1)[0] == s[1]);
            assert(s.skip(1).skip(1) =~= s.skip(2));
        }
    }
    let lo = match read_digit(inner) {
        Ok(d) => d,
        Err(e) => { return Err(e) },
    };
    let value = hi * 10 + lo;
    if value < min || value > max {
        return Err(Error::BadDerTime);
    }
    Ok(value)
}

/// Reads a UTCTime or GeneralizedTime TLV — the peeked tag decides which is
/// expected, and so the width of the year field — and converts the fully
/// validated timestamp into a [`Time`]. Grammar and range violations inside
/// the value fail with [`Error::BadDerTime`], as does an instant outside the
/// calendar's supported range; a malformed or mismatched TLV and bytes left
/// over after the trailing 'Z' fail with [`Error::BadDer`].
#[verifier::rlimit(60)]
pub fn time_choice<'a>(input: &mut Reader<'a>) -> (res: Result<Time, Error>)
    ensures
        ({
            let s = old(input).remaining();
            let utc = s.len() > 0 && s[0] == Tag::UTCTime.spec_wire();
            let expected: u8 = if utc {
                Tag::UTCTime.spec_wire()
            } else {
                Tag::GeneralizedTime.spec_wire()
            };
            match spec_parse_tlv(s) {
                Option::None => res matches Err(e) && e == Error::BadDer,
                Option::Some((tag, v, consumed)) => if tag != expected {
                    res matches Err(e) && e == Error::BadDer
                } else {
                    match spec_time_fields(v, utc) {
                        Option::None => res matches Err(e) && e == Error::BadDerTime,
                        Option::Some((year, month, day, hour, minute, second)) => if year < 1970 {
                            res matches Err(e) && e == Error::BadDerTime
                        } else if v.len() != (if utc {
                            13int
                        } else {
                            15int
                        }) {
                            res matches Err(e) && e == Error::BadDer
                        } else {
                            res matches Ok(t) && t@ == spec_seconds_from_ymdhms_utc(
                                year,
                                month,
                                day,
                                hour,
                                minute,
                                second,
                            ) && final(input).remaining() == s.skip(consumed)
                        },
                    }
                },
            }
        }),
{
    let ghost s = input.remaining();
    let is_utc_time = input.peek(u8::from(Tag::UTCTime));
    let expected_tag = if is_utc_time {
        Tag::UTCTime
    } else {
        Tag::GeneralizedTime
    };
    let v = match expect_tag_and_get_value(input, expected_tag) {
        Ok(v) => v,
        Err(e) => { return Err(e) },
    };
    let mut value = Reader::new(v);
    let (year_hi, year_lo) = if is_utc_time {
        let lo = match read_two_digits(&mut value, 0, 99) {
            Ok(d) => d,
            Err(e) => { return Err(e) },
        };
        let hi: u64 = if lo >= 50 {
            19
        } else {
            20
        };
        (hi, lo)
    } else {
        let hi = match read_two_digits(&mut value, 0, 99) {
            Ok(d) => d,
            Err(e) => { return Err(e) },
        };
        proof {
            lemma_two_digits_shift(v@, 2, 0, 99);
        }
        let lo = match read_two_digits(&mut value, 0, 99) {
            Ok(d) => d,
            Err(e) => { return Err(e) },
        };
        (hi, lo)
    };
    let year = year_hi * 100 + year_lo;
    let ghost off: int = if is_utc_time {
        2
    } else {
        4
    };
    proof {
        lemma_two_digits_shift(v@, off, 1, 12);
    }
    let month = match read_two_digits(&mut value, 1, 12) {
        Ok(d) => d,
        Err(e) => { return Err(e) },
    };
    let days = days_in_month(year, month);
    proof {
        lemma_two_digits_shift(v@, off + 2, 1, days as int);
    }
    let day_of_month = match read_two_digits(&mut value, 1, days) {
        Ok(d) => d,
        Err(e) => { return Err(e) },
    };
    proof {
        lemma_two_digits_shift(v@, off + 4, 0, 23);
    }
    let hours = match read_two_digits(&mut value, 0, 23) {
        Ok(d) => d,
        Err(e) => { return Err(e) },
    };
    proof {
        lemma_two_digits_shift(v@, off + 6, 0, 59);
    }
    let minutes = match read_two_digits(&mut value, 0, 59) {
        Ok(d) => d,
        Err(e) => { return Err(e) },
    };
    proof {
        lemma_two_digits_shift(v@, off + 8, 0, 59);
    }
    let seconds = match read_two_digits(&mut value, 0, 59) {
        Ok(d) => d,
        Err(e) => { return Err(e) },
    };
    proof {
        assert(value.remaining() == v@.skip(off + 10));
        if v@.len() > off + 10 {
            assert(v@.skip(off + 10)[0] == v@[off + 10]);
        }
    }
    let time_zone = match value.read_byte() {
        Ok(b) => b,
        Err(_) => { return Err(Error::BadDerTime) },
    };
    if time_zone != 0x5a {
        // The trailing UTC designator 'Z' is mandatory.
        return Err(Error::BadDerTime);
    }
    let t = match time_from_ymdhms_utc(year, month, day_of_month, hours, minutes, seconds) {
        Ok(t) => t,
        Err(e) => { return Err(e) },
    };
    if !value.at_end() {
        return Err(Error::BadDer);
    }
    Ok(t)
}

} // verus!
