//! A strict, zero-copy decoder for the DER (Distinguished Encoding Rules)
//! subset of ASN.1 needed when parsing X.509 certificate structures.
//!
//! The crate is organised leaf-first: [`reader`] provides a bounds-checked
//! cursor over a borrowed byte buffer, [`der`] reads tag-length-value
//! triples and the typed values built from them, and [`calendar`] validates
//! and converts the timestamps that [`der::time_choice`] produces.
//! Every decoder rejects non-canonical encodings: DER mandates exactly one
//! encoding per value, and accepting alternatives is a security defect.

pub mod calendar;
pub mod der;
pub mod error;
pub mod reader;
pub mod time;
