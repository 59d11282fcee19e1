use der_decoder::der::{
    bit_string_with_no_unused_bits, expect_tag, expect_tag_and_get_value, nested, nested_of_mut,
    optional_boolean, read_tag_and_get_value, read_tag_and_get_value_limited,
    small_nonnegative_integer,
};
use der_decoder::der::Tag;
use der_decoder::der::{CONSTRUCTED, CONTEXT_SPECIFIC};
use der_decoder::error::Error;
use der_decoder::reader::Reader;

fn bytes_reader(bytes: &[u8]) -> Reader {
    Reader::new(bytes)
}

#[test]
fn test_optional_boolean() {
    // Empty input results in false
    assert!(!optional_boolean(&mut bytes_reader(&[])).unwrap());

    // Optional, so another data type results in false
    assert!(!optional_boolean(&mut bytes_reader(&[0x05, 0x00])).unwrap());

    // Only 0x00 and 0xff are accepted values
    assert_eq!(
        Err(Error::BadDer),
        optional_boolean(&mut bytes_reader(&[0x01, 0x01, 0x42]))
    );

    // True
    assert!(optional_boolean(&mut bytes_reader(&[0x01, 0x01, 0xff])).unwrap());

    // False
    assert!(!optional_boolean(&mut bytes_reader(&[0x01, 0x01, 0x00])).unwrap());
}

#[test]
fn test_bit_string_with_no_unused_bits() {
    // Unexpected type
    assert_eq!(
        Err(Error::BadDer),
        bit_string_with_no_unused_bits(&mut bytes_reader(&[0x01, 0x01, 0xff]))
    );

    // Unexpected nonexistent type
    assert_eq!(
        Err(Error::BadDer),
        bit_string_with_no_unused_bits(&mut bytes_reader(&[0x42, 0xff, 0xff]))
    );

    // Unexpected empty input
    assert_eq!(
        Err(Error::BadDer),
        bit_string_with_no_unused_bits(&mut bytes_reader(&[]))
    );

    // Valid input with non-zero unused bits
    assert_eq!(
        Err(Error::BadDer),
        bit_string_with_no_unused_bits(&mut bytes_reader(&[0x03, 0x03, 0x04, 0x12, 0x34]))
    );

    // Valid input
    assert_eq!(
        &[0x12, 0x34],
        bit_string_with_no_unused_bits(&mut bytes_reader(&[0x03, 0x03, 0x00, 0x12, 0x34]))
            .unwrap()
    );
}

#[test]
fn optional_boolean_consumes_nothing_on_other_tag() {
    let input = [0x05u8, 0x00];
    let mut reader = bytes_reader(&input);
    assert_eq!(Ok(false), optional_boolean(&mut reader));
    // The non-BOOLEAN TLV is still there to be read.
    let (tag, value) = read_tag_and_get_value(&mut reader).unwrap();
    assert_eq!(0x05, tag);
    assert!(value.is_empty());
    assert!(reader.at_end());
}

#[test]
fn tlv_consumes_exactly_declared_length() {
    // Two TLVs back to back: each read consumes exactly one of them.
    let input = [0x04u8, 0x01, 0xaa, 0x05, 0x00];
    let mut reader = bytes_reader(&input);
    let (tag, value) = read_tag_and_get_value(&mut reader).unwrap();
    assert_eq!(0x04, tag);
    assert_eq!(&[0xaa], value);
    let (tag, value) = read_tag_and_get_value(&mut reader).unwrap();
    assert_eq!(0x05, tag);
    assert!(value.is_empty());
    assert!(reader.at_end());
}

#[test]
fn tlv_missing_value_bytes_fails() {
    // Declared length 3, only 2 value bytes present.
    assert_eq!(
        Err(Error::BadDer),
        read_tag_and_get_value(&mut bytes_reader(&[0x04, 0x03, 0x01, 0x02]))
    );
}

#[test]
fn tlv_high_tag_number_form_fails() {
    assert_eq!(
        Err(Error::BadDer),
        read_tag_and_get_value_limited(&mut bytes_reader(&[0x1f, 0x01, 0xaa]))
    );
}

#[test]
fn length_short_form_decodes() {
    let mut input = vec![0x04u8, 0x7f];
    input.extend(core::iter::repeat(0xabu8).take(127));
    let mut reader = bytes_reader(&input);
    let (_, value) = read_tag_and_get_value_limited(&mut reader).unwrap();
    assert_eq!(127, value.len());
    assert!(reader.at_end());
}

#[test]
fn length_long_form_one_byte_below_128_fails() {
    let mut input = vec![0x04u8, 0x81, 0x7f];
    input.extend(core::iter::repeat(0xabu8).take(127));
    assert_eq!(
        Err(Error::BadDer),
        read_tag_and_get_value_limited(&mut bytes_reader(&input))
    );
}

#[test]
fn length_long_form_one_byte_at_128_decodes() {
    let mut input = vec![0x04u8, 0x81, 0x80];
    input.extend(core::iter::repeat(0xabu8).take(128));
    let mut reader = bytes_reader(&input);
    let (_, value) = read_tag_and_get_value_limited(&mut reader).unwrap();
    assert_eq!(128, value.len());
    assert!(reader.at_end());
}

#[test]
fn length_long_form_two_bytes_at_most_255_fails() {
    let mut input = vec![0x04u8, 0x82, 0x00, 0xff];
    input.extend(core::iter::repeat(0xabu8).take(255));
    assert_eq!(
        Err(Error::BadDer),
        read_tag_and_get_value_limited(&mut bytes_reader(&input))
    );
}

#[test]
fn length_long_form_two_bytes_at_256_decodes() {
    let mut input = vec![0x04u8, 0x82, 0x01, 0x00];
    input.extend(core::iter::repeat(0xabu8).take(256));
    let mut reader = bytes_reader(&input);
    let (_, value) = read_tag_and_get_value_limited(&mut reader).unwrap();
    assert_eq!(256, value.len());
    assert!(reader.at_end());
}

#[test]
fn length_indefinite_and_longer_forms_fail() {
    assert_eq!(
        Err(Error::BadDer),
        read_tag_and_get_value_limited(&mut bytes_reader(&[0x04, 0x80, 0x00]))
    );
    assert_eq!(
        Err(Error::BadDer),
        read_tag_and_get_value_limited(&mut bytes_reader(&[0x04, 0x83, 0x01, 0x00, 0x00]))
    );
}

#[test]
fn expect_tag_mismatch_is_bad_der() {
    assert_eq!(
        Err(Error::BadDer),
        expect_tag_and_get_value(&mut bytes_reader(&[0x05, 0x00]), Tag::Boolean)
    );
    assert!(expect_tag(&mut bytes_reader(&[0x05, 0x00]), Tag::Boolean).is_err());
}

#[test]
fn expect_tag_returns_value_bytes() {
    let input = [0x04u8, 0x02, 0xde, 0xad];
    let value = expect_tag(&mut bytes_reader(&input), Tag::OctetString).unwrap();
    assert_eq!(&[0xde, 0xad], value.value());
}

#[test]
fn nested_decodes_inner_value_exactly() {
    let input = [0x30u8, 0x03, 0x02, 0x01, 0x05];
    let mut reader = bytes_reader(&input);
    let got = nested(&mut reader, Tag::Sequence, 42u32, |mut inner: Reader| {
        match small_nonnegative_integer(&mut inner) {
            Ok(v) => Ok((v, inner)),
            Err(_) => Err(99u32),
        }
    });
    assert_eq!(Ok(5u8), got);
    assert!(reader.at_end());
}

#[test]
fn nested_tag_mismatch_surfaces_caller_error() {
    let input = [0x31u8, 0x03, 0x02, 0x01, 0x05];
    let got = nested(
        &mut bytes_reader(&input),
        Tag::Sequence,
        42u32,
        |inner: Reader| Ok((0u8, inner)),
    );
    assert_eq!(Err(42u32), got);
}

#[test]
fn nested_leftover_bytes_surface_caller_error() {
    let input = [0x30u8, 0x04, 0x02, 0x01, 0x05, 0x00];
    let got = nested(&mut bytes_reader(&input), Tag::Sequence, 42u32, |mut inner: Reader| {
        match small_nonnegative_integer(&mut inner) {
            Ok(v) => Ok((v, inner)),
            Err(_) => Err(99u32),
        }
    });
    assert_eq!(Err(42u32), got);
}

#[test]
fn nested_decoder_error_passes_through() {
    let input = [0x30u8, 0x01, 0xff];
    let got = nested(
        &mut bytes_reader(&input),
        Tag::Sequence,
        42u32,
        |inner: Reader| -> Result<(u8, Reader), u32> {
            let _ = inner;
            Err(99u32)
        },
    );
    assert_eq!(Err(99u32), got);
}

#[test]
fn nested_of_mut_yields_inner_values_in_order() {
    let input = [0x30u8, 0x06, 0x02, 0x01, 0x01, 0x02, 0x01, 0x02];
    let mut reader = bytes_reader(&input);
    let values = nested_of_mut(&mut reader, Tag::Sequence, Tag::Integer, 7u8).unwrap();
    assert_eq!(2, values.len());
    assert_eq!(&[0x01], values[0].value());
    assert_eq!(&[0x02], values[1].value());
    assert!(reader.at_end());
}

#[test]
fn nested_of_mut_empty_outer_fails() {
    let input = [0x30u8, 0x00];
    assert_eq!(
        Err(7u8),
        nested_of_mut(&mut bytes_reader(&input), Tag::Sequence, Tag::Integer, 7u8)
            .map(|v| v.len())
    );
}

#[test]
fn nested_of_mut_inner_tag_mismatch_surfaces_caller_error() {
    let input = [0x30u8, 0x02, 0x05, 0x00];
    assert_eq!(
        Err(7u8),
        nested_of_mut(&mut bytes_reader(&input), Tag::Sequence, Tag::Integer, 7u8)
            .map(|v| v.len())
    );
}

#[test]
fn nested_of_mut_outer_tag_mismatch_surfaces_caller_error() {
    let input = [0x31u8, 0x03, 0x02, 0x01, 0x01];
    assert_eq!(
        Err(7u8),
        nested_of_mut(&mut bytes_reader(&input), Tag::Sequence, Tag::Integer, 7u8)
            .map(|v| v.len())
    );
}

#[test]
fn small_integer_accepts_single_byte_values() {
    assert_eq!(
        Ok(0),
        small_nonnegative_integer(&mut bytes_reader(&[0x02, 0x01, 0x00]))
    );
    assert_eq!(
        Ok(127),
        small_nonnegative_integer(&mut bytes_reader(&[0x02, 0x01, 0x7f]))
    );
}

#[test]
fn small_integer_accepts_padded_high_values() {
    assert_eq!(
        Ok(128),
        small_nonnegative_integer(&mut bytes_reader(&[0x02, 0x02, 0x00, 0x80]))
    );
    assert_eq!(
        Ok(255),
        small_nonnegative_integer(&mut bytes_reader(&[0x02, 0x02, 0x00, 0xff]))
    );
}

#[test]
fn small_integer_rejects_invalid_encodings() {
    // Negative value.
    assert_eq!(
        Err(Error::BadDer),
        small_nonnegative_integer(&mut bytes_reader(&[0x02, 0x01, 0x80]))
    );
    // Non-minimal leading zero.
    assert_eq!(
        Err(Error::BadDer),
        small_nonnegative_integer(&mut bytes_reader(&[0x02, 0x02, 0x00, 0x7f]))
    );
    // Empty value.
    assert_eq!(
        Err(Error::BadDer),
        small_nonnegative_integer(&mut bytes_reader(&[0x02, 0x00]))
    );
    // Too large for one byte.
    assert_eq!(
        Err(Error::BadDer),
        small_nonnegative_integer(&mut bytes_reader(&[0x02, 0x02, 0x01, 0x02]))
    );
    // Wrong tag.
    assert_eq!(
        Err(Error::BadDer),
        small_nonnegative_integer(&mut bytes_reader(&[0x04, 0x01, 0x00]))
    );
}

#[test]
fn bit_string_empty_value_fails() {
    // A BIT STRING must hold at least the unused-bits count byte.
    assert_eq!(
        Err(Error::BadDer),
        bit_string_with_no_unused_bits(&mut bytes_reader(&[0x03, 0x00]))
    );
}

#[test]
fn tag_wire_encodings_compose_class_bits() {
    assert_eq!(0x01, u8::from(Tag::Boolean));
    assert_eq!(0x02, u8::from(Tag::Integer));
    assert_eq!(0x03, u8::from(Tag::BitString));
    assert_eq!(0x04, u8::from(Tag::OctetString));
    assert_eq!(0x06, u8::from(Tag::OID));
    assert_eq!(0x0a, u8::from(Tag::Enum));
    assert_eq!(0x0c, u8::from(Tag::UTF8String));
    assert_eq!(CONSTRUCTED | 0x10, u8::from(Tag::Sequence));
    assert_eq!(CONSTRUCTED | 0x11, u8::from(Tag::SetOf));
    assert_eq!(0x17, u8::from(Tag::UTCTime));
    assert_eq!(0x18, u8::from(Tag::GeneralizedTime));
    assert_eq!(
        CONTEXT_SPECIFIC | CONSTRUCTED,
        u8::from(Tag::ContextSpecificConstructed0)
    );
    assert_eq!(
        CONTEXT_SPECIFIC | CONSTRUCTED | 1,
        u8::from(Tag::ContextSpecificConstructed1)
    );
    assert_eq!(
        CONTEXT_SPECIFIC | CONSTRUCTED | 3,
        u8::from(Tag::ContextSpecificConstructed3)
    );
}
