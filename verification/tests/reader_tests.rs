use der_decoder::reader::{EndOfInput, Reader};

#[test]
fn read_byte_consumes_in_order() {
    let input = [0x01u8, 0x02, 0x03];
    let mut reader = Reader::new(&input);
    assert_eq!(Ok(0x01), reader.read_byte());
    assert_eq!(Ok(0x02), reader.read_byte());
    assert_eq!(Ok(0x03), reader.read_byte());
    assert_eq!(Err(EndOfInput), reader.read_byte());
}

#[test]
fn read_bytes_slices_without_copying_past_end() {
    let input = [0x01u8, 0x02, 0x03, 0x04];
    let mut reader = Reader::new(&input);
    assert_eq!(Ok(&input[0..3]), reader.read_bytes(3));
    assert_eq!(Err(EndOfInput), reader.read_bytes(2));
    assert_eq!(Ok(&input[3..4]), reader.read_bytes(1));
    assert!(reader.at_end());
}

#[test]
fn peek_does_not_consume() {
    let input = [0xaau8, 0xbb];
    let mut reader = Reader::new(&input);
    assert!(reader.peek(0xaa));
    assert!(!reader.peek(0xbb));
    assert_eq!(Ok(0xaa), reader.read_byte());
    assert!(reader.peek(0xbb));
    let mut empty = Reader::new(&[]);
    assert!(!empty.peek(0x00));
    assert_eq!(Err(EndOfInput), empty.read_byte());
}

#[test]
fn read_bytes_to_end_drains_the_reader() {
    let input = [0x01u8, 0x02, 0x03];
    let mut reader = Reader::new(&input);
    assert_eq!(Ok(0x01), reader.read_byte());
    assert_eq!(&input[1..], reader.read_bytes_to_end());
    assert!(reader.at_end());
    assert_eq!(0, reader.read_bytes_to_end().len());
}
