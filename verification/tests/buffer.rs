use fejvm::buffer::{decoded_text, has_no_plain_null_or_wide, BufferReader};
use fejvm::class_reader_error::ClassReaderError;

#[test]
fn buffer_works() {
    let data = vec![0x00, 0x00, 0x00, 0x42];
    let mut buffer = BufferReader::new(&data);

    assert_eq!(true, buffer.has_more_data());
    assert_eq!(0x42u32, buffer.read_u32().unwrap());
    assert_eq!(false, buffer.has_more_data());

    assert_eq!(true, buffer.read_u32().is_err());
}

#[test]
fn numbers_are_read_first_byte_first() {
    let data = vec![
        0x12, 0x34, 0x56, 0x78, 0x9A, 0xBC, 0xDE, 0xF0, 0xFF, 0xFF, 0xFF, 0xFE, 0x80, 0, 0, 0, 0,
        0, 0, 1, 0x7F,
    ];
    let mut buffer = BufferReader::new(&data);
    assert_eq!(0x12, buffer.read_u8().unwrap());
    assert_eq!(0x3456, buffer.read_u16().unwrap());
    assert_eq!(0x789A_BCDE, buffer.read_u32().unwrap());
    assert_eq!(0xF0, buffer.read_u8().unwrap());
    assert_eq!(-2, buffer.read_i32().unwrap());
    assert_eq!(i64::MIN + 1, buffer.read_i64().unwrap());
    assert_eq!(0x7F, buffer.read_u8().unwrap());
    assert!(!buffer.has_more_data());
}

#[test]
fn signed_numbers_are_two_s_complement() {
    let data = vec![
        0x7F, 0xFF, 0xFF, 0xFF, 0x80, 0, 0, 0, 0xFF, 0xFF, 0xFF, 0xFF, 0x7F, 0xFF, 0xFF, 0xFF,
        0xFF, 0xFF, 0xFF, 0xFF, 0xFF, 0xFF, 0xFF, 0xFF, 0xFF, 0xFF, 0xFF, 0xFF, 0x80, 0, 0, 0, 0,
        0, 0, 0,
    ];
    let mut buffer = BufferReader::new(&data);
    assert_eq!(i32::MAX, buffer.read_i32().unwrap());
    assert_eq!(i32::MIN, buffer.read_i32().unwrap());
    assert_eq!(-1, buffer.read_i32().unwrap());
    assert_eq!(i64::MAX, buffer.read_i64().unwrap());
    assert_eq!(-1, buffer.read_i64().unwrap());
    assert_eq!(i64::MIN, buffer.read_i64().unwrap());
}

#[test]
fn floating_point_numbers_are_read_as_their_bits() {
    let mut data = Vec::new();
    data.extend_from_slice(&2.1f32.to_be_bytes());
    data.extend_from_slice(&(-3.56f64).to_be_bytes());
    let mut buffer = BufferReader::new(&data);
    assert_eq!(2.1f32, f32::from_bits(buffer.read_f32().unwrap()));
    assert_eq!(-3.56f64, f64::from_bits(buffer.read_f64().unwrap()));
}

#[test]
fn a_read_beyond_the_end_fails_and_stays_in_place() {
    let data = vec![1, 2, 3];
    let mut buffer = BufferReader::new(&data);
    let expected = ClassReaderError::InvalidClassData(
        "class does not have expected length".to_string(),
    );
    assert_eq!(Err(expected), buffer.read_u32());
    assert!(buffer.read_i32().is_err());
    assert!(buffer.read_i64().is_err());
    assert!(buffer.read_f32().is_err());
    assert!(buffer.read_f64().is_err());
    assert!(buffer.read_utf8(4).is_err());
    assert!(buffer.advance(4).is_err());
    assert_eq!(0x0102, buffer.read_u16().unwrap());
    assert!(buffer.read_u16().is_err());
    assert_eq!(3, buffer.read_u8().unwrap());
    assert!(buffer.read_u8().is_err());
    assert!(buffer.advance(usize::MAX).is_err());
    assert_eq!(0, buffer.advance(0).unwrap().len());
}

#[test]
fn advance_hands_out_the_bytes_it_steps_over() {
    let data = vec![1, 2, 3, 4, 5];
    let mut buffer = BufferReader::new(&data);
    assert_eq!(&[1, 2], buffer.advance(2).unwrap());
    assert_eq!(&[3, 4, 5], buffer.advance(3).unwrap());
    assert!(!buffer.has_more_data());
}

#[test]
fn text_is_read_as_modified_utf8() {
    let data = vec![0x61, 0xC3, 0xA9, 0xC0, 0x80, 0xED, 0xA0, 0x81, 0xED, 0xB0, 0x81, 0x7A];
    let mut buffer = BufferReader::new(&data);
    assert_eq!("a\u{e9}", buffer.read_utf8(3).unwrap());
    assert_eq!("\0", buffer.read_utf8(2).unwrap());
    assert_eq!("\u{10401}", buffer.read_utf8(6).unwrap());
    assert_eq!("", buffer.read_utf8(0).unwrap());
    assert_eq!("z", buffer.read_utf8(1).unwrap());
}

#[test]
fn text_that_is_not_modified_utf8_is_rejected_behind_it() {
    let data = vec![0xED, 0xA0, 0x81, 0x41];
    let mut buffer = BufferReader::new(&data);
    assert_eq!(
        Err(ClassReaderError::InvalidClassData("invalid utf8 data".to_string())),
        buffer.read_utf8(3)
    );
    assert_eq!(0x41, buffer.read_u8().unwrap());
}

#[test]
fn a_failed_decoding_becomes_an_error_of_the_reader() {
    assert_eq!(
        Err(ClassReaderError::InvalidClassData("invalid utf8 data".to_string())),
        decoded_text(Err(cesu8::Cesu8DecodingError))
    );
    assert_eq!(Ok("abc".to_string()), decoded_text(Ok("abc".to_string())));
}

#[test]
fn a_plain_null_byte_is_no_modified_utf8() {
    let data = vec![0x41, 0x00, 0x42, 0x43];
    let mut buffer = BufferReader::new(&data);
    assert_eq!(
        Err(ClassReaderError::InvalidClassData("invalid utf8 data".to_string())),
        buffer.read_utf8(3)
    );
    assert_eq!(0x43, buffer.read_u8().unwrap());
    let mut alone = BufferReader::new(&data[1..2]);
    assert!(alone.read_utf8(1).is_err());
}

#[test]
fn a_sequence_of_four_bytes_is_no_modified_utf8() {
    let data = "\u{10401}".as_bytes().to_vec();
    assert_eq!(vec![0xF0, 0x90, 0x90, 0x81], data);
    let mut buffer = BufferReader::new(&data);
    assert_eq!(
        Err(ClassReaderError::InvalidClassData("invalid utf8 data".to_string())),
        buffer.read_utf8(4)
    );
    assert!(!buffer.has_more_data());
}

#[test]
fn bytes_are_tested_for_a_plain_null_and_for_wide_sequences() {
    assert!(has_no_plain_null_or_wide(&[]));
    assert!(has_no_plain_null_or_wide(&[1, 0x7F, 0xC0, 0x80, 0xED, 0xA0, 0x81, 0xEF]));
    assert!(!has_no_plain_null_or_wide(&[0]));
    assert!(!has_no_plain_null_or_wide(&[0x41, 0x42, 0]));
    assert!(!has_no_plain_null_or_wide(&[0xF0, 0x90, 0x90, 0x81]));
    assert!(!has_no_plain_null_or_wide(&[0x41, 0xFF]));
}
