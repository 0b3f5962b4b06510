use bencode2json::error::Error;
use bencode2json::integer::parse;
use bencode2json::sink::ByteWriter;
use bencode2json::source::{ByteReader, IoFailure};

fn bencode_to_json_unchecked(input_buffer: &[u8]) -> String {
    try_bencode_to_json(input_buffer).expect("Bencode to JSON conversion failed")
}

fn try_bencode_to_json(input_buffer: &[u8]) -> Result<String, Error> {
    let mut reader = ByteReader::new(input_buffer.to_vec());
    let mut writer = ByteWriter::new();
    parse(&mut reader, &mut writer)?;
    Ok(String::from_utf8(writer.into_bytes()).unwrap())
}

#[test]
fn bencode_to_json_wrapper_succeeds() {
    assert_eq!(try_bencode_to_json(b"i0e").unwrap(), "0".to_string());
}

#[test]
fn bencode_to_json_wrapper_fails() {
    assert!(try_bencode_to_json(b"i").is_err());
}

#[test]
fn zero() {
    assert_eq!(bencode_to_json_unchecked(b"i0e"), "0".to_string());
}

#[test]
fn one_digit_integer() {
    assert_eq!(bencode_to_json_unchecked(b"i1e"), "1".to_string());
}

#[test]
fn two_digits_integer() {
    assert_eq!(bencode_to_json_unchecked(b"i42e"), "42".to_string());
}

#[test]
fn negative_integer() {
    assert_eq!(bencode_to_json_unchecked(b"i-1e"), "-1".to_string());
}

#[test]
fn when_it_cannot_read_more_bytes_from_input() {
    let unfinished_int = b"i42";

    let result = try_bencode_to_json(unfinished_int);

    assert!(matches!(
        result,
        Err(Error::UnexpectedEndOfInputParsingInteger { .. })
    ));
}

#[test]
fn when_it_finds_an_invalid_byte() {
    let int_with_invalid_byte = b"iae";

    let result = try_bencode_to_json(int_with_invalid_byte);

    assert!(matches!(
        result,
        Err(Error::UnexpectedByteParsingInteger { .. })
    ));
}

#[test]
fn when_it_finds_leading_zeros() {
    // Only the integer zero can start with a zero.
    let int_with_invalid_byte = b"i00e";

    let result = try_bencode_to_json(int_with_invalid_byte);

    assert!(matches!(
        result,
        Err(Error::LeadingZerosInIntegersNotAllowed { .. })
    ));
}

#[test]
fn when_it_finds_leading_zeros_in_a_negative_integer() {
    let int_with_invalid_byte = b"i-00e";

    let result = try_bencode_to_json(int_with_invalid_byte);

    assert!(matches!(
        result,
        Err(Error::LeadingZerosInIntegersNotAllowed { .. })
    ));
}

#[test]
fn while_expecting_a_digit_or_sign() {
    let int_with_invalid_byte = b"ia";

    let result = try_bencode_to_json(int_with_invalid_byte);

    assert!(matches!(
        result,
        Err(Error::UnexpectedByteParsingInteger { .. })
    ));
}

#[test]
fn while_expecting_digit_after_the_sign() {
    let int_with_invalid_byte = b"i-a";

    let result = try_bencode_to_json(int_with_invalid_byte);

    assert!(matches!(
        result,
        Err(Error::UnexpectedByteParsingInteger { .. })
    ));
}

#[test]
fn while_expecting_digit_or_end() {
    let int_with_invalid_byte = b"i-1a";

    let result = try_bencode_to_json(int_with_invalid_byte);

    assert!(matches!(
        result,
        Err(Error::UnexpectedByteParsingInteger { .. })
    ));
}

#[test]
fn when_it_receives_a_non_eof_io_error() {
    let failure = IoFailure {
        message: "Permission denied".to_string(),
    };
    let mut reader = ByteReader::with_failure(Vec::new(), failure);
    let mut writer = ByteWriter::new();

    let result = parse(&mut reader, &mut writer);

    assert!(matches!(result, Err(Error::Io(_))));
}

#[test]
fn larger_integers_are_copied_verbatim() {
    assert_eq!(bencode_to_json_unchecked(b"i1234567890123e"), "1234567890123");
    assert_eq!(bencode_to_json_unchecked(b"i-907e"), "-907");
}

#[test]
fn negative_zero_is_accepted_as_written() {
    assert_eq!(bencode_to_json_unchecked(b"i-0e"), "-0");
}

#[test]
fn leading_zero_error_is_raised_before_the_digit_is_written() {
    let mut reader = ByteReader::new(b"i01e".to_vec());
    let mut writer = ByteWriter::new();
    match parse(&mut reader, &mut writer) {
        Err(Error::LeadingZerosInIntegersNotAllowed(rc, wc)) => {
            assert_eq!(rc.byte, Some(b'1'));
            assert_eq!(rc.pos, 3);
            assert_eq!(wc.pos, 1);
            assert_eq!(wc.latest_bytes, b"0".to_vec());
        }
        _ => panic!("expected LeadingZerosInIntegersNotAllowed"),
    }
}

#[test]
fn end_of_input_reports_positions_without_a_byte() {
    let mut reader = ByteReader::new(b"i42".to_vec());
    let mut writer = ByteWriter::new();
    match parse(&mut reader, &mut writer) {
        Err(Error::UnexpectedEndOfInputParsingInteger(rc, wc)) => {
            assert_eq!(rc.byte, None);
            assert_eq!(rc.pos, 3);
            assert_eq!(rc.latest_bytes, b"i42".to_vec());
            assert_eq!(wc.byte, None);
            assert_eq!(wc.pos, 2);
        }
        _ => panic!("expected UnexpectedEndOfInputParsingInteger"),
    }
}

#[test]
fn integer_reads_no_further_than_its_terminator() {
    let mut reader = ByteReader::new(b"i-5ei6e".to_vec());
    let mut writer = ByteWriter::new();
    assert!(parse(&mut reader, &mut writer).is_ok());
    assert_eq!(reader.input_byte_counter(), 4);
    assert_eq!(writer.into_bytes(), b"-5".to_vec());
}
