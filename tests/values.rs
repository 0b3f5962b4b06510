use bencode2json::error::Error;
use bencode2json::sink::ByteWriter;
use bencode2json::source::{ByteReader, IoFailure};
use bencode2json::value::{parse, parse_within};
use bencode2json::{dictionary, list, string};

fn convert(input: &[u8]) -> Result<String, Error> {
    let mut reader = ByteReader::new(input.to_vec());
    let mut writer = ByteWriter::new();
    parse(&mut reader, &mut writer)?;
    Ok(String::from_utf8(writer.into_bytes()).unwrap())
}

fn convert_string(input: &[u8]) -> Result<String, Error> {
    let mut reader = ByteReader::new(input.to_vec());
    let mut writer = ByteWriter::new();
    string::parse(&mut reader, &mut writer)?;
    Ok(String::from_utf8(writer.into_bytes()).unwrap())
}

#[test]
fn byte_string_is_quoted() {
    assert_eq!(convert(b"4:spam").unwrap(), "\"spam\"");
    assert_eq!(convert_string(b"4:spam").unwrap(), "\"spam\"");
}

#[test]
fn empty_byte_string() {
    assert_eq!(convert(b"0:").unwrap(), "\"\"");
}

#[test]
fn byte_string_escapes_quote_and_backslash() {
    assert_eq!(convert(b"4:a\"b\\").unwrap(), "\"a\\\"b\\\\\"");
}

#[test]
fn byte_string_escapes_control_and_high_bytes() {
    assert_eq!(
        convert(b"4:\x00\n\xff\x7f").unwrap(),
        "\"\\u0000\\u000a\\u00ff\\u007f\""
    );
}

#[test]
fn byte_string_length_with_leading_zero_is_read_as_decimal() {
    assert_eq!(convert(b"02:ab").unwrap(), "\"ab\"");
}

#[test]
fn byte_string_reads_no_further_than_its_length() {
    let mut reader = ByteReader::new(b"2:abcd".to_vec());
    let mut writer = ByteWriter::new();
    assert!(parse(&mut reader, &mut writer).is_ok());
    assert_eq!(reader.input_byte_counter(), 4);
    assert_eq!(writer.output_byte_counter(), 4);
}

#[test]
fn truncated_byte_string_body() {
    assert!(matches!(convert(b"5:ab"), Err(Error::TruncatedStringBody(..))));
}

#[test]
fn byte_string_without_length() {
    assert!(matches!(convert_string(b":ab"), Err(Error::MalformedLength(..))));
}

#[test]
fn byte_string_length_not_ended_by_colon() {
    assert!(matches!(convert(b"3x"), Err(Error::MalformedLength(..))));
}

#[test]
fn byte_string_length_too_long() {
    assert!(matches!(convert(b"1234567890:"), Err(Error::MalformedLength(..))));
}

#[test]
fn byte_string_length_cut_short() {
    assert!(matches!(
        convert(b"12"),
        Err(Error::UnexpectedEndOfInputParsingString(..))
    ));
}

#[test]
fn empty_list() {
    assert_eq!(convert(b"le").unwrap(), "[]");
}

#[test]
fn empty_dictionary() {
    assert_eq!(convert(b"de").unwrap(), "{}");
}

#[test]
fn list_of_values() {
    assert_eq!(convert(b"li1e4:spami-42ee").unwrap(), "[1,\"spam\",-42]");
}

#[test]
fn nested_lists_keep_their_depth() {
    assert_eq!(convert(b"llleelee").unwrap(), "[[[]],[]]");
}

#[test]
fn dictionary_of_values() {
    assert_eq!(
        convert(b"d3:cow3:moo4:spamli1ei2eee").unwrap(),
        "{\"cow\":\"moo\",\"spam\":[1,2]}"
    );
}

#[test]
fn dictionary_keys_are_passed_through_in_order() {
    assert_eq!(convert(b"d1:bi1e1:ai2ee").unwrap(), "{\"b\":1,\"a\":2}");
}

#[test]
fn list_direct_entry() {
    let mut reader = ByteReader::new(b"li7ee".to_vec());
    let mut writer = ByteWriter::new();
    assert!(list::parse(&mut reader, &mut writer, 4).is_ok());
    assert_eq!(writer.into_bytes(), b"[7]".to_vec());
}

#[test]
fn dictionary_direct_entry() {
    let mut reader = ByteReader::new(b"d1:ki7ee".to_vec());
    let mut writer = ByteWriter::new();
    assert!(dictionary::parse(&mut reader, &mut writer, 4).is_ok());
    assert_eq!(writer.into_bytes(), b"{\"k\":7}".to_vec());
}

#[test]
fn unterminated_list() {
    assert!(matches!(
        convert(b"li1e"),
        Err(Error::UnexpectedEndOfInputParsingList(..))
    ));
}

#[test]
fn unterminated_dictionary() {
    assert!(matches!(
        convert(b"d1:ai1e"),
        Err(Error::UnexpectedEndOfInputParsingDictionary(..))
    ));
}

#[test]
fn dictionary_key_must_be_a_byte_string() {
    assert!(matches!(
        convert(b"di1ei2ee"),
        Err(Error::UnexpectedByteParsingDictionary(..))
    ));
}

#[test]
fn dictionary_value_missing() {
    assert!(matches!(
        convert(b"d1:a"),
        Err(Error::UnexpectedEndOfInputParsingValue(..))
    ));
}

#[test]
fn member_failure_is_the_container_failure() {
    assert!(matches!(
        convert(b"li1ei00ee"),
        Err(Error::LeadingZerosInIntegersNotAllowed(..))
    ));
    assert!(matches!(
        convert(b"d1:ali-xee"),
        Err(Error::UnexpectedByteParsingInteger(..))
    ));
}

#[test]
fn unexpected_byte_starting_a_value() {
    assert!(matches!(convert(b"x"), Err(Error::UnexpectedByteParsingValue(..))));
}

#[test]
fn empty_input() {
    assert!(matches!(
        convert(b""),
        Err(Error::UnexpectedEndOfInputParsingValue(..))
    ));
}

#[test]
fn nesting_beyond_the_limit() {
    let mut reader = ByteReader::new(b"llee".to_vec());
    let mut writer = ByteWriter::new();
    let result = parse_within(&mut reader, &mut writer, 1);
    match result {
        Err(Error::MaxNestingExceeded(rc, wc)) => {
            assert_eq!(rc.pos, 2);
            assert_eq!(rc.byte, Some(b'l'));
            assert_eq!(wc.pos, 1);
            assert_eq!(wc.latest_bytes, b"[".to_vec());
        }
        _ => panic!("expected MaxNestingExceeded"),
    }
    let mut reader = ByteReader::new(b"llee".to_vec());
    let mut writer = ByteWriter::new();
    assert!(parse_within(&mut reader, &mut writer, 2).is_ok());
}

#[test]
fn positions_after_success() {
    let mut reader = ByteReader::new(b"i42etail".to_vec());
    let mut writer = ByteWriter::new();
    assert!(parse(&mut reader, &mut writer).is_ok());
    assert_eq!(reader.input_byte_counter(), 4);
    assert_eq!(writer.output_byte_counter(), 2);
}

#[test]
fn positions_frozen_at_failure() {
    let mut reader = ByteReader::new(b"li12ei-1ax".to_vec());
    let mut writer = ByteWriter::new();
    match parse(&mut reader, &mut writer) {
        Err(Error::UnexpectedByteParsingInteger(rc, wc)) => {
            assert_eq!(rc.byte, Some(b'a'));
            assert_eq!(rc.pos, 9);
            assert_eq!(rc.latest_bytes, b"li12ei-1a".to_vec());
            assert_eq!(wc.byte, Some(b'a'));
            assert_eq!(wc.pos, 6);
            assert_eq!(wc.latest_bytes, b"[12,-1".to_vec());
        }
        _ => panic!("expected UnexpectedByteParsingInteger"),
    }
    assert_eq!(reader.input_byte_counter(), 9);
    assert_eq!(writer.output_byte_counter(), 6);
}

#[test]
fn capture_window_keeps_only_the_latest_bytes() {
    let mut input = b"l".to_vec();
    for _ in 0..40 {
        input.extend_from_slice(b"i7e");
    }
    let mut reader = ByteReader::new(input.clone());
    let mut writer = ByteWriter::new();
    match parse(&mut reader, &mut writer) {
        Err(Error::UnexpectedEndOfInputParsingList(rc, wc)) => {
            assert_eq!(rc.byte, None);
            assert_eq!(rc.pos, input.len());
            assert_eq!(rc.latest_bytes.len(), 64);
            assert_eq!(rc.latest_bytes, input[input.len() - 64..].to_vec());
            assert_eq!(wc.pos, 80);
            assert_eq!(wc.latest_bytes.len(), 64);
        }
        _ => panic!("expected UnexpectedEndOfInputParsingList"),
    }
}

#[test]
fn io_failure_inside_a_list_is_io() {
    let failure = IoFailure {
        message: "Permission denied".to_string(),
    };
    let mut reader = ByteReader::with_failure(b"li1e".to_vec(), failure);
    let mut writer = ByteWriter::new();
    match parse(&mut reader, &mut writer) {
        Err(Error::Io(f)) => assert_eq!(f.message, "Permission denied"),
        _ => panic!("expected Io"),
    }
}

#[test]
fn io_failure_inside_a_byte_string_is_io() {
    let failure = IoFailure {
        message: "broken pipe".to_string(),
    };
    let mut reader = ByteReader::with_failure(b"5:ab".to_vec(), failure);
    let mut writer = ByteWriter::new();
    assert!(matches!(parse(&mut reader, &mut writer), Err(Error::Io(_))));
}

/// Reads the JSON string `text` (quotes included), taking each character's
/// code point as one byte.
fn json_string_bytes(text: &str) -> Vec<u8> {
    let inner = &text.as_bytes()[1..text.len() - 1];
    let mut out = Vec::new();
    let mut i = 0;
    while i < inner.len() {
        if inner[i] == b'\\' {
            if inner[i + 1] == b'u' {
                let hex = std::str::from_utf8(&inner[i + 2..i + 6]).unwrap();
                out.push(u32::from_str_radix(hex, 16).unwrap() as u8);
                i += 6;
            } else {
                out.push(inner[i + 1]);
                i += 2;
            }
        } else {
            out.push(inner[i]);
            i += 1;
        }
    }
    out
}

#[test]
fn byte_string_json_reads_back_as_its_bytes() {
    let body: Vec<u8> = (0u8..=255).collect();
    let mut input = b"256:".to_vec();
    input.extend_from_slice(&body);
    let json = convert(&input).unwrap();
    assert!(json.is_ascii());
    assert_eq!(json_string_bytes(&json), body);
}
