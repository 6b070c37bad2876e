use data_file::{
    decode_contents, encode_record, missing_file_outcome, read_outcome, strip_comments,
    DataFileError,
};
use serde_json::Value;

fn sample() -> Value {
    let mut inner = serde_json::Map::new();
    inner.insert("port".to_string(), Value::from(8080));
    inner.insert("tags".to_string(), Value::Array(vec![Value::from("a#b"), Value::Null]));
    let mut m = serde_json::Map::new();
    m.insert("name".to_string(), Value::from("server"));
    m.insert("enabled".to_string(), Value::Bool(true));
    m.insert("inner".to_string(), Value::Object(inner));
    Value::Object(m)
}

fn encoded_text(v: &Value) -> String {
    match encode_record(v) {
        Ok(b) => String::from_utf8(b).unwrap(),
        Err(_) => panic!("encoding failed"),
    }
}

#[test]
fn strip_drops_leading_comment_line() {
    assert_eq!(strip_comments("# Ansible managed\n{\"a\": 1}\n"), b"{\"a\": 1}".to_vec());
}

#[test]
fn strip_joins_lines_without_separator() {
    assert_eq!(strip_comments("{\n  \"a\": 1\n}"), b"{  \"a\": 1}".to_vec());
}

#[test]
fn strip_handles_crlf_endings() {
    assert_eq!(strip_comments("#c\r\n{\r\n\"a\":1\r\n}"), b"{\"a\":1}".to_vec());
}

#[test]
fn strip_keeps_hash_in_mid_line() {
    assert_eq!(strip_comments("{\"a\": \"x#y\"} # no"), b"{\"a\": \"x#y\"} # no".to_vec());
}

#[test]
fn strip_keeps_bare_trailing_carriage_return() {
    assert_eq!(strip_comments("ab\r"), b"ab\r".to_vec());
}

#[test]
fn strip_indented_hash_is_not_a_comment() {
    assert_eq!(strip_comments(" #x\n#y\n\nz"), b" #xz".to_vec());
}

#[test]
fn strip_of_empty_text_is_empty() {
    assert_eq!(strip_comments(""), Vec::<u8>::new());
    assert_eq!(strip_comments("# only\n#comments\n"), Vec::<u8>::new());
}

#[test]
fn encode_is_pretty_printed() {
    let mut m = serde_json::Map::new();
    m.insert("a".to_string(), Value::from(1));
    assert_eq!(encoded_text(&Value::Object(m)), "{\n  \"a\": 1\n}");
}

#[test]
fn round_trip_through_text() {
    let v = sample();
    let text = encoded_text(&v);
    match decode_contents(&text) {
        Ok(back) => assert_eq!(back, v),
        Err(_) => panic!("decoding failed"),
    }
}

#[test]
fn comment_lines_prepended_and_interspersed_are_skipped() {
    let v = sample();
    let text = encoded_text(&v);
    let mut with_comments = String::from("# Ansible managed\n#second\n");
    for line in text.lines() {
        with_comments.push_str(line);
        with_comments.push_str("\n# between\n");
    }
    match decode_contents(&with_comments) {
        Ok(back) => assert_eq!(back, v),
        Err(_) => panic!("decoding failed"),
    }
}

#[test]
fn decode_reads_document() {
    match decode_contents("[1,\n# two\n 2]") {
        Ok(back) => assert_eq!(back, Value::Array(vec![Value::from(1), Value::from(2)])),
        Err(_) => panic!("decoding failed"),
    }
}

#[test]
fn malformed_content_is_a_decode_error() {
    assert!(matches!(decode_contents("not json"), Err(DataFileError::Serde(_))));
    assert!(matches!(decode_contents("{\"a\": \n# 1\n}"), Err(DataFileError::Serde(_))));
    assert!(matches!(decode_contents(""), Err(DataFileError::Serde(_))));
}

#[test]
fn missing_file_strict_reports_new_file() {
    assert!(matches!(
        missing_file_outcome(true, sample()),
        Err(DataFileError::NewEmptyFileCreated)
    ));
}

#[test]
fn missing_file_lenient_gives_default() {
    match missing_file_outcome(false, sample()) {
        Ok(v) => assert_eq!(v, sample()),
        Err(_) => panic!("expected the default record"),
    }
}

#[test]
fn default_written_by_missing_file_decodes_to_default() {
    let default = sample();
    let written = encoded_text(&default);
    match decode_contents(&written) {
        Ok(v) => assert_eq!(v, default),
        Err(_) => panic!("decoding failed"),
    }
}

#[test]
fn read_error_is_passed_through() {
    let e = std::io::Error::new(std::io::ErrorKind::PermissionDenied, "denied");
    match read_outcome(Err(e)) {
        Err(DataFileError::Io(inner)) => {
            assert_eq!(inner.kind(), std::io::ErrorKind::PermissionDenied)
        }
        _ => panic!("expected an I/O error"),
    }
}

#[test]
fn read_text_is_decoded() {
    match read_outcome(Ok("# managed\ntrue".to_string())) {
        Ok(v) => assert_eq!(v, Value::Bool(true)),
        Err(_) => panic!("decoding failed"),
    }
    assert!(matches!(read_outcome(Ok("#x\n{".to_string())), Err(DataFileError::Serde(_))));
}

#[test]
fn encoding_default_twice_gives_same_text() {
    assert_eq!(encoded_text(&sample()), encoded_text(&sample()));
}
