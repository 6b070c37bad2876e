//! The decisions of loading and saving a record, apart from the file system:
//! the caller probes, reads and writes the file and hands the results here.
use vstd::prelude::*;
use vstd::utf8::encode_utf8;

use crate::comments::{strip_comments, stripped};
use crate::error::DataFileError;
use crate::json::{encode_pretty, json_parse, parse_json, pretty_json};

verus! {

/// The record that the text of a file holds: the JSON document that remains
/// once comment lines and line endings are removed.
pub fn decode_contents(text: &str) -> (r: Result<serde_json::Value, DataFileError>)
    ensures
        match json_parse(stripped(encode_utf8(text@))) {
            Some(v) => r == Ok::<serde_json::Value, DataFileError>(v),
            None => r is Err && r->Err_0 is Serde,
        },
{
    let body = strip_comments(text);
    match parse_json(body.as_slice()) {
        Ok(v) => Ok(v),
        Err(e) => Err(DataFileError::Serde(e)),
    }
}

/// The text that a file holding `record` is given: its pretty-printed JSON
/// encoding, with no comment lines.
pub fn encode_record(record: &serde_json::Value) -> (r: Result<Vec<u8>, DataFileError>)
    ensures
        match pretty_json(*record) {
            Some(b) => r is Ok && r->Ok_0@ == b,
            None => r is Err && r->Err_0 is Serde,
        },
{
    match encode_pretty(record) {
        Ok(b) => Ok(b),
        Err(e) => Err(DataFileError::Serde(e)),
    }
}

/// What loading gives once the file was found missing and the default record
/// `default` was written in its place: that record, or, where the caller
/// asked to be told, `NewEmptyFileCreated`.
pub fn missing_file_outcome<T>(fail_on_missing: bool, default: T) -> (r: Result<T, DataFileError>)
    ensures
        fail_on_missing ==> r is Err && r->Err_0 is NewEmptyFileCreated,
        !fail_on_missing ==> r == Ok::<T, DataFileError>(default),
{
    if fail_on_missing {
        Err(DataFileError::NewEmptyFileCreated)
    } else {
        Ok(default)
    }
}

/// What loading gives once an existing file was read: the record that its
/// text holds, or the error of the read.
pub fn read_outcome(contents: Result<String, std::io::Error>) -> (r: Result<
    serde_json::Value,
    DataFileError,
>)
    ensures
        match contents {
            Ok(text) => match json_parse(stripped(encode_utf8(text@))) {
                Some(v) => r == Ok::<serde_json::Value, DataFileError>(v),
                None => r is Err && r->Err_0 is Serde,
            },
            Err(e) => r == Err::<serde_json::Value, DataFileError>(DataFileError::Io(e)),
        },
{
    match contents {
        Ok(text) => decode_contents(text.as_str()),
        Err(e) => Err(DataFileError::Io(e)),
    }
}

} // verus!
