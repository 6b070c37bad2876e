//! The JSON encoder and decoder that the file format rests on.
use vstd::prelude::*;

verus! {

/// A JSON document, as `serde_json` holds it.
#[verifier::external_type_specification]
#[verifier::external_body]
pub struct ExValue(serde_json::Value);

/// The document that `serde_json` reads from the bytes `b`, or `None` where
/// it refuses them.
pub uninterp spec fn json_parse(b: Seq<u8>) -> Option<serde_json::Value>;

/// The pretty-printed encoding that `serde_json` writes for the document
/// `v`, or `None` where it fails.
pub uninterp spec fn pretty_json(v: serde_json::Value) -> Option<Seq<u8>>;

/// Relies on `serde_json::from_slice` to read a JSON document from bytes;
/// whether it succeeds, and the document it gives, depend on the bytes alone.
#[verifier::external_body]
pub(crate) fn parse_json(b: &[u8]) -> (r: Result<serde_json::Value, serde_json::Error>)
    ensures
        match json_parse(b@) {
            Some(v) => r == Ok::<serde_json::Value, serde_json::Error>(v),
            None => r is Err,
        },
{
    serde_json::from_slice::<serde_json::Value>(b)
}

/// Relies on `serde_json::to_vec_pretty` to write a JSON document as
/// indented text; the outcome depends on the document alone.
#[verifier::external_body]
pub(crate) fn encode_pretty(v: &serde_json::Value) -> (r: Result<Vec<u8>, serde_json::Error>)
    ensures
        match pretty_json(*v) {
            Some(b) => r is Ok && r->Ok_0@ == b,
            None => r is Err,
        },
{
    serde_json::to_vec_pretty(v)
}

} // verus!
