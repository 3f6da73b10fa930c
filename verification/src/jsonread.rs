//! Trusted access to `serde_json`: the declared opaque document type and
//! the parse, whose acceptance is named so that contracts can speak of
//! which texts are well-formed JSON. The provider- and protocol-specific
//! document readers live beside their callers and name what they extract.
use vstd::prelude::*;

verus! {

#[verifier::external_type_specification]
#[verifier::external_body]
pub struct ExJsonValue(serde_json::Value);

/// Whether `serde_json::from_str::<Value>` accepts this text; the parse is
/// a function of the text alone.
pub uninterp spec fn json_wf(s: Seq<char>) -> bool;

/// Relies on serde_json::from_str::<Value>: parses a JSON document from the
/// text, accepting it or not by the text alone.
#[verifier::external_body]
pub fn json_parse(s: &str) -> (r: Option<serde_json::Value>)
    ensures
        r is Some <==> json_wf(s@),
{
    serde_json::from_str(s).ok()
}

} // verus!
