//! JSON documents, as `serde_json` reads them.

use vstd::prelude::*;

verus! {

/// `serde_json::Value`, a JSON document. The library hands it on and looks at
/// nothing inside.
#[verifier::external_type_specification]
#[verifier::external_body]
pub struct ExJsonValue(serde_json::Value);

/// `serde_json::Error`, why a text is no document. The library tells it from
/// success and drops it.
#[verifier::external_type_specification]
#[verifier::external_body]
pub struct ExJsonError(serde_json::Error);

/// The document that `serde_json::from_str` reads from `text`, if it reads
/// one.
pub uninterp spec fn json_document(text: Seq<char>) -> Option<serde_json::Value>;

/// `serde_json::from_str` for a `Value`: the outcome depends on the text
/// alone.
#[verifier::external_body]
pub(crate) fn read_json(text: &str) -> (r: Result<serde_json::Value, serde_json::Error>)
    ensures
        r is Ok <==> json_document(text@) is Some,
        r is Ok ==> r->Ok_0 == json_document(text@)->Some_0,
{
    serde_json::from_str(text)
}

} // verus!
