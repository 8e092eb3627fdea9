//! The responder's wire format: the fenced JSON text it answers with, and the
//! JSON text of a reply as it is kept in the conversation.
use vstd::prelude::*;
use crate::conversation::LlmResponse;
use crate::text::{
    CharClass, skip_both, skip_prefixes, skip_suffixes, strip_prefixes, strip_suffixes, trim,
};

verus! {

/// The marker that opens a fenced JSON block.
pub const FENCE_JSON: &'static str = "```json";

/// The marker that opens or closes a fenced block.
pub const FENCE: &'static str = "```";

/// The JSON text inside a responder's answer: trimmed, with the opening
/// fence markers and the closing ones removed, trimmed again.
pub open spec fn cleaned_json(s: Seq<char>) -> Seq<char> {
    trim(strip_suffixes(strip_prefixes(strip_prefixes(trim(s), FENCE_JSON@), FENCE@), FENCE@))
}

/// Strips the code fence that a responder may wrap its JSON answer in.
pub fn clean_json(raw: &str) -> (r: &str)
    ensures
        r@ == cleaned_json(raw@),
{
    let n = raw.unicode_len();
    assert(raw@.subrange(0, n as int) =~= raw@);
    let (a, b) = skip_both(raw, 0, n, CharClass::Space);
    let c = skip_prefixes(raw, a, b, FENCE_JSON);
    let d = skip_prefixes(raw, c, b, FENCE);
    let e = skip_suffixes(raw, d, b, FENCE);
    let (f, g) = skip_both(raw, d, e, CharClass::Space);
    raw.substring_char(f, g)
}

#[verifier::external_type_specification]
#[verifier::external_body]
pub struct ExJsonError(serde_json::Error);

/// A name for the JSON string literal that `serde_json` writes for a text.
pub uninterp spec fn json_text(s: Seq<char>) -> Seq<char>;

/// Relies on `serde_json::to_string` on a `str`: the text as a JSON string
/// literal. Writing a `str` into the `Vec` behind `to_string` cannot fail, so
/// the call always succeeds.
#[verifier::external_body]
fn json_quote(s: &str) -> (r: Result<String, serde_json::Error>)
    ensures
        r is Ok,
        r matches Ok(q) ==> q@ == json_text(s@),
{
    serde_json::to_string(s)
}

/// The JSON object of a reply, its fields in the order clarification, sql,
/// explanation, without white space.
pub open spec fn reply_json(clarification: Seq<char>, sql: Seq<char>, explanation: Seq<char>) -> Seq<
    char,
> {
    "{\"clarification\":"@ + json_text(clarification) + ",\"sql\":"@ + json_text(sql)
        + ",\"explanation\":"@ + json_text(explanation) + "}"@
}

/// The JSON text of a reply.
pub fn reply_to_json(reply: &LlmResponse) -> (r: String)
    ensures
        r@ == reply_json(reply.clarification@, reply.sql@, reply.explanation@),
{
    let clar = json_quote(reply.clarification.as_str()).unwrap();
    let sql = json_quote(reply.sql.as_str()).unwrap();
    let expl = json_quote(reply.explanation.as_str()).unwrap();
    let mut out = String::from_str("{\"clarification\":");
    out.append(clar.as_str());
    out.append(",\"sql\":");
    out.append(sql.as_str());
    out.append(",\"explanation\":");
    out.append(expl.as_str());
    out.append("}");
    out
}

} // verus!
