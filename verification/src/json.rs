//! JSON texts.

use vstd::prelude::*;
use vstd::string::*;

verus! {

/// What `serde_json` writes for a text: a JSON string.
pub uninterp spec fn json_string(s: Seq<char>) -> Seq<char>;

/// Calls `serde_json::Value`'s `Display` on a text. The claim: the JSON string depends on the
/// text alone.
#[verifier::external_body]
pub(crate) fn string_text(s: &str) -> (r: String)
    ensures
        r@ == json_string(s@),
{
    serde_json::Value::String(s.to_owned()).to_string()
}

/// What `serde_json::to_string_pretty` writes for the value that a text holds, or `None` where
/// the text is no JSON.
pub uninterp spec fn json_pretty(text: Seq<char>) -> Option<Seq<char>>;

/// Calls `serde_json::from_str` and `serde_json::to_string_pretty`. The claim: the result depends
/// on the text alone.
#[verifier::external_body]
fn pretty_text(text: &str) -> (r: Option<String>)
    ensures
        match r {
            Some(p) => json_pretty(text@) == Some(p@),
            None => json_pretty(text@) is None,
        },
{
    let value: serde_json::Value = serde_json::from_str(text).ok()?;
    serde_json::to_string_pretty(&value).ok()
}

/// A JSON text laid out for reading; any other text as it is.
pub fn pretty(text: &str) -> (r: String)
    ensures
        r@ == or_raw(json_pretty(text@), text@),
{
    laid_out_or_raw(pretty_text(text), text)
}

/// A layout, or the raw text where there is none.
pub open spec fn or_raw(layout: Option<Seq<char>>, raw: Seq<char>) -> Seq<char> {
    match layout {
        Some(p) => p,
        None => raw,
    }
}

/// A layout, or the raw text where there is none.
pub fn laid_out_or_raw(layout: Option<String>, raw: &str) -> (r: String)
    ensures
        r@ == or_raw(
            match layout {
                Some(p) => Some(p@),
                None => None,
            },
            raw@,
        ),
{
    match layout {
        Some(p) => p,
        None => raw.to_owned(),
    }
}

/// A member of a JSON object with a text for a value.
pub open spec fn member(name: Seq<char>, value: Seq<char>) -> Seq<char> {
    json_string(name) + ":"@ + json_string(value)
}

/// A JSON object with one member.
pub open spec fn object1(name: Seq<char>, value: Seq<char>) -> Seq<char> {
    "{"@ + member(name, value) + "}"@
}

/// A JSON object with one member.
pub fn object_of(name: &str, value: &str) -> (r: String)
    ensures
        r@ == object1(name@, value@),
{
    let m = member_text(name, value);
    crate::text::join3("{", m.as_str(), "}")
}

/// A member of a JSON object with a text for a value.
pub fn member_text(name: &str, value: &str) -> (r: String)
    ensures
        r@ == member(name@, value@),
{
    crate::text::join3(string_text(name).as_str(), ":", string_text(value).as_str())
}

} // verus!
