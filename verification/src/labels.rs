//! Short texts for reports and tables.

use vstd::prelude::*;
use vstd::string::*;

use crate::text;

verus! {

/// A signed lag in words; the first-named stream leads where it is positive.
pub open spec fn lead_phrase_spec(lag_ms: int) -> Seq<char> {
    if lag_ms == 0 {
        "in sync (lag 0 ms)"@
    } else if lag_ms > 0 {
        "first leads by "@ + text::digits(lag_ms as nat) + " ms"@
    } else {
        "first TRAILS by "@ + text::digits((-lag_ms) as nat) + " ms"@
    }
}

/// A signed lag in words; the first-named stream leads where it is positive.
pub fn lead_phrase(lag_ms: i64) -> (r: String)
    ensures
        r@ == lead_phrase_spec(lag_ms as int),
{
    if lag_ms == 0 {
        "in sync (lag 0 ms)".to_owned()
    } else if lag_ms > 0 {
        text::join3("first leads by ", text::u64_text(lag_ms as u64).as_str(), " ms")
    } else {
        let magnitude: u64 = (-(lag_ms as i128)) as u64;
        text::join3("first TRAILS by ", text::u64_text(magnitude).as_str(), " ms")
    }
}

/// Whether a character may stand in a file name as it is.
pub open spec fn safe_char(c: char) -> bool {
    ('a' <= c && c <= 'z') || ('A' <= c && c <= 'Z') || ('0' <= c && c <= '9') || c == '-' || c
        == '_'
}

/// A label for a file name: letters, digits, dashes and underscores stay, everything else
/// becomes a dash.
pub open spec fn sanitized(label: Seq<char>) -> Seq<char> {
    label.map_values(
        |c: char|
            if safe_char(c) {
                c
            } else {
                '-'
            },
    )
}

/// A label for a file name.
pub fn sanitize(label: &str) -> (r: String)
    ensures
        r@ == sanitized(label@),
{
    let n: usize = label.unicode_len();
    let mut r = String::new();
    let mut i: usize = 0;
    while i < n
        invariant
            i <= n,
            n == label@.len(),
            r@ == sanitized(label@).subrange(0, i as int),
        decreases n - i,
    {
        let c = label.get_char(i);
        if ('a' <= c && c <= 'z') || ('A' <= c && c <= 'Z') || ('0' <= c && c <= '9') || c == '-'
            || c == '_' {
            r.push(c);
        } else {
            r.push('-');
        }
        i = i + 1;
        assert(r@ =~= sanitized(label@).subrange(0, i as int));
    }
    assert(r@ =~= sanitized(label@));
    r
}

/// A label for a file name holds nothing but letters, digits, dashes and underscores, and a
/// label that is safe already stays as it is.
pub proof fn law_sanitized_is_safe(label: Seq<char>)
    ensures
        sanitized(label).len() == label.len(),
        forall|i: int| 0 <= i < label.len() ==> safe_char(#[trigger] sanitized(label)[i]),
        (forall|i: int| 0 <= i < label.len() ==> safe_char(#[trigger] label[i])) ==> sanitized(
            label,
        ) == label,
        sanitized(sanitized(label)) == sanitized(label),
{
    if forall|i: int| 0 <= i < label.len() ==> safe_char(#[trigger] label[i]) {
        assert(sanitized(label) =~= label);
    }
    assert(sanitized(sanitized(label)) =~= sanitized(label));
}

} // verus!
