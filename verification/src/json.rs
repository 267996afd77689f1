//! JSON results for `-j`: the body re-printed in serde_json's pretty layout
//! when it is JSON, and passed through as it came when it is not.
use vstd::prelude::*;

verus! {

/// Whether `serde_json::from_str::<serde_json::Value>` reads the text as one
/// JSON value (surrounding whitespace allowed).
pub uninterp spec fn is_json(text: Seq<char>) -> bool;

/// The text `serde_json::to_string_pretty` gives for the value that
/// `serde_json::from_str::<serde_json::Value>` reads from `text`: two-space
/// indentation, one member or element per line.
pub uninterp spec fn pretty_of(text: Seq<char>) -> Seq<char>;

/// Trusted: `serde_json::from_str::<serde_json::Value>` followed by
/// `serde_json::to_string_pretty` on the value read. The parsed value is
/// opaque, so the pair is named as one function of the text: the result is
/// `None` exactly when the text is not JSON (`is_json`), and otherwise the
/// pretty text `pretty_of`. Laying out a parsed value does not fail: the
/// documentation names only a failing `Serialize` impl and maps with
/// non-string keys, and a `Value` has neither.
#[verifier::external_body]
fn pretty_text(text: &str) -> (r: Option<String>)
    ensures
        match r {
            Some(s) => is_json(text@) && s@ == pretty_of(text@),
            None => !is_json(text@),
        },
{
    match serde_json::from_str::<serde_json::Value>(text) {
        Ok(v) => serde_json::to_string_pretty(&v).ok(),
        Err(_) => None,
    }
}

/// What `-j` prints for a results body: `Some` of the body in serde_json's
/// pretty layout when the body is JSON, `None` when the body is to be
/// printed as it came.
pub fn json_output(body: &str) -> (r: Option<String>)
    ensures
        !is_json(body@) ==> r is None,
        is_json(body@) ==> (r matches Some(s) && s@ == pretty_of(body@)),
{
    pretty_text(body)
}

} // verus!
