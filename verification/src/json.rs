//! JSON string literals, written and read by `serde_json`.
//!
//! The two functions here are the only places where the library relies on
//! code that Verus has not seen. Their contracts are believed, not proved.

use vstd::prelude::*;

verus! {

/// `serde_json::Error`, which the two calls below return where they fail.
/// Nothing is read from it.
#[verifier::external_type_specification]
#[verifier::external_body]
pub struct ExJsonError(serde_json::Error);

/// The JSON text that `serde_json::to_vec` writes for a string: the string
/// between double quotes, with quotes, backslashes and control characters
/// escaped.
pub uninterp spec fn json_string_text(s: Seq<char>) -> Seq<u8>;

/// The string that `serde_json::from_slice::<String>` reads from `text`, or
/// `None` where it reports an error.
pub uninterp spec fn json_string_value(text: Seq<u8>) -> Option<Seq<char>>;

/// Calls `serde_json::to_vec` on a string.
///
/// Believed of it: the call succeeds, since writing into a `Vec` cannot fail;
/// the text it returns is read back by `serde_json::from_slice` as the same
/// string; and the text holds no line feed, since every byte below `0x20` is
/// written as an escape sequence.
#[verifier::external_body]
pub(crate) fn write_json_string(s: &str) -> (r: Result<Vec<u8>, serde_json::Error>)
    ensures
        r is Ok,
        r->Ok_0@ == json_string_text(s@),
        json_string_value(r->Ok_0@) == Some(s@),
        forall|i: int| 0 <= i < r->Ok_0@.len() ==> r->Ok_0@[i] != 10u8,
{
    serde_json::to_vec(s)
}

/// Calls `serde_json::from_slice::<String>`.
///
/// Believed of it: the outcome depends on the bytes alone.
#[verifier::external_body]
pub(crate) fn read_json_string(text: &[u8]) -> (r: Result<String, serde_json::Error>)
    ensures
        match r {
            Ok(s) => json_string_value(text@) == Some(s@),
            Err(_) => json_string_value(text@) is None,
        },
{
    serde_json::from_slice::<String>(text)
}

} // verus!
