//! String literals of the payload codec. Payloads themselves stay text that
//! this library carries and frames without looking inside; only the names it
//! has to find again (an event's name, a refusal's reason) cross the codec,
//! as string literals.

use vstd::prelude::*;

verus! {

#[verifier::external_type_specification]
#[verifier::external_body]
pub struct ExJsonError(serde_json::Error);

/// The string literal that the codec writes for `text`.
pub uninterp spec fn json_string(text: Seq<char>) -> Seq<char>;

/// The text that the codec reads out of `literal`, where it reads `literal`
/// as one string.
pub uninterp spec fn json_string_value(literal: Seq<char>) -> Option<Seq<char>>;

/// Whether the codec reads `text` as one value.
pub uninterp spec fn json_valid(text: Seq<char>) -> bool;

/// Where the string literal that opens at `from - 1` closes: the index of
/// the first quote at or after `from` that no backslash guards. A backslash
/// guards the one character behind it.
pub open spec fn literal_end(s: Seq<char>, from: int) -> Option<int>
    decreases s.len() - from,
{
    if from < 0 || from >= s.len() {
        None
    } else if s[from] == '"' {
        Some(from)
    } else if s[from] == '\\' {
        if from + 1 >= s.len() {
            None
        } else {
            literal_end(s, from + 2)
        }
    } else {
        literal_end(s, from + 1)
    }
}

/// `s` opens with a quote, and that literal closes with the last character
/// of `s`.
pub open spec fn is_string_literal(s: Seq<char>) -> bool {
    &&& s.len() >= 2
    &&& s[0] == '"'
    &&& literal_end(s, 1) == Some(s.len() - 1)
}

/// The codec reads the literal that it writes for `name` as `name` again.
pub open spec fn faithful(name: Seq<char>) -> bool {
    is_string_literal(json_string(name)) && json_string_value(json_string(name)) == Some(name)
}

/// `serde_json::to_string` on a string slice. The call succeeds: the codec
/// writes a string into a vector of its own, and the only error on that way
/// is one of the writer, which a vector does not give. What comes back is
/// one string literal: it opens and closes with a quote, every quote and
/// backslash of `text` is written behind a backslash, and reading the
/// literal back gives `text`.
#[verifier::external_body]
pub(crate) fn quote(text: &str) -> (r: Result<String, serde_json::Error>)
    ensures
        r is Ok,
        r matches Ok(literal) ==> {
            &&& literal@ == json_string(text@)
            &&& is_string_literal(literal@)
            &&& json_string_value(literal@) == Some(text@)
        },
{
    serde_json::to_string(text)
}

/// `serde_json::from_str` into a `String`: the text of a string literal, or
/// an error where `literal` is not one.
#[verifier::external_body]
pub(crate) fn unquote(literal: &str) -> (r: Result<String, serde_json::Error>)
    ensures
        match r {
            Ok(text) => json_string_value(literal@) == Some(text@),
            Err(_) => json_string_value(literal@).is_none(),
        },
{
    serde_json::from_str::<String>(literal)
}

/// `serde_json::from_str` into a `serde_json::Value`: whether the codec
/// reads `text` as one value, with nothing but blanks around it.
#[verifier::external_body]
pub(crate) fn is_json(text: &str) -> (valid: bool)
    ensures
        valid == json_valid(text@),
{
    serde_json::from_str::<serde_json::Value>(text).is_ok()
}

} // verus!
