use vstd::prelude::*;

verus! {

/// A lower-case hexadecimal digit.
pub open spec fn hex_lower(n: int) -> char {
    if n < 10 {
        (48 + n) as char
    } else {
        (87 + n) as char
    }
}

/// How one character is written inside a JSON string literal: `"` and `\` are
/// backslash-escaped, the control characters U+0008, U+0009, U+000A, U+000C and
/// U+000D take their short escapes, the other characters below U+0020 are written as
/// `\u00XX` with lower-case hex digits, and every other character stands for itself.
pub open spec fn json_escape(c: char) -> Seq<char> {
    if c == '"' {
        seq!['\\', '"']
    } else if c == '\\' {
        seq!['\\', '\\']
    } else if c == '\u{8}' {
        seq!['\\', 'b']
    } else if c == '\t' {
        seq!['\\', 't']
    } else if c == '\n' {
        seq!['\\', 'n']
    } else if c == '\u{c}' {
        seq!['\\', 'f']
    } else if c == '\r' {
        seq!['\\', 'r']
    } else if (c as u32) < 0x20 {
        seq!['\\', 'u', '0', '0', hex_lower((c as int) / 16), hex_lower((c as int) % 16)]
    } else {
        seq![c]
    }
}

/// Every character of `s`, escaped for a JSON string literal.
pub open spec fn json_escape_all(s: Seq<char>) -> Seq<char>
    decreases s.len(),
{
    if s.len() == 0 {
        seq![]
    } else {
        json_escape(s[0]) + json_escape_all(s.drop_first())
    }
}

/// The JSON string literal that denotes `s`.
pub open spec fn json_string(s: Seq<char>) -> Seq<char> {
    seq!['"'] + json_escape_all(s) + seq!['"']
}

#[verifier::external_type_specification]
#[verifier::external_body]
pub struct ExJsonError(serde_json::Error);

/// `serde_json::to_string` on a `&str`. Its source (`Serializer::serialize_str`, then
/// `format_escaped_str` with the compact formatter, writing into a `Vec<u8>` that
/// never fails) writes the string between double quotes, escaping `"`, `\` and the
/// bytes below 0x20 as `json_string` describes; no other step can fail.
#[verifier::external_body]
pub(crate) fn json_encode_str(s: &str) -> (r: Result<String, serde_json::Error>)
    ensures
        r is Ok,
        r matches Ok(t) ==> t@ == json_string(s@),
{
    serde_json::to_string(s)
}

} // verus!
