//! Wire-level rules of HTTP tokens, header names and header values, and the
//! transport-library checks that enforce them.
use vstd::prelude::*;

verus! {

/// A token character of HTTP (`tchar`): letters, digits and ``!#$%&'*+-.^_`|~``.
pub open spec fn is_tchar(c: char) -> bool {
    ('a' <= c && c <= 'z') || ('A' <= c && c <= 'Z') || ('0' <= c && c <= '9') || c == '!'
        || c == '#' || c == '$' || c == '%' || c == '&' || c == '\'' || c == '*' || c == '+'
        || c == '-' || c == '.' || c == '^' || c == '_' || c == '`' || c == '|' || c == '~'
}

/// A method is a non-empty run of token characters.
pub open spec fn is_method_token(s: Seq<char>) -> bool {
    s.len() > 0 && forall|i: int| 0 <= i < s.len() ==> is_tchar(#[trigger] s[i])
}

/// The longest header name the transport accepts.
pub const MAX_HEADER_NAME_LEN: usize = 65535;

/// A header name is a non-empty run of token characters of bounded length.
pub open spec fn is_header_name(s: Seq<char>) -> bool {
    0 < s.len() <= MAX_HEADER_NAME_LEN && forall|i: int|
        0 <= i < s.len() ==> is_tchar(#[trigger] s[i])
}

/// A header value holds no control character but the horizontal tab.
pub open spec fn is_value_char(c: char) -> bool {
    (c as u32 >= 32 && c as u32 != 127) || c == '\t'
}

pub open spec fn is_header_value(s: Seq<char>) -> bool {
    forall|i: int| 0 <= i < s.len() ==> is_value_char(#[trigger] s[i])
}

/// ASCII lower case of one character; every other character is kept.
pub open spec fn lower_char(c: char) -> char {
    match c {
        'A' => 'a',
        'B' => 'b',
        'C' => 'c',
        'D' => 'd',
        'E' => 'e',
        'F' => 'f',
        'G' => 'g',
        'H' => 'h',
        'I' => 'i',
        'J' => 'j',
        'K' => 'k',
        'L' => 'l',
        'M' => 'm',
        'N' => 'n',
        'O' => 'o',
        'P' => 'p',
        'Q' => 'q',
        'R' => 'r',
        'S' => 's',
        'T' => 't',
        'U' => 'u',
        'V' => 'v',
        'W' => 'w',
        'X' => 'x',
        'Y' => 'y',
        'Z' => 'z',
        _ => c,
    }
}

/// The normalised (lower-case) form of a header name.
pub open spec fn lower_name(s: Seq<char>) -> Seq<char> {
    s.map_values(|c: char| lower_char(c))
}

/// Relies on `reqwest::Method`'s `FromStr` (http's `Method::from_bytes`): it accepts
/// exactly the non-empty runs of token characters and keeps their spelling; the error
/// is that crate's message.
#[verifier::external_body]
pub(crate) fn parse_method(s: &str) -> (r: Result<String, String>)
    ensures
        r is Ok <==> is_method_token(s@),
        r is Ok ==> r->Ok_0@ == s@,
{
    s.parse::<reqwest::Method>().map(|m| m.as_str().to_string()).map_err(|e| e.to_string())
}

/// Relies on `reqwest::header::HeaderName::from_bytes`: it accepts exactly the header
/// names of bounded length made of token characters, and lower-cases them.
#[verifier::external_body]
pub(crate) fn parse_header_name(s: &str) -> (r: Result<String, String>)
    ensures
        r is Ok <==> is_header_name(s@),
        r is Ok ==> r->Ok_0@ == lower_name(s@),
{
    reqwest::header::HeaderName::from_bytes(s.as_bytes()).map(|n| n.as_str().to_string()).map_err(
        |e| e.to_string(),
    )
}

/// Relies on `reqwest::header::HeaderValue::from_str`: it refuses a value exactly
/// when one of its bytes is a control byte other than the tab (bytes of non-ASCII
/// characters are all accepted), and keeps the text.
#[verifier::external_body]
pub(crate) fn parse_header_value(s: &str) -> (r: Result<String, String>)
    ensures
        r is Ok <==> is_header_value(s@),
        r is Ok ==> r->Ok_0@ == s@,
{
    reqwest::header::HeaderValue::from_str(s).map(|_| s.to_string()).map_err(|e| e.to_string())
}

} // verus!
