//! Normalisation of a transport response: status, header map, cookies from
//! `Set-Cookie` headers, and the body decoded as text.
use vstd::prelude::*;
use vstd::string::*;
use vstd::utf8::{decode_utf8, valid_utf8};
use crate::http::{put_entry, put_header, unique_names, wire_pairs, WireHeader};
use crate::text::{owned, same_text};

verus! {

/// A cookie extracted from a response; domain and path are never filled in.
pub struct Cookie {
    pub name: String,
    pub value: String,
    pub domain: Option<String>,
    pub path: Option<String>,
}

/// The normalised response: status and reason, header map (one value per name),
/// body text, elapsed milliseconds, byte size of the body, and cookies.
pub struct HttpResponse {
    pub status: u16,
    pub status_text: String,
    pub headers: Vec<WireHeader>,
    pub body: String,
    pub response_time: u128,
    pub size: usize,
    pub cookies: Vec<Cookie>,
}

/// A whitespace character in the sense of Unicode's `White_Space` property.
pub open spec fn is_white(c: char) -> bool {
    c == ' ' || ('\t' <= c && c <= '\r') || c == '\u{85}' || c == '\u{a0}' || c == '\u{1680}'
        || ('\u{2000}' <= c && c <= '\u{200a}') || c == '\u{2028}' || c == '\u{2029}' || c
        == '\u{202f}' || c == '\u{205f}' || c == '\u{3000}'
}

pub open spec fn trim_start(s: Seq<char>) -> Seq<char>
    decreases s.len(),
{
    if s.len() > 0 && is_white(s[0]) {
        trim_start(s.drop_first())
    } else {
        s
    }
}

pub open spec fn trim_end(s: Seq<char>) -> Seq<char>
    decreases s.len(),
{
    if s.len() > 0 && is_white(s.last()) {
        trim_end(s.drop_last())
    } else {
        s
    }
}

/// A text without its leading and trailing whitespace.
pub open spec fn trimmed(s: Seq<char>) -> Seq<char> {
    trim_end(trim_start(s))
}

/// Whether a character is whitespace.
fn white(c: char) -> (r: bool)
    ensures
        r == is_white(c),
{
    c == ' ' || ('\t' <= c && c <= '\r') || c == '\u{85}' || c == '\u{a0}' || c == '\u{1680}'
        || ('\u{2000}' <= c && c <= '\u{200a}') || c == '\u{2028}' || c == '\u{2029}' || c
        == '\u{202f}' || c == '\u{205f}' || c == '\u{3000}'
}

proof fn lemma_trim_start(s: Seq<char>, i: int)
    requires
        0 <= i <= s.len(),
        forall|k: int| 0 <= k < i ==> is_white(#[trigger] s[k]),
        i == s.len() || !is_white(s[i]),
    ensures
        trim_start(s) == s.skip(i),
    decreases i,
{
    if i == 0 {
        assert(s.skip(0) =~= s);
    } else {
        let t = s.drop_first();
        assert forall|k: int| 0 <= k < i - 1 implies is_white(#[trigger] t[k]) by {
            assert(t[k] == s[k + 1]);
        }
        assert(is_white(s[0]));
        lemma_trim_start(t, i - 1);
        assert(t.skip(i - 1) =~= s.skip(i));
    }
}

proof fn lemma_trim_end(t: Seq<char>, j: int)
    requires
        0 <= j <= t.len(),
        forall|k: int| j <= k < t.len() ==> is_white(#[trigger] t[k]),
        j == 0 || !is_white(t[j - 1]),
    ensures
        trim_end(t) == t.take(j),
    decreases t.len() - j,
{
    if j == t.len() {
        assert(t.take(j) =~= t);
    } else {
        let d = t.drop_last();
        assert(is_white(t.last()));
        assert forall|k: int| j <= k < d.len() implies is_white(#[trigger] d[k]) by {
            assert(d[k] == t[k]);
        }
        lemma_trim_end(d, j);
        assert(d.take(j) =~= t.take(j));
    }
}

/// The text without its leading and trailing whitespace.
pub fn trim(s: &str) -> (r: String)
    ensures
        r@ == trimmed(s@),
{
    let n = s.unicode_len();
    let mut i: usize = 0;
    while i < n && white(s.get_char(i))
        invariant
            0 <= i <= n,
            n == s@.len(),
            forall|k: int| 0 <= k < i ==> is_white(#[trigger] s@[k]),
        decreases n - i,
    {
        i += 1;
    }
    proof {
        lemma_trim_start(s@, i as int);
    }
    let mut j: usize = n;
    while j > i && white(s.get_char(j - 1))
        invariant
            i <= j <= n,
            n == s@.len(),
            forall|k: int| j <= k < n ==> is_white(#[trigger] s@[k]),
        decreases j,
    {
        j -= 1;
    }
    let ghost t = s@.skip(i as int);
    proof {
        assert forall|k: int| j - i <= k < t.len() implies is_white(#[trigger] t[k]) by {
            assert(t[k] == s@[k + i]);
        }
        if j > i {
            assert(t[j - i - 1] == s@[j - 1]);
        }
        lemma_trim_end(t, j - i);
    }
    let r = String::from_str(s.substring_char(i, j));
    assert(r@ =~= t.take(j - i));
    r
}

/// The first index at or after `i` that holds `c`, or the length when none does.
pub open spec fn find_char(s: Seq<char>, c: char, i: int) -> int
    decreases s.len() - i,
{
    if i < 0 || i >= s.len() {
        s.len() as int
    } else if s[i] == c {
        i
    } else {
        find_char(s, c, i + 1)
    }
}

/// The cookie that one `Set-Cookie` value carries: the text before the first `;`,
/// split at its first `=`, both sides trimmed; none where that text has no `=`.
pub open spec fn cookie_of(s: Seq<char>) -> Option<(Seq<char>, Seq<char>)> {
    let head = s.take(find_char(s, ';', 0));
    let k = find_char(head, '=', 0);
    if k < head.len() {
        Some((trimmed(head.take(k)), trimmed(head.skip(k + 1))))
    } else {
        None
    }
}

proof fn lemma_find_char_bounds(s: Seq<char>, c: char, i: int)
    requires
        0 <= i,
    ensures
        i <= find_char(s, c, i) <= s.len() || (i > s.len() && find_char(s, c, i) == s.len()),
        find_char(s, c, i) < s.len() ==> s[find_char(s, c, i)] == c,
    decreases s.len() - i,
{
    if i < s.len() && s[i] != c {
        lemma_find_char_bounds(s, c, i + 1);
    }
}

/// The first index of `c` in `s`, or its length.
fn first_index(s: &str, c: char) -> (r: usize)
    ensures
        r == find_char(s@, c, 0),
{
    let n = s.unicode_len();
    let mut i: usize = 0;
    while i < n
        invariant
            0 <= i <= n,
            n == s@.len(),
            find_char(s@, c, 0) == find_char(s@, c, i as int),
        decreases n - i,
    {
        if s.get_char(i) == c {
            return i;
        }
        i += 1;
    }
    i
}

/// Extracts the cookie of one `Set-Cookie` header value; a malformed value gives none.
pub fn parse_set_cookie(s: &str) -> (r: Option<Cookie>)
    ensures
        r is Some <==> cookie_of(s@) is Some,
        r is Some ==> ({
            let c = r->Some_0;
            &&& (c.name@, c.value@) == cookie_of(s@)->Some_0
            &&& c.domain is None
            &&& c.path is None
        }),
{
    let end = first_index(s, ';');
    proof {
        lemma_find_char_bounds(s@, ';', 0);
    }
    let head = s.substring_char(0, end);
    let k = first_index(head, '=');
    proof {
        lemma_find_char_bounds(head@, '=', 0);
    }
    let n = head.unicode_len();
    if k < n {
        let name = trim(head.substring_char(0, k));
        let value = trim(head.substring_char(k + 1, n));
        assert(head@.skip(k + 1) =~= head@.subrange(k + 1, n as int));
        Some(Cookie { name, value, domain: None, path: None })
    } else {
        None
    }
}

/// The header map of a response: each name keeps the last value given for it, a
/// value that is not visible text counting as empty.
pub open spec fn response_map(hs: Seq<(String, Option<String>)>) -> Seq<(Seq<char>, Seq<char>)>
    decreases hs.len(),
{
    if hs.len() == 0 {
        seq![]
    } else {
        let h = hs.last();
        put_header(
            response_map(hs.drop_last()),
            h.0@,
            match h.1 {
                Some(v) => v@,
                None => Seq::empty(),
            },
        )
    }
}

/// The cookies of a response, one per well-formed `Set-Cookie` header, in order.
pub open spec fn response_cookies(hs: Seq<(String, Option<String>)>) -> Seq<(Seq<char>, Seq<char>)>
    decreases hs.len(),
{
    if hs.len() == 0 {
        seq![]
    } else {
        let acc = response_cookies(hs.drop_last());
        let h = hs.last();
        if h.0@ == "set-cookie"@ && h.1 is Some && cookie_of(h.1->Some_0@) is Some {
            acc.push(cookie_of(h.1->Some_0@)->Some_0)
        } else {
            acc
        }
    }
}

pub open spec fn cookie_pairs(cs: Seq<Cookie>) -> Seq<(Seq<char>, Seq<char>)> {
    cs.map_values(|c: Cookie| (c.name@, c.value@))
}

/// The reason phrase that the transport library knows for a status code.
pub uninterp spec fn canonical_reason_of(code: u16) -> Option<Seq<char>>;

/// Relies on `reqwest::StatusCode::from_u16` and `StatusCode::canonical_reason`: the
/// standard reason phrase of a status code, where there is one.
#[verifier::external_body]
fn canonical_reason(code: u16) -> (r: Option<String>)
    ensures
        r is Some <==> canonical_reason_of(code) is Some,
        r is Some ==> canonical_reason_of(code) == Some(r->Some_0@),
{
    reqwest::StatusCode::from_u16(code).ok().and_then(|s| s.canonical_reason()).map(
        |s| s.to_string(),
    )
}

/// The reason phrase reported for a status code.
pub open spec fn reason_text(code: u16) -> Seq<char> {
    match canonical_reason_of(code) {
        Some(r) => r,
        None => "Unknown"@,
    }
}

/// The text of a body decoded as UTF-8, invalid sequences replaced.
pub uninterp spec fn lossy_text(b: Seq<u8>) -> Seq<char>;

/// Relies on `String::from_utf8_lossy`: valid UTF-8 is decoded as it is; invalid
/// sequences become replacement characters.
#[verifier::external_body]
fn decode_lossy(b: &Vec<u8>) -> (r: String)
    ensures
        r@ == lossy_text(b@),
        valid_utf8(b@) ==> r@ == decode_utf8(b@),
{
    String::from_utf8_lossy(b.as_slice()).to_string()
}

/// Normalises what the transport returned: `headers` are the response's headers in
/// the transport's order, each value as text where it is visible text; `body` the
/// raw body bytes; `elapsed` the milliseconds from dispatch to the end of the body.
pub fn normalize_response(
    status: u16,
    headers: &Vec<(String, Option<String>)>,
    body: &Vec<u8>,
    elapsed: u128,
) -> (r: HttpResponse)
    ensures
        r.status == status,
        r.status_text@ == reason_text(status),
        wire_pairs(r.headers@) == response_map(headers@),
        r.body@ == lossy_text(body@),
        r.size == body.len(),
        r.response_time == elapsed,
        cookie_pairs(r.cookies@) == response_cookies(headers@),
        forall|i: int|
            0 <= i < r.cookies@.len() ==> (#[trigger] r.cookies@[i]).domain is None
                && r.cookies@[i].path is None,
{
    let status_text = match canonical_reason(status) {
        Some(t) => t,
        None => owned("Unknown"),
    };
    let mut map: Vec<WireHeader> = Vec::new();
    let mut cookies: Vec<Cookie> = Vec::new();
    let mut i: usize = 0;
    while i < headers.len()
        invariant
            0 <= i <= headers.len(),
            wire_pairs(map@) == response_map(headers@.take(i as int)),
            unique_names(wire_pairs(map@)),
            cookie_pairs(cookies@) == response_cookies(headers@.take(i as int)),
            forall|k: int|
                0 <= k < cookies@.len() ==> (#[trigger] cookies@[k]).domain is None
                    && cookies@[k].path is None,
        decreases headers.len() - i,
    {
        let ghost before = headers@.take(i as int);
        let ghost after = headers@.take(i + 1);
        assert(after.drop_last() == before);
        let h = &headers[i];
        assert(after.last() == *h);
        let value = match &h.1 {
            Some(v) => v.clone(),
            None => String::new(),
        };
        put_entry(&mut map, h.0.clone(), value);
        if same_text(h.0.as_str(), "set-cookie") {
            match &h.1 {
                Some(v) => match parse_set_cookie(v.as_str()) {
                    Some(c) => {
                        let ghost cs = cookie_pairs(cookies@);
                        cookies.push(c);
                        assert(cookie_pairs(cookies@) =~= cs.push(
                            cookie_of(h.1->Some_0@)->Some_0,
                        ));
                    },
                    None => {},
                },
                None => {},
            }
        }
        i += 1;
    }
    assert(headers@.take(headers.len() as int) =~= headers@);
    HttpResponse {
        status,
        status_text,
        headers: map,
        body: decode_lossy(body),
        response_time: elapsed,
        size: body.len(),
        cookies,
    }
}

} // verus!
