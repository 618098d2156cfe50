//! What the library reads from and writes into HTTP: status codes and their
//! text, the `Range` request header, the `Content-Range` answer of a size
//! probe, and the download address.

use http::header::{HeaderValue, InvalidHeaderValue};
use http::uri::Uri;
use vstd::prelude::*;
use crate::messages::{concat, failure_message, label, FailureKind};
use crate::text::{
    after_last, chars_of, decimal, decimal_string, last_segment, parse_u64_spec, push_decimal,
    string_of,
};

verus! {

#[verifier::external_type_specification]
#[verifier::external_body]
pub struct ExHeaderValue(HeaderValue);

#[verifier::external_type_specification]
#[verifier::external_body]
pub struct ExInvalidHeaderValue(InvalidHeaderValue);

#[verifier::external_type_specification]
#[verifier::external_body]
pub struct ExUri(Uri);

/// The status code of a ranged answer (`206 Partial Content`).
pub const PARTIAL_CONTENT: u16 = 206;

/// The status code with which the hoster refuses a plain client.
pub const FORBIDDEN: u16 = 403;

/// Whether a status code is in the success class.
pub open spec fn is_success(code: u16) -> bool {
    200 <= code <= 299
}

/// Whether a status code is in the success class (`200..=299`).
pub fn status_is_success(code: u16) -> (r: bool)
    ensures
        r == is_success(code),
{
    200 <= code && code <= 299
}

/// The reason phrase that the `http` crate gives a status code, if it
/// knows one.
pub uninterp spec fn canonical_reason_of(code: u16) -> Option<Seq<char>>;

/// Calls `StatusCode::from_u16` and, for a valid code, its
/// `canonical_reason`.  States that the phrase is the one named by
/// `canonical_reason_of`, and, from `from_u16`'s source, that a code outside
/// `100..=999` has none.
#[verifier::external_body]
fn canonical_reason(code: u16) -> (r: Option<&'static str>)
    ensures
        match r {
            Some(t) => canonical_reason_of(code) == Some(t@),
            None => canonical_reason_of(code) is None,
        },
        (code < 100 || code > 999) ==> r is None,
{
    match http::StatusCode::from_u16(code) {
        Ok(s) => s.canonical_reason(),
        Err(_) => None,
    }
}

/// The text a status code prints as: its number, a space and its reason
/// phrase (`<unknown status code>` for a code without one).
pub open spec fn status_text_spec(code: u16) -> Seq<char> {
    decimal(code as nat) + " "@ + match canonical_reason_of(code) {
        Some(t) => t,
        None => "<unknown status code>"@,
    }
}

/// The text a status code prints as, such as `404 Not Found`.
pub fn status_text(code: u16) -> (r: String)
    ensures
        r@ == status_text_spec(code),
{
    let mut v: Vec<char> = Vec::new();
    push_decimal(&mut v, code as u128);
    v.push(' ');
    let reason = match canonical_reason(code) {
        Some(t) => t,
        None => "<unknown status code>",
    };
    let rc = chars_of(reason);
    let r = concat(v.as_slice(), rc.as_slice());
    assert(v@ =~= decimal(code as nat) + " "@) by {
        reveal_strlit(" ");
    }
    r
}

/// The failure text of an answer whose status is not acceptable: `HTTP `
/// and the status text.
pub fn http_status_message(code: u16) -> (r: String)
    ensures
        r@ == "HTTP "@ + status_text_spec(code),
{
    let s = status_text(code);
    let mut r = String::from_str("HTTP ");
    r.append(s.as_str());
    r
}

/// Whether a character can stand in a header value that is built from a
/// string: a tab, or anything from the space up but the delete character.
/// (Every byte of a character beyond ASCII is at least 128, so such
/// characters are accepted too.)
pub open spec fn header_char_ok(c: char) -> bool {
    c == '\t' || (' ' <= c && c != '\u{7f}')
}

/// The text a header value holds.
pub uninterp spec fn header_value_text(h: HeaderValue) -> Seq<char>;

/// Calls `HeaderValue::try_from` on a `String`.  From its source: it
/// succeeds exactly when every byte is a tab or at least 32 and not 127,
/// which for the bytes of a string is `header_char_ok` of every character,
/// and the value it builds holds the string's bytes unchanged.
#[verifier::external_body]
fn header_value_from_string(s: String) -> (r: Result<HeaderValue, InvalidHeaderValue>)
    ensures
        r is Ok <==> forall|i: int| 0 <= i < s@.len() ==> header_char_ok(#[trigger] s@[i]),
        r matches Ok(h) ==> header_value_text(h) == s@,
{
    HeaderValue::try_from(s)
}

/// Calls `Display::fmt` on an `InvalidHeaderValue`, whose source writes a
/// fixed text.
#[verifier::external_body]
fn invalid_header_text(e: &InvalidHeaderValue) -> (r: String)
    ensures
        r@ == "failed to parse header value"@,
{
    e.to_string()
}

/// The value of the `Range` header that asks for bytes `from..=end`.
pub open spec fn range_text(from: u64, end: u64) -> Seq<char> {
    "bytes="@ + decimal(from as nat) + "-"@ + decimal(end as nat)
}

/// The text `bytes=<from>-<end>` of a range request.
pub fn range_header_text(from: u64, end: u64) -> (r: String)
    ensures
        r@ == range_text(from, end),
{
    let mut v = chars_of("bytes=");
    push_decimal(&mut v, from as u128);
    v.push('-');
    push_decimal(&mut v, end as u128);
    proof {
        reveal_strlit("bytes=");
        reveal_strlit("-");
    }
    assert(v@ =~= range_text(from, end));
    string_of(v.as_slice())
}

/// The `Range` header asking for bytes `from..=end`; since its text is
/// made of ASCII letters, digits, `=` and `-`, building it never fails.
pub fn range_header(from: u64, end: u64) -> (r: Result<HeaderValue, String>)
    ensures
        r is Ok,
        r matches Ok(h) ==> header_value_text(h) == range_text(from, end),
{
    let t = range_header_text(from, end);
    proof {
        reveal_strlit("bytes=");
        reveal_strlit("-");
        lemma_decimal_header_chars(from as nat);
        lemma_decimal_header_chars(end as nat);
        assert forall|i: int| 0 <= i < t@.len() implies header_char_ok(#[trigger] t@[i]) by {
            let a = "bytes="@;
            let b = decimal(from as nat);
            let c = "-"@;
            if i < a.len() {
                assert(t@[i] == a[i]);
            } else if i < a.len() + b.len() {
                assert(t@[i] == b[i - a.len()]);
            } else if i < a.len() + b.len() + c.len() {
                assert(t@[i] == c[i - a.len() - b.len()]);
            } else {
                assert(t@[i] == decimal(end as nat)[i - a.len() - b.len() - c.len()]);
            }
        }
    }
    match header_value_from_string(t) {
        Ok(h) => Ok(h),
        Err(e) => Err(failure_message(FailureKind::Range, invalid_header_text(&e).as_str())),
    }
}

proof fn lemma_decimal_header_chars(n: nat)
    ensures
        forall|i: int| 0 <= i < decimal(n).len() ==> header_char_ok(#[trigger] decimal(n)[i]),
{
    crate::text::lemma_decimal_all_digits(n);
    assert forall|i: int| 0 <= i < decimal(n).len() implies header_char_ok(
        #[trigger] decimal(n)[i],
    ) by {
        assert(crate::text::is_digit(decimal(n)[i]));
    }
}

/// Whether a byte is visible ASCII or a tab, what `HeaderValue::to_str`
/// accepts.
pub open spec fn visible_ascii(b: u8) -> bool {
    (32 <= b && b < 127) || b == 9
}

/// What `HeaderValue::to_str` gives for the bytes of a header: the text
/// when every byte is visible ASCII or a tab, and `None` otherwise.
pub open spec fn header_text_spec(bytes: Seq<u8>) -> Option<Seq<char>> {
    if forall|i: int| 0 <= i < bytes.len() ==> visible_ascii(#[trigger] bytes[i]) {
        Some(bytes.map_values(|b: u8| b as char))
    } else {
        None
    }
}

/// The text of a header's bytes, as `HeaderValue::to_str` reads it.
pub fn header_text(bytes: &[u8]) -> (r: Option<Vec<char>>)
    ensures
        match r {
            Some(t) => header_text_spec(bytes@) == Some(t@),
            None => header_text_spec(bytes@) is None,
        },
{
    let mut v: Vec<char> = Vec::new();
    let mut i: usize = 0;
    while i < bytes.len()
        invariant
            i <= bytes@.len(),
            v@ == bytes@.take(i as int).map_values(|b: u8| b as char),
            forall|j: int| 0 <= j < i ==> visible_ascii(#[trigger] bytes@[j]),
        decreases bytes@.len() - i,
    {
        let b = bytes[i];
        if !((32 <= b && b < 127) || b == 9) {
            return None;
        }
        v.push(b as char);
        assert(bytes@.take(i + 1).map_values(|b: u8| b as char) =~= bytes@.take(i as int).map_values(
            |b: u8| b as char,
        ).push(b as char));
        i = i + 1;
    }
    assert(bytes@.take(bytes@.len() as int) =~= bytes@);
    Some(v)
}

/// The size a probe learns: for a `206` answer with a `Content-Range` header
/// whose text is visible ASCII, the number after its last `/`; zero
/// otherwise (another status, no header, or a size that is not a number).
pub open spec fn probe_total_spec(status: u16, content_range: Option<Seq<u8>>) -> u64 {
    if status != PARTIAL_CONTENT {
        0
    } else {
        match content_range {
            None => 0,
            Some(bytes) => match header_text_spec(bytes) {
                None => 0,
                Some(t) => match parse_u64_spec(last_segment(t, '/')) {
                    Some(n) => n,
                    None => 0,
                },
            },
        }
    }
}

/// Reads the file size from the answer to a `bytes=0-0` probe.
pub fn probe_total_from(status: u16, content_range: Option<&[u8]>) -> (r: u64)
    ensures
        r == probe_total_spec(
            status,
            match content_range {
                Some(b) => Some(b@),
                None => None,
            },
        ),
{
    if status != PARTIAL_CONTENT {
        return 0;
    }
    match content_range {
        None => 0,
        Some(bytes) => match header_text(bytes) {
            None => 0,
            Some(t) => {
                let seg = after_last(t.as_slice(), '/');
                match crate::text::parse_u64(seg.as_slice()) {
                    Some(n) => n,
                    None => 0,
                }
            },
        },
    }
}

/// Whether the `http` crate parses a text as a URI.
pub uninterp spec fn uri_parses(s: Seq<char>) -> bool;

/// Whether `u` is what the `http` crate makes of the text `s`.
pub uninterp spec fn uri_parsed_from(u: Uri, s: Seq<char>) -> bool;

/// The text that the error of the `http` crate's refusal of the text `s`
/// as a URI displays.
pub uninterp spec fn uri_error_text(s: Seq<char>) -> Seq<char>;

/// Calls `Uri::from_str`, and `Display::fmt` on its error.  States that it
/// succeeds exactly when `uri_parses` holds of the text, that what it
/// returns is the parse of that text, and that a refusal is described by
/// `uri_error_text` of the text (the error depends on the text alone); the
/// URI grammar itself is not stated.
#[verifier::external_body]
fn parse_uri(s: &str) -> (r: Result<Uri, String>)
    ensures
        r is Ok <==> uri_parses(s@),
        r matches Ok(u) ==> uri_parsed_from(u, s@),
        r matches Err(t) ==> t@ == uri_error_text(s@),
{
    s.parse::<Uri>().map_err(|e| e.to_string())
}

/// Parses the address of a request; a text the `http` crate rejects gives
/// `URI: ` and the reason.
pub fn request_uri(url: &str) -> (r: Result<Uri, String>)
    ensures
        r is Ok <==> uri_parses(url@),
        r matches Ok(u) ==> uri_parsed_from(u, url@),
        r matches Err(e) ==> e@ == label(FailureKind::Uri) + uri_error_text(url@),
{
    match parse_uri(url) {
        Ok(u) => Ok(u),
        Err(t) => Err(failure_message(FailureKind::Uri, t.as_str())),
    }
}

/// The text of a page request refused by the hoster's protection.
pub open spec fn protected_text() -> Seq<char> {
    "Cloudflare/DDoS korumas\u{131}"@
}

/// The verdict on the status of a page request: `403` means the page is
/// behind the hoster's protection; any other status lets its body be read.
pub fn page_status_check(status: u16) -> (r: Result<(), String>)
    ensures
        status == FORBIDDEN <==> r is Err,
        r matches Err(e) ==> e@ == protected_text(),
{
    if status == FORBIDDEN {
        Err(String::from_str("Cloudflare/DDoS korumas\u{131}"))
    } else {
        Ok(())
    }
}

} // verus!

verus! {

/// A probe reads back the size the server states: for a `206` answer whose
/// `Content-Range` text is anything, a `/` and the size in decimal, the size
/// found is that number.
pub proof fn lemma_probe_reads_size(bytes: Seq<u8>, pre: Seq<char>, size: u64)
    requires
        header_text_spec(bytes) == Some(pre + "/"@ + decimal(size as nat)),
    ensures
        probe_total_spec(PARTIAL_CONTENT, Some(bytes)) == size,
{
    reveal_strlit("/");
    let d = decimal(size as nat);
    let t = pre + "/"@ + d;
    crate::text::lemma_decimal_all_digits(size as nat);
    crate::text::lemma_decimal_round_trip(size);
    assert forall|j: int| pre.len() < j < t.len() implies t[j] != '/' by {
        let k: int = j - pre.len() - 1;
        assert(t[j] == d[k]);
        assert(crate::text::is_digit(d[k]));
    }
    assert(t[pre.len() as int] == '/');
    crate::text::lemma_last_index(t, '/', pre.len() as int);
    assert(t.skip(pre.len() + 1 as int) =~= d);
}

} // verus!
