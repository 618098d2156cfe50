//! The texts a failed download reports, and how each failure that comes
//! from outside (an error's own text) is turned into one.

use vstd::prelude::*;
use crate::text::string_of;

verus! {

/// The text of a download that the user cancelled.
pub open spec fn cancelled_text() -> Seq<char> {
    "Cancelled"@
}

/// The text of a stream that sent nothing for the idle timeout.
pub open spec fn idle_text() -> Seq<char> {
    "\u{130}dare timeout: veri gelmedi"@
}

/// The text of a part whose stream closed before all its bytes came.
pub open spec fn incomplete_text() -> Seq<char> {
    "Eksik veri (ba\u{11f}lant\u{131} kapand\u{131})"@
}

/// The text of a server that answers a range request with the whole file.
pub open spec fn no_range_text() -> Seq<char> {
    "Sunucu aral\u{131}k iste\u{11f}ini desteklemiyor"@
}

/// A string literal as a `String`.
pub fn owned(s: &str) -> (r: String)
    ensures
        r@ == s@,
{
    String::from_str(s)
}

/// The text of a cancelled download.
pub fn cancelled_message() -> (r: String)
    ensures
        r@ == cancelled_text(),
{
    owned("Cancelled")
}

/// Whether an error text is the one of a cancelled download.
pub fn is_cancelled_message(e: &str) -> (r: bool)
    ensures
        r == (e@ == cancelled_text()),
{
    let a = crate::text::chars_of(e);
    let b = crate::text::chars_of("Cancelled");
    crate::text::chars_equal(a.as_slice(), b.as_slice())
}

/// The kinds of failure whose text is an outside error's text behind a
/// fixed label.
#[derive(Clone, Copy, Debug, PartialEq, Eq, Structural)]
pub enum FailureKind {
    /// The download address could not be parsed (`URI: `).
    Uri,
    /// The range header could not be built (`Range: `).
    Range,
    /// The request could not be sent or answered (`HTTP: `).
    Request,
    /// The body stream failed (`Stream: `).
    Stream,
    /// Writing to the file failed (`Write: `).
    Write,
    /// The file could not be opened (`Open: `).
    Open,
    /// The file could not be positioned (`Seek: `).
    Seek,
    /// The file could not be created (`File: `).
    File,
    /// The response body could not be read (`Body: `).
    Body,
    /// A link could not be parsed as a URL (`URL parse: `).
    UrlParse,
    /// The resolver window could not be opened (`resolver window: `).
    ResolverWindow,
}

/// The label a failure kind puts before an error's text.
pub open spec fn label(kind: FailureKind) -> Seq<char> {
    match kind {
        FailureKind::Uri => "URI: "@,
        FailureKind::Range => "Range: "@,
        FailureKind::Request => "HTTP: "@,
        FailureKind::Stream => "Stream: "@,
        FailureKind::Write => "Write: "@,
        FailureKind::Open => "Open: "@,
        FailureKind::Seek => "Seek: "@,
        FailureKind::File => "File: "@,
        FailureKind::Body => "Body: "@,
        FailureKind::UrlParse => "URL parse: "@,
        FailureKind::ResolverWindow => "resolver window: "@,
    }
}

/// The text of a failure: its label, then the outside error's own text.
pub fn failure_message(kind: FailureKind, detail: &str) -> (r: String)
    ensures
        r@ == label(kind) + detail@,
{
    let l = match kind {
        FailureKind::Uri => "URI: ",
        FailureKind::Range => "Range: ",
        FailureKind::Request => "HTTP: ",
        FailureKind::Stream => "Stream: ",
        FailureKind::Write => "Write: ",
        FailureKind::Open => "Open: ",
        FailureKind::Seek => "Seek: ",
        FailureKind::File => "File: ",
        FailureKind::Body => "Body: ",
        FailureKind::UrlParse => "URL parse: ",
        FailureKind::ResolverWindow => "resolver window: ",
    };
    let mut r = String::from_str(l);
    r.append(detail);
    r
}

/// Joins two character sequences into a `String`.
pub fn concat(a: &[char], b: &[char]) -> (r: String)
    ensures
        r@ == a@ + b@,
{
    let mut v: Vec<char> = Vec::new();
    let mut i: usize = 0;
    while i < a.len()
        invariant
            i <= a@.len(),
            v@ == a@.take(i as int),
        decreases a@.len() - i,
    {
        v.push(a[i]);
        assert(a@.take(i as int).push(a@[i as int]) =~= a@.take(i + 1));
        i = i + 1;
    }
    let mut j: usize = 0;
    while j < b.len()
        invariant
            i == a@.len(),
            j <= b@.len(),
            v@ == a@.take(i as int) + b@.take(j as int),
        decreases b@.len() - j,
    {
        v.push(b[j]);
        assert(b@.take(j as int).push(b@[j as int]) =~= b@.take(j + 1));
        assert(a@.take(i as int) + b@.take(j + 1) =~= (a@.take(i as int) + b@.take(j as int)).push(b@[j as int]));
        j = j + 1;
    }
    assert(a@.take(a@.len() as int) =~= a@);
    assert(b@.take(b@.len() as int) =~= b@);
    string_of(v.as_slice())
}

} // verus!
