//! Turning a hoster link into a direct download address: the file name a
//! link carries, the label of the hidden browser window that solves the
//! challenge, which navigations of that window are caught, and how long
//! and on what the caller waits for the answer.

use vstd::prelude::*;
use crate::control::CtrlState;
use crate::messages::{failure_message, label, FailureKind};
use crate::text::{chars_of, decimal, push_decimal, second_field, second_field_of, string_of};

verus! {

/// The text of a link without a `#file-name` fragment.
pub open spec fn no_filename_text() -> Seq<char> {
    "filename yok"@
}

/// The name of the file a link points to: the fragment after its `#` (up
/// to a further `#`).
pub fn download_filename(link: &str) -> (r: Result<String, String>)
    ensures
        match second_field(link@, '#') {
            Some(f) => r matches Ok(n) && n@ == f,
            None => r matches Err(e) && e@ == no_filename_text(),
        },
{
    let cs = chars_of(link);
    match second_field_of(cs.as_slice(), '#') {
        Some(f) => Ok(string_of(f.as_slice())),
        None => Err(String::from_str("filename yok")),
    }
}

/// `s` without the `c` characters it starts with.
pub open spec fn trim_start(s: Seq<char>, c: char) -> Seq<char>
    decreases s.len(),
{
    if s.len() > 0 && s[0] == c {
        trim_start(s.drop_first(), c)
    } else {
        s
    }
}

proof fn lemma_trim_start(s: Seq<char>, c: char, i: int)
    requires
        0 <= i <= s.len(),
        forall|j: int| 0 <= j < i ==> s[j] == c,
        i == s.len() || s[i] != c,
    ensures
        trim_start(s, c) == s.skip(i),
    decreases i,
{
    if i > 0 {
        assert forall|j: int| 0 <= j < i - 1 implies s.drop_first()[j] == c by {
            assert(s.drop_first()[j] == s[j + 1]);
        }
        if i < s.len() {
            assert(s.drop_first()[i - 1] == s[i]);
        }
        lemma_trim_start(s.drop_first(), c, i - 1);
        assert(s.drop_first().skip(i - 1) =~= s.skip(i));
    } else {
        assert(s.skip(0) =~= s);
    }
}

/// The label of the window that resolves a link: `ff_resolver_`, the path
/// of the link without its leading slashes, `_`, and a timestamp.
pub open spec fn resolver_label_spec(path: Seq<char>, stamp: u128) -> Seq<char> {
    "ff_resolver_"@ + trim_start(path, '/') + "_"@ + decimal(stamp as nat)
}

/// The label of the window that resolves a link with the given URL path,
/// opened at the given time.
pub fn resolver_label(path: &str, stamp: u128) -> (r: String)
    ensures
        r@ == resolver_label_spec(path@, stamp),
{
    let p = chars_of(path);
    let mut i: usize = 0;
    while i < p.len() && p[i] == '/'
        invariant
            i <= p@.len(),
            forall|j: int| 0 <= j < i ==> p@[j] == '/',
        decreases p@.len() - i,
    {
        i = i + 1;
    }
    proof {
        lemma_trim_start(p@, '/', i as int);
    }
    let mut v = chars_of("ff_resolver_");
    let ghost head = v@;
    let mut k = i;
    while k < p.len()
        invariant
            i <= k <= p@.len(),
            v@ == head + p@.subrange(i as int, k as int),
        decreases p@.len() - k,
    {
        v.push(p[k]);
        assert(p@.subrange(i as int, k + 1) =~= p@.subrange(i as int, k as int).push(p@[k as int]));
        k = k + 1;
    }
    assert(p@.subrange(i as int, p@.len() as int) =~= p@.skip(i as int));
    v.push('_');
    push_decimal(&mut v, stamp);
    proof {
        reveal_strlit("_");
    }
    assert(v@ =~= resolver_label_spec(path@, stamp));
    string_of(v.as_slice())
}


/// Whether `url`'s `Url::parse` accepts the text `s`.
pub uninterp spec fn url_parses(s: Seq<char>) -> bool;

/// The path that `url`'s `Url::path` gives of the address `Url::parse`
/// reads from `s`.
pub uninterp spec fn url_path_of(s: Seq<char>) -> Seq<char>;

/// The text that the error of `url`'s refusal of the text `s` displays.
pub uninterp spec fn url_error_text(s: Seq<char>) -> Seq<char>;

/// Calls `url::Url::parse` and, on success, `Url::path`; on failure, the
/// error's `Display` text.  Claimed: the result is `Ok` exactly when the
/// text parses, and then holds `url_path_of` the text, and otherwise
/// `url_error_text` of the text (each depends on the text alone).
#[verifier::external_body]
fn url_path(link: &str) -> (r: Result<String, String>)
    ensures
        r is Ok <==> url_parses(link@),
        r matches Ok(p) ==> p@ == url_path_of(link@),
        r matches Err(t) ==> t@ == url_error_text(link@),
{
    url::Url::parse(link).map(|u| u.path().to_string()).map_err(|e| e.to_string())
}

/// The label of the window that resolves `link`, opened at `stamp`: the
/// label of the path of the address the link writes, or, for a link that
/// is no address, `URL parse: ` and the reason.
pub fn resolver_target(link: &str, stamp: u128) -> (r: Result<String, String>)
    ensures
        r is Ok <==> url_parses(link@),
        r matches Ok(l) ==> l@ == resolver_label_spec(url_path_of(link@), stamp),
        r matches Err(e) ==> e@ == label(FailureKind::UrlParse) + url_error_text(link@),
{
    match url_path(link) {
        Ok(p) => Ok(resolver_label(p.as_str(), stamp)),
        Err(t) => Err(failure_message(FailureKind::UrlParse, t.as_str())),
    }
}

/// What happens to a navigation of the resolver window.
#[derive(Clone, Copy, Debug, PartialEq, Eq, Structural)]
pub enum NavDecision {
    /// A debug message of the page script: log it and stop the navigation.
    DebugMessage,
    /// The direct download address: hand it over and stop the navigation.
    Captured,
    /// Any other page: let the window go there.
    Allow,
}

/// The host of the page script's debug messages.
pub open spec fn debug_host() -> Seq<char> {
    "ff-dbg.local"@
}

/// The decision for a navigation to a URL with the given host.
pub open spec fn navigation_spec(host: Option<Seq<char>>) -> NavDecision {
    match host {
        None => NavDecision::Allow,
        Some(h) => if h == debug_host() {
            NavDecision::DebugMessage
        } else if h == "dl.fuckingfast.co"@ || (h.len() >= ".fuckingfast.co"@.len() && h.skip(
            h.len() - ".fuckingfast.co"@.len(),
        ) == ".fuckingfast.co"@) {
            NavDecision::Captured
        } else {
            NavDecision::Allow
        },
    }
}

/// Decides what the resolver window does with a navigation: the script's
/// debug host is logged and blocked, the hoster's download hosts are
/// captured and blocked, and everything else is allowed.
pub fn navigation_decision(host: Option<&str>) -> (r: NavDecision)
    ensures
        r == navigation_spec(
            match host {
                Some(h) => Some(h@),
                None => None,
            },
        ),
{
    match host {
        None => NavDecision::Allow,
        Some(h) => {
            let hc = chars_of(h);
            let dbg = chars_of("ff-dbg.local");
            let dl = chars_of("dl.fuckingfast.co");
            let suffix = chars_of(".fuckingfast.co");
            if crate::text::chars_equal(hc.as_slice(), dbg.as_slice()) {
                NavDecision::DebugMessage
            } else if crate::text::chars_equal(hc.as_slice(), dl.as_slice())
                || crate::text::ends_with(hc.as_slice(), suffix.as_slice()) {
                NavDecision::Captured
            } else {
                NavDecision::Allow
            }
        },
    }
}

/// After this long without an answer the resolver gives up.
pub const RESOLVE_TIMEOUT_MS: u64 = 360000;

/// After this long the resolver window is shown, so the user can solve the
/// challenge by hand.
pub const SHOW_WINDOW_MS: u64 = 180000;

/// How often the window's title and the control state are looked at.
pub const TITLE_POLL_MS: u64 = 500;

/// The text of a resolver that got no answer in time.
pub open spec fn resolve_timeout_text() -> Seq<char> {
    "Zaman a\u{15f}\u{131}m\u{131}: Cloudflare \u{e7}\u{f6}z\u{fc}lemedi"@
}

/// The text of a resolver whose channel closed.
pub open spec fn resolver_closed_text() -> Seq<char> {
    "resolver kapat\u{131}ld\u{131}"@
}

/// The prefix of a window title that carries the direct address.
pub open spec fn resolved_prefix() -> Seq<char> {
    "FF_RESOLVED|"@
}

/// What the wait does at a moment of elapsed time.
#[derive(Clone, Copy, Debug, PartialEq, Eq, Structural)]
pub enum TickStep {
    /// Give up: no answer came in time.
    TimedOut,
    /// Show the window now, then keep waiting.
    ShowWindow,
    /// Keep waiting.
    Wait,
}

/// The address a window title carries: what follows `FF_RESOLVED|`, when it
/// is not empty.
pub open spec fn title_address(t: Seq<char>) -> Option<Seq<char>> {
    if t.len() > resolved_prefix().len() && t.take(resolved_prefix().len() as int) == resolved_prefix() {
        Some(t.skip(resolved_prefix().len() as int))
    } else {
        None
    }
}

/// The effect of a moment of elapsed time on whether the window is shown,
/// and the step taken.
pub open spec fn tick_spec(shown: bool, elapsed_ms: u64) -> (bool, TickStep) {
    if elapsed_ms >= RESOLVE_TIMEOUT_MS {
        (shown, TickStep::TimedOut)
    } else if !shown && elapsed_ms >= SHOW_WINDOW_MS {
        (true, TickStep::ShowWindow)
    } else {
        (shown, TickStep::Wait)
    }
}

/// Over a run of ticks: whether the window ends up shown, and how many
/// times it was shown.
pub open spec fn run_ticks(shown: bool, ticks: Seq<u64>) -> (bool, nat)
    decreases ticks.len(),
{
    if ticks.len() == 0 {
        (shown, 0)
    } else {
        let (s, n) = run_ticks(shown, ticks.drop_last());
        let (s2, step) = tick_spec(s, ticks.last());
        (s2, if step == TickStep::ShowWindow { n + 1 } else { n })
    }
}

/// Whether a tick falls in the window between the show time and the
/// timeout.
pub open spec fn in_show_span(t: u64) -> bool {
    SHOW_WINDOW_MS <= t < RESOLVE_TIMEOUT_MS
}

/// The resolver window is shown at most once, and it is shown exactly when
/// some tick falls between the show time and the timeout.
pub proof fn lemma_window_shown_once(ticks: Seq<u64>)
    ensures
        run_ticks(false, ticks).1 <= 1,
        run_ticks(false, ticks).1 == 1 <==> run_ticks(false, ticks).0,
        run_ticks(false, ticks).0 <==> exists|i: int| 0 <= i < ticks.len() && in_show_span(#[trigger] ticks[i]),
    decreases ticks.len(),
{
    if ticks.len() > 0 {
        let t = ticks.drop_last();
        lemma_window_shown_once(t);
        assert forall|i: int| 0 <= i < t.len() implies #[trigger] t[i] == ticks[i] by {}
        if exists|i: int| 0 <= i < t.len() && in_show_span(#[trigger] t[i]) {
            let i = choose|i: int| 0 <= i < t.len() && in_show_span(#[trigger] t[i]);
            assert(in_show_span(ticks[i]));
        }
        if exists|i: int| 0 <= i < ticks.len() && in_show_span(#[trigger] ticks[i]) {
            let i = choose|i: int| 0 <= i < ticks.len() && in_show_span(#[trigger] ticks[i]);
            if i < t.len() {
                assert(in_show_span(t[i]));
            }
        }
    }
}

/// The state of a wait for the resolver's answer: whether the window has
/// been shown, and the last window title seen.
pub struct ResolverWait {
    pub shown: bool,
    pub last_title: String,
}

impl ResolverWait {
    /// A wait that has shown nothing and seen no title.
    pub fn new() -> (r: Self)
        ensures
            !r.shown,
            r.last_title@ == Seq::<char>::empty(),
    {
        ResolverWait { shown: false, last_title: String::new() }
    }

    /// The step at `elapsed_ms` since the wait began: past the timeout it
    /// gives up; past the show time, the first time only, the window is
    /// shown.
    pub fn on_tick(&mut self, elapsed_ms: u64) -> (r: TickStep)
        ensures
            (final(self).shown, r) == tick_spec(old(self).shown, elapsed_ms),
            elapsed_ms >= RESOLVE_TIMEOUT_MS ==> r == TickStep::TimedOut && final(self).shown == old(
                self,
            ).shown,
            elapsed_ms < RESOLVE_TIMEOUT_MS && !old(self).shown && elapsed_ms >= SHOW_WINDOW_MS ==> r
                == TickStep::ShowWindow && final(self).shown,
            elapsed_ms < RESOLVE_TIMEOUT_MS && (old(self).shown || elapsed_ms < SHOW_WINDOW_MS) ==> r
                == TickStep::Wait && final(self).shown == old(self).shown,
            final(self).last_title == old(self).last_title,
    {
        if elapsed_ms >= RESOLVE_TIMEOUT_MS {
            return TickStep::TimedOut;
        }
        if !self.shown && elapsed_ms >= SHOW_WINDOW_MS {
            self.shown = true;
            return TickStep::ShowWindow;
        }
        TickStep::Wait
    }

    /// Looks at the window's title (when it could be read): a title not
    /// seen just before is remembered, and if it carries an address, the
    /// address is returned.
    pub fn on_title(&mut self, title: Option<String>) -> (r: Option<String>)
        ensures
            final(self).shown == old(self).shown,
            match title {
                Some(t) => if t@ != old(self).last_title@ {
                    &&& final(self).last_title@ == t@
                    &&& match title_address(t@) {
                        Some(a) => r matches Some(x) && x@ == a,
                        None => r is None,
                    }
                } else {
                    final(self).last_title@ == old(self).last_title@ && r is None
                },
                None => final(self).last_title@ == old(self).last_title@ && r is None,
            },
    {
        match title {
            None => None,
            Some(t) => {
                if t == self.last_title {
                    return None;
                }
                let tc = chars_of(t.as_str());
                self.last_title = t;
                let prefix = chars_of("FF_RESOLVED|");
                if tc.len() > prefix.len() && crate::text::starts_with(tc.as_slice(), prefix.as_slice()) {
                    let rest = crate::text::slice_to_vec(tc.as_slice(), prefix.len(), tc.len());
                    assert(rest@ =~= tc@.skip(prefix@.len() as int));
                    Some(string_of(rest.as_slice()))
                } else {
                    None
                }
            },
        }
    }
}

/// The end of the wait when the resolver's channel yields: the address it
/// sent, or the error of a closed channel.
pub fn on_resolver_message(msg: Option<String>) -> (r: Result<String, String>)
    ensures
        match msg {
            Some(d) => r matches Ok(x) && x@ == d@,
            None => r matches Err(e) && e@ == resolver_closed_text(),
        },
{
    match msg {
        Some(d) => Ok(d),
        None => Err(String::from_str("resolver kapat\u{131}ld\u{131}")),
    }
}

/// The error of a wait that ran out of time.
pub fn resolve_timeout_message() -> (r: String)
    ensures
        r@ == resolve_timeout_text(),
{
    String::from_str("Zaman a\u{15f}\u{131}m\u{131}: Cloudflare \u{e7}\u{f6}z\u{fc}lemedi")
}

/// Whether the wait stops because the download was cancelled; the error
/// it then ends with.
pub fn cancel_check(c: CtrlState) -> (r: Option<String>)
    ensures
        c == CtrlState::Cancelled <==> r is Some,
        r matches Some(e) ==> e@ == crate::messages::cancelled_text(),
{
    match c {
        CtrlState::Cancelled => Some(crate::messages::cancelled_message()),
        _ => None,
    }
}

} // verus!
