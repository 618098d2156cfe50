//! The decisions of a running download: how a byte range is fetched and
//! retried (`PartTransfer`), how a whole file is streamed
//! (`SingleTransfer`), when progress is reported, and what a pause or
//! cancel request does.  The caller performs the requests, reads the
//! stream, writes the file and sleeps; these types say what to do next.

use vstd::prelude::*;
use crate::control::CtrlState;
use crate::messages::{failure_message, idle_text, incomplete_text, no_range_text, label, FailureKind};
use crate::wire::{http_status_message, is_success, status_text_spec, PARTIAL_CONTENT};

verus! {

/// Progress is reported after at least this many new bytes.
pub const SYNC_INTERVAL: u64 = 262144;

/// How often a failed part is tried again.
pub const MAX_RETRIES: u32 = 5;

/// How long a stream may stay silent before it counts as failed.
pub const IDLE_TIMEOUT_MS: u64 = 20000;

/// How long a paused download waits before it looks again.
pub const PAUSE_POLL_MS: u64 = 200;

/// The wait before retry number `attempt + 1`.
pub open spec fn backoff_ms(attempt: u32) -> u64 {
    (500 * (attempt + 1)) as u64
}

/// What a download does after asking for its control state.
#[derive(Clone, Copy, Debug, PartialEq, Eq, Structural)]
pub enum ControlStep {
    /// Go on.
    Proceed,
    /// Mark the download paused, wait `PAUSE_POLL_MS` and ask again.
    Wait,
    /// Stop: the download was cancelled.
    Abort,
}

/// The step that follows a control state: running goes on, paused waits,
/// cancelled stops.
pub fn control_step(c: CtrlState) -> (r: ControlStep)
    ensures
        c == CtrlState::Running <==> r == ControlStep::Proceed,
        c == CtrlState::Paused <==> r == ControlStep::Wait,
        c == CtrlState::Cancelled <==> r == ControlStep::Abort,
{
    match c {
        CtrlState::Running => ControlStep::Proceed,
        CtrlState::Paused => ControlStep::Wait,
        CtrlState::Cancelled => ControlStep::Abort,
    }
}

/// How a body stream broke off.
#[derive(Debug, PartialEq, Eq)]
pub enum StreamFailure {
    /// Nothing came for `IDLE_TIMEOUT_MS`.
    IdleTimeout,
    /// The stream reported an error, with its text.
    Stream(String),
    /// Writing a chunk to the file failed, with the error's text.
    Write(String),
}

/// The text a broken stream is reported with.
pub open spec fn stream_failure_text(f: StreamFailure) -> Seq<char> {
    match f {
        StreamFailure::IdleTimeout => idle_text(),
        StreamFailure::Stream(t) => label(FailureKind::Stream) + t@,
        StreamFailure::Write(t) => label(FailureKind::Write) + t@,
    }
}

/// The text a broken stream is reported with.
pub fn stream_failure_message(f: &StreamFailure) -> (r: String)
    ensures
        r@ == stream_failure_text(*f),
{
    match f {
        StreamFailure::IdleTimeout => String::from_str("\u{130}dare timeout: veri gelmedi"),
        StreamFailure::Stream(t) => failure_message(FailureKind::Stream, t.as_str()),
        StreamFailure::Write(t) => failure_message(FailureKind::Write, t.as_str()),
    }
}

/// What follows the status of a range request.
#[derive(Debug, PartialEq, Eq)]
pub enum ResponseStep {
    /// Read the body and write it from the requested offset on.
    Stream,
    /// Wait this long, then try the part again.
    Retry { delay_ms: u64 },
    /// Give the part up with this text.
    Fail(String),
}

/// What follows the end of a part's stream.
#[derive(Debug, PartialEq, Eq)]
pub enum EndStep {
    /// Every byte of the part is written.
    Complete,
    /// Wait this long, then try again from the first missing byte.
    Retry { delay_ms: u64 },
    /// Give the part up with this text.
    Fail(String),
}

/// One byte range `start..=end` of a parallel download, with what has been
/// written of it, what of that has been reported as progress, and which
/// attempt is running (the first is attempt zero).
#[derive(Clone, Copy, Debug, PartialEq, Eq, Structural)]
pub struct PartTransfer {
    pub start: u64,
    pub end: u64,
    pub written: u64,
    pub last_sync: u64,
    pub attempt: u32,
}

impl PartTransfer {
    /// A consistent state: a range of fewer than `u64::MAX` bytes, no more
    /// reported than written, and no attempt beyond the last one.
    pub open spec fn wf(self) -> bool {
        &&& self.start <= self.end
        &&& self.end - self.start < u64::MAX
        &&& self.last_sync <= self.written
        &&& self.attempt <= MAX_RETRIES
    }

    /// The number of bytes of the range.
    pub open spec fn len_spec(self) -> nat {
        (self.end - self.start + 1) as nat
    }

    /// The first byte not yet written.
    pub open spec fn from_spec(self) -> int {
        self.start + self.written
    }

    /// A part that has written nothing yet.
    pub fn new(start: u64, end: u64) -> (r: Self)
        requires
            start <= end,
            end - start < u64::MAX,
        ensures
            r.wf(),
            r == (PartTransfer { start, end, written: 0, last_sync: 0, attempt: 0 }),
    {
        PartTransfer { start, end, written: 0, last_sync: 0, attempt: 0 }
    }

    /// The number of bytes of the range.
    pub fn part_len(&self) -> (r: u64)
        requires
            self.wf(),
        ensures
            r == self.len_spec(),
    {
        self.end - self.start + 1
    }

    /// Where the next attempt starts: the first byte not yet written, or
    /// `None` when it lies past the end of the range (the part is done).
    pub fn next_from(&self) -> (r: Option<u64>)
        requires
            self.wf(),
            self.from_spec() <= u64::MAX,
        ensures
            match r {
                Some(from) => from == self.from_spec() && from <= self.end,
                None => self.from_spec() > self.end,
            },
    {
        let from = self.start + self.written;
        if from > self.end {
            None
        } else {
            Some(from)
        }
    }

    /// The verdict on the status of a range request that starts at `from`:
    /// a `206` answer is streamed; an answer outside the success class, or
    /// a whole-file answer to a request that does not start at byte zero,
    /// is retried after `backoff_ms(attempt)`, or on the last attempt fails
    /// with `HTTP <status>` or the text of a server without ranges.
    pub fn on_response(&self, status: u16, from: u64) -> (r: ResponseStep)
        requires
            self.wf(),
        ensures
            status == PARTIAL_CONTENT ==> r == ResponseStep::Stream,
            status != PARTIAL_CONTENT && !is_success(status) ==> (if self.attempt == MAX_RETRIES {
                r matches ResponseStep::Fail(e) && e@ == "HTTP "@ + status_text_spec(status)
            } else {
                r == ResponseStep::Retry { delay_ms: backoff_ms(self.attempt) }
            }),
            status != PARTIAL_CONTENT && is_success(status) && from > 0 ==> (if self.attempt
                == MAX_RETRIES {
                r matches ResponseStep::Fail(e) && e@ == no_range_text()
            } else {
                r == ResponseStep::Retry { delay_ms: backoff_ms(self.attempt) }
            }),
            status != PARTIAL_CONTENT && is_success(status) && from == 0 ==> r
                == ResponseStep::Stream,
    {
        let ranged = status == PARTIAL_CONTENT;
        let success = 200 <= status && status <= 299;
        if !ranged && !success {
            if self.attempt == MAX_RETRIES {
                return ResponseStep::Fail(http_status_message(status));
            }
            return ResponseStep::Retry { delay_ms: 500 * (self.attempt as u64 + 1) };
        }
        if !ranged && from > 0 {
            if self.attempt == MAX_RETRIES {
                return ResponseStep::Fail(String::from_str("Sunucu aral\u{131}k iste\u{11f}ini desteklemiyor"));
            }
            return ResponseStep::Retry { delay_ms: 500 * (self.attempt as u64 + 1) };
        }
        ResponseStep::Stream
    }

    /// Counts a chunk of `len` bytes written to the file.  When at least
    /// `SYNC_INTERVAL` bytes have gone unreported, or the range is filled,
    /// the unreported bytes are reported: the number is returned and they
    /// count as reported from now on.
    pub fn record_chunk(&mut self, len: u64) -> (r: Option<u64>)
        requires
            old(self).wf(),
            old(self).written + len <= u64::MAX,
        ensures
            final(self).wf(),
            (*final(self), r) == chunk_step(*old(self), len),
    {
        self.written = self.written + len;
        if self.written - self.last_sync < SYNC_INTERVAL && self.written < self.end - self.start + 1 {
            return None;
        }
        let delta = self.written - self.last_sync;
        self.last_sync = self.written;
        Some(delta)
    }

    /// The verdict at the end of a part's stream, given how it broke off
    /// (if it did): a filled range is complete; otherwise the part is tried
    /// again after `backoff_ms(attempt)`, or on the last attempt fails with
    /// the break's text (or the text of a closed connection).
    pub fn on_stream_end(&self, failure: Option<StreamFailure>) -> (r: EndStep)
        requires
            self.wf(),
        ensures
            self.written >= self.len_spec() ==> r == EndStep::Complete,
            self.written < self.len_spec() ==> (if self.attempt == MAX_RETRIES {
                r matches EndStep::Fail(e) && e@ == match failure {
                    Some(f) => stream_failure_text(f),
                    None => incomplete_text(),
                }
            } else {
                r == EndStep::Retry { delay_ms: backoff_ms(self.attempt) }
            }),
    {
        if self.written < self.end - self.start + 1 {
            if self.attempt == MAX_RETRIES {
                let e = match &failure {
                    Some(f) => stream_failure_message(f),
                    None => String::from_str("Eksik veri (ba\u{11f}lant\u{131} kapand\u{131})"),
                };
                return EndStep::Fail(e);
            }
            return EndStep::Retry { delay_ms: 500 * (self.attempt as u64 + 1) };
        }
        EndStep::Complete
    }

    /// Moves on to the next attempt.
    pub fn retry(&mut self)
        requires
            old(self).wf(),
            old(self).attempt < MAX_RETRIES,
        ensures
            final(self).wf(),
            *final(self) == (PartTransfer { attempt: (old(self).attempt + 1) as u32, ..*old(self) }),
    {
        self.attempt = self.attempt + 1;
    }
}

/// The effect of counting a chunk of `len` bytes: the new state, and the
/// bytes reported if a report is due.
pub open spec fn chunk_step(t: PartTransfer, len: u64) -> (PartTransfer, Option<u64>) {
    let w = (t.written + len) as u64;
    if w - t.last_sync < SYNC_INTERVAL && w < t.len_spec() {
        (PartTransfer { written: w, ..t }, None)
    } else {
        (PartTransfer { written: w, last_sync: w, ..t }, Some((w - t.last_sync) as u64))
    }
}

/// The state after a run of chunks, and the sum of the bytes reported on
/// the way.
pub open spec fn chunks_step(t: PartTransfer, lens: Seq<u64>) -> (PartTransfer, int)
    decreases lens.len(),
{
    if lens.len() == 0 {
        (t, 0)
    } else {
        let (u, acc) = chunks_step(t, lens.drop_last());
        let (v, r) = chunk_step(u, lens.last());
        (v, acc + match r {
            Some(d) => d as int,
            None => 0,
        })
    }
}

/// The sum of a run of chunk lengths.
pub open spec fn sum_lens(lens: Seq<u64>) -> int
    decreases lens.len(),
{
    if lens.len() == 0 {
        0
    } else {
        sum_lens(lens.drop_last()) + lens.last()
    }
}

/// Progress reports add up: over any run of chunks, the bytes reported sum
/// to the growth of the reported count; every byte counts once toward the
/// written count; fewer than `SYNC_INTERVAL` bytes stay unreported; and once
/// the range is filled, everything written has been reported.
pub proof fn lemma_reports_add_up(t: PartTransfer, lens: Seq<u64>)
    requires
        t.wf(),
        t.written - t.last_sync < SYNC_INTERVAL,
        t.written + sum_lens(lens) <= u64::MAX,
    ensures
        ({
            let (u, reported) = chunks_step(t, lens);
            &&& u.wf()
            &&& u.written == t.written + sum_lens(lens)
            &&& reported == u.last_sync - t.last_sync
            &&& u.written - u.last_sync < SYNC_INTERVAL
            &&& (lens.len() > 0 && u.written >= u.len_spec() ==> u.last_sync == u.written)
            &&& u.start == t.start && u.end == t.end && u.attempt == t.attempt
        }),
    decreases lens.len(),
{
    if lens.len() > 0 {
        lemma_sum_lens_nonneg(lens.drop_last());
        lemma_reports_add_up(t, lens.drop_last());
    }
}

proof fn lemma_sum_lens_nonneg(lens: Seq<u64>)
    ensures
        sum_lens(lens) >= 0,
    decreases lens.len(),
{
    if lens.len() > 0 {
        lemma_sum_lens_nonneg(lens.drop_last());
    }
}

/// A download through one stream: the size the probe found (zero when
/// unknown), the bytes written, and the count last reported.
#[derive(Clone, Copy, Debug, PartialEq, Eq, Structural)]
pub struct SingleTransfer {
    pub total: u64,
    pub downloaded: u64,
    pub last_sync: u64,
}

impl SingleTransfer {
    /// No more reported than written.
    pub open spec fn wf(self) -> bool {
        self.last_sync <= self.downloaded
    }

    /// A stream that has written nothing yet.
    pub fn new(total: u64) -> (r: Self)
        ensures
            r.wf(),
            r == (SingleTransfer { total, downloaded: 0, last_sync: 0 }),
    {
        SingleTransfer { total, downloaded: 0, last_sync: 0 }
    }

    /// Counts a chunk of `len` bytes written to the file.  When at least
    /// `SYNC_INTERVAL` bytes have gone unreported, or the count reaches the
    /// known size, a report is due: the new count is returned and counts as
    /// reported.
    pub fn record_chunk(&mut self, len: u64) -> (r: Option<u64>)
        requires
            old(self).wf(),
            old(self).downloaded + len <= u64::MAX,
        ensures
            final(self).wf(),
            final(self).total == old(self).total,
            final(self).downloaded == old(self).downloaded + len,
            ({
                let d = final(self).downloaded;
                if d - old(self).last_sync < SYNC_INTERVAL && d != old(self).total {
                    r is None && final(self).last_sync == old(self).last_sync
                } else {
                    r == Some(d) && final(self).last_sync == d
                }
            }),
    {
        self.downloaded = self.downloaded + len;
        if self.downloaded - self.last_sync < SYNC_INTERVAL && self.downloaded != self.total {
            return None;
        }
        self.last_sync = self.downloaded;
        Some(self.downloaded)
    }
}

} // verus!
