//! The register of downloads: for every link, its progress (bytes, size,
//! error, pause flag, file path) and the user's pause, resume and cancel
//! requests.  Every command of the user interface and every progress update
//! of a running download is one method here.

use vstd::prelude::*;
use crate::control::{check_ctrl, ctrl_of, CtrlState};
use crate::messages::{cancelled_message, cancelled_text};
use crate::table::KeyedTable;

verus! {

/// How far a download has come, as the progress bar shows it.
#[derive(Clone, Copy, Debug, PartialEq, Eq, Structural)]
pub enum ProgressMark {
    /// Nothing reported yet (0 %).
    Start,
    /// `done` of `total` bytes (`100 * done / total` %).
    Ratio { done: u64, total: u64 },
    /// Finished (100 %).
    Full,
}

/// The progress of one download.
pub struct ProgState {
    pub progress: ProgressMark,
    pub downloaded: u64,
    pub total: u64,
    pub error: Option<String>,
    pub paused: bool,
    /// The path of the file being written, once known.
    pub sp: Option<String>,
}

/// The view of an optional string.
pub open spec fn opt_view(o: Option<String>) -> Option<Seq<char>> {
    match o {
        Some(s) => Some(s@),
        None => None,
    }
}

/// The progress of one download, with its strings as character sequences.
pub struct ProgView {
    pub progress: ProgressMark,
    pub downloaded: u64,
    pub total: u64,
    pub error: Option<Seq<char>>,
    pub paused: bool,
    pub sp: Option<Seq<char>>,
}

impl View for ProgState {
    type V = ProgView;

    open spec fn view(&self) -> ProgView {
        ProgView {
            progress: self.progress,
            downloaded: self.downloaded,
            total: self.total,
            error: opt_view(self.error),
            paused: self.paused,
            sp: opt_view(self.sp),
        }
    }
}

/// What the user interface is told of a download.
pub struct DownloadInfo {
    pub progress: ProgressMark,
    pub downloaded: u64,
    pub total: u64,
    pub error: Option<String>,
    pub paused: bool,
}

/// The progress of a download that has just started.
pub open spec fn fresh_view() -> ProgView {
    ProgView {
        progress: ProgressMark::Start,
        downloaded: 0,
        total: 0,
        error: None,
        paused: false,
        sp: None,
    }
}

/// What the user interface is told of a download, as a spec value:
/// progress, bytes, size, error and pause flag.
pub struct InfoView {
    pub progress: ProgressMark,
    pub downloaded: u64,
    pub total: u64,
    pub error: Option<Seq<char>>,
    pub paused: bool,
}

impl View for DownloadInfo {
    type V = InfoView;

    open spec fn view(&self) -> InfoView {
        InfoView {
            progress: self.progress,
            downloaded: self.downloaded,
            total: self.total,
            error: opt_view(self.error),
            paused: self.paused,
        }
    }
}

/// The register as maps from links to progress and to control states.
pub struct RegistryView {
    pub progress: Map<Seq<char>, ProgView>,
    pub ctrl: Map<Seq<char>, CtrlState>,
}

/// What the user interface is told of `link`: its progress if it is
/// registered, and zeros otherwise.
pub open spec fn info_of(r: RegistryView, link: Seq<char>) -> InfoView {
    if r.progress.contains_key(link) {
        let p = r.progress[link];
        InfoView {
            progress: p.progress,
            downloaded: p.downloaded,
            total: p.total,
            error: p.error,
            paused: p.paused,
        }
    } else {
        InfoView { progress: ProgressMark::Start, downloaded: 0, total: 0, error: None, paused: false }
    }
}

/// Applies `f` to the progress of `link`, if it is registered.
pub open spec fn update_progress(
    m: Map<Seq<char>, ProgView>,
    link: Seq<char>,
    f: spec_fn(ProgView) -> ProgView,
) -> Map<Seq<char>, ProgView> {
    if m.contains_key(link) {
        m.insert(link, f(m[link]))
    } else {
        m
    }
}

/// Starting a download: fresh progress, and running.
pub open spec fn begin_spec(r: RegistryView, link: Seq<char>) -> RegistryView {
    RegistryView { progress: r.progress.insert(link, fresh_view()), ctrl: r.ctrl.insert(link, CtrlState::Running) }
}

/// Pausing: the control state becomes paused.
pub open spec fn pause_spec(r: RegistryView, link: Seq<char>) -> RegistryView {
    RegistryView { ctrl: r.ctrl.insert(link, CtrlState::Paused), ..r }
}

/// Resuming: running again, and the pause flag is cleared.
pub open spec fn resume_spec(r: RegistryView, link: Seq<char>) -> RegistryView {
    RegistryView {
        progress: update_progress(r.progress, link, |p: ProgView| ProgView { paused: false, ..p }),
        ctrl: r.ctrl.insert(link, CtrlState::Running),
    }
}

/// Cancelling: cancelled, and the progress shows the cancellation.
pub open spec fn cancel_spec(r: RegistryView, link: Seq<char>) -> RegistryView {
    RegistryView {
        progress: update_progress(
            r.progress,
            link,
            |p: ProgView| ProgView { error: Some(cancelled_text()), ..p },
        ),
        ctrl: r.ctrl.insert(link, CtrlState::Cancelled),
    }
}

/// Clearing: the link is forgotten.
pub open spec fn clear_spec(r: RegistryView, link: Seq<char>) -> RegistryView {
    RegistryView { progress: r.progress.remove(link), ctrl: r.ctrl.remove(link) }
}

/// Recording the path of the file being written.
pub open spec fn set_path_spec(r: RegistryView, link: Seq<char>, sp: Seq<char>) -> RegistryView {
    RegistryView { progress: update_progress(r.progress, link, |p: ProgView| ProgView { sp: Some(sp), ..p }), ..r }
}

/// Recording the size of the file.
pub open spec fn set_total_spec(r: RegistryView, link: Seq<char>, total: u64) -> RegistryView {
    RegistryView { progress: update_progress(r.progress, link, |p: ProgView| ProgView { total, ..p }), ..r }
}

/// Recording the error a download ended with.
pub open spec fn set_error_spec(r: RegistryView, link: Seq<char>, e: Seq<char>) -> RegistryView {
    RegistryView { progress: update_progress(r.progress, link, |p: ProgView| ProgView { error: Some(e), ..p }), ..r }
}

/// Showing a download as paused.
pub open spec fn mark_paused_spec(r: RegistryView, link: Seq<char>) -> RegistryView {
    RegistryView { progress: update_progress(r.progress, link, |p: ProgView| ProgView { paused: true, ..p }), ..r }
}

/// The progress after `downloaded` bytes of a file of `total` bytes: the
/// ratio when the size is known, and the mark unchanged otherwise.
pub open spec fn ratio_or(p: ProgressMark, downloaded: u64, total: u64) -> ProgressMark {
    if total > 0 {
        ProgressMark::Ratio { done: downloaded, total }
    } else {
        p
    }
}

/// A part's report of `delta` more bytes: they are added to the count, and
/// the progress follows the count against the recorded size.
pub open spec fn add_downloaded_spec(r: RegistryView, link: Seq<char>, delta: u64) -> RegistryView {
    RegistryView {
        progress: update_progress(
            r.progress,
            link,
            |p: ProgView| ProgView {
                downloaded: (p.downloaded + delta) as u64,
                progress: ratio_or(p.progress, (p.downloaded + delta) as u64, p.total),
                ..p
            },
        ),
        ..r
    }
}

/// A single stream's report of its byte count, with the progress following
/// it against the size the probe found.
pub open spec fn set_downloaded_spec(r: RegistryView, link: Seq<char>, downloaded: u64, total: u64) -> RegistryView {
    RegistryView {
        progress: update_progress(
            r.progress,
            link,
            |p: ProgView| ProgView { downloaded, progress: ratio_or(p.progress, downloaded, total), ..p },
        ),
        ..r
    }
}

/// Marking a download finished.
pub open spec fn complete_spec(r: RegistryView, link: Seq<char>) -> RegistryView {
    RegistryView { progress: update_progress(r.progress, link, |p: ProgView| ProgView { progress: ProgressMark::Full, ..p }), ..r }
}

/// Progress and control of every download.
pub struct Registry {
    progress: KeyedTable<ProgState>,
    ctrl: KeyedTable<CtrlState>,
}

impl View for Registry {
    type V = RegistryView;

    open spec fn view(&self) -> RegistryView {
        self.maps()
    }
}

impl Registry {
    /// Both tables are well formed.
    pub closed spec fn wf(&self) -> bool {
        self.progress.wf() && self.ctrl.wf()
    }

    /// The register as maps.
    pub closed spec fn maps(&self) -> RegistryView {
        RegistryView {
            progress: self.progress@.map_values(|p: ProgState| p@),
            ctrl: self.ctrl@,
        }
    }

    /// An empty register.
    pub fn new() -> (r: Self)
        ensures
            r.wf(),
            r.view().progress == Map::<Seq<char>, ProgView>::empty(),
            r.view().ctrl == Map::<Seq<char>, CtrlState>::empty(),
    {
        let r = Registry { progress: KeyedTable::new(), ctrl: KeyedTable::new() };
        assert(r.view().progress =~= Map::<Seq<char>, ProgView>::empty());
        r
    }

    /// The control state of a download (running when it was never named).
    pub fn check_ctrl(&self, link: &str) -> (r: CtrlState)
        requires
            self.wf(),
        ensures
            r == ctrl_of(self.view().ctrl, link@),
    {
        check_ctrl(&self.ctrl, link)
    }

    /// Replaces the progress of `link` by `p`.
    fn put(&mut self, link: &str, p: ProgState)
        requires
            old(self).wf(),
        ensures
            final(self).wf(),
            final(self).view() == (RegistryView {
                progress: old(self).view().progress.insert(link@, p@),
                ..old(self).view()
            }),
    {
        self.progress.insert(link, p);
        assert(self.view().progress =~= old(self).view().progress.insert(link@, p@));
    }

    /// Takes the progress of `link` out of the register.
    fn take(&mut self, link: &str) -> (r: Option<ProgState>)
        requires
            old(self).wf(),
        ensures
            final(self).wf(),
            final(self).view() == (RegistryView {
                progress: old(self).view().progress.remove(link@),
                ..old(self).view()
            }),
            match r {
                Some(p) => old(self).view().progress.contains_key(link@) && old(
                    self,
                ).view().progress[link@] == p@,
                None => !old(self).view().progress.contains_key(link@),
            },
    {
        let r = self.progress.remove(link);
        assert(self.view().progress =~= old(self).view().progress.remove(link@));
        r
    }

    /// Starts a download: its progress is reset and it is running.
    pub fn begin_download(&mut self, link: &str)
        requires
            old(self).wf(),
        ensures
            final(self).wf(),
            final(self).view() == begin_spec(old(self).view(), link@),
    {
        let p = ProgState {
            progress: ProgressMark::Start,
            downloaded: 0,
            total: 0,
            error: None,
            paused: false,
            sp: None,
        };
        self.put(link, p);
        self.ctrl.insert(link, CtrlState::Running);
    }

    /// Pauses a download.
    pub fn pause_download(&mut self, link: &str)
        requires
            old(self).wf(),
        ensures
            final(self).wf(),
            final(self).view() == pause_spec(old(self).view(), link@),
    {
        self.ctrl.insert(link, CtrlState::Paused);
    }

    /// Resumes a download: it runs again and no longer shows as paused.
    pub fn resume_download(&mut self, link: &str)
        requires
            old(self).wf(),
        ensures
            final(self).wf(),
            final(self).view() == resume_spec(old(self).view(), link@),
    {
        self.ctrl.insert(link, CtrlState::Running);
        let ghost mid = self.view();
        match self.take(link) {
            Some(p) => {
                let q = ProgState { paused: false, ..p };
                self.put(link, q);
                assert(self.view().progress =~= update_progress(
                    mid.progress,
                    link@,
                    |p: ProgView| ProgView { paused: false, ..p },
                ));
            },
            None => {
                assert(self.view().progress =~= mid.progress);
            },
        }
    }

    /// Cancels a download: it is marked cancelled and its progress shows
    /// the cancellation.  Gives back the path of its file, if one is known,
    /// so the caller can delete it.
    pub fn cancel_download(&mut self, link: &str) -> (r: Option<String>)
        requires
            old(self).wf(),
        ensures
            final(self).wf(),
            final(self).view() == cancel_spec(old(self).view(), link@),
            opt_view(r) == (if old(self).view().progress.contains_key(link@) {
                old(self).view().progress[link@].sp
            } else {
                None
            }),
    {
        self.ctrl.insert(link, CtrlState::Cancelled);
        let ghost mid = self.view();
        match self.take(link) {
            Some(p) => {
                let path = match &p.sp {
                    Some(s) => Some(s.clone()),
                    None => None,
                };
                let q = ProgState { error: Some(cancelled_message()), ..p };
                self.put(link, q);
                assert(self.view().progress =~= update_progress(
                    mid.progress,
                    link@,
                    |p: ProgView| ProgView { error: Some(cancelled_text()), ..p },
                ));
                path
            },
            None => {
                assert(self.view().progress =~= mid.progress);
                None
            },
        }
    }

    /// What the user interface is told of a download: its progress, or
    /// zeros for a link that is not registered.
    pub fn get_download_progress(&self, link: &str) -> (r: DownloadInfo)
        requires
            self.wf(),
        ensures
            r@ == info_of(self.view(), link@),
            self.view().progress.contains_key(link@) ==> r.total == self.view().progress[link@].total
                && r.downloaded == self.view().progress[link@].downloaded && r.progress
                == self.view().progress[link@].progress && r.paused == self.view().progress[link@].paused
                && opt_view(r.error) == self.view().progress[link@].error,
    {
        match self.progress.get(link) {
            Some(p) => DownloadInfo {
                progress: p.progress,
                downloaded: p.downloaded,
                total: p.total,
                error: match &p.error {
                    Some(e) => Some(e.clone()),
                    None => None,
                },
                paused: p.paused,
            },
            None => DownloadInfo {
                progress: ProgressMark::Start,
                downloaded: 0,
                total: 0,
                error: None,
                paused: false,
            },
        }
    }

    /// Records the path of the file a download writes.
    pub fn set_save_path(&mut self, link: &str, sp: String)
        requires
            old(self).wf(),
        ensures
            final(self).wf(),
            final(self).view() == set_path_spec(old(self).view(), link@, sp@),
    {
        let ghost old_view = self.view();
        match self.take(link) {
            Some(p) => {
                let ghost sv = sp@;
                self.put(link, ProgState { sp: Some(sp), ..p });
                assert(self.view().progress =~= set_path_spec(old_view, link@, sv).progress);
            },
            None => {
                assert(self.view().progress =~= old_view.progress);
            },
        }
    }

    /// Records the size of a download's file.
    pub fn set_total(&mut self, link: &str, total: u64)
        requires
            old(self).wf(),
        ensures
            final(self).wf(),
            final(self).view() == set_total_spec(old(self).view(), link@, total),
    {
        let ghost old_view = self.view();
        match self.take(link) {
            Some(p) => {
                self.put(link, ProgState { total, ..p });
                assert(self.view().progress =~= set_total_spec(old_view, link@, total).progress);
            },
            None => {
                assert(self.view().progress =~= old_view.progress);
            },
        }
    }

    /// Records the error a download ended with.
    pub fn set_error(&mut self, link: &str, e: String)
        requires
            old(self).wf(),
        ensures
            final(self).wf(),
            final(self).view() == set_error_spec(old(self).view(), link@, e@),
    {
        let ghost old_view = self.view();
        match self.take(link) {
            Some(p) => {
                let ghost ev = e@;
                self.put(link, ProgState { error: Some(e), ..p });
                assert(self.view().progress =~= set_error_spec(old_view, link@, ev).progress);
            },
            None => {
                assert(self.view().progress =~= old_view.progress);
            },
        }
    }

    /// Shows a download as paused.
    pub fn mark_paused(&mut self, link: &str)
        requires
            old(self).wf(),
        ensures
            final(self).wf(),
            final(self).view() == mark_paused_spec(old(self).view(), link@),
    {
        let ghost old_view = self.view();
        match self.take(link) {
            Some(p) => {
                self.put(link, ProgState { paused: true, ..p });
                assert(self.view().progress =~= mark_paused_spec(old_view, link@).progress);
            },
            None => {
                assert(self.view().progress =~= old_view.progress);
            },
        }
    }

    /// Whether adding `delta` to the byte count of `link` stays within
    /// `u64`.
    pub open spec fn can_add(&self, link: Seq<char>, delta: u64) -> bool {
        self.view().progress.contains_key(link) ==> self.view().progress[link].downloaded + delta
            <= u64::MAX
    }

    /// Adds the bytes a part reports to the count of its download.
    pub fn add_downloaded(&mut self, link: &str, delta: u64)
        requires
            old(self).wf(),
            old(self).can_add(link@, delta),
        ensures
            final(self).wf(),
            final(self).view() == add_downloaded_spec(old(self).view(), link@, delta),
    {
        let ghost old_view = self.view();
        match self.take(link) {
            Some(p) => {
                let d = p.downloaded + delta;
                let progress = if p.total > 0 {
                    ProgressMark::Ratio { done: d, total: p.total }
                } else {
                    p.progress
                };
                self.put(link, ProgState { downloaded: d, progress, ..p });
                assert(self.view().progress =~= add_downloaded_spec(old_view, link@, delta).progress);
            },
            None => {
                assert(self.view().progress =~= old_view.progress);
            },
        }
    }

    /// Sets the byte count of a single-stream download, with the progress
    /// measured against `total` when it is known.
    pub fn set_downloaded(&mut self, link: &str, downloaded: u64, total: u64)
        requires
            old(self).wf(),
        ensures
            final(self).wf(),
            final(self).view() == set_downloaded_spec(old(self).view(), link@, downloaded, total),
            old(self).view().progress.contains_key(link@) ==> final(self).view().progress.contains_key(link@)
                && final(self).view().progress[link@].downloaded == downloaded,
    {
        let ghost old_view = self.view();
        match self.take(link) {
            Some(p) => {
                let progress = if total > 0 {
                    ProgressMark::Ratio { done: downloaded, total }
                } else {
                    p.progress
                };
                self.put(link, ProgState { downloaded, progress, ..p });
                assert(self.view().progress =~= set_downloaded_spec(old_view, link@, downloaded, total).progress);
            },
            None => {
                assert(self.view().progress =~= old_view.progress);
            },
        }
    }

    /// Marks a download finished.
    pub fn complete(&mut self, link: &str)
        requires
            old(self).wf(),
        ensures
            final(self).wf(),
            final(self).view() == complete_spec(old(self).view(), link@),
    {
        let ghost old_view = self.view();
        match self.take(link) {
            Some(p) => {
                self.put(link, ProgState { progress: ProgressMark::Full, ..p });
                assert(self.view().progress =~= complete_spec(old_view, link@).progress);
            },
            None => {
                assert(self.view().progress =~= old_view.progress);
            },
        }
    }

    /// Forgets a download.
    pub fn clear_download(&mut self, link: &str)
        requires
            old(self).wf(),
        ensures
            final(self).wf(),
            final(self).view() == clear_spec(old(self).view(), link@),
    {
        let _ = self.take(link);
        let _ = self.ctrl.remove(link);
    }
}

} // verus!

verus! {

/// What the user interface is told of a link the register does not hold.
pub open spec fn zero_info() -> InfoView {
    InfoView { progress: ProgressMark::Start, downloaded: 0, total: 0, error: None, paused: false }
}

/// Each command reads back as what it asked for: a started download runs
/// and shows zero progress; a paused one is paused; a resumed one runs and
/// no longer shows as paused; a cancelled one is cancelled and shows the
/// cancellation; a cleared one is forgotten (running, zero progress).
pub proof fn lemma_commands_read_back(r: RegistryView, link: Seq<char>)
    ensures
        ctrl_of(begin_spec(r, link).ctrl, link) == CtrlState::Running,
        info_of(begin_spec(r, link), link) == zero_info(),
        ctrl_of(pause_spec(r, link).ctrl, link) == CtrlState::Paused,
        ctrl_of(resume_spec(r, link).ctrl, link) == CtrlState::Running,
        !info_of(resume_spec(r, link), link).paused,
        ctrl_of(cancel_spec(r, link).ctrl, link) == CtrlState::Cancelled,
        r.progress.contains_key(link) ==> info_of(cancel_spec(r, link), link).error == Some(
            cancelled_text(),
        ),
        ctrl_of(clear_spec(r, link).ctrl, link) == CtrlState::Running,
        info_of(clear_spec(r, link), link) == zero_info(),
{
}

/// A command about one link leaves every other link as it was.
pub proof fn lemma_commands_are_local(r: RegistryView, link: Seq<char>, other: Seq<char>)
    requires
        link != other,
    ensures
        info_of(begin_spec(r, link), other) == info_of(r, other),
        ctrl_of(begin_spec(r, link).ctrl, other) == ctrl_of(r.ctrl, other),
        info_of(pause_spec(r, link), other) == info_of(r, other),
        ctrl_of(pause_spec(r, link).ctrl, other) == ctrl_of(r.ctrl, other),
        info_of(resume_spec(r, link), other) == info_of(r, other),
        ctrl_of(resume_spec(r, link).ctrl, other) == ctrl_of(r.ctrl, other),
        info_of(cancel_spec(r, link), other) == info_of(r, other),
        ctrl_of(cancel_spec(r, link).ctrl, other) == ctrl_of(r.ctrl, other),
        info_of(clear_spec(r, link), other) == info_of(r, other),
        ctrl_of(clear_spec(r, link).ctrl, other) == ctrl_of(r.ctrl, other),
{
}

/// A pause followed by a resume leaves the download running and not shown
/// as paused, whatever the running download marked in between.
pub proof fn lemma_pause_then_resume(r: RegistryView, link: Seq<char>)
    ensures
        ctrl_of(resume_spec(mark_paused_spec(pause_spec(r, link), link), link).ctrl, link)
            == CtrlState::Running,
        !info_of(resume_spec(mark_paused_spec(pause_spec(r, link), link), link), link).paused,
{
}

/// The sum of a run of reported byte counts.
pub open spec fn sum_deltas(ds: Seq<u64>) -> int
    decreases ds.len(),
{
    if ds.len() == 0 {
        0
    } else {
        sum_deltas(ds.drop_last()) + ds.last()
    }
}

proof fn lemma_sum_deltas_nonneg(ds: Seq<u64>)
    ensures
        sum_deltas(ds) >= 0,
    decreases ds.len(),
{
    if ds.len() > 0 {
        lemma_sum_deltas_nonneg(ds.drop_last());
    }
}

/// The register after a run of part reports for one link.
pub open spec fn add_all(r: RegistryView, link: Seq<char>, ds: Seq<u64>) -> RegistryView
    decreases ds.len(),
{
    if ds.len() == 0 {
        r
    } else {
        add_downloaded_spec(add_all(r, link, ds.drop_last()), link, ds.last())
    }
}

/// The reports of the parts add up: after a run of reports the byte count
/// of a started download has grown by their sum, and with the size known
/// the progress is that count against the size.
pub proof fn lemma_reports_accumulate(r: RegistryView, link: Seq<char>, ds: Seq<u64>)
    requires
        r.progress.contains_key(link),
        r.progress[link].downloaded + sum_deltas(ds) <= u64::MAX,
    ensures
        add_all(r, link, ds).progress.contains_key(link),
        add_all(r, link, ds).progress[link].downloaded == r.progress[link].downloaded + sum_deltas(ds),
        add_all(r, link, ds).progress[link].total == r.progress[link].total,
        ds.len() > 0 && r.progress[link].total > 0 ==> add_all(r, link, ds).progress[link].progress
            == (ProgressMark::Ratio {
            done: add_all(r, link, ds).progress[link].downloaded,
            total: r.progress[link].total,
        }),
        ctrl_of(add_all(r, link, ds).ctrl, link) == ctrl_of(r.ctrl, link),
    decreases ds.len(),
{
    if ds.len() > 0 {
        let t = ds.drop_last();
        lemma_sum_deltas_nonneg(t);
        lemma_reports_accumulate(r, link, t);
    }
}

/// A finished download shows full progress and keeps its byte count.
pub proof fn lemma_complete_is_full(r: RegistryView, link: Seq<char>)
    requires
        r.progress.contains_key(link),
    ensures
        info_of(complete_spec(r, link), link).progress == ProgressMark::Full,
        info_of(complete_spec(r, link), link).downloaded == info_of(r, link).downloaded,
{
}

/// What the interface is told reads back what was recorded: the size set
/// for a download, the byte count a single stream reports (the latest
/// report replaces the earlier one, it is not added to it), the error set,
/// and the pause mark; and after a start, a size of `t` and a part's report
/// of `d` bytes, the interface is told `d` bytes of `t`.
pub proof fn lemma_reports_read_back(
    r: RegistryView,
    link: Seq<char>,
    t: u64,
    d: u64,
    d2: u64,
    e: Seq<char>,
)
    requires
        r.progress.contains_key(link),
    ensures
        info_of(set_total_spec(r, link, t), link).total == t,
        info_of(set_downloaded_spec(r, link, d, t), link).downloaded == d,
        info_of(set_downloaded_spec(set_downloaded_spec(r, link, d, t), link, d2, t), link).downloaded == d2,
        info_of(set_downloaded_spec(r, link, d, t), link).total == info_of(r, link).total,
        info_of(set_error_spec(r, link, e), link).error == Some(e),
        info_of(mark_paused_spec(r, link), link).paused,
        info_of(add_downloaded_spec(set_total_spec(begin_spec(r, link), link, t), link, d), link).total == t,
        info_of(add_downloaded_spec(set_total_spec(begin_spec(r, link), link, t), link, d), link).downloaded
            == d,
{
}

} // verus!
