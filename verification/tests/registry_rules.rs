use fitgirl_downloader::control::{check_ctrl, delete_step, CtrlState, DeleteStep, DELETE_ATTEMPTS};
use fitgirl_downloader::registry::{ProgressMark, Registry};
use fitgirl_downloader::table::KeyedTable;

const LINK: &str = "https://fuckingfast.co/abc#game.part1.rar";
const OTHER: &str = "https://fuckingfast.co/def#game.part2.rar";

#[test]
fn unknown_links_are_running_and_empty() {
    let r = Registry::new();
    assert_eq!(r.check_ctrl(LINK), CtrlState::Running);
    let info = r.get_download_progress(LINK);
    assert_eq!(info.progress, ProgressMark::Start);
    assert_eq!(info.downloaded, 0);
    assert_eq!(info.total, 0);
    assert_eq!(info.error, None);
    assert!(!info.paused);
}

#[test]
fn check_ctrl_reads_the_table() {
    let mut t: KeyedTable<CtrlState> = KeyedTable::new();
    assert_eq!(check_ctrl(&t, LINK), CtrlState::Running);
    t.insert(LINK, CtrlState::Paused);
    assert_eq!(check_ctrl(&t, LINK), CtrlState::Paused);
    assert_eq!(check_ctrl(&t, OTHER), CtrlState::Running);
    t.insert(LINK, CtrlState::Cancelled);
    assert_eq!(check_ctrl(&t, LINK), CtrlState::Cancelled);
    assert_eq!(t.len(), 1);
    assert_eq!(t.remove(LINK), Some(CtrlState::Cancelled));
    assert_eq!(check_ctrl(&t, LINK), CtrlState::Running);
    assert_eq!(t.len(), 0);
}

#[test]
fn pause_resume_cancel_read_back() {
    let mut r = Registry::new();
    r.begin_download(LINK);
    assert_eq!(r.check_ctrl(LINK), CtrlState::Running);
    r.pause_download(LINK);
    assert_eq!(r.check_ctrl(LINK), CtrlState::Paused);
    r.mark_paused(LINK);
    assert!(r.get_download_progress(LINK).paused);
    r.resume_download(LINK);
    assert_eq!(r.check_ctrl(LINK), CtrlState::Running);
    assert!(!r.get_download_progress(LINK).paused);
    r.set_save_path(LINK, "/downloads/game.part1.rar".to_string());
    let path = r.cancel_download(LINK);
    assert_eq!(path, Some("/downloads/game.part1.rar".to_string()));
    assert_eq!(r.check_ctrl(LINK), CtrlState::Cancelled);
    assert_eq!(r.get_download_progress(LINK).error, Some("Cancelled".to_string()));
    assert_eq!(r.check_ctrl(OTHER), CtrlState::Running);
}

#[test]
fn cancel_before_start_gives_no_path() {
    let mut r = Registry::new();
    assert_eq!(r.cancel_download(LINK), None);
    assert_eq!(r.check_ctrl(LINK), CtrlState::Cancelled);
    assert_eq!(r.get_download_progress(LINK).error, None);
}

#[test]
fn clear_forgets_a_download() {
    let mut r = Registry::new();
    r.begin_download(LINK);
    r.pause_download(LINK);
    r.set_total(LINK, 100);
    r.clear_download(LINK);
    assert_eq!(r.check_ctrl(LINK), CtrlState::Running);
    assert_eq!(r.get_download_progress(LINK).total, 0);
}

#[test]
fn part_reports_add_up_to_progress() {
    let mut r = Registry::new();
    r.begin_download(LINK);
    r.set_total(LINK, 1000);
    r.add_downloaded(LINK, 300);
    r.add_downloaded(LINK, 700);
    let info = r.get_download_progress(LINK);
    assert_eq!(info.downloaded, 1000);
    assert_eq!(info.progress, ProgressMark::Ratio { done: 1000, total: 1000 });
    r.complete(LINK);
    assert_eq!(r.get_download_progress(LINK).progress, ProgressMark::Full);
}

#[test]
fn single_stream_progress_uses_probe_size() {
    let mut r = Registry::new();
    r.begin_download(LINK);
    r.set_downloaded(LINK, 50, 0);
    let info = r.get_download_progress(LINK);
    assert_eq!(info.downloaded, 50);
    assert_eq!(info.progress, ProgressMark::Start);
    r.set_downloaded(LINK, 60, 120);
    assert_eq!(r.get_download_progress(LINK).progress, ProgressMark::Ratio { done: 60, total: 120 });
    assert_eq!(r.get_download_progress(LINK).total, 0);
    r.set_error(LINK, "Write: disk full".to_string());
    assert_eq!(r.get_download_progress(LINK).error, Some("Write: disk full".to_string()));
}

#[test]
fn restart_resets_progress() {
    let mut r = Registry::new();
    r.begin_download(LINK);
    r.set_total(LINK, 10);
    r.add_downloaded(LINK, 5);
    r.cancel_download(LINK);
    r.begin_download(LINK);
    let info = r.get_download_progress(LINK);
    assert_eq!(info.downloaded, 0);
    assert_eq!(info.error, None);
    assert_eq!(r.check_ctrl(LINK), CtrlState::Running);
}

#[test]
fn file_removal_is_tried_a_bounded_number_of_times() {
    assert_eq!(delete_step(0, true), DeleteStep::Removed);
    assert_eq!(delete_step(0, false), DeleteStep::WaitAndRetry);
    assert_eq!(delete_step(118, false), DeleteStep::WaitAndRetry);
    assert_eq!(delete_step(119, false), DeleteStep::WaitAndStop);
    assert_eq!(delete_step(119, true), DeleteStep::Removed);
    let mut attempts = 0;
    loop {
        attempts += 1;
        match delete_step(attempts - 1, false) {
            DeleteStep::WaitAndRetry => continue,
            _ => break,
        }
    }
    assert_eq!(attempts, DELETE_ATTEMPTS);
}
