use fitgirl_downloader::control::CtrlState;
use fitgirl_downloader::resolver::{
    cancel_check, download_filename, navigation_decision, on_resolver_message,
    resolve_timeout_message, resolver_label, resolver_target, NavDecision, ResolverWait, TickStep,
};

#[test]
fn filename_is_the_fragment() {
    assert_eq!(download_filename("https://fuckingfast.co/abc#Game.part01.rar"), Ok("Game.part01.rar".to_string()));
    assert_eq!(download_filename("https://fuckingfast.co/abc#a#b"), Ok("a".to_string()));
    assert_eq!(download_filename("https://fuckingfast.co/abc"), Err("filename yok".to_string()));
    assert_eq!(download_filename("x#"), Ok(String::new()));
}

#[test]
fn label_trims_leading_slashes() {
    assert_eq!(resolver_label("/abc123", 1700000000000), "ff_resolver_abc123_1700000000000");
    assert_eq!(resolver_label("//x/y", 5), "ff_resolver_x/y_5");
    assert_eq!(resolver_label("", 0), "ff_resolver__0");
}

#[test]
fn navigation_is_caught_for_download_hosts() {
    assert_eq!(navigation_decision(Some("ff-dbg.local")), NavDecision::DebugMessage);
    assert_eq!(navigation_decision(Some("dl.fuckingfast.co")), NavDecision::Captured);
    assert_eq!(navigation_decision(Some("cdn2.fuckingfast.co")), NavDecision::Captured);
    assert_eq!(navigation_decision(Some("fuckingfast.co")), NavDecision::Allow);
    assert_eq!(navigation_decision(Some("challenges.cloudflare.com")), NavDecision::Allow);
    assert_eq!(navigation_decision(None), NavDecision::Allow);
}

#[test]
fn window_is_shown_once_then_wait_times_out() {
    let mut w = ResolverWait::new();
    assert_eq!(w.on_tick(0), TickStep::Wait);
    assert_eq!(w.on_tick(179_999), TickStep::Wait);
    assert_eq!(w.on_tick(180_000), TickStep::ShowWindow);
    assert!(w.shown);
    assert_eq!(w.on_tick(200_000), TickStep::Wait);
    assert_eq!(w.on_tick(360_000), TickStep::TimedOut);
    assert_eq!(resolve_timeout_message(), "Zaman aşımı: Cloudflare çözülemedi");
}

#[test]
fn title_carries_the_address_once() {
    let mut w = ResolverWait::new();
    assert_eq!(w.on_title(Some("FF|start".to_string())), None);
    assert_eq!(w.on_title(Some("FF_RESOLVED|".to_string())), None);
    assert_eq!(
        w.on_title(Some("FF_RESOLVED|https://dl.fuckingfast.co/dl/x".to_string())),
        Some("https://dl.fuckingfast.co/dl/x".to_string())
    );
    assert_eq!(w.on_title(Some("FF_RESOLVED|https://dl.fuckingfast.co/dl/x".to_string())), None);
    assert_eq!(w.on_title(None), None);
    assert_eq!(w.last_title, "FF_RESOLVED|https://dl.fuckingfast.co/dl/x");
}

#[test]
fn channel_end_and_cancel() {
    assert_eq!(on_resolver_message(Some("https://dl.fuckingfast.co/dl/y".to_string())), Ok("https://dl.fuckingfast.co/dl/y".to_string()));
    assert_eq!(on_resolver_message(None), Err("resolver kapatıldı".to_string()));
    assert_eq!(cancel_check(CtrlState::Cancelled), Some("Cancelled".to_string()));
    assert_eq!(cancel_check(CtrlState::Paused), None);
    assert_eq!(cancel_check(CtrlState::Running), None);
}

#[test]
fn resolver_target_takes_the_path_of_the_link() {
    assert_eq!(
        resolver_target("https://fuckingfast.co/abc123#game.part1.rar", 42),
        Ok("ff_resolver_abc123_42".to_string())
    );
    assert_eq!(
        resolver_target("https://fuckingfast.co/a/b?x=1#f", 7),
        Ok("ff_resolver_a/b_7".to_string())
    );
    let e = resolver_target("not a url", 1).unwrap_err();
    assert!(e.starts_with("URL parse: "));
    assert!(e.len() > "URL parse: ".len());
    assert_eq!(e, format!("URL parse: {}", url::Url::parse("not a url").unwrap_err()));
}
