use fitgirl_downloader::messages::{failure_message, FailureKind};
use fitgirl_downloader::clock::{chrono_now, millis_text};
use fitgirl_downloader::text::{
    after_last, chars_of, contains, decimal_string, ends_with, parse_u64, second_field_of,
    starts_with, string_of,
};

fn cs(s: &str) -> Vec<char> {
    s.chars().collect()
}

#[test]
fn decimal_renders_numbers() {
    assert_eq!(decimal_string(0), "0");
    assert_eq!(decimal_string(7), "7");
    assert_eq!(decimal_string(1725029869000), "1725029869000");
    assert_eq!(decimal_string(u128::MAX), u128::MAX.to_string());
}

#[test]
fn parse_u64_follows_from_str() {
    for s in ["0", "42", "+42", "007", "18446744073709551615", "", "+", "-1", "1a", " 1", "18446744073709551616"] {
        assert_eq!(parse_u64(&cs(s)), s.parse::<u64>().ok(), "{s:?}");
    }
}

#[test]
fn decimal_round_trips_through_parse() {
    for n in [0u64, 1, 9, 10, 99, 100, 262144, u64::MAX] {
        let text = decimal_string(n as u128);
        assert_eq!(parse_u64(&cs(&text)), Some(n));
    }
}

#[test]
fn second_field_is_split_nth_one() {
    for s in ["a#b", "a#b#c", "abc", "#", "a#", "#x", "https://fuckingfast.co/abc#file.part01.rar"] {
        let got = second_field_of(&cs(s), '#').map(|v| v.into_iter().collect::<String>());
        assert_eq!(got, s.split('#').nth(1).map(|x| x.to_string()), "{s:?}");
    }
}

#[test]
fn after_last_is_first_rsplit_item() {
    for s in ["bytes 0-0/12345", "no-slash", "a/b/c", "/", "x/"] {
        let got: String = after_last(&cs(s), '/').into_iter().collect();
        assert_eq!(got, s.rsplit('/').next().unwrap(), "{s:?}");
    }
}

#[test]
fn searches_on_characters() {
    assert!(contains(&cs("Filehoster: FuckingFast (Only for Downloading)"), &cs("Filehoster: FuckingFast")));
    assert!(!contains(&cs("Filehoster: DataNodes"), &cs("Filehoster: FuckingFast")));
    assert!(contains(&cs("abc"), &cs("")));
    assert!(starts_with(&cs("FF_RESOLVED|x"), &cs("FF_RESOLVED|")));
    assert!(!starts_with(&cs("FF|x"), &cs("FF_RESOLVED|")));
    assert!(ends_with(&cs("cdn3.fuckingfast.co"), &cs(".fuckingfast.co")));
    assert!(!ends_with(&cs("fuckingfast.co"), &cs(".fuckingfast.co")));
}

#[test]
fn chars_and_strings_convert() {
    let s = "İdare ğüş";
    assert_eq!(string_of(&chars_of(s)), s);
}

#[test]
fn timestamps_are_decimal_millis() {
    assert_eq!(millis_text(1725029869123), "1725029869123");
    let now = chrono_now();
    assert!(!now.is_empty());
    assert!(now.chars().all(|c| c.is_ascii_digit()));
}

#[test]
fn failure_labels() {
    assert_eq!(failure_message(FailureKind::Uri, "bad"), "URI: bad");
    assert_eq!(failure_message(FailureKind::Range, "x"), "Range: x");
    assert_eq!(failure_message(FailureKind::Request, "x"), "HTTP: x");
    assert_eq!(failure_message(FailureKind::Open, "x"), "Open: x");
    assert_eq!(failure_message(FailureKind::Seek, "x"), "Seek: x");
    assert_eq!(failure_message(FailureKind::File, "x"), "File: x");
    assert_eq!(failure_message(FailureKind::Body, "x"), "Body: x");
    assert_eq!(failure_message(FailureKind::UrlParse, "x"), "URL parse: x");
    assert_eq!(failure_message(FailureKind::ResolverWindow, "x"), "resolver window: x");
}

#[test]
fn clock_text_of_readings() {
    use_clock_text();
}

fn use_clock_text() {
    assert_eq!(fitgirl_downloader::clock::clock_text(Some(1725029869123)), "1725029869123");
    assert_eq!(fitgirl_downloader::clock::clock_text(Some(0)), "0");
    assert_eq!(fitgirl_downloader::clock::clock_text(None), "");
}

#[test]
fn stamp_of_readings() {
    assert_eq!(fitgirl_downloader::clock::stamp_of(Some(1725029869123)), 1725029869123);
    assert_eq!(fitgirl_downloader::clock::stamp_of(None), 0);
}
