use fitgirl_downloader::links::{collect_spoiler_links, dedup_links, pick_hoster_href, sort_by_key, sort_key_of, Anchor};
use fitgirl_downloader::natural::{key_le_chars, natural_key_of};
use fitgirl_downloader::page::{get_links_from_page, links_from_parts};

fn page(body: &str) -> String {
    format!("<html><body><div class=\"entry-content\"><ul><li><a href=\"https://x\">Filehoster: DataNodes</a></li><li>{body}</li></ul></div></body></html>")
}

#[test]
fn single_link_without_spoiler() {
    let html = page("<a href=\"https://paste.fitgirl-repacks.site/?abc\">Filehoster: FuckingFast</a>");
    assert_eq!(get_links_from_page(&html), Ok(vec!["https://paste.fitgirl-repacks.site/?abc".to_string()]));
}

#[test]
fn spoiler_links_sorted_by_file_name_and_deduplicated() {
    let html = page(
        "<a href=\"https://paste\">Filehoster: FuckingFast</a>\
         <div class=\"su-spoiler\"><div class=\"su-spoiler-content\">\
         <a href=\"https://fuckingfast.co/c#game.part03.rar\">3</a>\
         <a href=\"https://fuckingfast.co/a#game.part01.rar\">1</a>\
         <a>no href</a>\
         <a href=\"https://fuckingfast.co/b#game.part02.rar\">2</a>\
         <a href=\"https://fuckingfast.co/a#game.part01.rar\">1 again</a>\
         </div></div>",
    );
    assert_eq!(
        get_links_from_page(&html),
        Ok(vec![
            "https://fuckingfast.co/a#game.part01.rar".to_string(),
            "https://fuckingfast.co/b#game.part02.rar".to_string(),
            "https://fuckingfast.co/c#game.part03.rar".to_string(),
        ])
    );
}

#[test]
fn page_without_hoster_is_refused() {
    let html = page("<a href=\"https://y\">Filehoster: Other</a>");
    assert_eq!(get_links_from_page(&html), Err("fuckingfast linki bulunamadı".to_string()));
    assert_eq!(get_links_from_page(""), Err("fuckingfast linki bulunamadı".to_string()));
}

#[test]
fn hoster_without_href_is_refused() {
    let html = page("<a>Filehoster: FuckingFast</a>");
    assert_eq!(get_links_from_page(&html), Err("href yok".to_string()));
}

#[test]
fn sort_key_is_fragment_or_whole_link() {
    let k: String = sort_key_of("https://f/a#name.rar").into_iter().collect();
    assert_eq!(k, "name.rar");
    let k: String = sort_key_of("https://f/a").into_iter().collect();
    assert_eq!(k, "https://f/a");
}

#[test]
fn sort_is_stable_on_equal_keys() {
    let v: Vec<String> = ["b#x", "a#x", "c#a", "z"].iter().map(|s| s.to_string()).collect();
    let sorted = sort_by_key(&v);
    let expect: Vec<String> = ["c#a", "b#x", "a#x", "z"].iter().map(|s| s.to_string()).collect();
    assert_eq!(sorted, expect);
}

#[test]
fn dedup_removes_every_repeat() {
    let v: Vec<String> = ["a", "a", "b", "a", "a"].iter().map(|s| s.to_string()).collect();
    assert_eq!(dedup_links(&v), vec!["a".to_string(), "b".to_string()]);
    let v: Vec<String> = ["c", "b", "c", "a", "b"].iter().map(|s| s.to_string()).collect();
    assert_eq!(dedup_links(&v), vec!["c".to_string(), "b".to_string(), "a".to_string()]);
    assert_eq!(dedup_links(&vec![]), Vec::<String>::new());
}

#[test]
fn repeated_links_with_one_file_name_appear_once() {
    let spoilers = vec![vec![
        Some("https://f.co/x#a".to_string()),
        Some("https://f.co/y#a".to_string()),
        Some("https://f.co/x#a".to_string()),
    ]];
    assert_eq!(
        collect_spoiler_links(&spoilers),
        vec!["https://f.co/x#a".to_string(), "https://f.co/y#a".to_string()]
    );
}

#[test]
fn spoiler_links_sorted_naturally() {
    let html = "<div class='entry-content'><ul><li>x</li><li><a href='https://fuckingfast.co/m'>Filehoster: FuckingFast</a><div class='su-spoiler'><div class='su-spoiler-content'><a href='https://fuckingfast.co/b#g.part10.rar'>1</a><a href='https://fuckingfast.co/a#g.part2.rar'>2</a></div></div></li></ul></div>";
    assert_eq!(
        get_links_from_page(html),
        Ok(vec![
            "https://fuckingfast.co/a#g.part2.rar".to_string(),
            "https://fuckingfast.co/b#g.part10.rar".to_string(),
        ])
    );
}

fn chars(s: &str) -> Vec<char> {
    s.chars().collect()
}

#[test]
fn natural_order_of_file_names() {
    let le = |a: &str, b: &str| key_le_chars(&chars(a), &chars(b));
    assert!(le("g.part2.rar", "g.part10.rar"));
    assert!(!le("g.part10.rar", "g.part2.rar"));
    assert!(le("g.part002.rar", "g.part10.rar"));
    assert!(le("a01", "a1") && !le("a1", "a01"));
    assert!(le("a.rar", "a1.rar") && !le("a1.rar", "a.rar"));
    assert!(le("a9z", "aa") && !le("aa", "a9z"));
    assert!(le("v0", "v1") && !le("v1", "v0"));
    assert!(le("v99z", "v100z") && !le("v100z", "v99z"));
    assert!(le("7", "12") && !le("12", "7"));
    assert!(le("x", "x"));
    assert!(le("", "a"));
    let key: Vec<u64> = natural_key_of(&chars("p07b"));
    assert_eq!(key, vec![112, 48, 1, 55, 98]);
    let key: Vec<u64> = natural_key_of(&chars("00"));
    assert_eq!(key, vec![48, 0]);
}

#[test]
fn sort_puts_part_numbers_in_numeric_order() {
    let v: Vec<String> = ["u#g.part10.rar", "u#g.part9.rar", "u#g.part1.rar", "u#g.part11.rar"]
        .iter()
        .map(|s| s.to_string())
        .collect();
    let expect: Vec<String> = ["u#g.part1.rar", "u#g.part9.rar", "u#g.part10.rar", "u#g.part11.rar"]
        .iter()
        .map(|s| s.to_string())
        .collect();
    assert_eq!(sort_by_key(&v), expect);
}

#[test]
fn parts_give_links() {
    let anchors = vec![
        Anchor { text: "Filehoster: MultiUpload".to_string(), href: Some("https://m".to_string()) },
        Anchor { text: "Filehoster: FuckingFast".to_string(), href: Some("https://ff".to_string()) },
        Anchor { text: "Filehoster: FuckingFast".to_string(), href: None },
    ];
    assert_eq!(pick_hoster_href(&anchors), Ok("https://ff".to_string()));
    assert_eq!(links_from_parts(&anchors, &vec![]), Ok(vec!["https://ff".to_string()]));
    let spoilers = vec![
        vec![Some("u#2".to_string()), None],
        vec![Some("u#1".to_string()), Some("u#2".to_string())],
    ];
    assert_eq!(
        collect_spoiler_links(&spoilers),
        vec!["u#1".to_string(), "u#2".to_string()]
    );
    assert_eq!(
        links_from_parts(&anchors, &spoilers),
        Ok(vec!["u#1".to_string(), "u#2".to_string()])
    );
    let none = vec![Anchor { text: "Filehoster: FuckingFast".to_string(), href: None }];
    assert_eq!(pick_hoster_href(&none), Err("href yok".to_string()));
}
