use fitgirl_downloader::wire::{
    header_text, http_status_message, page_status_check, probe_total_from, range_header,
    range_header_text, request_uri, status_is_success, status_text,
};

#[test]
fn status_text_has_reason_phrase() {
    assert_eq!(status_text(404), "404 Not Found");
    assert_eq!(status_text(206), "206 Partial Content");
    assert_eq!(status_text(599), "599 <unknown status code>");
    assert_eq!(http_status_message(503), "HTTP 503 Service Unavailable");
    assert_eq!(status_text(404), http::StatusCode::NOT_FOUND.to_string());
}

#[test]
fn success_class() {
    assert!(status_is_success(200));
    assert!(status_is_success(299));
    assert!(!status_is_success(300));
    assert!(!status_is_success(199));
}

#[test]
fn range_header_is_bytes_from_to() {
    assert_eq!(range_header_text(0, 0), "bytes=0-0");
    assert_eq!(range_header_text(1048576, 2097151), "bytes=1048576-2097151");
    let h = range_header(12, 34).unwrap();
    assert_eq!(h.to_str().unwrap(), "bytes=12-34");
}

#[test]
fn probe_reads_total_after_slash() {
    assert_eq!(probe_total_from(206, Some(b"bytes 0-0/123456789")), 123456789);
    assert_eq!(probe_total_from(200, Some(b"bytes 0-0/123456789")), 0);
    assert_eq!(probe_total_from(206, None), 0);
    assert_eq!(probe_total_from(206, Some(b"bytes 0-0/*")), 0);
    assert_eq!(probe_total_from(206, Some(b"42")), 42);
    assert_eq!(probe_total_from(206, Some(b"bytes 0-0/12\x7f")), 0);
}

#[test]
fn header_text_accepts_visible_ascii() {
    assert_eq!(header_text(b"ab\tc"), Some(vec!['a', 'b', '\t', 'c']));
    assert_eq!(header_text(b"a\x01"), None);
    assert_eq!(header_text(&[0xc3, 0xa9]), None);
}

#[test]
fn request_uri_parses_or_labels_error() {
    let u = request_uri("https://dl.fuckingfast.co/dl/abc").unwrap();
    assert_eq!(u.host(), Some("dl.fuckingfast.co"));
    let e = request_uri("not a uri").unwrap_err();
    assert!(e.starts_with("URI: "));
    assert!(e.len() > "URI: ".len());
    let reason = "not a uri".parse::<http::Uri>().unwrap_err();
    assert_eq!(e, format!("URI: {}", reason));
}

#[test]
fn forbidden_page_is_protected() {
    assert_eq!(page_status_check(403), Err("Cloudflare/DDoS koruması".to_string()));
    assert_eq!(page_status_check(200), Ok(()));
    assert_eq!(page_status_check(404), Ok(()));
}
