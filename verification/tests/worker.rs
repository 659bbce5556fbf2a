use aura_core::worker::{
    default_file_name, fetch_step, find_direct_link, follow_redirect, ftp_endpoint, ftp_login, ftp_path,
    ftp_read_len, is_html_type, landing_page_text, looks_like_html, range_header, resolve_step,
    total_length_from_headers, HopState, HttpReply, Segment, MAX_REDIRECTS,
};
use aura_core::Error;

#[test]
fn range_header_names_first_and_last_byte() {
    assert_eq!(range_header(&Segment { offset: 0, length: 10 }), "bytes=0-9");
    assert_eq!(range_header(&Segment { offset: 100, length: 1 }), "bytes=100-100");
}

#[test]
fn length_comes_from_content_range_then_content_length() {
    assert_eq!(total_length_from_headers(Some("bytes 0-0/12345"), Some("1")), Some(12345));
    assert_eq!(total_length_from_headers(Some("bytes 0-0/*"), Some("77")), Some(77));
    assert_eq!(total_length_from_headers(None, Some("42")), Some(42));
    assert_eq!(total_length_from_headers(None, Some("abc")), None);
    assert_eq!(total_length_from_headers(None, None), None);
}

#[test]
fn html_detection() {
    assert!(is_html_type("Text/HTML; charset=utf-8"));
    assert!(!is_html_type("application/octet-stream"));
    assert!(looks_like_html(b"<!DOCTYPE html><html></html>"));
    assert!(looks_like_html(b"  <HTML>"));
    assert!(!looks_like_html(b"<html"));
    assert!(!looks_like_html(b"binary_data"));
    assert_eq!(landing_page_text(b"AbC"), "abc");
}

fn start(uri: &str) -> HopState {
    HopState { uri: uri.to_string(), referer: None, hops: 0 }
}

#[test]
fn worker_test_http_worker_referer_propagation() {
    let mut st = start("http://127.0.0.1:8080/start");
    let r = fetch_step(&mut st, HttpReply::Redirect(Some("/landing".to_string()))).unwrap();
    assert!(r.is_none());
    assert_eq!(st.uri, "http://127.0.0.1:8080/landing");
    assert_eq!(st.referer, Some("http://127.0.0.1:8080/start".to_string()));
    assert_eq!(st.hops, 1);
    let data = fetch_step(
        &mut st,
        HttpReply::Direct { content_range: None, content_length: Some("11".to_string()), body: b"binary_data".to_vec() },
    )
    .unwrap()
    .expect("Worker should propagate referer and succeed");
    assert_eq!(data, b"binary_data".to_vec());
}

#[test]
fn worker_test_http_worker_redirect_loop() {
    let mut st = start("http://127.0.0.1:8080/a");
    let mut failure = None;
    for _ in 0..20 {
        match fetch_step(&mut st, HttpReply::Redirect(Some("/a".to_string()))) {
            Ok(_) => {}
            Err(e) => {
                failure = Some(e);
                break;
            }
        }
    }
    assert_eq!(st.hops, MAX_REDIRECTS);
    match failure {
        Some(Error::Protocol(m)) => assert!(m.contains("redirect")),
        _ => panic!("Expected redirect loop error"),
    }
}

#[test]
fn http_test_http_worker_referer_propagation() {
    let mut st = start("http://127.0.0.1:8080/start");
    assert!(resolve_step(&mut st, HttpReply::Redirect(Some("/final".to_string()))).unwrap().is_none());
    let meta = resolve_step(
        &mut st,
        HttpReply::Direct { content_range: Some("bytes 0-0/11".to_string()), content_length: Some("1".to_string()), body: vec![] },
    )
    .unwrap()
    .expect("Should resolve metadata with redirects");
    assert_eq!(meta.final_uri, "http://127.0.0.1:8080/final");
    assert_eq!(meta.total_length, Some(11));
    assert!(meta.name.is_none());
}

#[test]
fn http_test_http_worker_redirect_loop() {
    let mut st = start("http://127.0.0.1:8080/a");
    let mut failure = None;
    for _ in 0..20 {
        if let Err(e) = resolve_step(&mut st, HttpReply::Redirect(Some("/a".to_string()))) {
            failure = Some(e);
            break;
        }
    }
    match failure {
        Some(Error::Protocol(m)) => assert_eq!(m, "Too many redirects during resolution"),
        _ => panic!("Expected redirect loop error"),
    }
}

#[test]
fn landing_pages_and_failures() {
    let mut st = start("http://h.com/page");
    let page = br#"<html><a href="/download/x.bin">get</a></html>"#.to_vec();
    let r = fetch_step(&mut st, HttpReply::Html { content_type: "text/html".to_string(), body: page }).unwrap();
    assert!(r.is_none());
    assert_eq!(st.uri, "http://h.com/download/x.bin");
    assert_eq!(st.hops, 1);
    match fetch_step(&mut st, HttpReply::Html { content_type: "Text/HTML".to_string(), body: b"<html>no links</html>".to_vec() }) {
        Err(Error::Protocol(m)) => assert_eq!(m, "Invalid MIME type: text/html. Stuck on landing page."),
        _ => panic!("expected a landing page error"),
    }
    match fetch_step(&mut st, HttpReply::Failure("404 Not Found".to_string())) {
        Err(Error::Protocol(m)) => assert_eq!(m, "Server returned error: 404 Not Found"),
        _ => panic!("expected a status error"),
    }
    match fetch_step(&mut st, HttpReply::Direct { content_range: None, content_length: None, body: b"<!DOCTYPE html>".to_vec() }) {
        Err(Error::Protocol(m)) => assert_eq!(m, "Detected HTML content in binary stream."),
        _ => panic!("expected sniffing to catch HTML"),
    }
    match resolve_step(&mut st, HttpReply::Html { content_type: "text/html".to_string(), body: vec![] }) {
        Err(Error::Protocol(m)) => assert_eq!(m, "Stuck on landing page during resolution"),
        _ => panic!("expected a landing page error"),
    }
}

#[test]
fn ftp_endpoints() {
    let ep = ftp_endpoint("ftp://ftp.example.com/pub/linux/disk.iso").unwrap();
    assert_eq!(ep.host, "ftp.example.com");
    assert_eq!(ep.port, 21);
    assert_eq!(ep.user, "anonymous");
    assert_eq!(ep.password, "anonymous@aura.rs");
    assert_eq!(ep.path, "pub/linux/disk.iso");
    assert_eq!(ep.name, Some("disk.iso".to_string()));
    let ep2 = ftp_endpoint("ftp://bob:pw@host:2121/dir/").unwrap();
    assert_eq!((ep2.user.as_str(), ep2.password.as_str(), ep2.port), ("bob", "pw", 2121));
    assert_eq!(ep2.name, Some(String::new()));
    match ftp_endpoint("not a url") {
        Err(Error::Protocol(m)) => assert!(m.starts_with("Invalid FTP URL: ")),
        _ => panic!("expected an invalid URL error"),
    }
    match ftp_endpoint("mailto:someone") {
        Err(Error::Protocol(m)) => assert_eq!(m, "Missing host in FTP URL"),
        _ => panic!("expected a missing host error"),
    }
}

#[test]
fn redirect_errors() {
    match follow_redirect("http://a.com/x", None, 0, "too many") {
        Err(Error::Protocol(m)) => assert_eq!(m, "Redirect missing Location header"),
        _ => panic!("expected a missing Location error"),
    }
    match follow_redirect("not a url", Some("/x"), 0, "too many") {
        Err(Error::Protocol(m)) => assert!(m.starts_with("Invalid base URL: ")),
        _ => panic!("expected an invalid base error"),
    }
}

#[test]
fn direct_link_prefers_download_links() {
    let html = r#"<a href="/style.css">s</a><a href="/files/get.zip">g</a><a href="/download/x.bin">d</a><a href="/getme">late</a>"#;
    assert_eq!(find_direct_link(html, "http://h.com/page"), Some("http://h.com/download/x.bin".to_string()));
    let html2 = r#"<a href="/files/a.zip">a</a><a href="/favicon.ico">i</a><a href="/file/b.zip">b</a>"#;
    assert_eq!(find_direct_link(html2, "http://h.com/"), Some("http://h.com/file/b.zip".to_string()));
    assert_eq!(find_direct_link(r#"<a href="/about">x</a>"#, "http://h.com/"), None);
    assert_eq!(find_direct_link(r#"<a href="/download">x</a>"#, "nope"), None);
}

#[test]
fn ftp_helpers() {
    assert_eq!(ftp_login("", None), ("anonymous".to_string(), "anonymous@aura.rs".to_string()));
    assert_eq!(ftp_login("bob", Some("pw")), ("bob".to_string(), "pw".to_string()));
    assert_eq!(ftp_path("//pub/file.iso"), "pub/file.iso");
    assert_eq!(ftp_path("x"), "x");
    assert_eq!(ftp_read_len(100, 40), 60);
    assert_eq!(ftp_read_len(100000, 0), 16384);
}

#[test]
fn command_line_file_names() {
    assert_eq!(default_file_name("https://example.com/files/img_001.jpg"), "img_001.jpg");
    assert_eq!(default_file_name("https://example.com/"), "download.bin");
    assert_eq!(default_file_name("not a url"), "download.bin");
    assert_eq!(default_file_name("https://example.com/a/b.iso?x=1"), "b.iso");
}
