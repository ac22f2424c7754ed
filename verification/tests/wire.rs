//! The network scheme's wire format: request bytes, endpoint strings, and
//! the reading of response header lines.
use segfetch::http::{
    content_length_value, is_end_of_headers, matches_content_length, netloc, query, Http,
};
use segfetch::meta::Location;
use segfetch::utility::{parse_decimal, parse_or};

fn loc(
    host: &str,
    port: Option<u16>,
    path: &str,
    q: Option<&str>,
    frag: Option<&str>,
) -> Location {
    Location {
        scheme: b"http".to_vec(),
        host: host.as_bytes().to_vec(),
        port,
        path: path.as_bytes().to_vec(),
        query: q.map(|s| s.as_bytes().to_vec()),
        fragment: frag.map(|s| s.as_bytes().to_vec()),
    }
}

#[test]
fn probe_request_exact_bytes() {
    let l = loc("example.com", None, "/file.bin", None, None);
    let req = Http {}.probe_request(&l);
    assert_eq!(
        req,
        b"HEAD /file.bin HTTP/1.0\r\nHost: example.com\r\n\r\n".to_vec()
    );
}

#[test]
fn fetch_request_exact_bytes() {
    let l = loc("example.com", None, "/file.bin", None, None);
    let req = Http {}.fetch_request(&l, 0, 1_000_000);
    assert_eq!(
        req,
        b"GET /file.bin HTTP/1.0\r\nHost: example.com\r\nRange: bytes=0-999999\r\n\r\n".to_vec()
    );
    let req = Http {}.fetch_request(&l, 2_000_000, 500_000);
    assert_eq!(
        req,
        b"GET /file.bin HTTP/1.0\r\nHost: example.com\r\nRange: bytes=2000000-2499999\r\n\r\n"
            .to_vec()
    );
}

#[test]
fn netloc_uses_default_port_80() {
    let l = loc("example.com", None, "/", None, None);
    assert_eq!(netloc(&l), b"example.com:80".to_vec());
    let l = loc("example.com", Some(8080), "/", None, None);
    assert_eq!(netloc(&l), b"example.com:8080".to_vec());
}

#[test]
fn target_carries_query_and_fragment() {
    let l = loc("h", None, "/a", Some("x=1&y=2"), Some("top"));
    assert_eq!(query(&l), b"/a?x=1&y=2#top".to_vec());
    let l = loc("h", None, "/a", None, Some("top"));
    assert_eq!(query(&l), b"/a#top".to_vec());
    let l = loc("h", None, "/a", Some("x"), None);
    assert_eq!(query(&l), b"/a?x".to_vec());
}

#[test]
fn content_length_line_matches_case_insensitively() {
    assert!(matches_content_length(&b"content-length: 5\r\n".to_vec()));
    assert!(matches_content_length(&b"Content-Length: 5\r\n".to_vec()));
    assert!(matches_content_length(&b"CONTENT-LENGTH: 5\r\n".to_vec()));
    assert!(!matches_content_length(&b"content-type: text\r\n".to_vec()));
    assert!(!matches_content_length(&b"content-length:5\r\n".to_vec()));
    assert!(!matches_content_length(&b"short\r\n".to_vec()));
}

#[test]
fn content_length_value_trims_and_parses() {
    assert_eq!(
        content_length_value(&b"content-length: 123\r\n".to_vec()),
        Some(123)
    );
    assert_eq!(
        content_length_value(&b"Content-Length:  42 \r\n".to_vec()),
        Some(42)
    );
    assert_eq!(content_length_value(&b"content-length: abc\r\n".to_vec()), None);
    assert_eq!(content_length_value(&b"content-length: \r\n".to_vec()), None);
    assert_eq!(content_length_value(&b"content-length: 12x\r\n".to_vec()), None);
}

#[test]
fn scan_finds_first_content_length() {
    let lines = vec![
        b"HTTP/1.0 200 OK\r\n".to_vec(),
        b"Date: today\r\n".to_vec(),
        b"Content-Length: 2500000\r\n".to_vec(),
        b"Content-Length: 7\r\n".to_vec(),
    ];
    assert_eq!(Http {}.size_from_headers(&lines), Some(2_500_000));
}

#[test]
fn scenario_probe_without_content_length() {
    let lines = vec![
        b"HTTP/1.0 200 OK\r\n".to_vec(),
        b"Content-Type: application/octet-stream\r\n".to_vec(),
        b"\r\n".to_vec(),
    ];
    assert_eq!(Http {}.size_from_headers(&lines), None);
}

#[test]
fn scan_stops_at_blank_line() {
    let lines = vec![
        b"X-A: 1\r\n".to_vec(),
        b"\r\n".to_vec(),
        b"content-length: 9\r\n".to_vec(),
    ];
    assert_eq!(Http {}.size_from_headers(&lines), None);
    assert!(is_end_of_headers(&b"\r\n".to_vec()));
    assert!(is_end_of_headers(&b"".to_vec()));
    assert!(!is_end_of_headers(&b"a: b\r\n".to_vec()));
}

#[test]
fn parse_or_reads_digits_or_falls_back() {
    assert_eq!(parse_or(None, 64), 64);
    assert_eq!(parse_or(Some("123"), 64), 123);
    assert_eq!(parse_or(Some("0"), 64), 0);
    assert_eq!(parse_or(Some(""), 64), 0);
}

#[test]
fn parse_decimal_checks_digits_and_range() {
    let v = b"00123".to_vec();
    assert_eq!(parse_decimal(&v, 0, 5), Some(123));
    assert_eq!(parse_decimal(&v, 0, 0), None);
    let v = b"1a3".to_vec();
    assert_eq!(parse_decimal(&v, 0, 3), None);
    let huge = b"99999999999999999999999999".to_vec();
    let len = huge.len();
    assert_eq!(parse_decimal(&huge, 0, len), None);
}
