use gateway_proxy::{extract_url, is_http_request};

#[test]
fn detects_get_request() {
    assert!(is_http_request(b"GET / HTTP/1.1\r\nHost: example.com\r\n\r\n"));
}

#[test]
fn rejects_prefixed_method() {
    assert!(!is_http_request(b"XGET / HTTP/1.1\r\n"));
}

#[test]
fn rejects_short_payload() {
    assert!(!is_http_request(b"GET /a"));
}

#[test]
fn detects_every_method() {
    assert!(is_http_request(b"POST /submit HTTP/1.1"));
    assert!(is_http_request(b"PUT /x HTTP/1.1"));
    assert!(is_http_request(b"DELETE /x HTTP/1.1"));
    assert!(is_http_request(b"HEAD /x HTTP/1.1"));
    assert!(is_http_request(b"OPTIONS * HTTP/1.1"));
    assert!(is_http_request(b"PATCH /x HTTP/1.1"));
}

#[test]
fn rejects_non_http_bytes() {
    assert!(!is_http_request(b"\x16\x03\x01\x02\x00\x01\x00\x01\xfc\x03"));
}

#[test]
fn extracts_url_with_host() {
    let url = extract_url(b"GET /foo HTTP/1.1\r\nHost: example.com\r\n\r\n").unwrap();
    assert_eq!(url, b"http://example.com/foo".to_vec());
}

#[test]
fn extracts_path_without_host() {
    let url = extract_url(b"GET /bare HTTP/1.1\r\nAccept: */*\r\n\r\n").unwrap();
    assert_eq!(url, b"/bare".to_vec());
}

#[test]
fn extracts_host_case_insensitively() {
    let url = extract_url(b"GET /x HTTP/1.1\r\nHOST: a.org\r\n\r\n").unwrap();
    assert_eq!(url, b"http://a.org/x".to_vec());
}

#[test]
fn host_port_is_dropped_with_the_second_colon() {
    // The host value is the text between the first and second colon.
    let url = extract_url(b"GET /p HTTP/1.1\r\nHost: a.org:8080\r\n\r\n").unwrap();
    assert_eq!(url, b"http://a.org/p".to_vec());
}

#[test]
fn no_url_without_two_tokens() {
    assert!(extract_url(b"GETNOSPACE\r\nHost: a.org\r\n\r\n").is_none());
}

#[test]
fn no_url_from_empty_payload() {
    assert!(extract_url(b"").is_none());
}

#[test]
fn tokens_split_on_unicode_whitespace() {
    // U+00A0 (no-break space) separates tokens as `split_whitespace` does
    // on the decoded text.
    let url = extract_url(b"GET\xc2\xa0/nb\xc2\xa0HTTP/1.1\r\nHost: a.org\r\n\r\n").unwrap();
    assert_eq!(url, b"http://a.org/nb".to_vec());
}

#[test]
fn host_value_trims_unicode_whitespace() {
    // No-break spaces around the host value are trimmed away.
    let url = extract_url(b"GET /x HTTP/1.1\r\nHost: \xc2\xa0a.org\xc2\xa0\r\n\r\n").unwrap();
    assert_eq!(url, b"http://a.org/x".to_vec());
}

#[test]
fn host_value_trims_ideographic_space() {
    // U+3000 (ideographic space) is whitespace too.
    let url = extract_url(b"GET /x HTTP/1.1\r\nHost: \xe3\x80\x80a.org\xe3\x80\x80\r\n\r\n").unwrap();
    assert_eq!(url, b"http://a.org/x".to_vec());
}
