use gateway_proxy::{apply_rules, default_rules, ProxyStats};

#[test]
fn table_has_four_rules_in_order() {
    let rules = default_rules();
    assert_eq!(rules.len(), 4);
    assert_eq!(rules[0].name, "example_com_redirect");
    assert_eq!(rules[0].pattern, b"example.com".to_vec());
    assert_eq!(rules[1].name, "test_com_enhance");
    assert_eq!(rules[1].pattern, b"test.com".to_vec());
    assert_eq!(rules[2].name, "api_auth");
    assert_eq!(rules[2].pattern, b"/api/v1/user".to_vec());
    assert_eq!(rules[3].name, "admin_security");
    assert_eq!(rules[3].pattern, b"admin".to_vec());
}

#[test]
fn test_com_rule_inserts_two_lines_after_host() {
    let rules = default_rules();
    let mut stats = ProxyStats::new();
    let payload = b"GET / HTTP/1.1\r\nHost: test.com\r\n\r\n";
    let (out, modified) = apply_rules(&rules, payload, &mut stats);
    assert!(modified);
    assert_eq!(
        out,
        b"GET / HTTP/1.1\r\nHost: test.com\r\nX-Gateway-Modified: true\r\nX-Rust-Proxy: enabled\r\n\r\n"
            .to_vec()
    );
    assert_eq!(stats.modified_packets, 1);
}

#[test]
fn first_match_wins_over_later_rules() {
    // Both example.com and admin occur; only the first table entry runs.
    let rules = default_rules();
    let mut stats = ProxyStats::new();
    let payload = b"GET /admin HTTP/1.1\r\nHost: example.com\r\n\r\n";
    let (out, modified) = apply_rules(&rules, payload, &mut stats);
    assert!(modified);
    assert_eq!(out, b"GET /admin HTTP/1.1\r\nHost: localhost\r\n\r\n".to_vec());
    let s = String::from_utf8(out).unwrap();
    assert!(!s.contains("X-Admin-Access"));
    assert_eq!(stats.modified_packets, 1);
}

#[test]
fn api_rule_inserts_auth_headers_after_request_line() {
    let rules = default_rules();
    let mut stats = ProxyStats::new();
    let payload = b"GET /api/v1/user HTTP/1.1\r\nHost: api.service.org\r\n\r\n";
    let (out, modified) = apply_rules(&rules, payload, &mut stats);
    assert!(modified);
    assert_eq!(
        out,
        b"GET /api/v1/user HTTP/1.1\r\nAuthorization: Bearer rust-gateway-token\r\nX-API-Version: v1\r\nHost: api.service.org\r\n"
            .to_vec()
    );
}

#[test]
fn admin_rule_inserts_three_security_headers() {
    let rules = default_rules();
    let mut stats = ProxyStats::new();
    let payload = b"POST /admin/login HTTP/1.1\r\nHost: site.org\r\n\r\n";
    let (out, modified) = apply_rules(&rules, payload, &mut stats);
    assert!(modified);
    assert_eq!(
        out,
        b"POST /admin/login HTTP/1.1\r\nX-Admin-Access: restricted\r\nX-Security-Check: enabled\r\nX-Rust-Security: active\r\nHost: site.org\r\n"
            .to_vec()
    );
}

#[test]
fn pattern_in_headers_matches_without_url_hit() {
    // The pattern match also looks at the whole decoded payload, so a
    // mention outside the URL still fires the rule.
    let rules = default_rules();
    let mut stats = ProxyStats::new();
    let payload = b"GET / HTTP/1.1\r\nX-Note: see example.com docs\r\n\r\n";
    let (out, modified) = apply_rules(&rules, payload, &mut stats);
    assert!(modified);
    assert_eq!(out, b"GET / HTTP/1.1\r\nX-Note: see localhost docs\r\n\r\n".to_vec());
}

#[test]
fn unmatched_payload_passes_through() {
    let rules = default_rules();
    let mut stats = ProxyStats::new();
    let payload = b"GET / HTTP/1.1\r\nHost: nothing.org\r\n\r\n";
    let (out, modified) = apply_rules(&rules, payload, &mut stats);
    assert!(!modified);
    assert_eq!(out, payload.to_vec());
    assert_eq!(stats.modified_packets, 0);
}

#[test]
fn non_http_payload_passes_through() {
    let rules = default_rules();
    let mut stats = ProxyStats::new();
    let payload = b"example.com admin test.com /api/v1/user but not http";
    // Not an HTTP request: no method prefix, so no rule is consulted.
    let (out, modified) = apply_rules(&rules, payload, &mut stats);
    assert!(!modified);
    assert_eq!(out, payload.to_vec());
    assert_eq!(stats.modified_packets, 0);
}

#[test]
fn invalid_utf8_is_substituted_in_transformed_output() {
    // The payload is decoded permissively before a transform runs: the
    // invalid byte comes out as the U+FFFD replacement sequence.
    let rules = default_rules();
    let mut stats = ProxyStats::new();
    let payload = b"GET /admin HTTP/1.1\r\nJunk: \xff\r\n\r\n";
    let (out, modified) = apply_rules(&rules, payload, &mut stats);
    assert!(modified);
    let replacement = [0xef, 0xbf, 0xbd];
    assert!(out.windows(3).any(|w| w == replacement));
    assert!(!payload.windows(3).any(|w| w == replacement));
}
