use gateway_proxy::{checksum, parse_ipv4, parse_tcp, payload, rebuild_packet, GatewayProxy, ProxyStats};

fn build_datagram(protocol: u8, dest_port: u16, body: &[u8]) -> Vec<u8> {
    let total_len = 40 + body.len();
    let mut v = vec![0u8; 40];
    v[0] = 0x45; // version 4, header length 20
    v[2] = (total_len >> 8) as u8;
    v[3] = (total_len & 0xff) as u8;
    v[8] = 64; // time to live
    v[9] = protocol;
    v[12] = 10;
    v[15] = 1; // source 10.0.0.1
    v[16] = 10;
    v[19] = 2; // destination 10.0.0.2
    v[20] = 0xc0;
    v[21] = 0x01; // source port 49153
    v[22] = (dest_port >> 8) as u8;
    v[23] = (dest_port & 0xff) as u8;
    v[32] = 0x50; // data offset 5: header length 20
    v.extend_from_slice(body);
    v
}

#[test]
fn short_buffer_has_no_ipv4_header() {
    assert!(parse_ipv4(&[0x45u8; 19]).is_none());
    assert!(parse_ipv4(&[]).is_none());
}

#[test]
fn wrong_version_has_no_ipv4_header() {
    let mut d = build_datagram(6, 80, b"x");
    d[0] = 0x65; // version 6
    assert!(parse_ipv4(&d).is_none());
}

#[test]
fn ipv4_fields_are_read_big_endian() {
    let d = build_datagram(6, 80, b"hello");
    let h = parse_ipv4(&d).unwrap();
    assert_eq!(h.version, 4);
    assert_eq!(h.header_len, 20);
    assert_eq!(h.total_len, 45);
    assert_eq!(h.protocol, 6);
    assert_eq!(h.saddr, 0x0a000001);
    assert_eq!(h.daddr, 0x0a000002);
}

#[test]
fn tcp_fields_are_read_big_endian() {
    let d = build_datagram(6, 8080, b"hello");
    let t = parse_tcp(&d, 20).unwrap();
    assert_eq!(t.source, 49153);
    assert_eq!(t.dest, 8080);
    assert_eq!(t.header_len, 20);
}

#[test]
fn tcp_header_needs_twenty_bytes_after_offset() {
    let d = vec![0u8; 39];
    assert!(parse_tcp(&d, 20).is_none());
}

#[test]
fn payload_absent_when_headers_cover_buffer() {
    let d = build_datagram(6, 80, b"");
    assert!(payload(&d, 20, 20).is_none());
}

#[test]
fn payload_is_the_tail() {
    let d = build_datagram(6, 80, b"abc");
    assert_eq!(payload(&d, 20, 20).unwrap(), b"abc");
}

#[test]
fn non_tcp_packet_is_no_action_but_counted() {
    let proxy = GatewayProxy::new(80);
    let mut stats = ProxyStats::new();
    let d = build_datagram(17, 80, b"GET / HTTP/1.1\r\nHost: test.com\r\n\r\n");
    assert!(proxy.process_packet(&d, &mut stats).is_none());
    assert_eq!(stats.total_packets, 1);
    assert_eq!(stats.total_bytes, d.len() as u64);
    assert_eq!(stats.http_packets, 0);
    assert_eq!(stats.modified_packets, 0);
}

#[test]
fn wrong_port_is_no_action() {
    let proxy = GatewayProxy::new(80);
    let mut stats = ProxyStats::new();
    let d = build_datagram(6, 8080, b"GET / HTTP/1.1\r\nHost: test.com\r\n\r\n");
    assert!(proxy.process_packet(&d, &mut stats).is_none());
    assert_eq!(stats.http_packets, 0);
}

#[test]
fn empty_payload_is_no_action() {
    let proxy = GatewayProxy::new(80);
    let mut stats = ProxyStats::new();
    let d = build_datagram(6, 80, b"");
    assert!(proxy.process_packet(&d, &mut stats).is_none());
    assert_eq!(stats.total_packets, 1);
    assert_eq!(stats.http_packets, 0);
}

#[test]
fn non_http_payload_is_no_action() {
    let proxy = GatewayProxy::new(80);
    let mut stats = ProxyStats::new();
    let d = build_datagram(6, 80, b"NOT-AN-HTTP-REQUEST.....");
    assert!(proxy.process_packet(&d, &mut stats).is_none());
    assert_eq!(stats.http_packets, 0);
}

#[test]
fn unmatched_http_counts_but_emits_nothing() {
    let proxy = GatewayProxy::new(80);
    let mut stats = ProxyStats::new();
    let d = build_datagram(6, 80, b"GET / HTTP/1.1\r\nHost: nothing.org\r\n\r\n");
    assert!(proxy.process_packet(&d, &mut stats).is_none());
    assert_eq!(stats.http_packets, 1);
    assert_eq!(stats.modified_packets, 0);
}

#[test]
fn rebuilt_datagram_has_consistent_lengths_and_checksums() {
    let proxy = GatewayProxy::new(80);
    let mut stats = ProxyStats::new();
    let body = b"GET / HTTP/1.1\r\nHost: test.com\r\n\r\n";
    let d = build_datagram(6, 80, body);
    let out = proxy.process_packet(&d, &mut stats).unwrap();
    assert_eq!(stats.http_packets, 1);
    assert_eq!(stats.modified_packets, 1);
    // The enhancing rule grew the payload by two header lines.
    let new_body =
        b"GET / HTTP/1.1\r\nHost: test.com\r\nX-Gateway-Modified: true\r\nX-Rust-Proxy: enabled\r\n\r\n";
    assert_eq!(out.len(), 40 + new_body.len());
    assert_eq!(&out[40..], new_body);
    // Total-length field spells the new length.
    let total = 40 + new_body.len();
    assert_eq!(out[2], (total >> 8) as u8);
    assert_eq!(out[3], (total & 0xff) as u8);
    // Both rewritten checksums satisfy the verification identity.
    assert_eq!(checksum(&out[..20]), 0);
    assert_eq!(checksum(&out[20..]), 0);
    // Ports and sequence numbers are preserved.
    assert_eq!(&out[20..24], &d[20..24]);
    assert_eq!(&out[24..32], &d[24..32]);
}

#[test]
fn rebuild_packet_replaces_payload_of_different_length() {
    let d = build_datagram(6, 80, b"old payload");
    let out = rebuild_packet(&d, b"a rather different new payload").unwrap();
    assert_eq!(out.len(), 40 + 30);
    assert_eq!(&out[40..], b"a rather different new payload");
    assert_eq!(out[2], 0);
    assert_eq!(out[3], 70);
    assert_eq!(checksum(&out[..20]), 0);
    assert_eq!(checksum(&out[20..]), 0);
    // Header bytes outside the rewritten fields are kept.
    assert_eq!(out[0], d[0]);
    assert_eq!(out[9], d[9]);
    assert_eq!(&out[12..20], &d[12..20]);
}

#[test]
fn rebuild_needs_parsable_headers() {
    assert!(rebuild_packet(&[0u8; 10], b"x").is_none());
    let mut d = build_datagram(6, 80, b"x");
    d[0] = 0x65;
    assert!(rebuild_packet(&d, b"x").is_none());
}

#[test]
fn counters_tally_a_run() {
    // Two non-TCP datagrams, two HTTP datagrams of which one fires a
    // rule: the final counters spell exactly that.
    let proxy = GatewayProxy::new(80);
    let mut stats = ProxyStats::new();
    let n1 = build_datagram(17, 80, b"GET / HTTP/1.1\r\nHost: test.com\r\n\r\n");
    let n2 = build_datagram(1, 80, b"ping");
    let m1 = build_datagram(6, 80, b"GET / HTTP/1.1\r\nHost: test.com\r\n\r\n");
    let m2 = build_datagram(6, 80, b"GET / HTTP/1.1\r\nHost: nothing.org\r\n\r\n");
    let frames = [&n1, &n2, &m1, &m2];
    let mut bytes = 0u64;
    for f in frames {
        let _ = proxy.process_packet(f, &mut stats);
        bytes += f.len() as u64;
    }
    assert_eq!(stats.total_packets, 4);
    assert_eq!(stats.http_packets, 2);
    assert_eq!(stats.modified_packets, 1);
    assert_eq!(stats.total_bytes, bytes);
}

#[test]
fn short_frame_is_dropped_uncounted() {
    let proxy = GatewayProxy::new(80);
    let mut stats = ProxyStats::new();
    assert!(proxy.process_frame(&[0u8; 14], &mut stats).is_none());
    assert_eq!(stats.total_packets, 0);
}

#[test]
fn frame_keeps_its_link_header() {
    let proxy = GatewayProxy::new(80);
    let mut stats = ProxyStats::new();
    let mut frame: Vec<u8> = (0u8..14).collect();
    frame.extend_from_slice(&build_datagram(6, 80, b"GET / HTTP/1.1\r\nHost: test.com\r\n\r\n"));
    let out = proxy.process_frame(&frame, &mut stats).unwrap();
    assert_eq!(&out[..14], &frame[..14]);
    assert_eq!(stats.total_packets, 1);
    assert_eq!(stats.modified_packets, 1);
}

#[test]
fn fresh_stats_are_zero() {
    let s = ProxyStats::new();
    assert_eq!(s.total_packets, 0);
    assert_eq!(s.http_packets, 0);
    assert_eq!(s.modified_packets, 0);
    assert_eq!(s.total_bytes, 0);
}
