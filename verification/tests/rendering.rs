use rust_sniffer::logger::{flow_json, push_json_escaped};
use rust_sniffer::output::{flow_line, fmt_bytes, ipv4_text};
use rust_sniffer::protocols::{FlowStats, IpAddress, Protocol};
use rust_sniffer::text::join_strings;

fn reference_bytes(b: u64) -> String {
    if b < 1024 {
        format!("{}B", b)
    } else if b < 1024 * 1024 {
        format!("{:.1}KB", b as f64 / 1024.0)
    } else {
        format!("{:.1}MB", b as f64 / (1024.0 * 1024.0))
    }
}

#[test]
fn byte_units() {
    assert_eq!(fmt_bytes(0), "0B");
    assert_eq!(fmt_bytes(1023), "1023B");
    assert_eq!(fmt_bytes(1024), "1.0KB");
    assert_eq!(fmt_bytes(1536), "1.5KB");
    assert_eq!(fmt_bytes(1024 * 1024 - 1), "1024.0KB");
    assert_eq!(fmt_bytes(1024 * 1024), "1.0MB");
    assert_eq!(fmt_bytes(10 * 1024 * 1024 + 512 * 1024), "10.5MB");
}

#[test]
fn byte_units_match_float_formatting() {
    let mut values: Vec<u64> = (0..5000).collect();
    values.extend([1280, 1331, 3712, 1048575, 1048576, 1153433, 1205862, 5_000_000_000]);
    for e in 20..64 {
        let p = 1u64 << e;
        values.extend([p - 1, p, p + 1, p + (p >> 1), p.wrapping_mul(3) / 2 + 52428]);
    }
    values.extend([u64::MAX, u64::MAX - 1, (1u64 << 53) + 1, (1u64 << 53) + 3, (1u64 << 54) + 2, (1u64 << 54) + 6]);
    let mut seed: u64 = 0x9e3779b97f4a7c15;
    for _ in 0..20000 {
        seed ^= seed << 13;
        seed ^= seed >> 7;
        seed ^= seed << 17;
        values.push(seed >> (seed % 60));
    }
    for b in values {
        assert_eq!(fmt_bytes(b), reference_bytes(b), "for {}", b);
    }
}

#[test]
fn join_with_separator() {
    let parts = vec!["a".to_string(), "".to_string(), "bc".to_string()];
    assert_eq!(join_strings(&parts, "."), "a..bc");
    assert_eq!(join_strings(&vec![], "."), "");
}

fn stats() -> FlowStats {
    FlowStats {
        first_seen: "12:34:56.789".to_string(),
        last_seen: "12:35:00.000".to_string(),
        packets: 3,
        bytes: 2048,
        tls_version: Some("TLS 1.3".to_string()),
        dns_query: None,
        http_requests: vec![],
        src_ip: IpAddress::V4(0x0a000002),
        dst_ip: IpAddress::V4(0x01010101),
        src_port: 51000,
        dst_port: 443,
        protocol: Protocol::Https,
        is_udp: false,
        printed: true,
    }
}

#[test]
fn flow_line_shows_client_first() {
    let s = stats();
    let line = flow_line(&s, "10.0.0.2", "1.1.1.1");
    let expected = "\x1b[90m12:34:56.789\x1b[0m \x1b[1m\x1b[32m[HTTPS     ]\x1b[0m \x1b[90mTCP\x1b[0m 10.0.0.2:51000 \u{2192} 1.1.1.1443:\x1b[90m\x1b[0m  \x1b[90m\x1b[1mpkts:3 \x1b[1mbytes:2.0KB\x1b[0m    \x1b[32m[TLS 1.3]\x1b[0m";
    assert_eq!(line, expected);
    // The server side sent this flow's first packet: it is still shown second.
    let mut r = s.clone();
    r.src_ip = IpAddress::V4(0x01010101);
    r.dst_ip = IpAddress::V4(0x0a000002);
    r.src_port = 443;
    r.dst_port = 51000;
    assert_eq!(flow_line(&r, "1.1.1.1", "10.0.0.2"), expected);
}

#[test]
fn flow_line_detail_priority() {
    let mut s = stats();
    s.protocol = Protocol::Dns;
    s.is_udp = true;
    s.dns_query = Some("? a.b".to_string());
    let line = flow_line(&s, "x", "y");
    assert!(line.ends_with("  \x1b[36m? a.b\x1b[0m"));
    assert!(line.contains("[DNS       ]"));
    assert!(line.contains("UDP"));
    s.http_requests = vec!["GET / HTTP/1.1".to_string()];
    assert!(flow_line(&s, "x", "y").ends_with("  \x1b[36mGET / HTTP/1.1\x1b[0m"));
    s.http_requests.clear();
    s.dns_query = None;
    s.tls_version = None;
    assert!(flow_line(&s, "x", "y").ends_with("\x1b[0m  "));
    s.protocol = Protocol::Quic;
    assert!(flow_line(&s, "x", "y").contains("[QUIC/HTTP3]"));
}

#[test]
fn json_record() {
    let mut s = stats();
    s.http_requests = vec!["GET /\"q\" HTTP/1.1".to_string()];
    s.dns_query = Some("? x.y".to_string());
    let j = flow_json(&s, "10.0.0.2", "1.1.1.1");
    assert_eq!(
        j,
        "{\"first_seen\":\"12:34:56.789\",\"last_seen\":\"12:35:00.000\",\"proto\":\"HTTPS\",\"transport\":\"TCP\",\"src\":\"10.0.0.2:51000\",\"dst\":\"1.1.1.1:443\",\"packets\":3,\"bytes\":2048,\"tls\":\"TLS 1.3\",\"dns_query\":\"? x.y\",\"http_request\":\"GET /\\\"q\\\" HTTP/1.1\"}\n"
    );
    let plain = flow_json(&FlowStats { tls_version: None, ..stats() }, "a", "b");
    assert!(plain.ends_with("\"bytes\":2048}\n"));
}

#[test]
fn json_escaping() {
    let cases = [
        ("", ""),
        ("plain", "plain"),
        ("a\"b", "a\\\"b"),
        ("back\\slash", "back\\\\slash"),
        ("tab\there\n", "tab\\u0009here\\u000a"),
        ("\u{1f}\u{7f}\u{e9}", "\\u001f\u{7f}\u{e9}"),
    ];
    for (t, expected) in cases {
        let mut s = String::from(">");
        push_json_escaped(&mut s, t);
        assert_eq!(s, format!(">{}", expected));
    }
}

#[test]
fn json_members_are_escaped() {
    let mut s = stats();
    s.dns_query = Some("? a\"b".to_string());
    s.tls_version = None;
    s.http_requests = vec!["GET /\\x\r HTTP/1.1".to_string()];
    let j = flow_json(&s, "10.0.0.2", "1.1.1.1");
    assert!(j.ends_with(",\"dns_query\":\"? a\\\"b\",\"http_request\":\"GET /\\\\x\\u000d HTTP/1.1\"}\n"));
}

#[test]
fn ipv4_dotted_decimal() {
    assert_eq!(ipv4_text(0x0a000002), "10.0.0.2");
    assert_eq!(ipv4_text(0), "0.0.0.0");
    assert_eq!(ipv4_text(u32::MAX), "255.255.255.255");
    assert_eq!(ipv4_text(0xc0a80164), "192.168.1.100");
}

#[test]
fn equal_ports_show_destination_first() {
    let mut s = stats();
    s.dst_port = 51000;
    let a = flow_line(&s, "A", "B");
    assert!(a.contains(" B:51000 \u{2192} A51000:"));
}
