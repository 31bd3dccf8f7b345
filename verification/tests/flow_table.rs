use rust_sniffer::flows::{FlowTable, FLOW_TIMEOUT_NANOS, FLUSH_EVERY_N_PACKETS};
use rust_sniffer::protocols::{FlowKey, IpAddress, PacketInfo, Protocol};

fn packet(src: u32, sport: u16, dst: u32, dport: u16, len: usize, ts: &str) -> PacketInfo {
    PacketInfo {
        timestamp: ts.to_string(),
        protocol: Protocol::from_ports_and_transport(sport, dport, false),
        is_udp: false,
        src_ip: IpAddress::V4(src),
        dst_ip: IpAddress::V4(dst),
        src_port: sport,
        dst_port: dport,
        payload_len: len,
        payload_preview: vec![],
        tls_version: None,
        dns_query: None,
        http_method: None,
    }
}

#[test]
fn new_flow_then_reply() {
    let mut t = FlowTable::new();
    let (i, first) = t.record_packet(packet(1, 50000, 2, 443, 100, "10:00:00.000"), 0);
    assert!(first);
    assert_eq!(i, 0);
    let s = t.flow(0);
    assert_eq!(s.packets, 1);
    assert_eq!(s.bytes, 100);
    assert!(s.printed);
    assert_eq!(s.first_seen, "10:00:00.000");
    assert_eq!(s.src_port, 50000);
    // The reply belongs to the same flow.
    let (j, first) = t.record_packet(packet(2, 443, 1, 50000, 40, "10:00:01.000"), 10);
    assert!(!first);
    assert_eq!(j, 0);
    assert_eq!(t.len(), 1);
    let s = t.flow(0);
    assert_eq!(s.packets, 2);
    assert_eq!(s.bytes, 140);
    assert_eq!(s.first_seen, "10:00:00.000");
    assert_eq!(s.last_seen, "10:00:01.000");
    // The flow keeps the direction of its first packet.
    assert_eq!(s.src_ip, IpAddress::V4(1));
    assert_eq!(
        t.key_at(0),
        FlowKey::new(IpAddress::V4(1), 50000, IpAddress::V4(2), 443, Protocol::Https)
    );
    assert_eq!(t.find(&FlowKey::new(IpAddress::V4(2), 443, IpAddress::V4(1), 50000, Protocol::Https)), Some(0));
}

#[test]
fn distinct_connections_get_distinct_flows() {
    let mut t = FlowTable::new();
    t.record_packet(packet(1, 50000, 2, 443, 1, "a"), 0);
    let (i, first) = t.record_packet(packet(1, 50001, 2, 443, 1, "b"), 0);
    assert!(first);
    assert_eq!(i, 1);
    let (i, first) = t.record_packet(packet(3, 50000, 2, 443, 1, "c"), 0);
    assert!(first);
    assert_eq!(i, 2);
    assert_eq!(t.len(), 3);
}

#[test]
fn first_tls_and_dns_win() {
    let mut t = FlowTable::new();
    let mut p = packet(1, 50000, 2, 443, 1, "a");
    t.record_packet(p.clone(), 0);
    assert_eq!(t.flow(0).tls_version, None);
    p.tls_version = Some("TLS 1.2/1.3".to_string());
    p.dns_query = Some("? a.b".to_string());
    t.record_packet(p.clone(), 0);
    p.tls_version = Some("TLS 1.0".to_string());
    p.dns_query = Some("? c.d".to_string());
    t.record_packet(p, 0);
    assert_eq!(t.flow(0).tls_version.as_deref(), Some("TLS 1.2/1.3"));
    assert_eq!(t.flow(0).dns_query.as_deref(), Some("? a.b"));
}

#[test]
fn request_lines_are_distinct_and_capped() {
    let mut t = FlowTable::new();
    for i in 0..8 {
        let mut p = packet(1, 50000, 2, 80, 1, "a");
        p.http_method = Some(format!("GET /{} HTTP/1.1", i % 7));
        t.record_packet(p, 0);
        let mut p = packet(1, 50000, 2, 80, 1, "a");
        p.http_method = Some("GET /0 HTTP/1.1".to_string());
        t.record_packet(p, 0);
    }
    let reqs = &t.flow(0).http_requests;
    assert_eq!(reqs.len(), 5);
    assert_eq!(reqs[0], "GET /0 HTTP/1.1");
    assert_eq!(reqs[4], "GET /4 HTTP/1.1");
    assert_eq!(t.flow(0).packets, 16);
}

#[test]
fn flush_drops_silent_flows() {
    let mut t = FlowTable::new();
    t.record_packet(packet(1, 50000, 2, 443, 1, "a"), 0);
    t.record_packet(packet(1, 50001, 2, 443, 1, "b"), 4_000_000_000);
    t.record_packet(packet(1, 50002, 2, 443, 1, "c"), 6_000_000_000);
    t.flush_old_flows(FLOW_TIMEOUT_NANOS + 4_000_000_000);
    // 9 s: the first flow is 9 s old, the second exactly 5 s, the third 3 s.
    assert_eq!(t.len(), 1);
    assert_eq!(t.flow(0).first_seen, "c");
    // A clock behind the last packet counts as no time elapsed.
    t.flush_old_flows(0);
    assert_eq!(t.len(), 1);
}

#[test]
fn flush_every_two_hundred_packets() {
    let mut t = FlowTable::new();
    t.record_packet(packet(1, 50000, 2, 443, 1, "a"), 0);
    let late = 60_000_000_000;
    for n in 1..FLUSH_EVERY_N_PACKETS {
        assert!(!t.count_packet(late));
        assert_eq!(t.packets_counted(), n);
        assert_eq!(t.len(), 1);
    }
    assert!(t.count_packet(late));
    assert_eq!(t.len(), 0);
    assert_eq!(t.packets_counted(), FLUSH_EVERY_N_PACKETS);
}

#[test]
fn overflow_checks() {
    let mut t = FlowTable::new();
    let p = packet(1, 50000, 2, 443, 1, "a");
    assert!(t.can_record(&p));
    t.record_packet(p.clone(), 0);
    assert!(t.can_record(&p));
    let mut huge = p.clone();
    huge.payload_len = usize::MAX;
    assert!(!t.can_record(&huge));
    assert!(t.can_count());
}

#[test]
fn reopened_flow_counts_from_its_new_first_packet() {
    let mut t = FlowTable::new();
    // A capture loop: record each packet, then count it.
    let run = [
        (packet(1, 50000, 2, 80, 10, "t0"), 0u64),
        (packet(2, 80, 1, 50000, 20, "t1"), 1_000_000_000),
        (packet(3, 40000, 4, 22, 5, "t2"), 2_000_000_000),
    ];
    for (p, now) in run.iter() {
        t.record_packet(p.clone(), *now);
        t.count_packet(*now);
    }
    assert_eq!(t.len(), 2);
    assert_eq!(t.flow(0).packets, 2);
    assert_eq!(t.flow(0).bytes, 30);
    // Both flows fall silent; a flush at a late time drops them.
    t.flush_old_flows(60_000_000_000);
    assert_eq!(t.len(), 0);
    // The next packet of the first connection opens a fresh flow.
    let (i, first) = t.record_packet(packet(2, 80, 1, 50000, 7, "t3"), 60_000_000_000);
    assert!(first);
    assert_eq!(i, 0);
    let s = t.flow(0);
    assert_eq!(s.packets, 1);
    assert_eq!(s.bytes, 7);
    assert_eq!(s.first_seen, "t3");
    assert_eq!(s.last_seen, "t3");
    // It takes the direction of that packet.
    assert_eq!(s.src_ip, IpAddress::V4(2));
    assert_eq!(s.src_port, 80);
}

#[test]
fn flush_keeps_fresh_flows_unchanged() {
    let mut t = FlowTable::new();
    t.record_packet(packet(1, 50000, 2, 443, 3, "a"), 0);
    t.record_packet(packet(1, 50001, 2, 443, 4, "b"), 8_000_000_000);
    t.record_packet(packet(1, 50001, 2, 443, 5, "c"), 8_000_000_000);
    t.flush_old_flows(9_000_000_000);
    assert_eq!(t.len(), 1);
    let s = t.flow(0);
    assert_eq!(s.packets, 2);
    assert_eq!(s.bytes, 9);
    assert_eq!(s.first_seen, "b");
    assert_eq!(s.last_seen, "c");
}
