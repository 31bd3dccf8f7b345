use rust_sniffer::capture::{
    parse_ethernet, parse_ipv4, parse_ipv6, parse_tcp, parse_udp,
    tcp_packet_info, udp_packet_info,
};
use rust_sniffer::protocols::{IpAddress, Protocol};

fn ipv4_header(proto: u8, total_len: u16, ihl: u8) -> Vec<u8> {
    let mut h = vec![0x40 | ihl, 0, (total_len >> 8) as u8, total_len as u8, 0, 0, 0, 0, 64, proto, 0, 0];
    h.extend_from_slice(&[10, 0, 0, 2]);
    h.extend_from_slice(&[93, 184, 216, 34]);
    while h.len() < (ihl as usize) * 4 {
        h.push(0);
    }
    h
}

fn tcp_header(src: u16, dst: u16, data_offset: u8) -> Vec<u8> {
    let mut h = vec![(src >> 8) as u8, src as u8, (dst >> 8) as u8, dst as u8];
    h.extend_from_slice(&[0, 0, 0, 1, 0, 0, 0, 0, data_offset << 4, 0x18, 0xff, 0xff, 0, 0, 0, 0]);
    while h.len() < (data_offset as usize) * 4 {
        h.push(1);
    }
    h
}

fn udp_header(src: u16, dst: u16, len: u16) -> Vec<u8> {
    vec![(src >> 8) as u8, src as u8, (dst >> 8) as u8, dst as u8, (len >> 8) as u8, len as u8, 0, 0]
}

fn ethernet(ethertype: u16, payload: &[u8]) -> Vec<u8> {
    let mut f = vec![0xaa, 0xbb, 0xcc, 0xdd, 0xee, 0xff, 0x11, 0x22, 0x33, 0x44, 0x55, 0x66];
    f.push((ethertype >> 8) as u8);
    f.push(ethertype as u8);
    f.extend_from_slice(payload);
    f
}

fn ipv4_tcp_frame(src: u16, dst: u16, payload: &[u8]) -> Vec<u8> {
    let tcp = tcp_header(src, dst, 5);
    let total = (20 + tcp.len() + payload.len()) as u16;
    let mut ip = ipv4_header(6, total, 5);
    ip.extend(tcp);
    ip.extend_from_slice(payload);
    ethernet(0x0800, &ip)
}

const STAMP: &str = "12:34:56.789";

#[test]
fn https_over_ipv4_with_tls() {
    let tls = [0x16, 0x03, 0x01, 0x02, 0x00, 0x01, 0x00];
    let f = ipv4_tcp_frame(51515, 443, &tls);
    let p = parse_ethernet(&f, STAMP).unwrap();
    assert_eq!(p.protocol, Protocol::Https);
    assert!(!p.is_udp);
    assert_eq!(p.src_ip, IpAddress::V4(0x0a000002));
    assert_eq!(p.dst_ip, IpAddress::V4(0x5db8d822));
    assert_eq!(p.src_port, 51515);
    assert_eq!(p.dst_port, 443);
    assert_eq!(p.payload_len, tls.len());
    assert_eq!(p.payload_preview, tls.to_vec());
    assert_eq!(p.tls_version.as_deref(), Some("TLS 1.0"));
    assert_eq!(p.dns_query, None);
    assert_eq!(p.http_method, None);
    assert_eq!(p.timestamp, STAMP);
}

#[test]
fn http_over_ipv4() {
    let f = ipv4_tcp_frame(80, 40000, b"GET /x HTTP/1.0\r\n\r\n");
    let p = parse_ethernet(&f, STAMP).unwrap();
    assert_eq!(p.protocol, Protocol::Http);
    assert_eq!(p.http_method.as_deref(), Some("GET /x HTTP/1.0"));
    assert_eq!(p.tls_version, None);
}

#[test]
fn preview_is_first_64_bytes() {
    let payload: Vec<u8> = (0..100u8).collect();
    let f = ipv4_tcp_frame(22, 40000, &payload);
    let p = parse_ethernet(&f, STAMP).unwrap();
    assert_eq!(p.protocol, Protocol::Ssh);
    assert_eq!(p.payload_len, 100);
    assert_eq!(p.payload_preview, payload[..64].to_vec());
}

#[test]
fn non_target_ports_are_dropped() {
    let f = ipv4_tcp_frame(8080, 40000, b"GET / HTTP/1.1\r\n");
    assert!(parse_ethernet(&f, STAMP).is_none());
}

#[test]
fn ipv4_total_length_bounds_payload() {
    // Ethernet padding after the IP packet is not payload.
    let tcp = tcp_header(40000, 443, 5);
    let mut ip = ipv4_header(6, 20 + 20 + 3, 5);
    ip.extend(tcp);
    ip.extend_from_slice(&[1, 2, 3, 0, 0, 0, 0]);
    let p = parse_ipv4(&ip, STAMP).unwrap();
    assert_eq!(p.payload_len, 3);
    assert_eq!(p.payload_preview, vec![1, 2, 3]);
}

#[test]
fn ipv4_options_and_tcp_options_are_skipped() {
    let tcp = tcp_header(443, 40000, 8);
    let payload = [0x16, 3, 3, 0, 0];
    let total = (24 + tcp.len() + payload.len()) as u16;
    let mut ip = ipv4_header(6, total, 6);
    ip.extend(tcp);
    ip.extend_from_slice(&payload);
    let p = parse_ipv4(&ip, STAMP).unwrap();
    assert_eq!(p.payload_len, 5);
    assert_eq!(p.tls_version.as_deref(), Some("TLS 1.2/1.3"));
}

#[test]
fn dns_over_ipv6_udp() {
    let mut dns = vec![0xab, 0xcd, 0x01, 0x00, 0, 1, 0, 0, 0, 0, 0, 0];
    dns.extend_from_slice(&[4, b'r', b'u', b's', b't', 4, b'l', b'a', b'n', b'g', 0, 0, 1, 0, 1]);
    let mut ip6 = vec![0x60, 0, 0, 0];
    let plen = (8 + dns.len()) as u16;
    ip6.extend_from_slice(&[(plen >> 8) as u8, plen as u8, 17, 64]);
    let src: [u8; 16] = [0xfe, 0x80, 0, 0, 0, 0, 0, 0, 0, 0, 0, 0, 0, 0, 0, 1];
    let dst: [u8; 16] = [0x20, 0x01, 0x0d, 0xb8, 0, 0, 0, 0, 0, 0, 0, 0, 0, 0, 0, 0x53];
    ip6.extend_from_slice(&src);
    ip6.extend_from_slice(&dst);
    ip6.extend(udp_header(5353, 53, plen));
    ip6.extend_from_slice(&dns);
    let f = ethernet(0x86dd, &ip6);
    let p = parse_ethernet(&f, STAMP).unwrap();
    assert_eq!(p.protocol, Protocol::Dns);
    assert!(p.is_udp);
    assert_eq!(p.src_ip, IpAddress::V6(u128::from_be_bytes(src)));
    assert_eq!(p.dst_ip, IpAddress::V6(u128::from_be_bytes(dst)));
    assert_eq!(p.dns_query.as_deref(), Some("? rust.lang"));
    assert_eq!(p.payload_len, dns.len());
    let direct = parse_ipv6(&ip6, STAMP).unwrap();
    assert_eq!(direct.dns_query, p.dns_query);
}

#[test]
fn quic_over_udp() {
    let udp = udp_header(443, 50000, 12);
    let mut data = udp.clone();
    data.extend_from_slice(&[0xc0, 0, 0, 1]);
    let p = parse_udp(IpAddress::V4(1), IpAddress::V4(2), &data, STAMP).unwrap();
    assert_eq!(p.protocol, Protocol::Quic);
    assert_eq!(p.dns_query, None);
    assert_eq!(p.payload_len, 4);
}

#[test]
fn unsupported_frames() {
    assert!(parse_ethernet(&[], STAMP).is_none());
    assert!(parse_ethernet(&[0u8; 13], STAMP).is_none());
    // ARP
    assert!(parse_ethernet(&ethernet(0x0806, &[0u8; 28]), STAMP).is_none());
    // ICMP inside IPv4
    let mut ip = ipv4_header(1, 28, 5);
    ip.extend_from_slice(&[8, 0, 0, 0, 0, 0, 0, 0]);
    assert!(parse_ethernet(&ethernet(0x0800, &ip), STAMP).is_none());
    // Truncated IPv4 header
    assert!(parse_ethernet(&ethernet(0x0800, &[0x45, 0, 0]), STAMP).is_none());
    // IPv4 carrying a truncated TCP header
    let mut ip = ipv4_header(6, 30, 5);
    ip.extend_from_slice(&[0, 80, 0, 80, 0, 0, 0, 0, 0, 0]);
    assert!(parse_ethernet(&ethernet(0x0800, &ip), STAMP).is_none());
    // Truncated IPv6 header
    assert!(parse_ipv6(&[0x60; 39], STAMP).is_none());
    assert!(parse_tcp(IpAddress::V4(1), IpAddress::V4(2), &[0u8; 19], STAMP).is_none());
    assert!(parse_udp(IpAddress::V4(1), IpAddress::V4(2), &[0u8; 7], STAMP).is_none());
}

#[test]
fn packet_info_keeps_given_timestamp() {
    let mut seg = tcp_header(443, 40000, 5);
    seg.extend_from_slice(&[0x16, 3, 4, 0, 0]);
    let p = tcp_packet_info(IpAddress::V4(5), IpAddress::V4(6), &seg, "12:00:00.000".to_string());
    assert_eq!(p.timestamp, "12:00:00.000");
    assert_eq!(p.tls_version.as_deref(), Some("TLS 1.3"));
    let mut dgram = udp_header(53, 40000, 8);
    dgram.extend_from_slice(&[0u8; 3]);
    let q = udp_packet_info(IpAddress::V4(5), IpAddress::V4(6), &dgram, "x".to_string());
    assert_eq!(q.timestamp, "x");
    assert_eq!(q.protocol, Protocol::Dns);
    assert_eq!(q.dns_query, None);
}

#[test]
fn request_lines_splitting_a_character_are_shortened() {
    let mut payload = b"GET /".to_vec();
    payload.extend(std::iter::repeat(b'a').take(74));
    payload.extend("\u{e9}".as_bytes());
    payload.extend(b" HTTP/1.1\r\n");
    let f = ipv4_tcp_frame(40000, 80, &payload);
    let p = parse_ethernet(&f, STAMP).unwrap();
    assert_eq!(p.protocol, Protocol::Http);
    assert_eq!(p.http_method, Some(format!("GET /{}\u{2026}", "a".repeat(74))));
}
