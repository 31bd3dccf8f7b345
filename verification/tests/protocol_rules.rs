use rust_sniffer::protocols::{endpoint_less, FlowKey, IpAddress, Protocol};

#[test]
fn protocol_by_port_either_side() {
    assert_eq!(Protocol::from_ports_and_transport(51000, 80, false), Protocol::Http);
    assert_eq!(Protocol::from_ports_and_transport(80, 51000, false), Protocol::Http);
    assert_eq!(Protocol::from_ports_and_transport(443, 51000, false), Protocol::Https);
    assert_eq!(Protocol::from_ports_and_transport(51000, 443, true), Protocol::Quic);
    assert_eq!(Protocol::from_ports_and_transport(53, 40000, true), Protocol::Dns);
    assert_eq!(Protocol::from_ports_and_transport(40000, 22, false), Protocol::Ssh);
    assert_eq!(Protocol::from_ports_and_transport(20, 40000, false), Protocol::Ftp);
    assert_eq!(Protocol::from_ports_and_transport(40000, 21, false), Protocol::Ftp);
    assert_eq!(Protocol::from_ports_and_transport(25, 40000, false), Protocol::Smtp);
    assert_eq!(Protocol::from_ports_and_transport(40000, 587, false), Protocol::Smtp);
    assert_eq!(Protocol::from_ports_and_transport(465, 40000, false), Protocol::Smtp);
    assert_eq!(Protocol::from_ports_and_transport(1234, 5678, false), Protocol::Unknown);
}

#[test]
fn protocol_rules_have_priority() {
    // 80 beats 443, 443 beats 53.
    assert_eq!(Protocol::from_ports_and_transport(443, 80, false), Protocol::Http);
    assert_eq!(Protocol::from_ports_and_transport(53, 443, true), Protocol::Quic);
    assert_eq!(Protocol::from_ports_and_transport(22, 53, true), Protocol::Dns);
}

#[test]
fn protocol_names_and_colors() {
    let all = [
        (Protocol::Http, "HTTP", "\x1b[33m"),
        (Protocol::Https, "HTTPS", "\x1b[32m"),
        (Protocol::Quic, "QUIC/HTTP3", "\x1b[96m"),
        (Protocol::Dns, "DNS", "\x1b[36m"),
        (Protocol::Ssh, "SSH", "\x1b[35m"),
        (Protocol::Ftp, "FTP", "\x1b[34m"),
        (Protocol::Smtp, "SMTP", "\x1b[31m"),
        (Protocol::Unknown, "???", "\x1b[90m"),
    ];
    for (p, name, color) in all {
        assert_eq!(p.as_str(), name);
        assert_eq!(p.color_code(), color);
    }
}

#[test]
fn target_ports() {
    for port in [80u16, 443, 53, 22, 20, 21, 25, 587, 465] {
        assert!(Protocol::is_target(port, 40000));
        assert!(Protocol::is_target(40000, port));
    }
    assert!(!Protocol::is_target(8080, 40000));
    assert!(!Protocol::is_target(0, 0));
}

#[test]
fn target_iff_known_protocol_on_all_small_ports() {
    for a in 0u16..700 {
        for b in [0u16, 80, 443, 1000, 587] {
            for udp in [false, true] {
                let known = Protocol::from_ports_and_transport(a, b, udp) != Protocol::Unknown;
                assert_eq!(Protocol::is_target(a, b), known);
                assert_eq!(
                    Protocol::from_ports_and_transport(a, b, udp),
                    Protocol::from_ports_and_transport(b, a, udp)
                );
            }
        }
    }
}

#[test]
fn flow_key_is_direction_free() {
    let a = IpAddress::V4(0x0a000001);
    let b = IpAddress::V4(0xc0a80001);
    let k1 = FlowKey::new(a, 50000, b, 443, Protocol::Https);
    let k2 = FlowKey::new(b, 443, a, 50000, Protocol::Https);
    assert_eq!(k1, k2);
    assert_eq!(k1.ip_a, a);
    assert_eq!(k1.port_a, 50000);
    assert_eq!(k1.ip_b, b);
    assert_eq!(k1.port_b, 443);
}

#[test]
fn flow_key_orders_by_address_then_port() {
    let a = IpAddress::V4(7);
    let k = FlowKey::new(a, 9000, a, 80, Protocol::Http);
    assert_eq!(k.port_a, 80);
    assert_eq!(k.port_b, 9000);
    // Every IPv4 address sorts before every IPv6 address.
    let v6 = IpAddress::V6(1);
    let v4 = IpAddress::V4(u32::MAX);
    let k = FlowKey::new(v6, 1, v4, 2, Protocol::Dns);
    assert_eq!(k.ip_a, v4);
    assert!(endpoint_less(v4, 2, v6, 1));
    assert!(!endpoint_less(v6, 1, v4, 2));
    assert!(!endpoint_less(a, 5, a, 5));
}
