//! Application protocols recognised by port, endpoint addresses, and the
//! records kept per packet and per flow.
use vstd::prelude::*;

verus! {

/// Application protocol, told apart by well-known ports and transport.
#[derive(Debug, Clone, Copy, PartialEq, Eq, Hash, Structural)]
pub enum Protocol {
    Http,
    Https,
    /// HTTP/3 over UDP port 443.
    Quic,
    Dns,
    Ssh,
    Ftp,
    Smtp,
    Unknown,
}

/// True when either endpoint uses `port`.
pub open spec fn uses_port(src: u16, dst: u16, port: u16) -> bool {
    src == port || dst == port
}

/// The protocol of a connection between two ports; earlier rules win.
pub open spec fn spec_protocol(src: u16, dst: u16, is_udp: bool) -> Protocol {
    if uses_port(src, dst, 80) {
        Protocol::Http
    } else if uses_port(src, dst, 443) {
        if is_udp {
            Protocol::Quic
        } else {
            Protocol::Https
        }
    } else if uses_port(src, dst, 53) {
        Protocol::Dns
    } else if uses_port(src, dst, 22) {
        Protocol::Ssh
    } else if uses_port(src, dst, 20) || uses_port(src, dst, 21) {
        Protocol::Ftp
    } else if uses_port(src, dst, 25) || uses_port(src, dst, 587) || uses_port(src, dst, 465) {
        Protocol::Smtp
    } else {
        Protocol::Unknown
    }
}

/// The ports whose traffic the sniffer keeps.
pub open spec fn is_target_port(port: u16) -> bool {
    port == 80 || port == 443 || port == 53 || port == 22 || port == 20 || port == 21 || port
        == 25 || port == 587 || port == 465
}

/// Short display name of each protocol.
pub open spec fn protocol_name(p: Protocol) -> Seq<char> {
    match p {
        Protocol::Http => "HTTP"@,
        Protocol::Https => "HTTPS"@,
        Protocol::Quic => "QUIC/HTTP3"@,
        Protocol::Dns => "DNS"@,
        Protocol::Ssh => "SSH"@,
        Protocol::Ftp => "FTP"@,
        Protocol::Smtp => "SMTP"@,
        Protocol::Unknown => "???"@,
    }
}

/// Terminal colour escape of each protocol.
pub open spec fn protocol_color(p: Protocol) -> Seq<char> {
    match p {
        Protocol::Http => "\x1b[33m"@,
        Protocol::Https => "\x1b[32m"@,
        Protocol::Quic => "\x1b[96m"@,
        Protocol::Dns => "\x1b[36m"@,
        Protocol::Ssh => "\x1b[35m"@,
        Protocol::Ftp => "\x1b[34m"@,
        Protocol::Smtp => "\x1b[31m"@,
        Protocol::Unknown => "\x1b[90m"@,
    }
}

impl Protocol {
    /// Determines the protocol from the two ports, with UDP port 443 read as QUIC.
    pub fn from_ports_and_transport(src: u16, dst: u16, is_udp: bool) -> (r: Protocol)
        ensures
            r == spec_protocol(src, dst, is_udp),
    {
        if src == 80 || dst == 80 {
            Protocol::Http
        } else if src == 443 || dst == 443 {
            if is_udp {
                Protocol::Quic
            } else {
                Protocol::Https
            }
        } else if src == 53 || dst == 53 {
            Protocol::Dns
        } else if src == 22 || dst == 22 {
            Protocol::Ssh
        } else if src == 20 || dst == 20 || src == 21 || dst == 21 {
            Protocol::Ftp
        } else if src == 25 || dst == 25 || src == 587 || dst == 587 || src == 465 || dst == 465 {
            Protocol::Smtp
        } else {
            Protocol::Unknown
        }
    }

    pub fn as_str(&self) -> (r: &'static str)
        ensures
            r@ == protocol_name(*self),
    {
        match self {
            Protocol::Http => "HTTP",
            Protocol::Https => "HTTPS",
            Protocol::Quic => "QUIC/HTTP3",
            Protocol::Dns => "DNS",
            Protocol::Ssh => "SSH",
            Protocol::Ftp => "FTP",
            Protocol::Smtp => "SMTP",
            Protocol::Unknown => "???",
        }
    }

    pub fn color_code(&self) -> (r: &'static str)
        ensures
            r@ == protocol_color(*self),
    {
        match self {
            Protocol::Http => "\x1b[33m",
            Protocol::Https => "\x1b[32m",
            Protocol::Quic => "\x1b[96m",
            Protocol::Dns => "\x1b[36m",
            Protocol::Ssh => "\x1b[35m",
            Protocol::Ftp => "\x1b[34m",
            Protocol::Smtp => "\x1b[31m",
            Protocol::Unknown => "\x1b[90m",
        }
    }

    /// True when either port is one of the ports the sniffer keeps.
    pub fn is_target(src: u16, dst: u16) -> (r: bool)
        ensures
            r == (is_target_port(src) || is_target_port(dst)),
    {
        matches!(
            (src, dst),
            (80, _) | (_, 80) | (443, _) | (_, 443) | (53, _) | (_, 53) | (22, _) | (_, 22) | (
                20,
                _,
            ) | (_, 20) | (21, _) | (_, 21) | (25, _) | (_, 25) | (587, _) | (_, 587) | (465, _)
                | (_, 465)
        )
    }
}

/// A port is kept exactly when it names a protocol: `is_target` accepts a
/// pair of ports if and only if `from_ports_and_transport` does not answer
/// `Unknown`, over either transport.
pub proof fn lemma_target_iff_known(src: u16, dst: u16, is_udp: bool)
    ensures
        (is_target_port(src) || is_target_port(dst)) <==> spec_protocol(src, dst, is_udp)
            != Protocol::Unknown,
{
}

/// The protocol of a connection does not depend on which endpoint sent the packet.
pub proof fn lemma_protocol_symmetric(src: u16, dst: u16, is_udp: bool)
    ensures
        spec_protocol(src, dst, is_udp) == spec_protocol(dst, src, is_udp),
{
}

/// QUIC is only ever reported for UDP, HTTPS only for TCP; other protocols
/// do not depend on the transport.
pub proof fn lemma_transport_split(src: u16, dst: u16)
    ensures
        spec_protocol(src, dst, false) != Protocol::Quic,
        spec_protocol(src, dst, true) != Protocol::Https,
        spec_protocol(src, dst, true) == Protocol::Quic <==> spec_protocol(src, dst, false)
            == Protocol::Https,
        spec_protocol(src, dst, true) != Protocol::Quic ==> spec_protocol(src, dst, true)
            == spec_protocol(src, dst, false),
{
}

/// Distinct protocols have distinct display names.
pub proof fn lemma_names_distinct(a: Protocol, b: Protocol)
    requires
        a != b,
    ensures
        protocol_name(a) != protocol_name(b),
        protocol_color(a) != protocol_color(b),
{
    reveal_strlit("HTTP");
    reveal_strlit("HTTPS");
    reveal_strlit("QUIC/HTTP3");
    reveal_strlit("DNS");
    reveal_strlit("SSH");
    reveal_strlit("FTP");
    reveal_strlit("SMTP");
    reveal_strlit("???");
    reveal_strlit("\x1b[33m");
    reveal_strlit("\x1b[32m");
    reveal_strlit("\x1b[96m");
    reveal_strlit("\x1b[36m");
    reveal_strlit("\x1b[35m");
    reveal_strlit("\x1b[34m");
    reveal_strlit("\x1b[31m");
    reveal_strlit("\x1b[90m");
    let na = protocol_name(a);
    let nb = protocol_name(b);
    let ca = protocol_color(a);
    let cb = protocol_color(b);
    assert(na.len() != nb.len() || na[0] != nb[0] || na[1] != nb[1] || na[2] != nb[2]);
    assert(ca[2] != cb[2] || ca[3] != cb[3]);
}

/// An endpoint address: IPv4 as its 32-bit value, IPv6 as its 128-bit
/// value, both in network order read as a number.
#[derive(Debug, Clone, Copy, PartialEq, Eq, Hash, Structural)]
pub enum IpAddress {
    V4(u32),
    V6(u128),
}

/// Address order: every IPv4 address before every IPv6 address, and within
/// one family by numeric value.
pub open spec fn ip_lt(a: IpAddress, b: IpAddress) -> bool {
    match (a, b) {
        (IpAddress::V4(x), IpAddress::V4(y)) => x < y,
        (IpAddress::V4(_), IpAddress::V6(_)) => true,
        (IpAddress::V6(_), IpAddress::V4(_)) => false,
        (IpAddress::V6(x), IpAddress::V6(y)) => x < y,
    }
}

/// Lexicographic order on (address, port) endpoints.
pub open spec fn endpoint_lt(a: IpAddress, pa: u16, b: IpAddress, pb: u16) -> bool {
    ip_lt(a, b) || (a == b && pa < pb)
}

/// Decides `endpoint_lt`.
pub fn endpoint_less(a: IpAddress, pa: u16, b: IpAddress, pb: u16) -> (r: bool)
    ensures
        r == endpoint_lt(a, pa, b, pb),
{
    let ip_less = match (a, b) {
        (IpAddress::V4(x), IpAddress::V4(y)) => x < y,
        (IpAddress::V4(_), IpAddress::V6(_)) => true,
        (IpAddress::V6(_), IpAddress::V4(_)) => false,
        (IpAddress::V6(x), IpAddress::V6(y)) => x < y,
    };
    ip_less || (a == b && pa < pb)
}

/// Identifies a connection regardless of direction: the lower endpoint is
/// always `a`.
#[derive(Debug, Clone, Copy, PartialEq, Eq, Hash, Structural)]
pub struct FlowKey {
    pub ip_a: IpAddress,
    pub port_a: u16,
    pub ip_b: IpAddress,
    pub port_b: u16,
    pub protocol: Protocol,
}

/// The key of a packet sent from (src, sport) to (dst, dport).
pub open spec fn spec_flow_key(
    src: IpAddress,
    sport: u16,
    dst: IpAddress,
    dport: u16,
    proto: Protocol,
) -> FlowKey {
    if endpoint_lt(src, sport, dst, dport) {
        FlowKey { ip_a: src, port_a: sport, ip_b: dst, port_b: dport, protocol: proto }
    } else {
        FlowKey { ip_a: dst, port_a: dport, ip_b: src, port_b: sport, protocol: proto }
    }
}

impl FlowKey {
    /// Builds the key with the two endpoints put in order, so that both
    /// directions of a connection share one key.
    pub fn new(src: IpAddress, sport: u16, dst: IpAddress, dport: u16, proto: Protocol) -> (r:
        FlowKey)
        ensures
            r == spec_flow_key(src, sport, dst, dport, proto),
            !endpoint_lt(r.ip_b, r.port_b, r.ip_a, r.port_a),
    {
        if endpoint_less(src, sport, dst, dport) {
            FlowKey { ip_a: src, port_a: sport, ip_b: dst, port_b: dport, protocol: proto }
        } else {
            FlowKey { ip_a: dst, port_a: dport, ip_b: src, port_b: sport, protocol: proto }
        }
    }
}

/// Both directions of a connection map to the same flow key.
pub proof fn lemma_flow_key_symmetric(
    src: IpAddress,
    sport: u16,
    dst: IpAddress,
    dport: u16,
    proto: Protocol,
)
    ensures
        spec_flow_key(src, sport, dst, dport, proto) == spec_flow_key(dst, dport, src, sport, proto),
{
}

/// Two packets share a flow key exactly when they join the same pair of
/// endpoints with the same protocol, in either direction.
pub proof fn lemma_flow_key_identifies_connection(
    s1: IpAddress,
    p1: u16,
    d1: IpAddress,
    q1: u16,
    s2: IpAddress,
    p2: u16,
    d2: IpAddress,
    q2: u16,
    proto: Protocol,
)
    ensures
        spec_flow_key(s1, p1, d1, q1, proto) == spec_flow_key(s2, p2, d2, q2, proto) <==> ((s1
            == s2 && p1 == p2 && d1 == d2 && q1 == q2) || (s1 == d2 && p1 == q2 && d1 == s2 && q1
            == p2)),
{
}

/// What one captured packet of interest carries.
#[derive(Debug, Clone)]
pub struct PacketInfo {
    pub timestamp: String,
    pub protocol: Protocol,
    pub is_udp: bool,
    pub src_ip: IpAddress,
    pub dst_ip: IpAddress,
    pub src_port: u16,
    pub dst_port: u16,
    pub payload_len: usize,
    pub payload_preview: Vec<u8>,
    pub tls_version: Option<String>,
    pub dns_query: Option<String>,
    pub http_method: Option<String>,
}

/// Statistics gathered for one flow.
#[derive(Debug, Clone)]
pub struct FlowStats {
    pub first_seen: String,
    pub last_seen: String,
    pub packets: u64,
    pub bytes: u64,
    pub tls_version: Option<String>,
    pub dns_query: Option<String>,
    pub http_requests: Vec<String>,
    pub src_ip: IpAddress,
    pub dst_ip: IpAddress,
    pub src_port: u16,
    pub dst_port: u16,
    pub protocol: Protocol,
    pub is_udp: bool,
    /// Set once the flow has been shown for the first time.
    pub printed: bool,
}

} // verus!
