//! Header fields of Ethernet, IPv4, IPv6, TCP and UDP, read through pnet's
//! packet views.
//!
//! Each reader below builds pnet's zero-copy view over the bytes it is given
//! and calls one of the view's accessors.  The spec functions state where in
//! the bytes each accessor reads, as pnet's packet definitions lay them out.
use pnet::packet::ethernet::EthernetPacket;
use pnet::packet::ipv4::Ipv4Packet;
use pnet::packet::ipv6::Ipv6Packet;
use pnet::packet::tcp::TcpPacket;
use pnet::packet::udp::UdpPacket;
use pnet::packet::Packet;
use vstd::prelude::*;

verus! {

pub const ETHERNET_HEADER_LEN: usize = 14;

pub const IPV4_HEADER_LEN: usize = 20;

pub const IPV6_HEADER_LEN: usize = 40;

pub const TCP_HEADER_LEN: usize = 20;

pub const UDP_HEADER_LEN: usize = 8;

pub const ETHERTYPE_IPV4: u16 = 0x0800;

pub const ETHERTYPE_IPV6: u16 = 0x86DD;

pub const IP_PROTO_TCP: u8 = 6;

pub const IP_PROTO_UDP: u8 = 17;

/// Big-endian value of a byte sequence.
pub open spec fn be_value(s: Seq<u8>) -> nat
    decreases s.len(),
{
    if s.len() == 0 {
        0
    } else {
        be_value(s.drop_last()) * 256 + s.last() as nat
    }
}

/// Big-endian 16-bit value of the two bytes at `i`.
pub open spec fn be16_at(s: Seq<u8>, i: int) -> int {
    s[i] as int * 256 + s[i + 1] as int
}

pub open spec fn min_int(a: int, b: int) -> int {
    if a <= b {
        a
    } else {
        b
    }
}

/// The bytes from `start` to `end` of a buffer, empty where the buffer ends
/// at or before `start` (pnet's payload rule).
pub open spec fn payload_window(d: Seq<u8>, start: int, end: int) -> Seq<u8> {
    if d.len() <= start {
        Seq::empty()
    } else {
        d.subrange(start, min_int(end, d.len() as int))
    }
}

pub open spec fn ethertype(d: Seq<u8>) -> int {
    be16_at(d, 12)
}

pub open spec fn ethernet_payload(d: Seq<u8>) -> Seq<u8> {
    payload_window(d, 14, d.len() as int)
}

/// IPv4 header length in bytes, from the IHL nibble.
pub open spec fn ipv4_header_bytes(d: Seq<u8>) -> int {
    (d[0] % 16) as int * 4
}

pub open spec fn ipv4_payload_start(d: Seq<u8>) -> int {
    20 + if ipv4_header_bytes(d) > 20 {
        ipv4_header_bytes(d) - 20
    } else {
        0
    }
}

/// Total length minus header length, never below zero.
pub open spec fn ipv4_payload_len(d: Seq<u8>) -> int {
    if be16_at(d, 2) > ipv4_header_bytes(d) {
        be16_at(d, 2) - ipv4_header_bytes(d)
    } else {
        0
    }
}

pub open spec fn ipv4_payload(d: Seq<u8>) -> Seq<u8> {
    payload_window(d, ipv4_payload_start(d), ipv4_payload_start(d) + ipv4_payload_len(d))
}

pub open spec fn ipv4_protocol(d: Seq<u8>) -> u8 {
    d[9]
}

pub open spec fn ipv4_source(d: Seq<u8>) -> nat {
    be_value(d.subrange(12, 16))
}

pub open spec fn ipv4_destination(d: Seq<u8>) -> nat {
    be_value(d.subrange(16, 20))
}

pub open spec fn ipv6_payload(d: Seq<u8>) -> Seq<u8> {
    payload_window(d, 40, 40 + be16_at(d, 4))
}

pub open spec fn ipv6_next_header(d: Seq<u8>) -> u8 {
    d[6]
}

pub open spec fn ipv6_source(d: Seq<u8>) -> nat {
    be_value(d.subrange(8, 24))
}

pub open spec fn ipv6_destination(d: Seq<u8>) -> nat {
    be_value(d.subrange(24, 40))
}

pub open spec fn tcp_payload_start(d: Seq<u8>) -> int {
    let offset = (d[12] / 16) as int;
    20 + if offset > 5 {
        offset * 4 - 20
    } else {
        0
    }
}

pub open spec fn tcp_payload(d: Seq<u8>) -> Seq<u8> {
    payload_window(d, tcp_payload_start(d), d.len() as int)
}

pub open spec fn udp_payload(d: Seq<u8>) -> Seq<u8> {
    payload_window(d, 8, d.len() as int)
}

/// The source and destination ports that open a TCP or UDP header.
pub open spec fn source_port(d: Seq<u8>) -> int {
    be16_at(d, 0)
}

pub open spec fn destination_port(d: Seq<u8>) -> int {
    be16_at(d, 2)
}

/// `EthernetPacket::new` answers `Some` exactly for buffers of at least the
/// 14-byte Ethernet header.
#[verifier::external_body]
pub(crate) fn ethernet_fits(data: &[u8]) -> (r: bool)
    ensures
        r == (data@.len() >= 14),
{
    EthernetPacket::new(data).is_some()
}

/// `EthernetPacket::get_ethertype`: the big-endian value of bytes 12 and 13.
#[verifier::external_body]
pub(crate) fn ethernet_ethertype(data: &[u8]) -> (r: u16)
    requires
        data@.len() >= 14,
    ensures
        r as int == ethertype(data@),
{
    EthernetPacket::new(data).unwrap().get_ethertype().0
}

/// `Packet::payload` of an `EthernetPacket`: everything after the header.
#[verifier::external_body]
pub(crate) fn ethernet_payload_bytes(data: &[u8]) -> (r: Vec<u8>)
    requires
        data@.len() >= 14,
    ensures
        r@ == ethernet_payload(data@),
{
    EthernetPacket::new(data).unwrap().payload().to_vec()
}

/// `Ipv4Packet::new` answers `Some` exactly for buffers of at least the
/// 20-byte fixed header.
#[verifier::external_body]
pub(crate) fn ipv4_fits(data: &[u8]) -> (r: bool)
    ensures
        r == (data@.len() >= 20),
{
    Ipv4Packet::new(data).is_some()
}

/// `Ipv4Packet::get_source`, read as a number: bytes 12 to 15.
#[verifier::external_body]
pub(crate) fn ipv4_source_addr(data: &[u8]) -> (r: u32)
    requires
        data@.len() >= 20,
    ensures
        r as nat == ipv4_source(data@),
{
    u32::from(Ipv4Packet::new(data).unwrap().get_source())
}

/// `Ipv4Packet::get_destination`, read as a number: bytes 16 to 19.
#[verifier::external_body]
pub(crate) fn ipv4_destination_addr(data: &[u8]) -> (r: u32)
    requires
        data@.len() >= 20,
    ensures
        r as nat == ipv4_destination(data@),
{
    u32::from(Ipv4Packet::new(data).unwrap().get_destination())
}

/// `Ipv4Packet::get_next_level_protocol`: byte 9.
#[verifier::external_body]
pub(crate) fn ipv4_next_protocol(data: &[u8]) -> (r: u8)
    requires
        data@.len() >= 20,
    ensures
        r == ipv4_protocol(data@),
{
    Ipv4Packet::new(data).unwrap().get_next_level_protocol().0
}

/// `Packet::payload` of an `Ipv4Packet`: from the end of the header (IHL,
/// at least 20 bytes) for total length minus header length, cut at the end
/// of the buffer.
#[verifier::external_body]
pub(crate) fn ipv4_payload_bytes(data: &[u8]) -> (r: Vec<u8>)
    requires
        data@.len() >= 20,
    ensures
        r@ == ipv4_payload(data@),
{
    Ipv4Packet::new(data).unwrap().payload().to_vec()
}

/// `Ipv6Packet::new` answers `Some` exactly for buffers of at least the
/// 40-byte header.
#[verifier::external_body]
pub(crate) fn ipv6_fits(data: &[u8]) -> (r: bool)
    ensures
        r == (data@.len() >= 40),
{
    Ipv6Packet::new(data).is_some()
}

/// `Ipv6Packet::get_source`, read as a number: bytes 8 to 23.
#[verifier::external_body]
pub(crate) fn ipv6_source_addr(data: &[u8]) -> (r: u128)
    requires
        data@.len() >= 40,
    ensures
        r as nat == ipv6_source(data@),
{
    u128::from(Ipv6Packet::new(data).unwrap().get_source())
}

/// `Ipv6Packet::get_destination`, read as a number: bytes 24 to 39.
#[verifier::external_body]
pub(crate) fn ipv6_destination_addr(data: &[u8]) -> (r: u128)
    requires
        data@.len() >= 40,
    ensures
        r as nat == ipv6_destination(data@),
{
    u128::from(Ipv6Packet::new(data).unwrap().get_destination())
}

/// `Ipv6Packet::get_next_header`: byte 6.
#[verifier::external_body]
pub(crate) fn ipv6_next_protocol(data: &[u8]) -> (r: u8)
    requires
        data@.len() >= 40,
    ensures
        r == ipv6_next_header(data@),
{
    Ipv6Packet::new(data).unwrap().get_next_header().0
}

/// `Packet::payload` of an `Ipv6Packet`: from byte 40 for the payload
/// length of bytes 4 and 5, cut at the end of the buffer.
#[verifier::external_body]
pub(crate) fn ipv6_payload_bytes(data: &[u8]) -> (r: Vec<u8>)
    requires
        data@.len() >= 40,
    ensures
        r@ == ipv6_payload(data@),
{
    Ipv6Packet::new(data).unwrap().payload().to_vec()
}

/// `TcpPacket::new` answers `Some` exactly for buffers of at least the
/// 20-byte fixed header.
#[verifier::external_body]
pub(crate) fn tcp_fits(data: &[u8]) -> (r: bool)
    ensures
        r == (data@.len() >= 20),
{
    TcpPacket::new(data).is_some()
}

/// `TcpPacket::get_source`: bytes 0 and 1, big-endian.
#[verifier::external_body]
pub(crate) fn tcp_source_port(data: &[u8]) -> (r: u16)
    requires
        data@.len() >= 20,
    ensures
        r as int == source_port(data@),
{
    TcpPacket::new(data).unwrap().get_source()
}

/// `TcpPacket::get_destination`: bytes 2 and 3, big-endian.
#[verifier::external_body]
pub(crate) fn tcp_destination_port(data: &[u8]) -> (r: u16)
    requires
        data@.len() >= 20,
    ensures
        r as int == destination_port(data@),
{
    TcpPacket::new(data).unwrap().get_destination()
}

/// `Packet::payload` of a `TcpPacket`: everything after the header whose
/// length the data offset nibble gives (at least 20 bytes).
#[verifier::external_body]
pub(crate) fn tcp_payload_bytes(data: &[u8]) -> (r: Vec<u8>)
    requires
        data@.len() >= 20,
    ensures
        r@ == tcp_payload(data@),
{
    TcpPacket::new(data).unwrap().payload().to_vec()
}

/// `UdpPacket::new` answers `Some` exactly for buffers of at least the
/// 8-byte header.
#[verifier::external_body]
pub(crate) fn udp_fits(data: &[u8]) -> (r: bool)
    ensures
        r == (data@.len() >= 8),
{
    UdpPacket::new(data).is_some()
}

/// `UdpPacket::get_source`: bytes 0 and 1, big-endian.
#[verifier::external_body]
pub(crate) fn udp_source_port(data: &[u8]) -> (r: u16)
    requires
        data@.len() >= 8,
    ensures
        r as int == source_port(data@),
{
    UdpPacket::new(data).unwrap().get_source()
}

/// `UdpPacket::get_destination`: bytes 2 and 3, big-endian.
#[verifier::external_body]
pub(crate) fn udp_destination_port(data: &[u8]) -> (r: u16)
    requires
        data@.len() >= 8,
    ensures
        r as int == destination_port(data@),
{
    UdpPacket::new(data).unwrap().get_destination()
}

/// `Packet::payload` of a `UdpPacket`: everything after the 8-byte header.
#[verifier::external_body]
pub(crate) fn udp_payload_bytes(data: &[u8]) -> (r: Vec<u8>)
    requires
        data@.len() >= 8,
    ensures
        r@ == udp_payload(data@),
{
    UdpPacket::new(data).unwrap().payload().to_vec()
}

} // verus!
