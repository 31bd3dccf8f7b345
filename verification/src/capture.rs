//! Decoding captured frames into packet summaries, the payload heuristics
//! (TLS record version, HTTP request line, DNS question name), and the flow
//! table that folds packets into connections.
use crate::protocols::{is_target_port, spec_protocol, IpAddress, PacketInfo, Protocol};
use crate::text::{
    join_strings, joined, lemma_encode_concat, lossy_text, push_char, push_str, string_views, utf8_lossy, utf8_str,
};
use crate::wire::{
    destination_port, ethernet_ethertype, ethernet_fits, ethernet_payload, ethernet_payload_bytes,
    ethertype, ipv4_destination, ipv4_destination_addr, ipv4_fits, ipv4_next_protocol,
    ipv4_payload, ipv4_payload_bytes, ipv4_protocol, ipv4_source, ipv4_source_addr,
    ipv6_destination, ipv6_destination_addr, ipv6_fits, ipv6_next_header, ipv6_next_protocol,
    ipv6_payload, ipv6_payload_bytes, ipv6_source, ipv6_source_addr, source_port, tcp_destination_port,
    tcp_fits, tcp_payload, tcp_payload_bytes, tcp_source_port, udp_destination_port, udp_fits,
    udp_payload, udp_payload_bytes, udp_source_port, ETHERTYPE_IPV4, ETHERTYPE_IPV6, IP_PROTO_TCP,
    IP_PROTO_UDP,
};
use vstd::prelude::*;
use vstd::slice::slice_to_vec;
use vstd::string::StringSliceAdditionalSpecFns;
use vstd::utf8::*;

verus! {

broadcast use {vstd::utf8::encode_utf8_decode_utf8, vstd::utf8::encode_utf8_valid_utf8};

// ── TLS ─────────────────────────────────────────────────────────────────

/// The TLS version named by a handshake record header, if the payload opens
/// with one.
pub open spec fn tls_version_of(p: Seq<u8>) -> Option<Seq<char>> {
    if p.len() < 5 || p[0] != 0x16 {
        None
    } else if p[1] == 0x03 && p[2] == 0x01 {
        Some("TLS 1.0"@)
    } else if p[1] == 0x03 && p[2] == 0x02 {
        Some("TLS 1.1"@)
    } else if p[1] == 0x03 && p[2] == 0x03 {
        Some("TLS 1.2/1.3"@)
    } else if p[1] == 0x03 && p[2] == 0x04 {
        Some("TLS 1.3"@)
    } else {
        None
    }
}

/// Reads the protocol version of a TLS handshake record (content type 0x16).
pub fn detect_tls_version(payload: &[u8]) -> (r: Option<String>)
    ensures
        r.deep_view() == tls_version_of(payload@),
{
    if payload.len() < 5 || payload[0] != 0x16 {
        return None;
    }
    let ver = if payload[1] == 0x03 && payload[2] == 0x01 {
        "TLS 1.0"
    } else if payload[1] == 0x03 && payload[2] == 0x02 {
        "TLS 1.1"
    } else if payload[1] == 0x03 && payload[2] == 0x03 {
        "TLS 1.2/1.3"
    } else if payload[1] == 0x03 && payload[2] == 0x04 {
        "TLS 1.3"
    } else {
        return None;
    };
    Some(ver.to_owned())
}

// ── HTTP ────────────────────────────────────────────────────────────────

pub open spec fn starts_with(s: Seq<char>, m: Seq<char>) -> bool {
    m.len() <= s.len() && s.take(m.len() as int) == m
}

/// Text that opens with one of the request methods the sniffer recognises.
pub open spec fn has_http_method(s: Seq<char>) -> bool {
    starts_with(s, "GET"@) || starts_with(s, "POST"@) || starts_with(s, "PUT"@) || starts_with(
        s,
        "DELETE"@,
    ) || starts_with(s, "PATCH"@) || starts_with(s, "HEAD"@) || starts_with(s, "OPTIONS"@)
}

/// Index of the first `c` in `s`, or the length of `s` when there is none.
pub open spec fn first_index_of(s: Seq<char>, c: char) -> int
    decreases s.len(),
{
    if s.len() == 0 {
        0
    } else if s[0] == c {
        0
    } else {
        1 + first_index_of(s.drop_first(), c)
    }
}

/// The first line of a text, as `str::lines` gives it: up to the first
/// `\n`, without a `\r` just before that `\n`.
pub open spec fn first_line(s: Seq<char>) -> Seq<char> {
    let k = first_index_of(s, '\n');
    let seg = s.take(k);
    if k < s.len() && seg.len() > 0 && seg.last() == '\r' {
        seg.drop_last()
    } else {
        seg
    }
}

/// The bytes the HTTP heuristic looks at: at most the first 128.
pub open spec fn http_head(p: Seq<u8>) -> Seq<u8> {
    if p.len() < 128 {
        p
    } else {
        p.take(128)
    }
}

/// The UTF-8 bytes of the request line, when the payload is a request.
pub open spec fn http_line_bytes(p: Seq<u8>) -> Seq<u8> {
    encode_utf8(first_line(decode_utf8(http_head(p))))
}

pub open spec fn is_http_request(p: Seq<u8>) -> bool {
    valid_utf8(http_head(p)) && has_http_method(decode_utf8(http_head(p)))
}

/// The last character boundary of `b` at or before byte `i`.
pub open spec fn boundary_at_or_before(b: Seq<u8>, i: int) -> int
    decreases i,
{
    if i <= 0 {
        0
    } else if is_char_boundary(b, i) {
        i
    } else {
        boundary_at_or_before(b, i - 1)
    }
}

/// The request line shown for an HTTP payload; a line longer than 80 bytes
/// is shortened to its longest prefix of whole characters within 80 bytes
/// and marked with an ellipsis.
pub open spec fn http_request_line(p: Seq<u8>) -> Option<Seq<char>> {
    if is_http_request(p) {
        if http_line_bytes(p).len() > 80 {
            Some(
                decode_utf8(
                    http_line_bytes(p).take(boundary_at_or_before(http_line_bytes(p), 80)),
                ).push('\u{2026}'),
            )
        } else {
            Some(first_line(decode_utf8(http_head(p))))
        }
    } else {
        None
    }
}

proof fn lemma_first_index_of(s: Seq<char>, c: char, k: int)
    requires
        0 <= k <= s.len(),
        forall|j: int| 0 <= j < k ==> s[j] != c,
        k == s.len() || s[k] == c,
    ensures
        first_index_of(s, c) == k,
    decreases s.len(),
{
    if s.len() > 0 && k > 0 {
        assert(s[0] != c);
        lemma_first_index_of(s.drop_first(), c, k - 1);
    }
}

/// Decides whether `s` opens with `m`.
pub fn text_starts_with(s: &str, m: &str) -> (r: bool)
    ensures
        r == starts_with(s@, m@),
{
    let n = m.unicode_len();
    if n > s.unicode_len() {
        return false;
    }
    let mut i: usize = 0;
    while i < n
        invariant
            n == m@.len(),
            n <= s@.len(),
            i <= n,
            forall|j: int| 0 <= j < i ==> s@[j] == m@[j],
        decreases n - i,
    {
        if s.get_char(i) != m.get_char(i) {
            assert(s@.take(n as int)[i as int] != m@[i as int]);
            return false;
        }
        i = i + 1;
    }
    assert(s@.take(n as int) =~= m@);
    true
}

/// Position of the first `c` in `s`, or its length.
pub fn find_char(s: &str, c: char) -> (k: usize)
    ensures
        k as int == first_index_of(s@, c),
        k <= s@.len(),
        k < s@.len() ==> s@[k as int] == c,
{
    let n = s.unicode_len();
    let mut k: usize = 0;
    while k < n && s.get_char(k) != c
        invariant
            n == s@.len(),
            k <= n,
            forall|j: int| 0 <= j < k ==> s@[j] != c,
        decreases n - k,
    {
        k = k + 1;
    }
    proof {
        lemma_first_index_of(s@, c, k as int);
    }
    k
}

/// The request line of an HTTP request payload, cut to 80 bytes.
pub fn detect_http_method(payload: &[u8]) -> (r: Option<String>)
    ensures
        r.deep_view() == http_request_line(payload@),
{
    let n = if payload.len() < 128 {
        payload.len()
    } else {
        128
    };
    let head = &payload[0..n];
    assert(head@ =~= http_head(payload@));
    let text = match utf8_str(head) {
        Some(t) => t,
        None => return None,
    };
    if !(text_starts_with(text, "GET") || text_starts_with(text, "POST") || text_starts_with(
        text,
        "PUT",
    ) || text_starts_with(text, "DELETE") || text_starts_with(text, "PATCH") || text_starts_with(
        text,
        "HEAD",
    ) || text_starts_with(text, "OPTIONS")) {
        return None;
    }
    let len = text.unicode_len();
    let k = find_char(text, '\n');
    let mut end = k;
    if k < len && k > 0 && text.get_char(k - 1) == '\r' {
        end = k - 1;
    }
    let line = text.substring_char(0, end);
    assert(line@ =~= first_line(text@));
    proof {
        let tail = text@.subrange(end as int, text@.len() as int);
        assert(line@ + tail =~= text@);
        lemma_encode_concat(line@, tail);
        vstd::utf8::decode_utf8_encode_utf8(head@);
        assert(line.spec_bytes().len() <= 128);
    }
    assert(text@ == decode_utf8(http_head(payload@)));
    assert(is_http_request(payload@));
    assert(line.spec_bytes() == http_line_bytes(payload@));
    if line.len() > 80 {
        let ghost lb = http_line_bytes(payload@);
        let mut k: usize = 80;
        while !line.is_char_boundary(k)
            invariant
                0 <= k <= 80,
                lb == line.spec_bytes(),
                lb.len() > 80,
                boundary_at_or_before(lb, k as int) == boundary_at_or_before(lb, 80),
            decreases k,
        {
            proof {
                vstd::utf8::is_char_boundary_start_end_of_seq(lb);
            }
            k = k - 1;
        }
        assert(boundary_at_or_before(lb, k as int) == k);
        let (cut, _rest) = line.split_at(k);
        assert(cut@ == decode_utf8(cut.spec_bytes()));
        let mut s = cut.to_owned();
        assert(s@ == decode_utf8(lb.take(k as int)));
        push_char(&mut s, '\u{2026}');
        Some(s)
    } else {
        Some(line.to_owned())
    }
}

// ── DNS ─────────────────────────────────────────────────────────────────

/// Byte ranges of the labels of the first question name, read from `pos`
/// until a zero length, the end of the payload, or a label running past it.
pub open spec fn dns_label_spans(p: Seq<u8>, pos: int) -> Seq<(int, int)>
    decreases p.len() - pos,
{
    if pos < 0 || pos >= p.len() {
        Seq::empty()
    } else {
        let l = p[pos] as int;
        if l == 0 || pos + 1 + l > p.len() {
            Seq::empty()
        } else {
            seq![(pos + 1, pos + 1 + l)] + dns_label_spans(p, pos + 1 + l)
        }
    }
}

/// The bytes of the `i`-th question label.
pub open spec fn dns_label_bytes(p: Seq<u8>, i: int) -> Seq<u8> {
    p.subrange(dns_label_spans(p, 12)[i].0, dns_label_spans(p, 12)[i].1)
}

/// The question labels as text.
pub open spec fn dns_labels(p: Seq<u8>) -> Seq<Seq<char>> {
    dns_label_spans(p, 12).map_values(|sp: (int, int)| lossy_text(p.subrange(sp.0, sp.1)))
}

/// The shown question: `? name` for a query, `✓ name` for a response.
pub open spec fn dns_query_text(p: Seq<u8>, labels: Seq<Seq<char>>) -> Option<Seq<char>> {
    if labels.len() == 0 {
        None
    } else if p[2] & 0x80 == 0 {
        Some("? "@ + joined(labels, "."@))
    } else {
        Some("\u{2713} "@ + joined(labels, "."@))
    }
}

pub open spec fn dns_query_of(p: Seq<u8>) -> Option<Seq<char>> {
    if p.len() < 13 {
        None
    } else {
        dns_query_text(p, dns_labels(p))
    }
}

/// Locates the labels of the first question name of a DNS message.
pub fn dns_label_bounds(payload: &[u8]) -> (r: Vec<(usize, usize)>)
    ensures
        r@.len() == dns_label_spans(payload@, 12).len(),
        forall|i: int|
            0 <= i < r@.len() ==> (#[trigger] r@[i]).0 as int == dns_label_spans(payload@, 12)[i].0
                && r@[i].1 as int == dns_label_spans(payload@, 12)[i].1,
        forall|i: int| 0 <= i < r@.len() ==> (#[trigger] r@[i]).0 <= r@[i].1 <= payload@.len(),
{
    let mut spans: Vec<(usize, usize)> = Vec::new();
    let mut pos: usize = 12;
    let ghost all = dns_label_spans(payload@, 12);
    loop
        invariant
            12 <= pos,
            spans@.len() + dns_label_spans(payload@, pos as int).len() == all.len(),
            forall|i: int|
                0 <= i < spans@.len() ==> (#[trigger] spans@[i]).0 as int == all[i].0
                    && spans@[i].1 as int == all[i].1,
            forall|i: int|
                0 <= i < dns_label_spans(payload@, pos as int).len() ==> #[trigger] dns_label_spans(
                    payload@,
                    pos as int,
                )[i] == all[spans@.len() + i],
            forall|i: int|
                0 <= i < spans@.len() ==> (#[trigger] spans@[i]).0 <= spans@[i].1
                    <= payload@.len(),
        ensures
            spans@.len() == all.len(),
            forall|i: int|
                0 <= i < spans@.len() ==> (#[trigger] spans@[i]).0 as int == all[i].0
                    && spans@[i].1 as int == all[i].1,
            forall|i: int|
                0 <= i < spans@.len() ==> (#[trigger] spans@[i]).0 <= spans@[i].1
                    <= payload@.len(),
        decreases payload@.len() - pos,
    {
        if pos >= payload.len() {
            assert(dns_label_spans(payload@, pos as int).len() == 0);
            break ;
        }
        let len = payload[pos] as usize;
        if len == 0 || len > payload.len() - (pos + 1) {
            assert(dns_label_spans(payload@, pos as int).len() == 0);
            break ;
        }
        let ghost rest = dns_label_spans(payload@, pos as int);
        let ghost next = dns_label_spans(payload@, pos + 1 + len);
        assert(rest =~= seq![(pos + 1 as int, pos + 1 + len as int)] + next);
        assert(rest[0] == all[spans@.len() as int]);
        spans.push((pos + 1, pos + 1 + len));
        pos = pos + 1 + len;
        assert forall|i: int| 0 <= i < next.len() implies #[trigger] next[i] == all[spans@.len()
            + i] by {
            assert(next[i] == rest[i + 1]);
        }
    }
    spans
}

/// The shown question for given label texts.
pub fn format_dns_query(payload: &[u8], labels: &Vec<String>) -> (r: Option<String>)
    requires
        payload@.len() >= 3,
    ensures
        r.deep_view() == dns_query_text(payload@, string_views(labels@)),
{
    if labels.len() == 0 {
        return None;
    }
    let domain = join_strings(labels, ".");
    let is_query = (payload[2] & 0x80) == 0;
    let mut s = String::new();
    if is_query {
        push_str(&mut s, "? ");
    } else {
        push_str(&mut s, "\u{2713} ");
    }
    push_str(&mut s, domain.as_str());
    Some(s)
}

/// The first question name of a DNS message, marked as query or response.
/// A label whose bytes are valid UTF-8 shows as their decoding.
pub fn parse_dns_query(payload: &[u8]) -> (r: Option<String>)
    ensures
        r.deep_view() == dns_query_of(payload@),
        forall|i: int|
            0 <= i < dns_label_spans(payload@, 12).len() && valid_utf8(dns_label_bytes(payload@, i))
                ==> #[trigger] dns_labels(payload@)[i] == decode_utf8(dns_label_bytes(payload@, i)),
{
    if payload.len() < 13 {
        return None;
    }
    let spans = dns_label_bounds(payload);
    let ghost sp = dns_label_spans(payload@, 12);
    let mut labels: Vec<String> = Vec::new();
    let mut i: usize = 0;
    while i < spans.len()
        invariant
            i <= spans@.len(),
            spans@.len() == sp.len(),
            labels@.len() == i,
            forall|j: int|
                0 <= j < spans@.len() ==> (#[trigger] spans@[j]).0 as int == sp[j].0 && spans@[j].1
                    as int == sp[j].1,
            forall|j: int| 0 <= j < spans@.len() ==> (#[trigger] spans@[j]).0 <= spans@[j].1
                <= payload@.len(),
            forall|j: int|
                0 <= j < i ==> (#[trigger] labels@[j])@ == lossy_text(
                    payload@.subrange(sp[j].0, sp[j].1),
                ),
            forall|j: int|
                0 <= j < i && valid_utf8(#[trigger] payload@.subrange(sp[j].0, sp[j].1))
                    ==> lossy_text(payload@.subrange(sp[j].0, sp[j].1)) == decode_utf8(
                    payload@.subrange(sp[j].0, sp[j].1),
                ),
        decreases spans@.len() - i,
    {
        let (a, b) = spans[i];
        let label = utf8_lossy(&payload[a..b]);
        labels.push(label);
        i = i + 1;
    }
    assert(string_views(labels@) =~= dns_labels(payload@));
    assert forall|i: int|
        0 <= i < dns_label_spans(payload@, 12).len() && valid_utf8(dns_label_bytes(payload@, i))
            implies #[trigger] dns_labels(payload@)[i] == decode_utf8(dns_label_bytes(payload@, i)) by {
        assert(valid_utf8(payload@.subrange(sp[i].0, sp[i].1)));
    }
    format_dns_query(payload, &labels)
}


// ── Transport segments ──────────────────────────────────────────────────

/// A TCP segment (or UDP datagram) the sniffer keeps: its header fits and
/// one of its ports is a target port.
pub open spec fn transport_accepts(seg: Seq<u8>, is_udp: bool) -> bool {
    &&& seg.len() >= if is_udp {
        8int
    } else {
        20int
    }
    &&& (is_target_port(source_port(seg) as u16) || is_target_port(destination_port(seg) as u16))
}

pub open spec fn transport_payload(seg: Seq<u8>, is_udp: bool) -> Seq<u8> {
    if is_udp {
        udp_payload(seg)
    } else {
        tcp_payload(seg)
    }
}

pub open spec fn segment_protocol(seg: Seq<u8>, is_udp: bool) -> Protocol {
    spec_protocol(source_port(seg) as u16, destination_port(seg) as u16, is_udp)
}

/// Every field of a packet summary but its timestamp, as the segment gives it.
pub open spec fn packet_matches(
    src: IpAddress,
    dst: IpAddress,
    seg: Seq<u8>,
    is_udp: bool,
    p: PacketInfo,
) -> bool {
    let proto = segment_protocol(seg, is_udp);
    let pl = transport_payload(seg, is_udp);
    &&& p.protocol == proto
    &&& p.is_udp == is_udp
    &&& p.src_ip == src
    &&& p.dst_ip == dst
    &&& p.src_port as int == source_port(seg)
    &&& p.dst_port as int == destination_port(seg)
    &&& p.payload_len == pl.len()
    &&& p.payload_preview@ == pl.take(if pl.len() < 64 {
        pl.len() as int
    } else {
        64
    })
    &&& p.tls_version.deep_view() == if !is_udp && proto == Protocol::Https {
        tls_version_of(pl)
    } else {
        None
    }
    &&& p.dns_query.deep_view() == if is_udp && proto == Protocol::Dns {
        dns_query_of(pl)
    } else {
        None
    }
    &&& p.http_method.deep_view() == if !is_udp && proto == Protocol::Http {
        http_request_line(pl)
    } else {
        None
    }
}

/// What parsing a segment gives: a summary exactly for accepted segments,
/// matching the segment, stamped with `timestamp`.
pub open spec fn transport_outcome(
    src: IpAddress,
    dst: IpAddress,
    seg: Seq<u8>,
    is_udp: bool,
    timestamp: Seq<char>,
    r: Option<PacketInfo>,
) -> bool {
    &&& r is Some <==> transport_accepts(seg, is_udp)
    &&& r matches Some(p) ==> packet_matches(src, dst, seg, is_udp, p) && p.timestamp@ == timestamp
}

/// The summary of an accepted TCP segment, stamped with `timestamp`.
pub fn tcp_packet_info(src_ip: IpAddress, dst_ip: IpAddress, data: &[u8], timestamp: String) -> (r:
    PacketInfo)
    requires
        data@.len() >= 20,
    ensures
        packet_matches(src_ip, dst_ip, data@, false, r),
        r.timestamp == timestamp,
{
    let src_port = tcp_source_port(data);
    let dst_port = tcp_destination_port(data);
    let payload = tcp_payload_bytes(data);
    let protocol = Protocol::from_ports_and_transport(src_port, dst_port, false);
    let tls_version = if matches!(protocol, Protocol::Https) {
        detect_tls_version(payload.as_slice())
    } else {
        None
    };
    let http_method = if matches!(protocol, Protocol::Http) {
        detect_http_method(payload.as_slice())
    } else {
        None
    };
    let n = if payload.len() < 64 {
        payload.len()
    } else {
        64
    };
    let preview = slice_to_vec(&payload.as_slice()[0..n]);
    PacketInfo {
        timestamp,
        protocol,
        is_udp: false,
        src_ip,
        dst_ip,
        src_port,
        dst_port,
        payload_len: payload.len(),
        payload_preview: preview,
        tls_version,
        dns_query: None,
        http_method,
    }
}

/// The summary of an accepted UDP datagram, stamped with `timestamp`.
pub fn udp_packet_info(src_ip: IpAddress, dst_ip: IpAddress, data: &[u8], timestamp: String) -> (r:
    PacketInfo)
    requires
        data@.len() >= 8,
    ensures
        packet_matches(src_ip, dst_ip, data@, true, r),
        r.timestamp == timestamp,
{
    let src_port = udp_source_port(data);
    let dst_port = udp_destination_port(data);
    let payload = udp_payload_bytes(data);
    let protocol = Protocol::from_ports_and_transport(src_port, dst_port, true);
    let dns_query = if matches!(protocol, Protocol::Dns) {
        parse_dns_query(payload.as_slice())
    } else {
        None
    };
    let n = if payload.len() < 64 {
        payload.len()
    } else {
        64
    };
    let preview = slice_to_vec(&payload.as_slice()[0..n]);
    PacketInfo {
        timestamp,
        protocol,
        is_udp: true,
        src_ip,
        dst_ip,
        src_port,
        dst_port,
        payload_len: payload.len(),
        payload_preview: preview,
        tls_version: None,
        dns_query,
        http_method: None,
    }
}

/// Summarises a TCP segment between two addresses, stamped with `timestamp`,
/// when one of its ports is a target port.
pub fn parse_tcp(src_ip: IpAddress, dst_ip: IpAddress, data: &[u8], timestamp: &str) -> (r:
    Option<PacketInfo>)
    ensures
        transport_outcome(src_ip, dst_ip, data@, false, timestamp@, r),
{
    if !tcp_fits(data) {
        return None;
    }
    let src_port = tcp_source_port(data);
    let dst_port = tcp_destination_port(data);
    if !Protocol::is_target(src_port, dst_port) {
        return None;
    }
    Some(tcp_packet_info(src_ip, dst_ip, data, timestamp.to_owned()))
}

/// Summarises a UDP datagram between two addresses, stamped with
/// `timestamp`, when one of its ports is a target port.
pub fn parse_udp(src_ip: IpAddress, dst_ip: IpAddress, data: &[u8], timestamp: &str) -> (r:
    Option<PacketInfo>)
    ensures
        transport_outcome(src_ip, dst_ip, data@, true, timestamp@, r),
{
    if !udp_fits(data) {
        return None;
    }
    let src_port = udp_source_port(data);
    let dst_port = udp_destination_port(data);
    if !Protocol::is_target(src_port, dst_port) {
        return None;
    }
    Some(udp_packet_info(src_ip, dst_ip, data, timestamp.to_owned()))
}

// ── Network and link layers ─────────────────────────────────────────────

/// Source, destination, transport bytes and transport kind of a packet
/// carrying TCP or UDP.
pub type Route = (IpAddress, IpAddress, Seq<u8>, bool);

pub open spec fn ipv4_route(d: Seq<u8>) -> Option<Route> {
    if d.len() < 20 {
        None
    } else if ipv4_protocol(d) == 6 {
        Some((IpAddress::V4(ipv4_source(d) as u32), IpAddress::V4(ipv4_destination(d) as u32), ipv4_payload(d), false))
    } else if ipv4_protocol(d) == 17 {
        Some((IpAddress::V4(ipv4_source(d) as u32), IpAddress::V4(ipv4_destination(d) as u32), ipv4_payload(d), true))
    } else {
        None
    }
}

pub open spec fn ipv6_route(d: Seq<u8>) -> Option<Route> {
    if d.len() < 40 {
        None
    } else if ipv6_next_header(d) == 6 {
        Some((IpAddress::V6(ipv6_source(d) as u128), IpAddress::V6(ipv6_destination(d) as u128), ipv6_payload(d), false))
    } else if ipv6_next_header(d) == 17 {
        Some((IpAddress::V6(ipv6_source(d) as u128), IpAddress::V6(ipv6_destination(d) as u128), ipv6_payload(d), true))
    } else {
        None
    }
}

pub open spec fn ethernet_route(d: Seq<u8>) -> Option<Route> {
    if d.len() < 14 {
        None
    } else if ethertype(d) == 0x0800 {
        ipv4_route(ethernet_payload(d))
    } else if ethertype(d) == 0x86DD {
        ipv6_route(ethernet_payload(d))
    } else {
        None
    }
}

/// What parsing a packet stamped with `timestamp` gives for its route.
pub open spec fn route_outcome(rt: Option<Route>, timestamp: Seq<char>, r: Option<PacketInfo>) -> bool {
    match rt {
        None => r is None,
        Some(x) => transport_outcome(x.0, x.1, x.2, x.3, timestamp, r),
    }
}

fn parse_transport(
    src_ip: IpAddress,
    dst_ip: IpAddress,
    data: &[u8],
    is_udp: bool,
    timestamp: &str,
) -> (r: Option<PacketInfo>)
    ensures
        transport_outcome(src_ip, dst_ip, data@, is_udp, timestamp@, r),
{
    if is_udp {
        parse_udp(src_ip, dst_ip, data, timestamp)
    } else {
        parse_tcp(src_ip, dst_ip, data, timestamp)
    }
}

/// The addresses and transport bytes of an IPv4 packet carrying TCP or UDP.
fn ipv4_segment(data: &[u8]) -> (r: Option<(IpAddress, IpAddress, Vec<u8>, bool)>)
    ensures
        match r {
            Some(x) => ipv4_route(data@) == Some((x.0, x.1, x.2@, x.3)),
            None => ipv4_route(data@) is None,
        },
{
    if !ipv4_fits(data) {
        return None;
    }
    let src = IpAddress::V4(ipv4_source_addr(data));
    let dst = IpAddress::V4(ipv4_destination_addr(data));
    let proto = ipv4_next_protocol(data);
    if proto == IP_PROTO_TCP {
        Some((src, dst, ipv4_payload_bytes(data), false))
    } else if proto == IP_PROTO_UDP {
        Some((src, dst, ipv4_payload_bytes(data), true))
    } else {
        None
    }
}

/// The addresses and transport bytes of an IPv6 packet carrying TCP or UDP.
fn ipv6_segment(data: &[u8]) -> (r: Option<(IpAddress, IpAddress, Vec<u8>, bool)>)
    ensures
        match r {
            Some(x) => ipv6_route(data@) == Some((x.0, x.1, x.2@, x.3)),
            None => ipv6_route(data@) is None,
        },
{
    if !ipv6_fits(data) {
        return None;
    }
    let src = IpAddress::V6(ipv6_source_addr(data));
    let dst = IpAddress::V6(ipv6_destination_addr(data));
    let proto = ipv6_next_protocol(data);
    if proto == IP_PROTO_TCP {
        Some((src, dst, ipv6_payload_bytes(data), false))
    } else if proto == IP_PROTO_UDP {
        Some((src, dst, ipv6_payload_bytes(data), true))
    } else {
        None
    }
}

/// Summarises an IPv4 packet carrying TCP or UDP to or from a target port.
pub fn parse_ipv4(data: &[u8], timestamp: &str) -> (r: Option<PacketInfo>)
    ensures
        route_outcome(ipv4_route(data@), timestamp@, r),
{
    match ipv4_segment(data) {
        Some((src, dst, seg, is_udp)) => parse_transport(src, dst, seg.as_slice(), is_udp, timestamp),
        None => None,
    }
}

/// Summarises an IPv6 packet carrying TCP or UDP to or from a target port.
pub fn parse_ipv6(data: &[u8], timestamp: &str) -> (r: Option<PacketInfo>)
    ensures
        route_outcome(ipv6_route(data@), timestamp@, r),
{
    match ipv6_segment(data) {
        Some((src, dst, seg, is_udp)) => parse_transport(src, dst, seg.as_slice(), is_udp, timestamp),
        None => None,
    }
}

/// Summarises an Ethernet frame carrying IPv4 or IPv6 traffic of interest,
/// stamped with `timestamp`.
pub fn parse_ethernet(data: &[u8], timestamp: &str) -> (r: Option<PacketInfo>)
    ensures
        route_outcome(ethernet_route(data@), timestamp@, r),
{
    if !ethernet_fits(data) {
        return None;
    }
    let et = ethernet_ethertype(data);
    if et == ETHERTYPE_IPV4 {
        let payload = ethernet_payload_bytes(data);
        parse_ipv4(payload.as_slice(), timestamp)
    } else if et == ETHERTYPE_IPV6 {
        let payload = ethernet_payload_bytes(data);
        parse_ipv6(payload.as_slice(), timestamp)
    } else {
        None
    }
}

// ── Laws of decoding ────────────────────────────────────────────────────

/// An IPv6 packet whose next header is TCP (6) carries a TCP segment, and
/// one whose next header is UDP (17) a UDP datagram, between its source
/// and destination addresses; the transport bytes are its payload.
pub proof fn lemma_ipv6_transport(d: Seq<u8>)
    requires
        d.len() >= 40,
    ensures
        d[6] == 6 ==> ipv6_route(d) == Some(
            (
                IpAddress::V6(ipv6_source(d) as u128),
                IpAddress::V6(ipv6_destination(d) as u128),
                ipv6_payload(d),
                false,
            ),
        ),
        d[6] == 17 ==> ipv6_route(d) == Some(
            (
                IpAddress::V6(ipv6_source(d) as u128),
                IpAddress::V6(ipv6_destination(d) as u128),
                ipv6_payload(d),
                true,
            ),
        ),
        d[6] != 6 && d[6] != 17 ==> ipv6_route(d) is None,
{
}

/// A summary decoded from an IPv6 packet carrying TCP is a TCP summary: it
/// is not marked UDP, and its payload is what follows the TCP header, just
/// as for IPv4.
pub proof fn lemma_ipv6_tcp_summary(d: Seq<u8>, timestamp: Seq<char>, r: Option<PacketInfo>)
    requires
        d.len() >= 40,
        d[6] == 6,
        route_outcome(ipv6_route(d), timestamp, r),
    ensures
        r matches Some(p) ==> !p.is_udp && p.payload_len == tcp_payload(ipv6_payload(d)).len()
            && p.src_ip == IpAddress::V6(ipv6_source(d) as u128) && p.dst_ip == IpAddress::V6(
            ipv6_destination(d) as u128,
        ) && p.src_port == source_port(ipv6_payload(d)) && p.dst_port == destination_port(
            ipv6_payload(d),
        ),
{
}

/// An IPv4 packet whose protocol byte is TCP (6) carries a TCP segment, and
/// one whose protocol byte is UDP (17) a UDP datagram, between its source
/// and destination addresses; the transport bytes are its payload.
pub proof fn lemma_ipv4_transport(d: Seq<u8>)
    requires
        d.len() >= 20,
    ensures
        d[9] == 6 ==> ipv4_route(d) == Some(
            (
                IpAddress::V4(ipv4_source(d) as u32),
                IpAddress::V4(ipv4_destination(d) as u32),
                ipv4_payload(d),
                false,
            ),
        ),
        d[9] == 17 ==> ipv4_route(d) == Some(
            (
                IpAddress::V4(ipv4_source(d) as u32),
                IpAddress::V4(ipv4_destination(d) as u32),
                ipv4_payload(d),
                true,
            ),
        ),
        d[9] != 6 && d[9] != 17 ==> ipv4_route(d) is None,
{
}

/// An IPv4 packet carrying TCP is read as TCP too.
pub proof fn lemma_ipv4_tcp_summary(d: Seq<u8>, timestamp: Seq<char>, r: Option<PacketInfo>)
    requires
        d.len() >= 20,
        d[9] == 6,
        route_outcome(ipv4_route(d), timestamp, r),
    ensures
        r matches Some(p) ==> !p.is_udp && p.payload_len == tcp_payload(ipv4_payload(d)).len(),
{
}

/// An Ethernet frame of type IPv6 (0x86DD) whose packet carries TCP gives a
/// TCP summary of the segment in it.
pub proof fn lemma_ethernet_ipv6_tcp(d: Seq<u8>, timestamp: Seq<char>, r: Option<PacketInfo>)
    requires
        d.len() >= 14,
        d[12] == 0x86 && d[13] == 0xDD,
        ethernet_payload(d).len() >= 40,
        ethernet_payload(d)[6] == 6,
        route_outcome(ethernet_route(d), timestamp, r),
    ensures
        r matches Some(p) ==> !p.is_udp && p.payload_len == tcp_payload(
            ipv6_payload(ethernet_payload(d)),
        ).len(),
        r is Some <==> (is_target_port(source_port(ipv6_payload(ethernet_payload(d))) as u16)
            || is_target_port(destination_port(ipv6_payload(ethernet_payload(d))) as u16))
            && ipv6_payload(ethernet_payload(d)).len() >= 20,
{
    assert(ethertype(d) == 0x86DD);
}

/// A TCP segment is kept exactly when its header fits and one of its ports
/// is a target port, whatever its payload: a bare handshake or ACK segment
/// is kept with payload length zero.
pub proof fn lemma_tcp_kept_by_ports(
    src: IpAddress,
    dst: IpAddress,
    seg: Seq<u8>,
    timestamp: Seq<char>,
    r: Option<PacketInfo>,
)
    requires
        transport_outcome(src, dst, seg, false, timestamp, r),
    ensures
        r is Some <==> seg.len() >= 20 && (is_target_port(source_port(seg) as u16) || is_target_port(
            destination_port(seg) as u16,
        )),
        r matches Some(p) ==> p.payload_len == tcp_payload(seg).len() && !p.is_udp
            && p.src_port == source_port(seg) && p.dst_port == destination_port(seg),
{
}

/// Likewise a UDP datagram is kept exactly when its header fits and one of
/// its ports is a target port, whatever its payload.
pub proof fn lemma_udp_kept_by_ports(
    src: IpAddress,
    dst: IpAddress,
    seg: Seq<u8>,
    timestamp: Seq<char>,
    r: Option<PacketInfo>,
)
    requires
        transport_outcome(src, dst, seg, true, timestamp, r),
    ensures
        r is Some <==> seg.len() >= 8 && (is_target_port(source_port(seg) as u16) || is_target_port(
            destination_port(seg) as u16,
        )),
        r matches Some(p) ==> p.payload_len == udp_payload(seg).len() && p.is_udp,
{
}

/// The DNS question of an accepted DNS datagram is read from its payload
/// whichever endpoint uses port 53, queries and responses alike.
pub proof fn lemma_dns_question_either_direction(
    src: IpAddress,
    dst: IpAddress,
    seg: Seq<u8>,
    timestamp: Seq<char>,
    r: Option<PacketInfo>,
)
    requires
        transport_outcome(src, dst, seg, true, timestamp, r),
        r matches Some(p) && p.protocol == Protocol::Dns,
    ensures
        r->0.dns_query.deep_view() == dns_query_of(udp_payload(seg)),
{
}

/// Two datagrams with the same payload and their ports swapped show the
/// same DNS question.
pub proof fn lemma_dns_question_port_swap(
    src: IpAddress,
    dst: IpAddress,
    a: Seq<u8>,
    b: Seq<u8>,
    timestamp: Seq<char>,
    ra: Option<PacketInfo>,
    rb: Option<PacketInfo>,
)
    requires
        source_port(a) == destination_port(b),
        destination_port(a) == source_port(b),
        b.len() >= 8,
        udp_payload(a) == udp_payload(b),
        transport_outcome(src, dst, a, true, timestamp, ra),
        transport_outcome(dst, src, b, true, timestamp, rb),
        ra matches Some(p) && p.protocol == Protocol::Dns,
    ensures
        rb matches Some(q) && q.protocol == Protocol::Dns && q.dns_query.deep_view()
            == ra->0.dns_query.deep_view(),
{
    assert(a.len() >= 8);
    crate::protocols::lemma_protocol_symmetric(
        source_port(a) as u16,
        destination_port(a) as u16,
        true,
    );
}

/// A DNS message with a question shows it as `? name` when it is a query
/// (QR bit clear) and as `✓ name` when it is a response (QR bit set); a
/// message without question labels shows none.
pub proof fn lemma_dns_marks(p: Seq<u8>)
    requires
        p.len() >= 13,
    ensures
        dns_label_spans(p, 12).len() == 0 ==> dns_query_of(p) is None,
        dns_label_spans(p, 12).len() > 0 && p[2] & 0x80 != 0 ==> (dns_query_of(p) matches Some(t)
            && t.take(2) == "\u{2713} "@ && t.skip(2) == joined(dns_labels(p), "."@)),
        dns_label_spans(p, 12).len() > 0 && p[2] & 0x80 == 0 ==> (dns_query_of(p) matches Some(t)
            && t.take(2) == "? "@ && t.skip(2) == joined(dns_labels(p), "."@)),
{
    reveal_strlit("\u{2713} ");
    reveal_strlit("? ");
    let j = joined(dns_labels(p), "."@);
    assert(("\u{2713} "@ + j).take(2) =~= "\u{2713} "@);
    assert(("\u{2713} "@ + j).skip(2) =~= j);
    assert(("? "@ + j).take(2) =~= "? "@);
    assert(("? "@ + j).skip(2) =~= j);
}

} // verus!
