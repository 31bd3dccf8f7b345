//! The one-line rendering of a flow that the sniffer prints, and byte
//! counts in human units.
use crate::protocols::{protocol_color, protocol_name, FlowStats};
use crate::text::{decimal, digit, digit_char, push_char, push_decimal, push_str};
use vstd::prelude::*;

verus! {

pub const RESET: &'static str = "\x1b[0m";

pub const BOLD: &'static str = "\x1b[1m";

pub const DIM: &'static str = "\x1b[90m";

// ── Byte counts ─────────────────────────────────────────────────────────

pub const TWO_POW_53: u128 = 0x20_0000_0000_0000;

/// Halves `q` (doubling `unit`) until `q` has at most 53 significant bits.
pub open spec fn halvings(q: nat, unit: nat) -> (nat, nat)
    decreases q,
{
    if q < TWO_POW_53 {
        (q, unit)
    } else {
        halvings(q / 2, unit * 2)
    }
}

/// The value of the double nearest to `b` (ties to even), which is what
/// converting an integer to `f64` gives.
pub open spec fn double_value(b: nat) -> nat {
    let (q, unit) = halvings(b, 1);
    let r = b - q * unit;
    if 2 * r > unit || (2 * r == unit && q % 2 == 1) {
        ((q + 1) * unit) as nat
    } else {
        (q * unit) as nat
    }
}

/// `n / d` in tenths, rounded to nearest with ties to even.
pub open spec fn tenths(n: nat, d: nat) -> nat {
    let q = (10 * n) / d;
    let r = (10 * n) % d;
    if 2 * r > d || (2 * r == d && q % 2 == 1) {
        q + 1
    } else {
        q
    }
}

/// A count of tenths written with one decimal.
pub open spec fn one_decimal(t: nat) -> Seq<char> {
    decimal(t / 10) + seq!['.', digit_char(t % 10)]
}

/// Bytes below 1 KiB as `NB`, below 1 MiB as `N.NKB`, else as `N.NMB`,
/// with the one decimal of `{:.1}` applied to the value as a double.
pub open spec fn bytes_text(b: nat) -> Seq<char> {
    if b < 1024 {
        decimal(b) + "B"@
    } else if b < 1024 * 1024 {
        one_decimal(tenths(b, 1024)) + "KB"@
    } else {
        one_decimal(tenths(double_value(b), 1024 * 1024)) + "MB"@
    }
}

/// `b as f64` as an exact integer.
fn double_of(b: u64) -> (r: u128)
    ensures
        r == double_value(b as nat),
        r <= 0x4_0000_0000_0000_0000,
{
    let mut q: u128 = b as u128;
    let mut unit: u128 = 1;
    while q >= TWO_POW_53
        invariant
            halvings(q as nat, unit as nat) == halvings(b as nat, 1),
            q * unit <= b,
            b < (q + 1) * unit,
            1 <= unit <= 0x1_0000_0000_0000_0000,
            q <= b,
            unit * TWO_POW_53 <= 2 * (b as nat) + 2 * TWO_POW_53,
        decreases q,
    {
        let ghost q0 = q as nat;
        let ghost u0 = unit as nat;
        assert((q0 / 2) * (2 * u0) <= q0 * u0) by (nonlinear_arith);
        assert(q0 + 1 <= 2 * (q0 / 2) + 2);
        assert((q0 + 1) * u0 <= (q0 / 2 + 1) * (2 * u0)) by (nonlinear_arith)
            requires
                q0 + 1 <= 2 * (q0 / 2) + 2,
        ;
        assert(q0 * u0 >= TWO_POW_53 * u0) by (nonlinear_arith)
            requires
                q0 >= TWO_POW_53,
        ;
        q = q / 2;
        unit = unit * 2;
    }
    assert(unit <= 4097);
    assert((q + 1) * unit <= 0x4_0000_0000_0000_0000) by (nonlinear_arith)
        requires
            q < TWO_POW_53,
            unit <= 4097,
    ;
    let r = b as u128 - q * unit;
    if 2 * r > unit || (2 * r == unit && q % 2 == 1) {
        (q + 1) * unit
    } else {
        q * unit
    }
}

/// Appends `n / d` with one decimal, rounded to nearest with ties to even.
fn push_one_decimal(s: &mut String, n: u128, d: u128)
    requires
        0 < d,
        n <= 0x4_0000_0000_0000_0000,
        d <= 0x4_0000_0000_0000_0000,
    ensures
        final(s)@ == old(s)@ + one_decimal(tenths(n as nat, d as nat)),
{
    let q = (10 * n) / d;
    let r = (10 * n) % d;
    let t = if 2 * r > d || (2 * r == d && q % 2 == 1) {
        q + 1
    } else {
        q
    };
    push_decimal(s, t / 10);
    push_char(s, '.');
    push_char(s, digit((t % 10) as u8));
    assert(s@ =~= old(s)@ + one_decimal(tenths(n as nat, d as nat)));
}

/// Byte count in human units: `512B`, `1.5KB`, `2.0MB`.
pub fn fmt_bytes(b: u64) -> (r: String)
    ensures
        r@ == bytes_text(b as nat),
{
    let mut s = String::new();
    if b < 1024 {
        push_decimal(&mut s, b as u128);
        push_str(&mut s, "B");
    } else if b < 1024 * 1024 {
        push_one_decimal(&mut s, b as u128, 1024);
        push_str(&mut s, "KB");
    } else {
        let v = double_of(b);
        push_one_decimal(&mut s, v, 1024 * 1024);
        push_str(&mut s, "MB");
    }
    s
}

// ── Addresses ───────────────────────────────────────────────────────────

/// An IPv4 address in dotted decimal, most significant octet first.
pub open spec fn ipv4_dotted(v: u32) -> Seq<char> {
    decimal((v / 0x100_0000) as nat) + "."@ + decimal(((v / 0x1_0000) % 0x100) as nat) + "."@
        + decimal(((v / 0x100) % 0x100) as nat) + "."@ + decimal((v % 0x100) as nat)
}

/// The printed form of an IPv4 address, e.g. `10.0.0.2`.
pub fn ipv4_text(v: u32) -> (r: String)
    ensures
        r@ == ipv4_dotted(v),
{
    let mut s = String::new();
    push_decimal(&mut s, (v / 0x100_0000) as u128);
    push_str(&mut s, ".");
    push_decimal(&mut s, ((v / 0x1_0000) % 0x100) as u128);
    push_str(&mut s, ".");
    push_decimal(&mut s, ((v / 0x100) % 0x100) as u128);
    push_str(&mut s, ".");
    push_decimal(&mut s, (v % 0x100) as u128);
    assert(s@ =~= ipv4_dotted(v));
    s
}

// ── Flow line ───────────────────────────────────────────────────────────

/// Left-aligned in a field of `width` characters, as `{:<width}` pads.
pub open spec fn pad_right(s: Seq<char>, width: nat) -> Seq<char> {
    if s.len() >= width {
        s
    } else {
        s + Seq::new((width - s.len()) as nat, |i: int| ' ')
    }
}

pub open spec fn transport_name(is_udp: bool) -> Seq<char> {
    if is_udp {
        "UDP"@
    } else {
        "TCP"@
    }
}

/// The bold, coloured protocol name in brackets, then the transport.
pub open spec fn proto_tag(s: FlowStats) -> Seq<char> {
    BOLD@ + protocol_color(s.protocol) + "["@ + pad_right(protocol_name(s.protocol), 10) + "]"@
        + RESET@ + " "@ + DIM@ + transport_name(s.is_udp) + RESET@ + " "@
}

/// Packet and byte counters.
pub open spec fn stats_tag(s: FlowStats) -> Seq<char> {
    DIM@ + BOLD@ + "pkts:"@ + decimal(s.packets as nat) + " "@ + BOLD@ + "bytes:"@ + bytes_text(
        s.bytes as nat,
    ) + RESET@
}

/// The detail shown last: the first request line, else the DNS question,
/// else the TLS version in brackets, else nothing.
pub open spec fn extra_text(s: FlowStats) -> Seq<char> {
    let color = protocol_color(s.protocol);
    if s.http_requests@.len() > 0 {
        "  "@ + color + s.http_requests@[0]@ + RESET@
    } else if s.dns_query is Some {
        "  "@ + color + s.dns_query->0@ + RESET@
    } else if s.tls_version is Some {
        "  "@ + color + "["@ + s.tls_version->0@ + "]"@ + RESET@
    } else {
        Seq::empty()
    }
}

/// The endpoint with the higher port is shown first, as the client.
pub open spec fn client_first(s: FlowStats) -> bool {
    s.src_port > s.dst_port
}

/// The printed line of a flow, given the texts of its source and
/// destination addresses.  The server port is followed by the colon.
pub open spec fn flow_line_text(s: FlowStats, src_text: Seq<char>, dst_text: Seq<char>) -> Seq<
    char,
> {
    let (a, ap, b, bp) = if client_first(s) {
        (src_text, s.src_port, dst_text, s.dst_port)
    } else {
        (dst_text, s.dst_port, src_text, s.src_port)
    };
    DIM@ + s.first_seen@ + RESET@ + " "@ + proto_tag(s) + a + ":"@ + decimal(ap as nat)
        + " \u{2192} "@ + b + decimal(bp as nat) + ":"@ + DIM@ + RESET@ + "  "@ + stats_tag(s)
        + "  "@ + extra_text(s)
}

/// Appends `t` left-aligned in ten characters.
fn push_padded10(s: &mut String, t: &str)
    ensures
        final(s)@ == old(s)@ + pad_right(t@, 10),
{
    push_str(s, t);
    let n = t.unicode_len();
    assert(s@ =~= old(s)@ + t@ + Seq::new(0, |k: int| ' '));
    let mut i = n;
    while i < 10
        invariant
            n == t@.len(),
            n <= i <= 10 || (i == n && n > 10),
            s@ == old(s)@ + t@ + Seq::new((i - n) as nat, |k: int| ' '),
        decreases 10 - i,
    {
        push_char(s, ' ');
        i = i + 1;
        assert(s@ =~= old(s)@ + t@ + Seq::new((i - n) as nat, |k: int| ' '));
    }
    assert(s@ =~= old(s)@ + pad_right(t@, 10));
}

/// Renders a flow as one terminal line.  `src_text` and `dst_text` are the
/// printed forms of `stats.src_ip` and `stats.dst_ip`.
pub fn flow_line(stats: &FlowStats, src_text: &str, dst_text: &str) -> (r: String)
    ensures
        r@ == flow_line_text(*stats, src_text@, dst_text@),
{
    let color = stats.protocol.color_code();
    let transport = if stats.is_udp {
        "UDP"
    } else {
        "TCP"
    };
    let (src, sport, dst, dport) = if stats.src_port > stats.dst_port {
        (src_text, stats.src_port, dst_text, stats.dst_port)
    } else {
        (dst_text, stats.dst_port, src_text, stats.src_port)
    };
    let mut tag = String::new();
    push_str(&mut tag, BOLD);
    push_str(&mut tag, color);
    push_str(&mut tag, "[");
    push_padded10(&mut tag, stats.protocol.as_str());
    push_str(&mut tag, "]");
    push_str(&mut tag, RESET);
    push_str(&mut tag, " ");
    push_str(&mut tag, DIM);
    push_str(&mut tag, transport);
    push_str(&mut tag, RESET);
    push_str(&mut tag, " ");
    assert(tag@ =~= proto_tag(*stats));
    let mut counters = String::new();
    push_str(&mut counters, DIM);
    push_str(&mut counters, BOLD);
    push_str(&mut counters, "pkts:");
    push_decimal(&mut counters, stats.packets as u128);
    push_str(&mut counters, " ");
    push_str(&mut counters, BOLD);
    push_str(&mut counters, "bytes:");
    let b = fmt_bytes(stats.bytes);
    push_str(&mut counters, b.as_str());
    push_str(&mut counters, RESET);
    assert(counters@ =~= stats_tag(*stats));
    let mut extra = String::new();
    if let Some(tls) = &stats.tls_version {
        extra = String::new();
        push_str(&mut extra, "  ");
        push_str(&mut extra, color);
        push_str(&mut extra, "[");
        push_str(&mut extra, tls.as_str());
        push_str(&mut extra, "]");
        push_str(&mut extra, RESET);
    }
    if let Some(dns) = &stats.dns_query {
        extra = String::new();
        push_str(&mut extra, "  ");
        push_str(&mut extra, color);
        push_str(&mut extra, dns.as_str());
        push_str(&mut extra, RESET);
    }
    if stats.http_requests.len() > 0 {
        extra = String::new();
        push_str(&mut extra, "  ");
        push_str(&mut extra, color);
        push_str(&mut extra, stats.http_requests[0].as_str());
        push_str(&mut extra, RESET);
    }
    assert(extra@ =~= extra_text(*stats));
    let mut line = String::new();
    push_str(&mut line, DIM);
    push_str(&mut line, stats.first_seen.as_str());
    push_str(&mut line, RESET);
    push_str(&mut line, " ");
    push_str(&mut line, tag.as_str());
    push_str(&mut line, src);
    push_str(&mut line, ":");
    push_decimal(&mut line, sport as u128);
    push_str(&mut line, " \u{2192} ");
    push_str(&mut line, dst);
    push_decimal(&mut line, dport as u128);
    push_str(&mut line, ":");
    push_str(&mut line, DIM);
    push_str(&mut line, RESET);
    push_str(&mut line, "  ");
    push_str(&mut line, counters.as_str());
    push_str(&mut line, "  ");
    push_str(&mut line, extra.as_str());
    assert(line@ =~= flow_line_text(*stats, src_text@, dst_text@));
    line
}

/// A flow is shown from client to server whichever side sent its first
/// packet: swapping the recorded source and destination (addresses, ports
/// and their texts) leaves the line unchanged, as long as the two ports
/// differ.
pub proof fn lemma_flow_line_direction_free(
    s: FlowStats,
    t: FlowStats,
    src_text: Seq<char>,
    dst_text: Seq<char>,
)
    requires
        s.src_port != s.dst_port,
        t == (FlowStats {
            src_ip: s.dst_ip,
            dst_ip: s.src_ip,
            src_port: s.dst_port,
            dst_port: s.src_port,
            ..s
        }),
    ensures
        flow_line_text(s, src_text, dst_text) == flow_line_text(t, dst_text, src_text),
{
    assert(proto_tag(s) == proto_tag(t));
    assert(stats_tag(s) == stats_tag(t));
    assert(extra_text(s) == extra_text(t));
}

/// A flow that keeps request lines is shown with the first of them: its
/// line ends with two spaces, the protocol's colour, the first request line
/// and the reset code.
pub proof fn lemma_flow_line_first_request(s: FlowStats, src_text: Seq<char>, dst_text: Seq<char>)
    requires
        s.http_requests@.len() > 0,
    ensures
        ({
            let line = flow_line_text(s, src_text, dst_text);
            let tail = "  "@ + protocol_color(s.protocol) + s.http_requests@[0]@ + RESET@;
            line.len() >= tail.len() && line.subrange(line.len() - tail.len(), line.len() as int)
                == tail
        }),
{
    let line = flow_line_text(s, src_text, dst_text);
    let tail = "  "@ + protocol_color(s.protocol) + s.http_requests@[0]@ + RESET@;
    assert(extra_text(s) == tail);
    assert(line.subrange(line.len() - tail.len(), line.len() as int) =~= tail);
}

/// Request lines that arrive after the first leave a flow's line as it
/// was: two records that differ only in their request lines, with the same
/// first one, are shown alike.
pub proof fn lemma_flow_line_later_requests(
    s: FlowStats,
    t: FlowStats,
    src_text: Seq<char>,
    dst_text: Seq<char>,
)
    requires
        s.http_requests@.len() > 0,
        t.http_requests@.len() > 0,
        t.http_requests@[0]@ == s.http_requests@[0]@,
        t == (FlowStats { http_requests: t.http_requests, ..s }),
    ensures
        flow_line_text(s, src_text, dst_text) == flow_line_text(t, src_text, dst_text),
{
    assert(proto_tag(s) == proto_tag(t));
    assert(stats_tag(s) == stats_tag(t));
    assert(extra_text(s) == extra_text(t));
}

} // verus!
