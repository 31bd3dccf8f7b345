//! The JSON line written to the flow log for each new flow; every text
//! member is escaped as a JSON string.
use crate::output::transport_name;
use crate::protocols::{protocol_name, FlowStats};
use crate::text::{decimal, push_char, push_decimal, push_str};
use vstd::prelude::*;

verus! {

/// A hexadecimal digit, lower case.
pub open spec fn hex_digit(d: nat) -> char {
    if d < 10 {
        ('0' as nat + d) as char
    } else {
        ('a' as nat + d - 10) as char
    }
}

/// How one character is written inside a JSON string: quote and backslash
/// behind a backslash, control characters as `\u00XX`, others as they are.
pub open spec fn json_char(c: char) -> Seq<char> {
    if c == '"' {
        seq!['\\', '"']
    } else if c == '\\' {
        seq!['\\', '\\']
    } else if (c as nat) < 0x20 {
        seq!['\\', 'u', '0', '0', hex_digit((c as nat) / 16), hex_digit((c as nat) % 16)]
    } else {
        seq![c]
    }
}

/// A text as the contents of a JSON string.
pub open spec fn json_escaped(s: Seq<char>) -> Seq<char>
    decreases s.len(),
{
    if s.len() == 0 {
        Seq::empty()
    } else {
        json_escaped(s.drop_last()) + json_char(s.last())
    }
}

/// `,"name":"value"` when there is a value, nothing otherwise.
pub open spec fn optional_field(name: Seq<char>, value: Option<Seq<char>>) -> Seq<char> {
    match value {
        Some(v) => ","@ + name + ":\""@ + json_escaped(v) + "\""@,
        None => Seq::empty(),
    }
}

/// The logged request: the first request line.
pub open spec fn first_request(s: FlowStats) -> Option<Seq<char>> {
    if s.http_requests@.len() > 0 {
        Some(s.http_requests@[0]@)
    } else {
        None
    }
}

/// One JSON object per line; `src_text` and `dst_text` are the printed
/// forms of the flow's source and destination addresses.
pub open spec fn flow_json_text(s: FlowStats, src_text: Seq<char>, dst_text: Seq<char>) -> Seq<
    char,
> {
    "{\"first_seen\":\""@ + json_escaped(s.first_seen@) + "\",\"last_seen\":\""@ + json_escaped(
        s.last_seen@,
    )
        + "\",\"proto\":\""@ + protocol_name(s.protocol) + "\",\"transport\":\""@ + transport_name(
        s.is_udp,
    ) + "\",\"src\":\""@ + json_escaped(src_text) + ":"@ + decimal(s.src_port as nat) + "\",\"dst\":\""@
        + json_escaped(dst_text) + ":"@ + decimal(s.dst_port as nat) + "\",\"packets\":"@ + decimal(
        s.packets as nat,
    ) + ",\"bytes\":"@ + decimal(s.bytes as nat) + optional_field(
        "\"tls\""@,
        s.tls_version.deep_view(),
    ) + optional_field("\"dns_query\""@, s.dns_query.deep_view()) + optional_field(
        "\"http_request\""@,
        first_request(s),
    ) + "}\n"@
}

fn hex(d: u32) -> (c: char)
    requires
        d < 16,
    ensures
        c == hex_digit(d as nat),
{
    if d < 10 {
        crate::text::digit(d as u8)
    } else {
        let c = match d {
            10 => 'a',
            11 => 'b',
            12 => 'c',
            13 => 'd',
            14 => 'e',
            _ => 'f',
        };
        c
    }
}

/// Appends `t` escaped as the contents of a JSON string.
pub fn push_json_escaped(s: &mut String, t: &str)
    ensures
        final(s)@ == old(s)@ + json_escaped(t@),
{
    let n = t.unicode_len();
    let mut i: usize = 0;
    while i < n
        invariant
            n == t@.len(),
            i <= n,
            s@ == old(s)@ + json_escaped(t@.take(i as int)),
        decreases n - i,
    {
        let c = t.get_char(i);
        assert(t@.take(i as int + 1).drop_last() =~= t@.take(i as int));
        let ghost before = s@;
        if c == '"' {
            push_char(s, '\\');
            push_char(s, '"');
        } else if c == '\\' {
            push_char(s, '\\');
            push_char(s, '\\');
        } else if (c as u32) < 0x20 {
            let v = c as u32;
            push_char(s, '\\');
            push_char(s, 'u');
            push_char(s, '0');
            push_char(s, '0');
            push_char(s, hex(v / 16));
            push_char(s, hex(v % 16));
        } else {
            push_char(s, c);
        }
        assert(s@ =~= before + json_char(c));
        i = i + 1;
        assert(s@ =~= old(s)@ + json_escaped(t@.take(i as int)));
    }
    assert(t@.take(n as int) =~= t@);
}

fn push_optional_field(s: &mut String, name: &str, value: &Option<String>)
    ensures
        final(s)@ == old(s)@ + optional_field(name@, value.deep_view()),
{
    if let Some(v) = value {
        push_str(s, ",");
        push_str(s, name);
        push_str(s, ":\"");
        push_json_escaped(s, v.as_str());
        push_str(s, "\"");
    }
    assert(s@ =~= old(s)@ + optional_field(name@, value.deep_view()));
}

/// The log record of a flow.
pub fn flow_json(stats: &FlowStats, src_text: &str, dst_text: &str) -> (r: String)
    ensures
        r@ == flow_json_text(*stats, src_text@, dst_text@),
{
    let mut s = String::new();
    push_str(&mut s, "{\"first_seen\":\"");
    push_json_escaped(&mut s, stats.first_seen.as_str());
    push_str(&mut s, "\",\"last_seen\":\"");
    push_json_escaped(&mut s, stats.last_seen.as_str());
    push_str(&mut s, "\",\"proto\":\"");
    push_str(&mut s, stats.protocol.as_str());
    push_str(&mut s, "\",\"transport\":\"");
    push_str(
        &mut s,
        if stats.is_udp {
            "UDP"
        } else {
            "TCP"
        },
    );
    push_str(&mut s, "\",\"src\":\"");
    push_json_escaped(&mut s, src_text);
    push_str(&mut s, ":");
    push_decimal(&mut s, stats.src_port as u128);
    push_str(&mut s, "\",\"dst\":\"");
    push_json_escaped(&mut s, dst_text);
    push_str(&mut s, ":");
    push_decimal(&mut s, stats.dst_port as u128);
    push_str(&mut s, "\",\"packets\":");
    push_decimal(&mut s, stats.packets as u128);
    push_str(&mut s, ",\"bytes\":");
    push_decimal(&mut s, stats.bytes as u128);
    push_optional_field(&mut s, "\"tls\"", &stats.tls_version);
    push_optional_field(&mut s, "\"dns_query\"", &stats.dns_query);
    let ghost before = s@;
    if stats.http_requests.len() > 0 {
        push_str(&mut s, ",");
        push_str(&mut s, "\"http_request\"");
        push_str(&mut s, ":\"");
        push_json_escaped(&mut s, stats.http_requests[0].as_str());
        push_str(&mut s, "\"");
    }
    assert(s@ =~= before + optional_field("\"http_request\""@, first_request(*stats)));
    push_str(&mut s, "}\n");
    assert(s@ =~= flow_json_text(*stats, src_text@, dst_text@));
    s
}

spec fn json_proto_part(s: FlowStats) -> Seq<char> {
    "{\"first_seen\":\""@ + json_escaped(s.first_seen@) + "\",\"last_seen\":\""@ + json_escaped(
        s.last_seen@,
    ) + "\",\"proto\":\""@ + protocol_name(s.protocol)
}

spec fn json_head(s: FlowStats) -> Seq<char> {
    json_proto_part(s) + "\",\"transport\":\""@
}

spec fn json_tail(s: FlowStats, src_text: Seq<char>, dst_text: Seq<char>) -> Seq<char> {
    "\",\"src\":\""@ + json_escaped(src_text) + ":"@ + decimal(s.src_port as nat) + "\",\"dst\":\""@
        + json_escaped(dst_text) + ":"@ + decimal(s.dst_port as nat) + "\",\"packets\":"@ + decimal(
        s.packets as nat,
    ) + ",\"bytes\":"@ + decimal(s.bytes as nat) + optional_field(
        "\"tls\""@,
        s.tls_version.deep_view(),
    ) + optional_field("\"dns_query\""@, s.dns_query.deep_view()) + optional_field(
        "\"http_request\""@,
        first_request(s),
    ) + "}\n"@
}

#[verifier::rlimit(60)]
#[verifier::spinoff_prover]
proof fn lemma_json_split(s: FlowStats, src_text: Seq<char>, dst_text: Seq<char>)
    ensures
        flow_json_text(s, src_text, dst_text) == json_head(s) + transport_name(s.is_udp) + json_tail(
            s,
            src_text,
            dst_text,
        ),
{
    assert(flow_json_text(s, src_text, dst_text) =~= json_head(s) + transport_name(s.is_udp)
        + json_tail(s, src_text, dst_text));
}

/// The transport member of a flow's log record follows the flow's
/// transport: the record holds `"transport":"UDP"` for a UDP flow and
/// `"transport":"TCP"` for a TCP flow, and the records of the same flow
/// over UDP and over TCP differ in those three letters only.
#[verifier::rlimit(60)]
#[verifier::spinoff_prover]
pub proof fn lemma_json_transport(s: FlowStats, src_text: Seq<char>, dst_text: Seq<char>)
    ensures
        ({
            let r = flow_json_text(s, src_text, dst_text);
            let member = if s.is_udp {
                "\"transport\":\"UDP\""@
            } else {
                "\"transport\":\"TCP\""@
            };
            exists|i: int| 0 <= i && i + 17 <= r.len() && #[trigger] r.subrange(i, i + 17) == member
        }),
        ({
            let u = flow_json_text(FlowStats { is_udp: true, ..s }, src_text, dst_text);
            let t = flow_json_text(FlowStats { is_udp: false, ..s }, src_text, dst_text);
            exists|i: int|
                13 <= i && i + 4 <= u.len() && #[trigger] u.subrange(i - 13, i + 4)
                    == "\"transport\":\"UDP\""@ && t == u.subrange(0, i) + "TCP"@ + u.subrange(
                    i + 3,
                    u.len() as int,
                )
        }),
{
    reveal_strlit("\",\"transport\":\"");
    reveal_strlit("\",\"src\":\"");
    reveal_strlit("UDP");
    reveal_strlit("TCP");
    reveal_strlit("\"transport\":\"UDP\"");
    reveal_strlit("\"transport\":\"TCP\"");
    let us = FlowStats { is_udp: true, ..s };
    let ts = FlowStats { is_udp: false, ..s };
    lemma_json_split(us, src_text, dst_text);
    lemma_json_split(ts, src_text, dst_text);
    let h = json_head(s);
    let tl = json_tail(s, src_text, dst_text);
    assert(json_head(us) == h);
    assert(json_head(ts) == h);
    assert(first_request(us) == first_request(s));
    assert(first_request(ts) == first_request(s));
    assert(json_tail(us, src_text, dst_text) == tl);
    assert(json_tail(ts, src_text, dst_text) == tl);
    let u = flow_json_text(us, src_text, dst_text);
    let t = flow_json_text(ts, src_text, dst_text);
    let i = h.len() as int;
    let j = i - 13;
    reveal_strlit("\"transport\":\"");
    let lit = "\",\"transport\":\""@;
    assert(h.subrange(j, i) =~= lit.subrange(2, 15));
    assert(lit.subrange(2, 15) =~= "\"transport\":\""@);
    assert(tl[0] == '"');
    assert(u.subrange(j, j + 17) =~= "\"transport\":\"UDP\""@);
    assert(t.subrange(j, j + 17) =~= "\"transport\":\"TCP\""@);
    assert(u.subrange(i - 13, i + 4) == u.subrange(j, j + 17));
    assert(t =~= u.subrange(0, i) + "TCP"@ + u.subrange(i + 3, u.len() as int));
    if s.is_udp {
        assert(us == s);
    } else {
        assert(ts == s);
    }
}

} // verus!
