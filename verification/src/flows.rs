//! The table of active flows: every accepted packet is counted into the
//! flow of its connection, and flows that fell silent are dropped.
//!
//! Capturing runs in a loop outside the library; each packet is handed to
//! `record_packet`, which says whether the flow is new (to be shown and
//! logged) or an update, and then to `count_packet`, which flushes stale
//! flows every `FLUSH_EVERY_N_PACKETS` packets.
use crate::protocols::{spec_flow_key, FlowKey, FlowStats, PacketInfo};
use vstd::prelude::*;

verus! {

/// A flow is finished when it has seen no packet for this many seconds.
pub const FLOW_TIMEOUT_SECS: u64 = 5;

pub const FLOW_TIMEOUT_NANOS: u64 = FLOW_TIMEOUT_SECS * 1_000_000_000;

/// How often, in packets, stale flows are flushed.
pub const FLUSH_EVERY_N_PACKETS: u64 = 200;

/// Most request lines kept per flow.
pub const MAX_HTTP_REQUESTS: usize = 5;

/// One flow with the monotonic time (nanoseconds) of its latest packet.
#[derive(Debug)]
pub struct FlowEntry {
    pub key: FlowKey,
    pub stats: FlowStats,
    pub last_packet_nanos: u64,
}

/// The flow key of a packet.
pub open spec fn packet_key(p: PacketInfo) -> FlowKey {
    spec_flow_key(p.src_ip, p.src_port, p.dst_ip, p.dst_port, p.protocol)
}

/// The flow key of the connection a flow record describes.
pub open spec fn stats_key(s: FlowStats) -> FlowKey {
    spec_flow_key(s.src_ip, s.src_port, s.dst_ip, s.dst_port, s.protocol)
}

/// The request lines after seeing `method`: a new line is kept while fewer
/// than five are kept.
pub open spec fn requests_after(reqs: Seq<Seq<char>>, method: Option<Seq<char>>) -> Seq<Seq<char>> {
    match method {
        Some(m) => if !reqs.contains(m) && reqs.len() < 5 {
            reqs.push(m)
        } else {
            reqs
        },
        None => reqs,
    }
}

/// The connection fields of a flow record are those of the packet.
pub open spec fn same_connection(s: FlowStats, p: PacketInfo) -> bool {
    &&& s.src_ip == p.src_ip
    &&& s.dst_ip == p.dst_ip
    &&& s.src_port == p.src_port
    &&& s.dst_port == p.dst_port
    &&& s.protocol == p.protocol
    &&& s.is_udp == p.is_udp
}

/// `new` is `old` with the packet `p` counted in: one more packet, its
/// payload bytes added, last seen at its time, and the first TLS version,
/// DNS question and request lines that show up kept.
pub open spec fn counted(old: FlowStats, new: FlowStats, p: PacketInfo) -> bool {
    &&& new.first_seen@ == old.first_seen@
    &&& new.last_seen@ == p.timestamp@
    &&& new.packets == old.packets + 1
    &&& new.bytes == old.bytes + p.payload_len
    &&& new.tls_version.deep_view() == if old.tls_version is None {
        p.tls_version.deep_view()
    } else {
        old.tls_version.deep_view()
    }
    &&& new.dns_query.deep_view() == if old.dns_query is None {
        p.dns_query.deep_view()
    } else {
        old.dns_query.deep_view()
    }
    &&& new.http_requests.deep_view() == requests_after(
        old.http_requests.deep_view(),
        p.http_method.deep_view(),
    )
    &&& new.src_ip == old.src_ip
    &&& new.dst_ip == old.dst_ip
    &&& new.src_port == old.src_port
    &&& new.dst_port == old.dst_port
    &&& new.protocol == old.protocol
    &&& new.is_udp == old.is_udp
}

/// `new` is the record of a flow that the packet `p` opened, after counting
/// `p` in.
pub open spec fn started(new: FlowStats, p: PacketInfo) -> bool {
    &&& new.first_seen@ == p.timestamp@
    &&& new.last_seen@ == p.timestamp@
    &&& new.packets == 1
    &&& new.bytes == p.payload_len
    &&& new.tls_version.deep_view() == p.tls_version.deep_view()
    &&& new.dns_query.deep_view() == p.dns_query.deep_view()
    &&& new.http_requests.deep_view() == requests_after(Seq::empty(), p.http_method.deep_view())
    &&& same_connection(new, p)
}

/// Time since `then`, zero when `then` lies ahead of `now`.
pub open spec fn elapsed(now: u64, then: u64) -> int {
    if now >= then {
        now - then
    } else {
        0
    }
}

pub open spec fn is_fresh(e: FlowEntry, now: u64) -> bool {
    elapsed(now, e.last_packet_nanos) < FLOW_TIMEOUT_NANOS
}

/// The entries that have seen a packet within the timeout, in order.
pub open spec fn fresh_entries(s: Seq<FlowEntry>, now: u64) -> Seq<FlowEntry>
    decreases s.len(),
{
    if s.len() == 0 {
        Seq::empty()
    } else {
        let rest = fresh_entries(s.drop_last(), now);
        if is_fresh(s.last(), now) {
            rest.push(s.last())
        } else {
            rest
        }
    }
}

/// Keys are distinct across the table.
pub open spec fn distinct_keys(s: Seq<FlowEntry>) -> bool {
    forall|i: int, j: int| 0 <= i < j < s.len() ==> s[i].key != s[j].key
}

/// Every entry is keyed by its own connection, has been shown, and keeps
/// at most five distinct request lines.
pub open spec fn entry_ok(e: FlowEntry) -> bool {
    &&& e.key == stats_key(e.stats)
    &&& e.stats.printed
    &&& e.stats.http_requests@.len() <= 5
    &&& e.stats.http_requests.deep_view().no_duplicates()
}

/// Distinct keys and well-formed entries.
pub open spec fn table_ok(s: Seq<FlowEntry>) -> bool {
    &&& distinct_keys(s)
    &&& forall|i: int| 0 <= i < s.len() ==> #[trigger] entry_ok(s[i])
}

/// The index of the entry with key `k`, if any.
pub open spec fn has_key_at(s: Seq<FlowEntry>, k: FlowKey, i: int) -> bool {
    0 <= i < s.len() && s[i].key == k
}

pub open spec fn contains_key(s: Seq<FlowEntry>, k: FlowKey) -> bool {
    exists|i: int| has_key_at(s, k, i)
}

/// The entry of the flow keyed `k`, if the table has one.
pub open spec fn entry_of(s: Seq<FlowEntry>, k: FlowKey) -> Option<FlowEntry> {
    if contains_key(s, k) {
        Some(s[choose|i: int| has_key_at(s, k, i)])
    } else {
        None
    }
}

/// What recording the packet `p` at time `now` does to a table: the flow
/// of its connection is opened by it, or has it counted in, and saw its
/// latest packet at `now`; every other flow is left as it was.
pub open spec fn recorded(old: Seq<FlowEntry>, new: Seq<FlowEntry>, p: PacketInfo, now: u64) -> bool {
    &&& match entry_of(new, packet_key(p)) {
        Some(e) => e.last_packet_nanos == now && match entry_of(old, packet_key(p)) {
            Some(e0) => counted(e0.stats, e.stats, p),
            None => started(e.stats, p),
        },
        None => false,
    }
    &&& forall|k: FlowKey| k != packet_key(p) ==> #[trigger] entry_of(new, k) == entry_of(old, k)
}

proof fn lemma_entry_of(s: Seq<FlowEntry>, k: FlowKey, i: int)
    requires
        distinct_keys(s),
        has_key_at(s, k, i),
    ensures
        entry_of(s, k) == Some(s[i]),
{
    let j = choose|j: int| has_key_at(s, k, j);
    assert(has_key_at(s, k, j));
    if j < i {
        assert(s[j].key != s[i].key);
    } else if i < j {
        assert(s[i].key != s[j].key);
    }
}

/// Recording as `record_packet` states it, per position, read per key.
proof fn lemma_recorded(
    old: Seq<FlowEntry>,
    new: Seq<FlowEntry>,
    p: PacketInfo,
    now: u64,
    idx: int,
    is_new: bool,
)
    requires
        distinct_keys(old),
        distinct_keys(new),
        is_new == !contains_key(old, packet_key(p)),
        is_new ==> idx == old.len() && new.len() == old.len() + 1 && started(new[idx].stats, p),
        !is_new ==> has_key_at(old, packet_key(p), idx) && new.len() == old.len() && counted(
            old[idx].stats,
            new[idx].stats,
            p,
        ),
        0 <= idx < new.len(),
        new[idx].key == packet_key(p),
        new[idx].last_packet_nanos == now,
        forall|j: int| 0 <= j < old.len() && j != idx ==> new[j] == old[j],
    ensures
        recorded(old, new, p, now),
{
    let key = packet_key(p);
    lemma_entry_of(new, key, idx);
    if !is_new {
        lemma_entry_of(old, key, idx);
    }
    assert forall|k: FlowKey| k != key implies #[trigger] entry_of(new, k) == entry_of(old, k) by {
        if contains_key(new, k) {
            let j = choose|j: int| has_key_at(new, k, j);
            assert(j != idx);
            assert(j < old.len());
            assert(new[j] == old[j]);
            assert(has_key_at(old, k, j));
            lemma_entry_of(new, k, j);
            lemma_entry_of(old, k, j);
        } else if contains_key(old, k) {
            let j = choose|j: int| has_key_at(old, k, j);
            assert(j != idx);
            assert(new[j] == old[j]);
            assert(has_key_at(new, k, j));
        }
    }
}

/// Active flows and the number of packets seen.
pub struct FlowTable {
    flows: Vec<FlowEntry>,
    packet_counter: u64,
}

impl FlowTable {
    pub closed spec fn entries(&self) -> Seq<FlowEntry> {
        self.flows@
    }

    pub closed spec fn packets_seen(&self) -> u64 {
        self.packet_counter
    }

    pub open spec fn wf(&self) -> bool {
        table_ok(self.entries())
    }

    /// Counting `p` overflows no counter of its flow.
    pub open spec fn accepts(&self, p: PacketInfo) -> bool {
        forall|i: int|
            #[trigger] has_key_at(self.entries(), packet_key(p), i) ==> self.entries()[i].stats.packets
                < u64::MAX && self.entries()[i].stats.bytes + p.payload_len <= u64::MAX
    }

    pub fn new() -> (r: FlowTable)
        ensures
            r.wf(),
            r.entries().len() == 0,
            r.packets_seen() == 0,
    {
        FlowTable { flows: Vec::new(), packet_counter: 0 }
    }

    pub fn len(&self) -> (r: usize)
        ensures
            r == self.entries().len(),
    {
        self.flows.len()
    }

    pub fn packets_counted(&self) -> (r: u64)
        ensures
            r == self.packets_seen(),
    {
        self.packet_counter
    }

    /// The statistics of the `i`-th flow.
    pub fn flow(&self, i: usize) -> (r: &FlowStats)
        requires
            i < self.entries().len(),
        ensures
            *r == self.entries()[i as int].stats,
    {
        &self.flows[i].stats
    }

    /// The key of the `i`-th flow.
    pub fn key_at(&self, i: usize) -> (r: FlowKey)
        requires
            i < self.entries().len(),
        ensures
            r == self.entries()[i as int].key,
    {
        self.flows[i].key
    }

    /// Position of the flow with key `k`.
    pub fn find(&self, k: &FlowKey) -> (r: Option<usize>)
        ensures
            match r {
                Some(i) => has_key_at(self.entries(), *k, i as int),
                None => !contains_key(self.entries(), *k),
            },
    {
        let mut i: usize = 0;
        while i < self.flows.len()
            invariant
                i <= self.flows@.len(),
                forall|j: int| 0 <= j < i ==> self.flows@[j].key != *k,
            decreases self.flows@.len() - i,
        {
            if self.flows[i].key == *k {
                return Some(i);
            }
            i = i + 1;
        }
        None
    }

    /// Decides `accepts`.
    pub fn can_record(&self, p: &PacketInfo) -> (r: bool)
        requires
            self.wf(),
        ensures
            r == self.accepts(*p),
    {
        let k = FlowKey::new(p.src_ip, p.src_port, p.dst_ip, p.dst_port, p.protocol);
        match self.find(&k) {
            Some(i) => {
                let s = &self.flows[i].stats;
                s.packets < u64::MAX && s.bytes <= u64::MAX - p.payload_len as u64
            },
            None => true,
        }
    }
}

/// Whether `m` is among the request lines.
fn contains_request(reqs: &Vec<String>, m: &String) -> (r: bool)
    ensures
        r == reqs.deep_view().contains(m@),
{
    let mut i: usize = 0;
    while i < reqs.len()
        invariant
            i <= reqs@.len(),
            forall|j: int| 0 <= j < i ==> reqs@[j]@ != m@,
        decreases reqs@.len() - i,
    {
        if reqs[i] == *m {
            assert(reqs.deep_view()[i as int] == m@);
            return true;
        }
        i = i + 1;
    }
    assert forall|j: int| 0 <= j < reqs.deep_view().len() implies reqs.deep_view()[j] != m@ by {
        assert(reqs.deep_view()[j] == reqs@[j]@);
    }
    false
}

/// Counts the packet `p` into the flow record `s`.
fn count_into(s: &mut FlowStats, p: PacketInfo)
    requires
        old(s).packets < u64::MAX,
        old(s).bytes + p.payload_len <= u64::MAX,
        old(s).http_requests@.len() <= 5,
        old(s).http_requests.deep_view().no_duplicates(),
    ensures
        counted(*old(s), *final(s), p),
        final(s).printed == old(s).printed,
        final(s).http_requests@.len() <= 5,
        final(s).http_requests.deep_view().no_duplicates(),
{
    s.packets = s.packets + 1;
    s.bytes = s.bytes + p.payload_len as u64;
    s.last_seen = p.timestamp;
    if s.tls_version.is_none() && p.tls_version.is_some() {
        s.tls_version = p.tls_version;
    }
    if s.dns_query.is_none() && p.dns_query.is_some() {
        s.dns_query = p.dns_query;
    }
    let ghost before = s.http_requests.deep_view();
    if let Some(m) = p.http_method {
        if !contains_request(&s.http_requests, &m) && s.http_requests.len() < MAX_HTTP_REQUESTS {
            s.http_requests.push(m);
            assert(s.http_requests.deep_view() =~= before.push(m@));
        }
    }
}

impl FlowTable {
    fn record_inner(&mut self, p: PacketInfo, now_nanos: u64) -> (r: (usize, bool))
        requires
            old(self).wf(),
            old(self).accepts(p),
        ensures
            final(self).wf(),
            final(self).packets_seen() == old(self).packets_seen(),
            r.1 == !contains_key(old(self).entries(), packet_key(p)),
            r.1 ==> r.0 == old(self).entries().len() && final(self).entries().len() == old(self).entries().len() + 1 && started(final(self).entries()[r.0 as int].stats, p),
            !r.1 ==> has_key_at(old(self).entries(), packet_key(p), r.0 as int) && final(self).entries().len() == old(self).entries().len() && counted(
                old(self).entries()[r.0 as int].stats,
                final(self).entries()[r.0 as int].stats,
                p,
            ),
            r.0 < final(self).entries().len(),
            final(self).entries()[r.0 as int].key == packet_key(p),
            final(self).entries()[r.0 as int].last_packet_nanos == now_nanos,
            final(self).entries()[r.0 as int].stats.printed,
            forall|k: FlowKey|
                #![trigger contains_key(final(self).entries(), k)]
                contains_key(final(self).entries(), k) <==> (contains_key(old(self).entries(), k)
                    || k == packet_key(p)),
            forall|j: int|
                0 <= j < old(self).entries().len() && j != r.0 ==> final(self).entries()[j] == old(self).entries()[j],
    {
        let k = FlowKey::new(p.src_ip, p.src_port, p.dst_ip, p.dst_port, p.protocol);
        match self.find(&k) {
            Some(i) => {
                assert(has_key_at(self.flows@, k, i as int));
                assert(entry_ok(self.flows@[i as int]));
                let ghost before = self.flows@;
                let e = &mut self.flows[i];
                count_into(&mut e.stats, p);
                e.last_packet_nanos = now_nanos;
                assert(self.flows@.len() == before.len());
                assert forall|a: int, b: int|
                    0 <= a < b < self.flows@.len() implies self.flows@[a].key
                    != self.flows@[b].key by {
                    assert(before[a].key != before[b].key);
                }
                assert forall|j: int| 0 <= j < self.flows@.len() implies #[trigger] entry_ok(
                    self.flows@[j],
                ) by {
                    assert(entry_ok(before[j]));
                }
                assert forall|kk: FlowKey|
                    #![trigger contains_key(self.flows@, kk)]
                    contains_key(self.flows@, kk) <==> (contains_key(before, kk) || kk == k) by {
                    if contains_key(self.flows@, kk) {
                        let j = choose|j: int| has_key_at(self.flows@, kk, j);
                        assert(has_key_at(before, kk, j));
                    }
                    if contains_key(before, kk) {
                        let j = choose|j: int| has_key_at(before, kk, j);
                        assert(has_key_at(self.flows@, kk, j));
                    }
                    if kk == k {
                        assert(has_key_at(self.flows@, kk, i as int));
                    }
                }
                (i, false)
            },
            None => {
                let stats = FlowStats {
                    first_seen: p.timestamp.clone(),
                    last_seen: p.timestamp.clone(),
                    packets: 0,
                    bytes: 0,
                    tls_version: None,
                    dns_query: None,
                    http_requests: Vec::new(),
                    src_ip: p.src_ip,
                    dst_ip: p.dst_ip,
                    src_port: p.src_port,
                    dst_port: p.dst_port,
                    protocol: p.protocol,
                    is_udp: p.is_udp,
                    printed: false,
                };
                let mut stats = stats;
                assert(stats.http_requests.deep_view() =~= Seq::<Seq<char>>::empty());
                count_into(&mut stats, p);
                stats.printed = true;
                let ghost before = self.flows@;
                let i = self.flows.len();
                self.flows.push(FlowEntry { key: k, stats, last_packet_nanos: now_nanos });
                assert forall|a: int, b: int|
                    0 <= a < b < self.flows@.len() implies self.flows@[a].key
                    != self.flows@[b].key by {
                    if b < before.len() {
                        assert(before[a].key != before[b].key);
                    } else {
                        assert(!has_key_at(before, k, a));
                    }
                }
                assert forall|j: int| 0 <= j < self.flows@.len() implies #[trigger] entry_ok(
                    self.flows@[j],
                ) by {
                    if j < before.len() {
                        assert(entry_ok(before[j]));
                    }
                }
                assert forall|kk: FlowKey|
                    #![trigger contains_key(self.flows@, kk)]
                    contains_key(self.flows@, kk) <==> (contains_key(before, kk) || kk == k) by {
                    if contains_key(self.flows@, kk) {
                        let j = choose|j: int| has_key_at(self.flows@, kk, j);
                        if j < before.len() {
                            assert(has_key_at(before, kk, j));
                        }
                    }
                    if contains_key(before, kk) {
                        let j = choose|j: int| has_key_at(before, kk, j);
                        assert(has_key_at(self.flows@, kk, j));
                    }
                    if kk == k {
                        assert(has_key_at(self.flows@, kk, i as int));
                    }
                }
                (i, true)
            },
        }
    }
}

impl FlowTable {
    /// Counts an accepted packet into its flow, opening the flow when its
    /// connection has none.  Answers the flow's position and whether the
    /// flow is new, i.e. has not been shown yet; the flow is marked shown.
    pub fn record_packet(&mut self, p: PacketInfo, now_nanos: u64) -> (r: (usize, bool))
        requires
            old(self).wf(),
            old(self).accepts(p),
        ensures
            final(self).wf(),
            final(self).packets_seen() == old(self).packets_seen(),
            recorded(old(self).entries(), final(self).entries(), p, now_nanos),
            r.1 == !contains_key(old(self).entries(), packet_key(p)),
            r.1 ==> r.0 == old(self).entries().len() && final(self).entries().len() == old(self).entries().len() + 1 && started(final(self).entries()[r.0 as int].stats, p),
            !r.1 ==> has_key_at(old(self).entries(), packet_key(p), r.0 as int) && final(self).entries().len() == old(self).entries().len() && counted(
                old(self).entries()[r.0 as int].stats,
                final(self).entries()[r.0 as int].stats,
                p,
            ),
            r.0 < final(self).entries().len(),
            final(self).entries()[r.0 as int].key == packet_key(p),
            final(self).entries()[r.0 as int].last_packet_nanos == now_nanos,
            final(self).entries()[r.0 as int].stats.printed,
            forall|k: FlowKey|
                #![trigger contains_key(final(self).entries(), k)]
                contains_key(final(self).entries(), k) <==> (contains_key(old(self).entries(), k)
                    || k == packet_key(p)),
            forall|j: int|
                0 <= j < old(self).entries().len() && j != r.0 ==> final(self).entries()[j] == old(self).entries()[j],
    {
        let ghost before = self.entries();
        let r = self.record_inner(p, now_nanos);
        proof {
            lemma_recorded(before, self.entries(), p, now_nanos, r.0 as int, r.1);
        }
        r
    }
}

/// Keeping the fresh entries keeps distinct keys and well-formed entries,
/// and keeps only entries of the table.
proof fn lemma_fresh_entries(s: Seq<FlowEntry>, now: u64)
    requires
        distinct_keys(s),
        forall|i: int| 0 <= i < s.len() ==> #[trigger] entry_ok(s[i]),
    ensures
        distinct_keys(fresh_entries(s, now)),
        forall|i: int|
            0 <= i < fresh_entries(s, now).len() ==> #[trigger] entry_ok(fresh_entries(s, now)[i]),
        forall|i: int|
            0 <= i < fresh_entries(s, now).len() ==> s.contains(#[trigger] fresh_entries(s, now)[i]),
        fresh_entries(s, now).len() <= s.len(),
    decreases s.len(),
{
    if s.len() > 0 {
        let init = s.drop_last();
        assert forall|i: int| 0 <= i < init.len() implies #[trigger] entry_ok(init[i]) by {
            assert(entry_ok(s[i]));
        }
        lemma_fresh_entries(init, now);
        let rest = fresh_entries(init, now);
        if is_fresh(s.last(), now) {
            let all = rest.push(s.last());
            assert forall|a: int, b: int| 0 <= a < b < all.len() implies all[a].key
                != all[b].key by {
                if b < rest.len() {
                } else {
                    assert(init.contains(rest[a]));
                    let j = choose|j: int| 0 <= j < init.len() && init[j] == rest[a];
                    assert(s[j] == init[j]);
                }
            }
            assert forall|i: int| 0 <= i < all.len() implies s.contains(#[trigger] all[i]) by {
                if i < rest.len() {
                    assert(init.contains(rest[i]));
                    let j = choose|j: int| 0 <= j < init.len() && init[j] == rest[i];
                    assert(s[j] == init[j]);
                } else {
                    assert(s[s.len() - 1] == all[i]);
                }
            }
            assert forall|i: int| 0 <= i < all.len() implies #[trigger] entry_ok(all[i]) by {
                if i == rest.len() {
                    assert(entry_ok(s[s.len() - 1]));
                }
            }
        } else {
            assert forall|i: int| 0 <= i < rest.len() implies s.contains(#[trigger] rest[i]) by {
                assert(init.contains(rest[i]));
                let j = choose|j: int| 0 <= j < init.len() && init[j] == rest[i];
                assert(s[j] == init[j]);
            }
        }
    }
}

/// Flushing keeps exactly the entries that saw a packet within the
/// timeout, unchanged: a flow stays in the table if and only if its latest
/// packet is less than `FLOW_TIMEOUT_SECS` old.
pub proof fn lemma_flush_keeps_fresh(s: Seq<FlowEntry>, now: u64, k: FlowKey)
    ensures
        forall|j: int|
            0 <= j < fresh_entries(s, now).len() ==> s.contains(#[trigger] fresh_entries(s, now)[j])
                && is_fresh(fresh_entries(s, now)[j], now),
        forall|i: int|
            0 <= i < s.len() && is_fresh(#[trigger] s[i], now) ==> fresh_entries(s, now).contains(
                s[i],
            ),
        contains_key(fresh_entries(s, now), k) <==> exists|i: int|
            #[trigger] has_key_at(s, k, i) && is_fresh(s[i], now),
    decreases s.len(),
{
    let f = fresh_entries(s, now);
    if s.len() > 0 {
        let init = s.drop_last();
        let rest = fresh_entries(init, now);
        lemma_flush_keeps_fresh(init, now, k);
        assert forall|j: int| 0 <= j < f.len() implies s.contains(#[trigger] f[j]) && is_fresh(
            f[j],
            now,
        ) by {
            if j < rest.len() {
                assert(f[j] == rest[j]);
                let a = choose|a: int| 0 <= a < init.len() && init[a] == rest[j];
                assert(s[a] == init[a]);
            } else {
                assert(f[j] == s[s.len() - 1]);
            }
        }
        assert forall|i: int| 0 <= i < s.len() && is_fresh(#[trigger] s[i], now) implies f.contains(
            s[i],
        ) by {
            if i < init.len() {
                assert(init[i] == s[i]);
                assert(rest.contains(init[i]));
                let a = choose|a: int| 0 <= a < rest.len() && rest[a] == init[i];
                assert(f[a] == rest[a]);
            } else {
                assert(f[f.len() - 1] == s.last());
            }
        }
    }
    if contains_key(f, k) {
        let j = choose|j: int| has_key_at(f, k, j);
        assert(s.contains(f[j]) && is_fresh(f[j], now));
        let i = choose|i: int| 0 <= i < s.len() && s[i] == f[j];
        assert(has_key_at(s, k, i));
    }
    if exists|i: int| #[trigger] has_key_at(s, k, i) && is_fresh(s[i], now) {
        let i = choose|i: int| #[trigger] has_key_at(s, k, i) && is_fresh(s[i], now);
        assert(f.contains(s[i]));
        let j = choose|j: int| 0 <= j < f.len() && f[j] == s[i];
        assert(has_key_at(f, k, j));
    }
}

/// After a flush a flow keeps its entry exactly when the entry is fresh.
proof fn lemma_flush_entry_of(s: Seq<FlowEntry>, now: u64, k: FlowKey)
    requires
        table_ok(s),
    ensures
        entry_of(fresh_entries(s, now), k) == match entry_of(s, k) {
            Some(e) => if is_fresh(e, now) {
                Some(e)
            } else {
                None
            },
            None => None,
        },
{
    lemma_fresh_entries(s, now);
    lemma_flush_keeps_fresh(s, now, k);
    let f = fresh_entries(s, now);
    if contains_key(s, k) {
        let i = choose|i: int| has_key_at(s, k, i);
        lemma_entry_of(s, k, i);
        if is_fresh(s[i], now) {
            assert(has_key_at(s, k, i) && is_fresh(s[i], now));
            let j = choose|j: int| has_key_at(f, k, j);
            lemma_entry_of(f, k, j);
            assert(s.contains(f[j]));
            let a = choose|a: int| 0 <= a < s.len() && s[a] == f[j];
            assert(has_key_at(s, k, a));
            lemma_entry_of(s, k, a);
        } else if contains_key(f, k) {
            let i2 = choose|i2: int| #[trigger] has_key_at(s, k, i2) && is_fresh(s[i2], now);
            lemma_entry_of(s, k, i2);
        }
    } else if contains_key(f, k) {
        let i2 = choose|i2: int| #[trigger] has_key_at(s, k, i2) && is_fresh(s[i2], now);
        assert(contains_key(s, k));
    }
}

/// Decides `is_fresh`.
fn fresh_at(e: &FlowEntry, now: u64) -> (r: bool)
    ensures
        r == is_fresh(*e, now),
{
    let elapsed = if now >= e.last_packet_nanos {
        now - e.last_packet_nanos
    } else {
        0
    };
    elapsed < FLOW_TIMEOUT_NANOS
}

impl FlowTable {
    /// Drops every flow that has seen no packet for `FLOW_TIMEOUT_SECS`.
    pub fn flush_old_flows(&mut self, now_nanos: u64)
        requires
            old(self).wf(),
        ensures
            final(self).wf(),
            final(self).entries() == fresh_entries(old(self).entries(), now_nanos),
            final(self).packets_seen() == old(self).packets_seen(),
    {
        let mut rest: Vec<FlowEntry> = Vec::new();
        std::mem::swap(&mut rest, &mut self.flows);
        let ghost orig = rest@;
        let total = rest.len();
        let mut kept: Vec<FlowEntry> = Vec::new();
        let mut k: usize = 0;
        while rest.len() > 0
            invariant
                k <= orig.len() == total,
                rest@ == orig.skip(k as int),
                kept@ == fresh_entries(orig.take(k as int), now_nanos),
            decreases rest@.len(),
        {
            assert(rest@.len() == orig.len() - k);
            let e = rest.remove(0);
            assert(orig.take(k as int + 1).drop_last() =~= orig.take(k as int));
            assert(orig.take(k as int + 1).last() == e);
            if fresh_at(&e, now_nanos) {
                kept.push(e);
            }
            k = k + 1;
            assert(rest@ =~= orig.skip(k as int));
        }
        assert(orig.take(k as int) =~= orig);
        self.flows = kept;
        proof {
            lemma_fresh_entries(orig, now_nanos);
        }
    }

    /// Counts one more captured packet; every `FLUSH_EVERY_N_PACKETS`
    /// packets the stale flows are flushed.  Answers whether it flushed.
    pub fn count_packet(&mut self, now_nanos: u64) -> (flushed: bool)
        requires
            old(self).wf(),
            old(self).packets_seen() < u64::MAX,
        ensures
            final(self).wf(),
            final(self).packets_seen() == old(self).packets_seen() + 1,
            flushed == (final(self).packets_seen() % FLUSH_EVERY_N_PACKETS == 0),
            flushed ==> final(self).entries() == fresh_entries(old(self).entries(), now_nanos),
            !flushed ==> final(self).entries() == old(self).entries(),
    {
        self.packet_counter = self.packet_counter + 1;
        if self.packet_counter % FLUSH_EVERY_N_PACKETS == 0 {
            self.flush_old_flows(now_nanos);
            true
        } else {
            false
        }
    }

    /// Decides whether one more packet can be counted.
    pub fn can_count(&self) -> (r: bool)
        ensures
            r == (self.packets_seen() < u64::MAX),
    {
        self.packet_counter < u64::MAX
    }
}

/// The two directions of a connection are counted into one flow: a packet
/// and its reply (addresses and ports swapped, same protocol) have the
/// same flow key.
pub proof fn lemma_reply_shares_flow(p: PacketInfo, q: PacketInfo)
    requires
        q.src_ip == p.dst_ip,
        q.src_port == p.dst_port,
        q.dst_ip == p.src_ip,
        q.dst_port == p.src_port,
        q.protocol == p.protocol,
    ensures
        packet_key(p) == packet_key(q),
{
    crate::protocols::lemma_flow_key_symmetric(p.src_ip, p.src_port, p.dst_ip, p.dst_port, p.protocol);
}

/// A flow record opened by a packet stays keyed by that packet's
/// connection: the key stored with a flow is the key of every packet
/// counted into it.
pub proof fn lemma_started_key(s: FlowStats, p: PacketInfo)
    requires
        started(s, p),
    ensures
        stats_key(s) == packet_key(p),
{
}

/// Sum of the payload lengths of a run of packets.
pub open spec fn bytes_total(ps: Seq<PacketInfo>) -> int
    decreases ps.len(),
{
    if ps.len() == 0 {
        0
    } else {
        bytes_total(ps.drop_last()) + ps.last().payload_len
    }
}

/// The first value present in a run of optional texts.
pub open spec fn first_present(os: Seq<Option<Seq<char>>>) -> Option<Seq<char>>
    decreases os.len(),
{
    if os.len() == 0 {
        None
    } else {
        match first_present(os.drop_last()) {
            Some(x) => Some(x),
            None => os.last(),
        }
    }
}

pub open spec fn tls_versions(ps: Seq<PacketInfo>) -> Seq<Option<Seq<char>>> {
    Seq::new(ps.len(), |i: int| ps[i].tls_version.deep_view())
}

pub open spec fn dns_queries(ps: Seq<PacketInfo>) -> Seq<Option<Seq<char>>> {
    Seq::new(ps.len(), |i: int| ps[i].dns_query.deep_view())
}

pub open spec fn http_methods(ps: Seq<PacketInfo>) -> Seq<Option<Seq<char>>> {
    Seq::new(ps.len(), |i: int| ps[i].http_method.deep_view())
}

/// The request lines kept over a run of packets: each new distinct line is
/// kept, in order of first appearance, while fewer than five are kept.
pub open spec fn requests_over(ms: Seq<Option<Seq<char>>>) -> Seq<Seq<char>>
    decreases ms.len(),
{
    if ms.len() == 0 {
        Seq::empty()
    } else {
        requests_after(requests_over(ms.drop_last()), ms.last())
    }
}

/// The request lines kept over any run of packets are at most five and
/// distinct.
pub proof fn lemma_requests_over_bounded(ms: Seq<Option<Seq<char>>>)
    ensures
        requests_over(ms).len() <= 5,
        requests_over(ms).no_duplicates(),
    decreases ms.len(),
{
    if ms.len() > 0 {
        lemma_requests_over_bounded(ms.drop_last());
        let before = requests_over(ms.drop_last());
        if let Some(m) = ms.last() {
            if !before.contains(m) && before.len() < 5 {
                let after = before.push(m);
                assert forall|i: int, j: int| 0 <= i < after.len() && 0 <= j < after.len() && i != j
                    implies after[i] != after[j] by {
                    if j == before.len() {
                        assert(after[i] == before[i]);
                        if before[i] == m {
                            assert(before.contains(m));
                        }
                    } else if i == before.len() {
                        assert(after[j] == before[j]);
                        if before[j] == m {
                            assert(before.contains(m));
                        }
                    }
                }
            }
        }
    }
}

/// The successive records of one flow: opened by the first packet, then
/// each later packet counted in.
pub open spec fn flow_history(ss: Seq<FlowStats>, ps: Seq<PacketInfo>) -> bool {
    &&& ss.len() == ps.len()
    &&& ps.len() > 0
    &&& started(ss[0], ps[0])
    &&& forall|i: int| 0 < i < ps.len() ==> #[trigger] counted(ss[i - 1], ss[i], ps[i])
}

/// Over the life of a flow, its record holds the number of packets counted
/// in, the sum of their payload lengths, the time of the first and of the
/// latest packet, and the first TLS version and first DNS question that
/// showed up (which then never change), the distinct request lines in order
/// of first appearance up to five; it keeps the addresses, ports and
/// protocol of its first packet, and so stays keyed by its connection.
pub proof fn lemma_flow_history(ss: Seq<FlowStats>, ps: Seq<PacketInfo>)
    requires
        flow_history(ss, ps),
    ensures
        ss.last().packets == ps.len(),
        ss.last().bytes == bytes_total(ps),
        ss.last().first_seen@ == ps[0].timestamp@,
        ss.last().last_seen@ == ps.last().timestamp@,
        ss.last().tls_version.deep_view() == first_present(tls_versions(ps)),
        ss.last().dns_query.deep_view() == first_present(dns_queries(ps)),
        ss.last().http_requests.deep_view() == requests_over(http_methods(ps)),
        ss.last().http_requests@.len() <= 5,
        ss.last().http_requests.deep_view().no_duplicates(),
        same_connection(ss.last(), ps[0]),
        stats_key(ss.last()) == packet_key(ps[0]),
    decreases ps.len(),
{
    let n = ps.len() as int;
    lemma_flow_history_requests(ss, ps);
    lemma_requests_over_bounded(http_methods(ps));
    assert(ss.last().http_requests.deep_view().len() == ss.last().http_requests@.len());
    if n == 1 {
        assert(bytes_total(ps.drop_last()) == 0);
        assert(first_present(tls_versions(ps).drop_last()) is None);
        assert(first_present(dns_queries(ps).drop_last()) is None);
        assert(tls_versions(ps).last() == ps[0].tls_version.deep_view());
        assert(dns_queries(ps).last() == ps[0].dns_query.deep_view());
    } else {
        let ss0 = ss.drop_last();
        let ps0 = ps.drop_last();
        assert forall|i: int| 0 < i < ps0.len() implies #[trigger] counted(ss0[i - 1], ss0[i], ps0[i]) by {
            assert(counted(ss[i - 1], ss[i], ps[i]));
        }
        lemma_flow_history(ss0, ps0);
        assert(counted(ss[n - 2], ss[n - 1], ps[n - 1]));
        assert(tls_versions(ps).drop_last() =~= tls_versions(ps0));
        assert(dns_queries(ps).drop_last() =~= dns_queries(ps0));
        assert(ps0.last() == ps[n - 2]);
        assert(ss0.last() == ss[n - 2]);
        assert(tls_versions(ps).last() == ps[n - 1].tls_version.deep_view());
        assert(dns_queries(ps).last() == ps[n - 1].dns_query.deep_view());
    }
}

/// The packets of a run that belong to the flow keyed `k`, in order.
pub open spec fn key_packets(ps: Seq<PacketInfo>, k: FlowKey) -> Seq<PacketInfo>
    decreases ps.len(),
{
    if ps.len() == 0 {
        Seq::empty()
    } else if packet_key(ps.last()) == k {
        key_packets(ps.drop_last(), k).push(ps.last())
    } else {
        key_packets(ps.drop_last(), k)
    }
}

/// One packet of a capture: recorded into the table `t0` at time `now`,
/// giving `m`; counting it then leaves `m` or flushes its stale flows.
pub open spec fn capture_step(
    t0: Seq<FlowEntry>,
    m: Seq<FlowEntry>,
    t1: Seq<FlowEntry>,
    p: PacketInfo,
    now: u64,
) -> bool {
    &&& recorded(t0, m, p, now)
    &&& table_ok(m)
    &&& (t1 == m || t1 == fresh_entries(m, now))
}

/// A capture from an empty table: `tables[i]` is the table before the
/// `i`-th accepted packet `ps[i]`, seen at `times[i]`, and `mids[i]` the
/// table right after recording it.
pub open spec fn capture_run(
    tables: Seq<Seq<FlowEntry>>,
    mids: Seq<Seq<FlowEntry>>,
    ps: Seq<PacketInfo>,
    times: Seq<u64>,
) -> bool {
    &&& tables.len() == ps.len() + 1
    &&& mids.len() == ps.len()
    &&& times.len() == ps.len()
    &&& tables[0].len() == 0
    &&& forall|i: int|
        #![trigger mids[i]]
        0 <= i < ps.len() ==> capture_step(tables[i], mids[i], tables[i + 1], ps[i], times[i])
}

/// What a flow record holds after the run of packets `qs`: their number,
/// the sum of their payload lengths, the times of the first and of the
/// latest, the first TLS version and DNS question present, the distinct
/// request lines up to five, and the connection of the first.
pub open spec fn flow_summary(s: FlowStats, qs: Seq<PacketInfo>) -> bool {
    &&& qs.len() > 0
    &&& s.packets == qs.len()
    &&& s.bytes == bytes_total(qs)
    &&& s.first_seen@ == qs[0].timestamp@
    &&& s.last_seen@ == qs.last().timestamp@
    &&& s.tls_version.deep_view() == first_present(tls_versions(qs))
    &&& s.dns_query.deep_view() == first_present(dns_queries(qs))
    &&& s.http_requests.deep_view() == requests_over(http_methods(qs))
    &&& same_connection(s, qs[0])
}

/// The flow keyed `k` in `tables[n]` was opened by the packet `ps[a]`, has
/// stayed in the table since, and its records are those of the packets of
/// its key since then.
pub open spec fn flow_life(
    tables: Seq<Seq<FlowEntry>>,
    ps: Seq<PacketInfo>,
    k: FlowKey,
    n: int,
    a: int,
    ss: Seq<FlowStats>,
) -> bool {
    &&& 0 <= a < n
    &&& packet_key(ps[a]) == k
    &&& entry_of(tables[a], k) is None
    &&& forall|i: int| a < i <= n ==> #[trigger] entry_of(tables[i], k) is Some
    &&& flow_history(ss, key_packets(ps.subrange(a, n), k))
    &&& entry_of(tables[n], k) matches Some(e) && ss.last() == e.stats
}

proof fn lemma_run_prefix(
    tables: Seq<Seq<FlowEntry>>,
    mids: Seq<Seq<FlowEntry>>,
    ps: Seq<PacketInfo>,
    times: Seq<u64>,
    k: FlowKey,
    n: int,
)
    requires
        capture_run(tables, mids, ps, times),
        0 <= n <= ps.len(),
    ensures
        entry_of(tables[n], k) is Some ==> exists|a: int, ss: Seq<FlowStats>|
            #[trigger] flow_life(tables, ps, k, n, a, ss),
    decreases n,
{
    if n == 0 {
        assert(!contains_key(tables[0], k));
    } else {
        let i = n - 1;
        lemma_run_prefix(tables, mids, ps, times, k, i);
        let p = ps[i];
        let m = mids[i];
        assert(capture_step(tables[i], m, tables[n], p, times[i]));
        lemma_flush_entry_of(m, times[i], k);
        if let Some(e) = entry_of(tables[n], k) {
            assert(entry_of(m, k) == Some(e));
            assert(ps.subrange(i, n).drop_last() =~= Seq::<PacketInfo>::empty());
            if packet_key(p) != k {
                assert(entry_of(m, k) == entry_of(tables[i], k));
                let (a, ss) = choose|a: int, ss: Seq<FlowStats>| #[trigger]
                    flow_life(tables, ps, k, i, a, ss);
                assert(ps.subrange(a, n).drop_last() =~= ps.subrange(a, i));
                assert(ps.subrange(a, n).last() == p);
                assert(key_packets(ps.subrange(a, n), k) == key_packets(ps.subrange(a, i), k));
                assert forall|j: int| a < j <= n implies #[trigger] entry_of(tables[j], k) is Some by {
                    if j < n {
                        assert(entry_of(tables[j], k) is Some);
                    }
                }
                assert(flow_life(tables, ps, k, n, a, ss));
            } else {
                match entry_of(tables[i], k) {
                    None => {
                        let qs = key_packets(ps.subrange(i, n), k);
                        assert(ps.subrange(i, n).last() == p);
                        assert(key_packets(ps.subrange(i, n).drop_last(), k) =~= Seq::<PacketInfo>::empty());
                        assert(qs =~= seq![p]);
                        let ss = seq![e.stats];
                        assert(started(e.stats, p));
                        assert(flow_history(ss, qs));
                        assert(flow_life(tables, ps, k, n, i, ss));
                    },
                    Some(e0) => {
                        assert(counted(e0.stats, e.stats, p));
                        let (a, ss) = choose|a: int, ss: Seq<FlowStats>| #[trigger]
                            flow_life(tables, ps, k, i, a, ss);
                        let qs0 = key_packets(ps.subrange(a, i), k);
                        assert(ps.subrange(a, n).drop_last() =~= ps.subrange(a, i));
                        assert(ps.subrange(a, n).last() == p);
                        let qs = key_packets(ps.subrange(a, n), k);
                        assert(qs == qs0.push(p));
                        let ss1 = ss.push(e.stats);
                        assert forall|j: int| 0 < j < qs.len() implies #[trigger] counted(
                            ss1[j - 1],
                            ss1[j],
                            qs[j],
                        ) by {
                            if j < qs0.len() {
                                assert(counted(ss[j - 1], ss[j], qs0[j]));
                            } else {
                                assert(ss1[j - 1] == ss.last());
                            }
                        }
                        assert(ss1[0] == ss[0]);
                        assert(qs[0] == qs0[0]);
                        assert(flow_history(ss1, qs));
                        assert forall|j: int| a < j <= n implies #[trigger] entry_of(tables[j], k) is Some by {
                            if j < n {
                                assert(entry_of(tables[j], k) is Some);
                            }
                        }
                        assert(flow_life(tables, ps, k, n, a, ss1));
                    },
                }
            }
        }
    }
}

/// Over a capture, the record of every flow in the table is what the
/// packets of its connection since it was last opened give: their number,
/// the sum of their payload lengths, the times of the first and latest, the
/// first TLS version and DNS question present, the distinct request lines
/// up to five, and the addresses, ports and protocol of the first.  The
/// flow was absent just before that first packet and has stayed since.
pub proof fn lemma_capture_run(
    tables: Seq<Seq<FlowEntry>>,
    mids: Seq<Seq<FlowEntry>>,
    ps: Seq<PacketInfo>,
    times: Seq<u64>,
    k: FlowKey,
)
    requires
        capture_run(tables, mids, ps, times),
    ensures
        entry_of(tables.last(), k) matches Some(e) ==> exists|a: int|
            #![trigger key_packets(ps.subrange(a, ps.len() as int), k)]
            0 <= a < ps.len() && packet_key(ps[a]) == k && entry_of(tables[a], k) is None
                && (forall|i: int| a < i < tables.len() ==> #[trigger] entry_of(tables[i], k) is Some)
                && flow_summary(e.stats, key_packets(ps.subrange(a, ps.len() as int), k)),
{
    let n = ps.len() as int;
    lemma_run_prefix(tables, mids, ps, times, k, n);
    if let Some(e) = entry_of(tables.last(), k) {
        assert(tables.last() == tables[n]);
        let (a, ss) = choose|a: int, ss: Seq<FlowStats>| #[trigger] flow_life(tables, ps, k, n, a, ss);
        let qs = key_packets(ps.subrange(a, n), k);
        lemma_flow_history(ss, qs);
        assert(flow_summary(e.stats, qs));
    }
}

proof fn lemma_flow_history_requests(ss: Seq<FlowStats>, ps: Seq<PacketInfo>)
    requires
        flow_history(ss, ps),
    ensures
        ss.last().http_requests.deep_view() == requests_over(http_methods(ps)),
    decreases ps.len(),
{
    let n = ps.len() as int;
    if n == 1 {
        assert(http_methods(ps).drop_last() =~= Seq::<Option<Seq<char>>>::empty());
        assert(requests_over(http_methods(ps).drop_last()) == Seq::<Seq<char>>::empty());
        assert(http_methods(ps).last() == ps[0].http_method.deep_view());
        assert(ss.last() == ss[0]);
    } else {
        let ss0 = ss.drop_last();
        let ps0 = ps.drop_last();
        assert forall|i: int| 0 < i < ps0.len() implies #[trigger] counted(ss0[i - 1], ss0[i], ps0[i]) by {
            assert(counted(ss[i - 1], ss[i], ps[i]));
        }
        lemma_flow_history_requests(ss0, ps0);
        assert(counted(ss[n - 2], ss[n - 1], ps[n - 1]));
        assert(http_methods(ps).drop_last() =~= http_methods(ps0));
        assert(ss0.last() == ss[n - 2]);
        assert(http_methods(ps).last() == ps[n - 1].http_method.deep_view());
        assert(ss.last() == ss[n - 1]);
    }
}

} // verus!
