//! Friendly names of network interfaces, keyed by the interface GUID.
//!
//! On Windows the names come from the registry; elsewhere there are none.
//! Capture device names carry the GUID between braces, as in
//! `\Device\NPF_{GUID}`.
use crate::capture::first_index_of;
use crate::text::{ascii_upper, uppercase, uppercase_text};
use vstd::utf8::is_ascii_chars;
use vstd::prelude::*;

verus! {

/// A map from upper-case GUID to the interface's friendly name.
pub struct FriendlyNames {
    entries: Vec<(String, String)>,
}

/// Some entry has key `k`.
pub open spec fn has_entry(s: Seq<(String, String)>, k: Seq<char>) -> bool {
    exists|i: int| 0 <= i < s.len() && #[trigger] s[i].0@ == k
}

/// The map that a list of entries with distinct keys stands for.
pub open spec fn entries_map(s: Seq<(String, String)>) -> Map<Seq<char>, Seq<char>> {
    Map::new(
        |k: Seq<char>| has_entry(s, k),
        |k: Seq<char>| s[choose|i: int| 0 <= i < s.len() && #[trigger] s[i].0@ == k].1@,
    )
}

pub open spec fn distinct_entry_keys(s: Seq<(String, String)>) -> bool {
    forall|i: int, j: int| 0 <= i < j < s.len() ==> s[i].0@ != s[j].0@
}

proof fn lemma_entry_value(s: Seq<(String, String)>, i: int)
    requires
        distinct_entry_keys(s),
        0 <= i < s.len(),
    ensures
        entries_map(s).contains_key(s[i].0@),
        entries_map(s)[s[i].0@] == s[i].1@,
{
    let k = s[i].0@;
    assert(has_entry(s, k));
    let j = choose|j: int| 0 <= j < s.len() && #[trigger] s[j].0@ == k;
    assert(j == i);
}

impl View for FriendlyNames {
    type V = Map<Seq<char>, Seq<char>>;

    closed spec fn view(&self) -> Map<Seq<char>, Seq<char>> {
        entries_map(self.entries@)
    }
}

impl FriendlyNames {
    pub closed spec fn wf(&self) -> bool {
        distinct_entry_keys(self.entries@)
    }

    pub fn new() -> (r: FriendlyNames)
        ensures
            r.wf(),
            r@ == Map::<Seq<char>, Seq<char>>::empty(),
    {
        let r = FriendlyNames { entries: Vec::new() };
        assert(r@ =~= Map::<Seq<char>, Seq<char>>::empty());
        r
    }

    fn position(&self, key: &String) -> (r: Option<usize>)
        ensures
            match r {
                Some(i) => i < self.entries@.len() && self.entries@[i as int].0@ == key@,
                None => !has_entry(self.entries@, key@),
            },
    {
        let mut i: usize = 0;
        while i < self.entries.len()
            invariant
                i <= self.entries@.len(),
                forall|j: int| 0 <= j < i ==> self.entries@[j].0@ != key@,
            decreases self.entries@.len() - i,
        {
            if self.entries[i].0 == *key {
                return Some(i);
            }
            i = i + 1;
        }
        None
    }

    /// The friendly name stored for `key`.
    pub fn get(&self, key: &String) -> (r: Option<&String>)
        requires
            self.wf(),
        ensures
            match r {
                Some(v) => self@.contains_key(key@) && self@[key@] == v@,
                None => !self@.contains_key(key@),
            },
    {
        match self.position(key) {
            Some(i) => {
                proof {
                    lemma_entry_value(self.entries@, i as int);
                }
                Some(&self.entries[i].1)
            },
            None => None,
        }
    }

    /// Stores `value` under `key`, replacing an earlier value.
    pub fn insert(&mut self, key: String, value: String)
        requires
            old(self).wf(),
        ensures
            final(self).wf(),
            final(self)@ == old(self)@.insert(key@, value@),
    {
        let ghost old_entries = self.entries@;
        let ghost k = key@;
        let ghost v = value@;
        match self.position(&key) {
            Some(i) => {
                assert(old_entries[i as int].0@ == k);
                assert(has_entry(old_entries, k));
                self.entries.set(i, (key, value));
                let ghost s = self.entries@;
                assert forall|a: int, b: int| 0 <= a < b < s.len() implies s[a].0@ != s[b].0@ by {
                    assert(old_entries[a].0@ != old_entries[b].0@);
                }
                assert forall|x: Seq<char>| has_entry(s, x) == #[trigger] has_entry(old_entries, x) by {
                    if has_entry(s, x) {
                        let j = choose|j: int| 0 <= j < s.len() && #[trigger] s[j].0@ == x;
                        assert(old_entries[j].0@ == x);
                    }
                    if has_entry(old_entries, x) {
                        let j = choose|j: int| 0 <= j < old_entries.len() && #[trigger] old_entries[j].0@ == x;
                        assert(s[j].0@ == x);
                    }
                }
                assert forall|x: Seq<char>| #[trigger] has_entry(s, x) implies entries_map(s)[x]
                    == entries_map(old_entries).insert(k, v)[x] by {
                    let j = choose|j: int| 0 <= j < s.len() && #[trigger] s[j].0@ == x;
                    lemma_entry_value(s, j);
                    if j != i as int {
                        lemma_entry_value(old_entries, j);
                    }
                }
                assert(self@.dom() =~= old(self)@.insert(k, v).dom());
                assert(self@ =~= old(self)@.insert(k, v));
            },
            None => {
                self.entries.push((key, value));
                let ghost s = self.entries@;
                assert forall|a: int, b: int| 0 <= a < b < s.len() implies s[a].0@ != s[b].0@ by {
                    if b < old_entries.len() {
                        assert(old_entries[a].0@ != old_entries[b].0@);
                    }
                }
                assert forall|x: Seq<char>| has_entry(s, x) == (#[trigger] has_entry(old_entries, x) || x == k) by {
                    if has_entry(s, x) {
                        let j = choose|j: int| 0 <= j < s.len() && #[trigger] s[j].0@ == x;
                        if j < old_entries.len() {
                            assert(old_entries[j].0@ == x);
                        }
                    }
                    if has_entry(old_entries, x) {
                        let j = choose|j: int| 0 <= j < old_entries.len() && #[trigger] old_entries[j].0@ == x;
                        assert(s[j].0@ == x);
                    }
                    if x == k {
                        assert(s[s.len() - 1].0@ == x);
                    }
                }
                assert forall|x: Seq<char>| #[trigger] has_entry(s, x) implies entries_map(s)[x]
                    == entries_map(old_entries).insert(k, v)[x] by {
                    let j = choose|j: int| 0 <= j < s.len() && #[trigger] s[j].0@ == x;
                    lemma_entry_value(s, j);
                    if j < old_entries.len() {
                        lemma_entry_value(old_entries, j);
                    }
                }
                assert(self@ =~= old(self)@.insert(k, v));
            },
        }
    }

    /// Stores a name read from the registry: the GUID key loses its
    /// surrounding braces and is upper-cased.
    pub fn insert_guid(&mut self, guid: &str, name: String)
        requires
            old(self).wf(),
        ensures
            final(self).wf(),
            final(self)@ == old(self)@.insert(uppercase_text(strip_braces(guid@)), name@),
    {
        let key = normalize_guid(guid);
        self.insert(key, name);
    }
}

/// Reading a name just stored under a key gives that name back, and
/// storing leaves the names of other keys as they were.
pub proof fn lemma_get_after_insert(m: Map<Seq<char>, Seq<char>>, k: Seq<char>, v: Seq<char>, other: Seq<char>)
    requires
        other != k,
    ensures
        m.insert(k, v).contains_key(k),
        m.insert(k, v)[k] == v,
        m.insert(k, v).contains_key(other) == m.contains_key(other),
        m.contains_key(other) ==> m.insert(k, v)[other] == m[other],
{
}

/// Friendly names of the interfaces; this platform keeps none.
pub fn get_friendly_names() -> (r: FriendlyNames)
    ensures
        r.wf(),
        r@ == Map::<Seq<char>, Seq<char>>::empty(),
{
    FriendlyNames::new()
}

pub open spec fn is_brace(c: char) -> bool {
    c == '{' || c == '}'
}

pub open spec fn strip_leading_braces(s: Seq<char>) -> Seq<char>
    decreases s.len(),
{
    if s.len() > 0 && is_brace(s[0]) {
        strip_leading_braces(s.drop_first())
    } else {
        s
    }
}

pub open spec fn strip_trailing_braces(s: Seq<char>) -> Seq<char>
    decreases s.len(),
{
    if s.len() > 0 && is_brace(s.last()) {
        strip_trailing_braces(s.drop_last())
    } else {
        s
    }
}

/// A text without the braces at either end, as `trim_matches` leaves it.
pub open spec fn strip_braces(s: Seq<char>) -> Seq<char> {
    strip_trailing_braces(strip_leading_braces(s))
}

proof fn lemma_strip_leading(s: Seq<char>, a: int)
    requires
        0 <= a <= s.len(),
        forall|j: int| 0 <= j < a ==> is_brace(#[trigger] s[j]),
        a == s.len() || !is_brace(s[a]),
    ensures
        strip_leading_braces(s) == s.subrange(a, s.len() as int),
    decreases s.len(),
{
    if a > 0 {
        assert(is_brace(s[0]));
        lemma_strip_leading(s.drop_first(), a - 1);
        assert(s.drop_first().subrange(a - 1, s.len() - 1) =~= s.subrange(a, s.len() as int));
    } else {
        assert(s.subrange(0, s.len() as int) =~= s);
    }
}

proof fn lemma_strip_trailing(s: Seq<char>, b: int)
    requires
        0 <= b <= s.len(),
        forall|j: int| b <= j < s.len() ==> is_brace(#[trigger] s[j]),
        b == 0 || !is_brace(s[b - 1]),
    ensures
        strip_trailing_braces(s) == s.subrange(0, b),
    decreases s.len(),
{
    if b < s.len() {
        assert(is_brace(s.last()));
        lemma_strip_trailing(s.drop_last(), b);
        assert(s.drop_last().subrange(0, b) =~= s.subrange(0, b));
    } else {
        assert(s.subrange(0, s.len() as int) =~= s);
    }
}

/// The braces around a GUID stripped and the rest upper-cased.
pub fn normalize_guid(guid: &str) -> (r: String)
    ensures
        r@ == uppercase_text(strip_braces(guid@)),
        is_ascii_chars(strip_braces(guid@)) ==> r@ == ascii_upper(strip_braces(guid@)),
{
    let n = guid.unicode_len();
    let mut a: usize = 0;
    while a < n && (guid.get_char(a) == '{' || guid.get_char(a) == '}')
        invariant
            n == guid@.len(),
            a <= n,
            forall|j: int| 0 <= j < a ==> is_brace(#[trigger] guid@[j]),
        decreases n - a,
    {
        a = a + 1;
    }
    proof {
        lemma_strip_leading(guid@, a as int);
    }
    let ghost inner = guid@.subrange(a as int, n as int);
    let mut b: usize = n;
    while b > a && (guid.get_char(b - 1) == '{' || guid.get_char(b - 1) == '}')
        invariant
            n == guid@.len(),
            a <= b <= n,
            forall|j: int| b <= j < n ==> is_brace(#[trigger] guid@[j]),
        decreases b,
    {
        b = b - 1;
    }
    proof {
        assert forall|j: int| b - a <= j < inner.len() implies is_brace(#[trigger] inner[j]) by {
            assert(inner[j] == guid@[j + a]);
        }
        if b > a {
            assert(inner[b - a - 1] == guid@[b - 1]);
        }
        lemma_strip_trailing(inner, b - a);
        assert(inner.subrange(0, b - a) =~= guid@.subrange(a as int, b as int));
    }
    uppercase(guid.substring_char(a, b))
}

/// Where the braces of a device name stand.
pub open spec fn open_brace(s: Seq<char>) -> int {
    first_index_of(s, '{')
}

pub open spec fn close_brace(s: Seq<char>) -> int {
    first_index_of(s, '}')
}

/// The text between the first `{` and the first `}`.
pub open spec fn guid_inner(s: Seq<char>) -> Seq<char> {
    s.subrange(open_brace(s) + 1, close_brace(s))
}

/// The upper-cased text between the first `{` and the first `}`, when
/// both occur and the `}` follows the `{`.
pub open spec fn guid_of(s: Seq<char>) -> Option<Seq<char>> {
    if open_brace(s) < s.len() && close_brace(s) < s.len() && open_brace(s) < close_brace(s) {
        Some(uppercase_text(guid_inner(s)))
    } else {
        None
    }
}

/// Finds the GUID of a device name of the form `\Device\NPF_{GUID}`.
pub fn extract_guid(iface_name: &str) -> (r: Option<String>)
    ensures
        r.deep_view() == guid_of(iface_name@),
        r matches Some(g) ==> (is_ascii_chars(guid_inner(iface_name@)) ==> g@ == ascii_upper(
            guid_inner(iface_name@),
        )),
{
    let n = iface_name.unicode_len();
    let start = crate::capture::find_char(iface_name, '{');
    if start == n {
        return None;
    }
    let end = crate::capture::find_char(iface_name, '}');
    if end == n || end < start {
        return None;
    }
    Some(uppercase(iface_name.substring_char(start + 1, end)))
}

} // verus!
