//! The choices the sniffer makes before capturing: which interface, under
//! which name it is shown, and where the flow log goes.
use crate::capture::boundary_at_or_before;
use crate::iface_names::{extract_guid, guid_inner, guid_of, FriendlyNames};
use crate::text::{ascii_upper, lemma_encode_concat, parse_usize, parsed_usize, push_str, string_views, text_equals, trim, trimmed_text};
use vstd::prelude::*;
use vstd::string::StringSliceAdditionalSpecFns;
use vstd::utf8::*;

verus! {

broadcast use {vstd::utf8::encode_utf8_decode_utf8, vstd::utf8::encode_utf8_valid_utf8};

// ── Display names ───────────────────────────────────────────────────────

/// The first block of a GUID in braces: its longest prefix of whole
/// characters within eight bytes (all of it when it is shorter).
pub open spec fn short_guid(g: Seq<char>) -> Seq<char> {
    let b = encode_utf8(g);
    let limit = if b.len() < 8 {
        b.len() as int
    } else {
        8
    };
    "{"@ + decode_utf8(b.take(boundary_at_or_before(b, limit))) + "}"@
}

/// The first eight characters of a GUID (all of it when shorter), in braces.
pub open spec fn short_ascii_guid(g: Seq<char>) -> Seq<char> {
    "{"@ + g.take(
        if g.len() < 8 {
            g.len() as int
        } else {
            8
        },
    ) + "}"@
}

/// Every character of an ASCII GUID is one byte, so its first block is its
/// first eight characters.
pub proof fn lemma_short_guid_ascii(g: Seq<char>)
    requires
        is_ascii_chars(g),
    ensures
        short_guid(g) == short_ascii_guid(g),
{
    let b = encode_utf8(g);
    is_ascii_chars_encode_utf8(g);
    is_ascii_chars_nat_bound(g);
    let k = if b.len() < 8 {
        b.len() as int
    } else {
        8
    };
    if k < b.len() {
        is_char_boundary_iff_not_is_continuation_byte(b, k);
        assert((g[k] as nat) < 128);
        assert(b[k] < 128);
    } else {
        is_char_boundary_start_end_of_seq(b);
    }
    assert(is_char_boundary(b, k));
    assert(boundary_at_or_before(b, k) == k);
    let head = g.take(k);
    lemma_encode_concat(head, g.skip(k));
    assert(head + g.skip(k) =~= g);
    assert(is_ascii_chars(head));
    is_ascii_chars_encode_utf8(head);
    assert(b.take(k) =~= encode_utf8(head));
    assert(decode_utf8(encode_utf8(head)) == head);
}

/// The upper case of an ASCII text is ASCII.
pub proof fn lemma_ascii_upper_ascii(s: Seq<char>)
    requires
        is_ascii_chars(s),
    ensures
        is_ascii_chars(ascii_upper(s)),
{
    assert forall|i: int| 0 <= i < ascii_upper(s).len() implies '\0' <= #[trigger] ascii_upper(s)[i]
        <= '\u{7f}' by {
        assert(s[i] <= '\u{7f}');
    }
}

/// The friendly name of the GUID if known, else the GUID's first block in
/// braces; a device name without GUID is shown as it is.
pub open spec fn display_name_text(
    iface: Seq<char>,
    guid: Option<Seq<char>>,
    names: Map<Seq<char>, Seq<char>>,
) -> Seq<char> {
    match guid {
        Some(g) => if names.contains_key(g) {
            names[g]
        } else {
            short_guid(g)
        },
        None => iface,
    }
}

/// The name shown for a device, given the GUID found in its name.
pub fn display_name(iface_name: &str, guid: Option<String>, friendly: &FriendlyNames) -> (r: String)
    requires
        friendly.wf(),
    ensures
        r@ == display_name_text(iface_name@, guid.deep_view(), friendly@),
        guid matches Some(g) ==> (!friendly@.contains_key(g@) && is_ascii_chars(g@) ==> r@
            == short_ascii_guid(g@)),
{
    match guid {
        Some(g) => {
            if let Some(name) = friendly.get(&g) {
                return name.clone();
            }
            let gs = g.as_str();
            let ghost b = gs.spec_bytes();
            let n = gs.as_bytes().len();
            let mut k: usize = if n < 8 {
                n
            } else {
                8
            };
            let ghost limit = k as int;
            proof {
                vstd::utf8::is_char_boundary_start_end_of_seq(b);
            }
            while !gs.is_char_boundary(k)
                invariant
                    0 <= k <= limit,
                    limit <= b.len(),
                    b == gs.spec_bytes(),
                    is_char_boundary(b, 0),
                    boundary_at_or_before(b, k as int) == boundary_at_or_before(b, limit),
                decreases k,
            {
                k = k - 1;
            }
            assert(boundary_at_or_before(b, k as int) == k);
            let (head, _tail) = gs.split_at(k);
            assert(head@ == decode_utf8(head.spec_bytes()));
            let mut s = String::new();
            push_str(&mut s, "{");
            push_str(&mut s, head);
            push_str(&mut s, "}");
            assert(s@ =~= short_guid(g@));
            proof {
                if is_ascii_chars(g@) {
                    lemma_short_guid_ascii(g@);
                }
            }
            s
        },
        None => iface_name.to_owned(),
    }
}

/// Returns "Wi-Fi", "Ethernet" and the like, or the shortened GUID when no
/// friendly name is known.
pub fn pretty_name(iface_name: &str, friendly: &FriendlyNames) -> (r: String)
    requires
        friendly.wf(),
    ensures
        r@ == display_name_text(iface_name@, guid_of(iface_name@), friendly@),
        guid_of(iface_name@) is Some && is_ascii_chars(guid_inner(iface_name@)) ==> r@ == ({
            let g = ascii_upper(guid_inner(iface_name@));
            if friendly@.contains_key(g) {
                friendly@[g]
            } else {
                short_ascii_guid(g)
            }
        }),
{
    let guid = extract_guid(iface_name);
    proof {
        if guid is Some && is_ascii_chars(guid_inner(iface_name@)) {
            lemma_ascii_upper_ascii(guid_inner(iface_name@));
        }
    }
    display_name(iface_name, guid, friendly)
}

// ── Interface list ──────────────────────────────────────────────────────

pub open spec fn flags_text(is_up: bool, is_loopback: bool) -> Seq<char> {
    if !is_up && !is_loopback {
        "\x1b[90m[--]\x1b[0m"@
    } else {
        "\x1b[32m["@ + if is_up && is_loopback {
            "UP"@ + "|"@ + "LOOP"@
        } else if is_up {
            "UP"@
        } else {
            "LOOP"@
        } + "]\x1b[0m"@
    }
}

/// The state tag shown beside an interface: `[UP|LOOP]`, `[UP]`, `[LOOP]`
/// in green, or a grey `[--]`.
pub fn format_flags(is_up: bool, is_loopback: bool) -> (r: String)
    ensures
        r@ == flags_text(is_up, is_loopback),
{
    let mut flags: Vec<&str> = Vec::new();
    if is_up {
        flags.push("UP");
    }
    if is_loopback {
        flags.push("LOOP");
    }
    if flags.len() == 0 {
        return "\x1b[90m[--]\x1b[0m".to_owned();
    }
    let mut s = String::new();
    push_str(&mut s, "\x1b[32m[");
    let mut i: usize = 0;
    while i < flags.len()
        invariant
            i <= flags@.len(),
            flags@.len() == (if is_up { 1int } else { 0 }) + (if is_loopback { 1int } else { 0 }),
            is_up ==> flags@[0]@ == "UP"@,
            is_loopback ==> flags@[flags@.len() - 1]@ == "LOOP"@,
            i == 0 ==> s@ == "\x1b[32m["@,
            i == 1 ==> s@ == "\x1b[32m["@ + flags@[0]@,
            i == 2 ==> s@ == "\x1b[32m["@ + flags@[0]@ + "|"@ + flags@[1]@,
        decreases flags@.len() - i,
    {
        if i > 0 {
            push_str(&mut s, "|");
        }
        push_str(&mut s, flags[i]);
        i = i + 1;
        assert(i == 2 ==> s@ =~= "\x1b[32m["@ + flags@[0]@ + "|"@ + flags@[1]@);
        assert(i == 1 ==> s@ =~= "\x1b[32m["@ + flags@[0]@);
    }
    push_str(&mut s, "]\x1b[0m");
    assert(s@ =~= flags_text(is_up, is_loopback));
    s
}

/// The chosen position for a typed selection: empty or unreadable input
/// means the first interface; numbering starts at 1.
pub open spec fn chosen_index(t: Seq<char>, count: usize) -> Option<usize> {
    let idx: nat = if t.len() == 0 {
        1
    } else {
        match parsed_usize(t) {
            Some(v) => v as nat,
            None => 1,
        }
    };
    if idx == 0 || idx > count {
        None
    } else {
        Some((idx - 1) as usize)
    }
}

/// The position chosen by an already trimmed selection, `None` when the
/// selection is out of range.
pub fn choose_interface(trimmed: &str, count: usize) -> (r: Option<usize>)
    ensures
        r == chosen_index(trimmed@, count),
{
    let idx: usize = if trimmed.unicode_len() == 0 {
        1
    } else {
        match parse_usize(trimmed) {
            Some(v) => v,
            None => 1,
        }
    };
    if idx == 0 || idx > count {
        None
    } else {
        Some(idx - 1)
    }
}

/// The position chosen by a typed line, surrounding whitespace ignored.
pub fn select_interface(input: &str, count: usize) -> (r: Option<usize>)
    ensures
        r == chosen_index(trimmed_text(input@), count),
{
    choose_interface(trim(input), count)
}

/// The first interface of the given name.
pub fn find_interface(names: &Vec<String>, wanted: &String) -> (r: Option<usize>)
    ensures
        match r {
            Some(i) => i < names@.len() && names@[i as int]@ == wanted@ && forall|j: int|
                0 <= j < i ==> names@[j]@ != wanted@,
            None => forall|j: int| 0 <= j < names@.len() ==> names@[j]@ != wanted@,
        },
{
    let mut i: usize = 0;
    while i < names.len()
        invariant
            i <= names@.len(),
            forall|j: int| 0 <= j < i ==> names@[j]@ != wanted@,
        decreases names@.len() - i,
    {
        if names[i] == *wanted {
            return Some(i);
        }
        i = i + 1;
    }
    None
}

// ── Arguments ───────────────────────────────────────────────────────────

/// The argument after the first `--log` that has one after it.
pub open spec fn log_path_from(args: Seq<Seq<char>>, from: int) -> Option<Seq<char>>
    decreases args.len() - from,
{
    if from < 0 || from + 1 >= args.len() {
        None
    } else if args[from] == "--log"@ {
        Some(args[from + 1])
    } else {
        log_path_from(args, from + 1)
    }
}

/// The log file named by `--log <file>` among the arguments.
pub fn find_log_path(args: &Vec<String>) -> (r: Option<String>)
    ensures
        r.deep_view() == log_path_from(string_views(args@), 0),
{
    let ghost views = string_views(args@);
    let mut i: usize = 0;
    while i < args.len() && args.len() - i > 1
        invariant
            views == string_views(args@),
            i <= args@.len(),
            log_path_from(views, i as int) == log_path_from(views, 0),
        decreases args@.len() - i,
    {
        if text_equals(args[i].as_str(), "--log") {
            return Some(args[i + 1].clone());
        }
        i = i + 1;
    }
    None
}

} // verus!
