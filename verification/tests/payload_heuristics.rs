use rust_sniffer::capture::{
    detect_http_method, detect_tls_version, dns_label_bounds, format_dns_query,
    parse_dns_query, text_starts_with,
};
use rust_sniffer::text::text_equals;

// Reference behaviour of the three heuristics, written with the standard
// library's own string functions.
fn reference_tls(payload: &[u8]) -> Option<String> {
    if payload.len() < 5 || payload[0] != 0x16 {
        return None;
    }
    let ver = match (payload[1], payload[2]) {
        (0x03, 0x01) => "TLS 1.0",
        (0x03, 0x02) => "TLS 1.1",
        (0x03, 0x03) => "TLS 1.2/1.3",
        (0x03, 0x04) => "TLS 1.3",
        _ => return None,
    };
    Some(ver.to_string())
}

fn reference_http(payload: &[u8]) -> Option<String> {
    let methods = ["GET", "POST", "PUT", "DELETE", "PATCH", "HEAD", "OPTIONS"];
    let text = std::str::from_utf8(&payload[..payload.len().min(128)]).ok()?;
    for m in &methods {
        if text.starts_with(m) {
            let line = text.lines().next()?;
            if line.len() > 80 {
                let mut cut = 80;
                while !line.is_char_boundary(cut) {
                    cut -= 1;
                }
                return Some(format!("{}\u{2026}", &line[..cut]));
            }
            return Some(line.to_string());
        }
    }
    None
}

fn reference_dns(payload: &[u8]) -> Option<String> {
    if payload.len() < 13 {
        return None;
    }
    let is_query = (payload[2] & 0x80) == 0;
    let mut pos = 12;
    let mut labels = Vec::new();
    loop {
        if pos >= payload.len() {
            break;
        }
        let len = payload[pos] as usize;
        if len == 0 {
            break;
        }
        pos += 1;
        if pos + len > payload.len() {
            break;
        }
        labels.push(String::from_utf8_lossy(&payload[pos..pos + len]).to_string());
        pos += len;
    }
    if labels.is_empty() {
        return None;
    }
    let domain = labels.join(".");
    if is_query {
        Some(format!("? {}", domain))
    } else {
        Some(format!("\u{2713} {}", domain))
    }
}

#[test]
fn tls_versions() {
    assert_eq!(detect_tls_version(&[0x16, 3, 1, 0, 5]).as_deref(), Some("TLS 1.0"));
    assert_eq!(detect_tls_version(&[0x16, 3, 2, 0, 5]).as_deref(), Some("TLS 1.1"));
    assert_eq!(detect_tls_version(&[0x16, 3, 3, 0, 5, 9]).as_deref(), Some("TLS 1.2/1.3"));
    assert_eq!(detect_tls_version(&[0x16, 3, 4, 0, 5]).as_deref(), Some("TLS 1.3"));
    assert_eq!(detect_tls_version(&[0x16, 3, 5, 0, 5]), None);
    assert_eq!(detect_tls_version(&[0x17, 3, 3, 0, 5]), None);
    assert_eq!(detect_tls_version(&[0x16, 3, 3, 0]), None);
    assert_eq!(detect_tls_version(&[]), None);
}

#[test]
fn tls_matches_reference() {
    for a in [0x15u8, 0x16, 0x17] {
        for b in 0u8..6 {
            for c in 0u8..6 {
                for len in 0..7 {
                    let p: Vec<u8> = [a, b, c, 1, 2, 3].iter().copied().take(len).collect();
                    assert_eq!(detect_tls_version(&p), reference_tls(&p));
                }
            }
        }
    }
}

#[test]
fn http_request_line() {
    let p = b"GET /index.html HTTP/1.1\r\nHost: example.com\r\n\r\n";
    assert_eq!(detect_http_method(p).as_deref(), Some("GET /index.html HTTP/1.1"));
    let p = b"POST /api HTTP/1.1\nHost: a\n";
    assert_eq!(detect_http_method(p).as_deref(), Some("POST /api HTTP/1.1"));
    assert_eq!(detect_http_method(b"OPTIONS * HTTP/1.1").as_deref(), Some("OPTIONS * HTTP/1.1"));
    assert_eq!(detect_http_method(b"HTTP/1.1 200 OK\r\n"), None);
    assert_eq!(detect_http_method(b"get / HTTP/1.1\r\n"), None);
    assert_eq!(detect_http_method(&[0x47, 0x45, 0x54, 0xff]), None);
    assert_eq!(detect_http_method(b""), None);
}

#[test]
fn http_long_line_is_cut() {
    let mut p = b"GET /".to_vec();
    p.extend(std::iter::repeat(b'a').take(150));
    let r = detect_http_method(&p).unwrap();
    assert_eq!(r.chars().count(), 81);
    assert!(r.ends_with('\u{2026}'));
    assert_eq!(&r[..80], std::str::from_utf8(&p[..80]).unwrap());
    assert_eq!(Some(r), reference_http(&p));
}

#[test]
fn http_cut_inside_utf8_at_128_rejects() {
    // A two-byte character straddles byte 128: the first 128 bytes are not UTF-8.
    let mut p = b"GET /".to_vec();
    p.extend(std::iter::repeat(b'a').take(122));
    p.extend("é".as_bytes());
    assert_eq!(p.len(), 129);
    assert_eq!(detect_http_method(&p), None);
    assert_eq!(reference_http(&p), None);
}

#[test]
fn http_cut_falls_back_to_a_character_boundary() {
    let mut whole = b"GET /".to_vec();
    whole.extend(std::iter::repeat(b'a').take(75));
    whole.extend("\u{e9}".as_bytes()); // bytes 80 and 81
    whole.push(b'b');
    let r = detect_http_method(&whole).unwrap();
    assert_eq!(r, format!("GET /{}\u{2026}", "a".repeat(75)));
    let mut split = b"GET /".to_vec();
    split.extend(std::iter::repeat(b'a').take(74));
    split.extend("\u{e9}".as_bytes()); // bytes 79 and 80: byte 80 is inside
    split.push(b'b');
    let r = detect_http_method(&split).unwrap();
    assert_eq!(r, format!("GET /{}\u{2026}", "a".repeat(74)));
    assert!(r.len() - "\u{2026}".len() <= 80);
    assert_eq!(Some(r), reference_http(&split));
    // Three-byte characters straddling byte 80.
    let mut wide = b"GET /".to_vec();
    wide.extend(std::iter::repeat(b'a').take(74));
    wide.extend("\u{2192}\u{2192}".as_bytes());
    let r = detect_http_method(&wide).unwrap();
    assert_eq!(r, format!("GET /{}\u{2026}", "a".repeat(74)));
}

#[test]
fn http_matches_reference_on_line_endings() {
    let cases: Vec<&[u8]> = vec![
        b"GET / HTTP/1.1",
        b"GET / HTTP/1.1\r",
        b"GET / HTTP/1.1\r\n",
        b"GET / HTTP/1.1\n\r",
        b"GET /\r\r\nx",
        b"GET\n",
        b"GET\r\n",
        b"GETTER",
        b"PUT x",
        b"DELETE x\r\ny",
        b"PATCH y",
        b"HEAD z\n",
    ];
    for p in cases {
        assert_eq!(detect_http_method(p), reference_http(p), "on {:?}", p);
    }
}

#[test]
fn http_matches_reference_on_many_lengths() {
    let mut base = b"GET /".to_vec();
    for i in 0..200u32 {
        base.push(b'a' + (i % 26) as u8);
        if i % 37 == 0 {
            base.extend("ü".as_bytes());
        }
        assert_eq!(detect_http_method(&base), reference_http(&base));
    }
}

fn dns_query_bytes(flags: u8, labels: &[&[u8]]) -> Vec<u8> {
    let mut p = vec![0x12, 0x34, flags, 0x00, 0, 1, 0, 0, 0, 0, 0, 0];
    for l in labels {
        p.push(l.len() as u8);
        p.extend_from_slice(l);
    }
    p.push(0);
    p.extend_from_slice(&[0, 1, 0, 1]);
    p
}

#[test]
fn dns_question() {
    let q = dns_query_bytes(0x01, &[b"www", b"example", b"com"]);
    assert_eq!(parse_dns_query(&q).as_deref(), Some("? www.example.com"));
    let r = dns_query_bytes(0x81, &[b"example", b"org"]);
    assert_eq!(parse_dns_query(&r).as_deref(), Some("\u{2713} example.org"));
}

#[test]
fn dns_edge_cases() {
    assert_eq!(parse_dns_query(&[0u8; 12]), None);
    assert_eq!(parse_dns_query(&[0u8; 13]), None);
    // A label running past the end stops the name.
    let mut p = dns_query_bytes(0, &[b"abc"]);
    p.truncate(12);
    p.extend_from_slice(&[3, b'a', b'b', b'c', 10, b'x']);
    assert_eq!(parse_dns_query(&p).as_deref(), Some("? abc"));
    // The name ends at the payload end without a zero label.
    let p = vec![0, 0, 0, 0, 0, 0, 0, 0, 0, 0, 0, 0, 2, b'h', b'i'];
    assert_eq!(parse_dns_query(&p).as_deref(), Some("? hi"));
    // Invalid UTF-8 is replaced.
    let p = dns_query_bytes(0, &[&[0xff, b'a']]);
    assert_eq!(parse_dns_query(&p).as_deref(), Some("? \u{fffd}a"));
}

#[test]
fn dns_matches_reference() {
    let mut seed: u32 = 12345;
    for _ in 0..500 {
        let mut p = Vec::new();
        seed = seed.wrapping_mul(1103515245).wrapping_add(12345);
        let len = (seed >> 16) % 40;
        for _ in 0..len {
            seed = seed.wrapping_mul(1103515245).wrapping_add(12345);
            let b = (seed >> 16) as u8;
            p.push(if b % 3 == 0 { b % 6 } else { b });
        }
        assert_eq!(parse_dns_query(&p), reference_dns(&p), "on {:?}", p);
    }
}

#[test]
fn dns_label_positions_and_formatting() {
    let q = dns_query_bytes(0x01, &[b"ab", b"c"]);
    assert_eq!(dns_label_bounds(&q), vec![(13, 15), (16, 17)]);
    assert_eq!(dns_label_bounds(&[0u8; 5]), vec![]);
    let labels = vec!["ab".to_string(), "c".to_string()];
    assert_eq!(format_dns_query(&q, &labels).as_deref(), Some("? ab.c"));
    assert_eq!(format_dns_query(&[0, 0, 0x80], &labels).as_deref(), Some("\u{2713} ab.c"));
    assert_eq!(format_dns_query(&q, &vec![]), None);
}

#[test]
fn text_helpers() {
    assert!(text_starts_with("GET /", "GET"));
    assert!(!text_starts_with("GE", "GET"));
    assert!(text_starts_with("x", ""));
    assert!(text_equals("--log", "--log"));
    assert!(!text_equals("--log", "--lo"));
    assert!(!text_equals("\u{e9}", "e"));
}
