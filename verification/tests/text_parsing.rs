use std::num::IntErrorKind as StdKind;

use xdp_fw::text::{
    parse_ipv4_addr, parse_uint_max, split_whitespace, to_lower, IntErrorKind,
};

fn chars(s: &str) -> Vec<char> {
    s.chars().collect()
}

fn kind_of(k: &StdKind) -> IntErrorKind {
    match k {
        StdKind::Empty => IntErrorKind::Empty,
        StdKind::InvalidDigit => IntErrorKind::InvalidDigit,
        StdKind::PosOverflow => IntErrorKind::PosOverflow,
        other => panic!("unexpected kind {other:?}"),
    }
}

const NUMBER_CASES: &[&str] = &[
    "", "0", "1", "80", "+80", "+", "-", "-5", "++5", "65535", "65536", "70000", "99999x",
    "4294967295", "4294967296", "12a", "a12", " 1", "1 ", "007", "\u{0661}", "255", "256",
    "33", "+0",
];

#[test]
fn u16_parsing_agrees_with_std() {
    for s in NUMBER_CASES {
        let ours = parse_uint_max(&chars(s), 65535);
        let std = s.parse::<u16>();
        match (ours, std) {
            (Ok(a), Ok(b)) => assert_eq!(a, b as u32, "{s:?}"),
            (Err(a), Err(b)) => assert_eq!(a, kind_of(b.kind()), "{s:?}"),
            (a, b) => panic!("{s:?}: {a:?} vs {b:?}"),
        }
    }
}

#[test]
fn u32_and_u8_parsing_agree_with_std() {
    for s in NUMBER_CASES {
        match (parse_uint_max(&chars(s), u32::MAX), s.parse::<u32>()) {
            (Ok(a), Ok(b)) => assert_eq!(a, b, "{s:?}"),
            (Err(a), Err(b)) => assert_eq!(a, kind_of(b.kind()), "{s:?}"),
            (a, b) => panic!("{s:?}: {a:?} vs {b:?}"),
        }
        match (parse_uint_max(&chars(s), 255), s.parse::<u8>()) {
            (Ok(a), Ok(b)) => assert_eq!(a, b as u32, "{s:?}"),
            (Err(a), Err(b)) => assert_eq!(a, kind_of(b.kind()), "{s:?}"),
            (a, b) => panic!("{s:?}: {a:?} vs {b:?}"),
        }
    }
}

#[test]
fn ipv4_parsing() {
    let cases: &[(&str, Option<u32>)] = &[
        ("1.2.3.4", Some(0x01020304)),
        ("0.0.0.0", Some(0)),
        ("255.255.255.255", Some(0xFFFFFFFF)),
        ("10.0.0.1", Some(0x0A000001)),
        ("192.168.1.5", Some(0xC0A80105)),
        ("1.2.3.0", Some(0x01020300)),
        ("256.1.1.1", None),
        ("1.2.3", None),
        ("1.2.3.4.5", None),
        ("01.2.3.4", None),
        ("1.2.3.04", None),
        ("999.999.999.999", None),
        ("not-an-ip", None),
        ("", None),
        ("...", None),
        ("1..2.3", None),
        ("1.2.3.4/24", None),
        (" 1.2.3.4", None),
        ("1.2.3.4 ", None),
        ("+1.2.3.4", None),
        ("1.2.3.1000", None),
    ];
    for (s, expected) in cases {
        assert_eq!(parse_ipv4_addr(&chars(s)), *expected, "{s:?}");
    }
}

#[test]
fn whitespace_splitting_agrees_with_std() {
    let cases = [
        "", "   ", "help", "  block  port 80 ", "a\tb\nc", "x\u{00A0}y", "p\u{3000}q\u{2009}r",
        "tail\u{85}", "\u{200B}zero width is not a space",
    ];
    for s in cases {
        let ours: Vec<String> = split_whitespace(&chars(s))
            .iter()
            .map(|t| t.iter().collect())
            .collect();
        let std: Vec<String> = s.split_whitespace().map(|t| t.to_string()).collect();
        assert_eq!(ours, std, "{s:?}");
    }
}

#[test]
fn ascii_lowercase_agrees_with_std() {
    for s in ["BLOCK", "Udp", "\u{00C9}T\u{00C9}", "mixed 123 ABC"] {
        let ours: String = to_lower(&chars(s)).into_iter().collect();
        assert_eq!(ours, s.to_ascii_lowercase());
    }
}
