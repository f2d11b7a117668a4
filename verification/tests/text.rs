use kara::scan;
use kara::text;

const SAMPLES: [&str; 14] = [
    "",
    " ",
    "a",
    "  padded  ",
    "\u{a0}nbsp\u{3000}",
    "one\ntwo\r\nthree",
    "\n\n",
    "key=value=more",
    "=x",
    "x=",
    "a:b::c:",
    "\u{1}control",
    "r\u{e9}sum\u{e9} \u{4e2d}\u{6587} \u{1f600}",
    "100%\r",
];

#[test]
fn trimming_and_splitting_agree_with_the_standard_library() {
    for s in SAMPLES {
        assert_eq!(scan::trim(s), s.trim());
        assert_eq!(scan::trim_matches(s, '='), s.trim_matches('='));
        assert_eq!(scan::lines(s), s.lines().map(String::from).collect::<Vec<_>>());
        assert_eq!(scan::split_char(s, ':'), s.split(':').map(String::from).collect::<Vec<_>>());
        assert_eq!(
            scan::words(s),
            s.split_whitespace().map(String::from).collect::<Vec<_>>()
        );
        assert_eq!(
            scan::split_once(s, '='),
            s.split_once('=').map(|(a, b)| (a.to_string(), b.to_string()))
        );
        assert_eq!(scan::to_ascii_lowercase(s), s.to_ascii_lowercase());
        assert_eq!(scan::has_control(s), s.chars().any(|c| c.is_control()));
        for t in SAMPLES {
            assert_eq!(scan::starts_with(s, t), s.starts_with(t));
            assert_eq!(scan::ends_with(s, t), s.ends_with(t));
            assert_eq!(scan::contains_str(s, t), s.contains(t));
            assert_eq!(scan::strip_prefix(s, t), s.strip_prefix(t).map(String::from));
            assert_eq!(text::eq_str(s, t), s == t);
        }
    }
}

#[test]
fn white_space_and_control_codes_are_those_of_unicode() {
    for u in 0..=0x10ffff_u32 {
        if let Some(c) = char::from_u32(u) {
            assert_eq!(scan::space(c), c.is_whitespace());
        }
    }
    for u in 0..0x300_u32 {
        let c = char::from_u32(u).unwrap();
        assert_eq!(scan::has_control(&c.to_string()), c.is_control());
    }
}

#[test]
fn decimals_read_back() {
    for n in [0_u64, 7, 10, 99, 12_345, u64::MAX] {
        let mut s = String::new();
        text::push_decimal(&mut s, n);
        assert_eq!(s, n.to_string());
        assert_eq!(text::parse_u64(&s), Some(n));
    }
    for n in [0_i64, -1, 42, i64::MIN, i64::MAX] {
        let mut s = String::new();
        text::push_signed(&mut s, n);
        assert_eq!(s, n.to_string());
        assert_eq!(text::parse_i64(&s), Some(n));
    }
    let mut s = String::from("x");
    text::push_padded(&mut s, 5, 9);
    assert_eq!(s, "x000000005");
}

#[test]
fn numbers_parse_as_in_the_standard_library() {
    let samples = [
        "", "+", "-", "0", "+0", "-0", "007", "18446744073709551615", "18446744073709551616",
        "9223372036854775807", "-9223372036854775808", "-9223372036854775809", "2147483648",
        "-2147483648", " 1", "1 ", "1a", "+-1", "\u{661}",
    ];
    for s in samples {
        assert_eq!(text::parse_u64(s), s.parse::<u64>().ok());
        assert_eq!(text::parse_i64(s), s.parse::<i64>().ok());
        assert_eq!(text::parse_i32(s), s.parse::<i32>().ok());
    }
}

#[test]
fn lengths_in_bytes_are_those_of_utf_8() {
    for s in SAMPLES {
        for n in 0..20 {
            assert_eq!(text::longer_than(s, n), s.len() > n);
            assert_eq!(text::byte_prefix(s, n), s.get(..n).map(String::from));
        }
    }
}
