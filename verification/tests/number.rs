use athroisma::number::{
    parse_i32, parse_u32, parse_u64, parse_u64_or_zero, parse_usize, to_decimal, word_u64_at,
};
use athroisma::text::to_chars;

const SAMPLES: [&str; 24] = [
    "",
    "0",
    "7",
    "007",
    "+7",
    "-7",
    "+",
    "-",
    "+-7",
    "--7",
    "12a",
    "a12",
    " 1",
    "1 ",
    "1.5",
    "\u{661}",
    "4294967295",
    "4294967296",
    "2147483647",
    "-2147483648",
    "-2147483649",
    "18446744073709551615",
    "18446744073709551616",
    "99999999999999999999999999",
];

#[test]
fn numbers_read_as_std_reads_them() {
    for s in SAMPLES {
        let c = to_chars(s);
        assert_eq!(parse_u64(&c), s.parse::<u64>().ok(), "{s}");
        assert_eq!(parse_u32(&c), s.parse::<u32>().ok(), "{s}");
        assert_eq!(parse_usize(&c), s.parse::<usize>().ok(), "{s}");
        assert_eq!(parse_i32(&c), s.parse::<i32>().ok(), "{s}");
        assert_eq!(parse_u64_or_zero(&c), s.parse::<u64>().unwrap_or(0), "{s}");
    }
}

#[test]
fn leading_zeros_do_not_overflow() {
    let s = format!("{}42", "0".repeat(40));
    assert_eq!(parse_u64(&to_chars(&s)), Some(42));
}

#[test]
fn number_at_a_word() {
    let c = to_chars("drm-memory-vram:  2048 KiB");
    assert_eq!(word_u64_at(&c, 1), 2048);
    assert_eq!(word_u64_at(&c, 2), 0);
    assert_eq!(word_u64_at(&c, 9), 0);
}

#[test]
fn decimal_reads_back() {
    for n in [0u32, 9, 10, 1234, 99999, u32::MAX] {
        assert_eq!(to_decimal(n), n.to_string());
        assert_eq!(parse_u32(&to_chars(&to_decimal(n))), Some(n));
    }
}
