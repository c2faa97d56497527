//! Decimal numbers in text.

use vstd::prelude::*;

use crate::text::{nth_word, to_text, word_at};

verus! {

/// Whether `c` is a decimal digit.
pub open spec fn is_digit(c: char) -> bool {
    '0' <= c <= '9'
}

/// Whether `s` is made of decimal digits.
pub open spec fn all_digits(s: Seq<char>) -> bool {
    forall|i: int| 0 <= i < s.len() ==> is_digit(#[trigger] s[i])
}

/// The number that the digits `s` stand for.
pub open spec fn value(s: Seq<char>) -> nat
    decreases s.len(),
{
    if s.len() == 0 {
        0
    } else {
        (10 * value(s.drop_last()) + (s.last() as int - '0' as int)) as nat
    }
}

/// The number that a nonempty run of digits stands for, up to `max`.
pub open spec fn magnitude(s: Seq<char>, max: int) -> Option<int> {
    if s.len() > 0 && all_digits(s) && value(s) <= max {
        Some(value(s) as int)
    } else {
        None
    }
}

/// `s` without a leading plus sign.
pub open spec fn without_plus(s: Seq<char>) -> Seq<char> {
    if s.len() > 0 && s[0] == '+' {
        s.skip(1)
    } else {
        s
    }
}

/// The number from 0 to `max` that `s` spells: digits, with at most a plus sign
/// before them.
pub open spec fn unsigned(s: Seq<char>, max: int) -> Option<int> {
    magnitude(without_plus(s), max)
}

/// The number from `-max - 1` to `max` that `s` spells: digits, with at most a
/// sign before them.
pub open spec fn signed(s: Seq<char>, max: int) -> Option<int> {
    if s.len() > 0 && s[0] == '-' {
        match magnitude(s.skip(1), max + 1) {
            Some(n) => Some(-n),
            None => None,
        }
    } else {
        unsigned(s, max)
    }
}

/// The number that `s` spells, or 0 where it spells none that fits 64 bits.
pub open spec fn u64_or_zero(s: Seq<char>) -> u64 {
    match unsigned(s, u64::MAX as int) {
        Some(n) => n as u64,
        None => 0,
    }
}

/// The number at word `k` of `s`, or 0.
pub open spec fn word_u64(s: Seq<char>, k: int) -> u64 {
    match nth_word(s, k) {
        Some(w) => u64_or_zero(w),
        None => 0,
    }
}

/// What stands before the end of a number is no larger than the number.
proof fn lemma_value_prefix(s: Seq<char>, k: int)
    requires
        all_digits(s),
        0 <= k <= s.len(),
    ensures
        value(s.take(k)) <= value(s),
    decreases s.len() - k,
{
    if k == s.len() {
        assert(s.take(k) =~= s);
    } else {
        lemma_value_prefix(s, k + 1);
        assert(s.take(k + 1).drop_last() =~= s.take(k));
        assert(is_digit(s[k]));
    }
}

/// Reads a nonempty run of digits.
fn parse_magnitude(s: &[char]) -> (r: Option<u64>)
    ensures
        match r {
            Some(n) => magnitude(s@, u64::MAX as int) == Some(n as int),
            None => magnitude(s@, u64::MAX as int) is None,
        },
{
    if s.len() == 0 {
        return None;
    }
    let mut n: u64 = 0;
    let mut i: usize = 0;
    while i < s.len()
        invariant
            i <= s.len(),
            forall|j: int| 0 <= j < i ==> is_digit(#[trigger] s@[j]),
            n == value(s@.take(i as int)),
        decreases s.len() - i,
    {
        let c: char = s[i];
        if c < '0' || c > '9' {
            assert(!is_digit(s@[i as int]));
            return None;
        }
        let d: u64 = c as u64 - 48;
        proof {
            assert(s@.take(i + 1).drop_last() =~= s@.take(i as int));
            assert(value(s@.take(i + 1)) == 10 * n + d);
            if all_digits(s@) {
                lemma_value_prefix(s@, i + 1);
            }
        }
        if n > (u64::MAX - d) / 10 {
            return None;
        }
        n = 10 * n + d;
        i = i + 1;
    }
    assert(s@.take(i as int) =~= s@);
    Some(n)
}

/// Reads an unsigned number of 64 bits.
pub fn parse_u64(s: &[char]) -> (r: Option<u64>)
    ensures
        match r {
            Some(n) => unsigned(s@, u64::MAX as int) == Some(n as int),
            None => unsigned(s@, u64::MAX as int) is None,
        },
{
    if s.len() > 0 && s[0] == '+' {
        let rest = &s[1..s.len()];
        assert(rest@ =~= s@.skip(1));
        parse_magnitude(rest)
    } else {
        parse_magnitude(s)
    }
}

/// Reads an unsigned number of the machine's word size.
pub fn parse_usize(s: &[char]) -> (r: Option<usize>)
    ensures
        match r {
            Some(n) => unsigned(s@, usize::MAX as int) == Some(n as int),
            None => unsigned(s@, usize::MAX as int) is None,
        },
{
    match parse_u64(s) {
        Some(n) => if n <= usize::MAX as u64 {
            Some(n as usize)
        } else {
            None
        },
        None => None,
    }
}

/// Reads an unsigned number of 32 bits.
pub fn parse_u32(s: &[char]) -> (r: Option<u32>)
    ensures
        match r {
            Some(n) => unsigned(s@, u32::MAX as int) == Some(n as int),
            None => unsigned(s@, u32::MAX as int) is None,
        },
{
    match parse_u64(s) {
        Some(n) => if n <= u32::MAX as u64 {
            Some(n as u32)
        } else {
            None
        },
        None => None,
    }
}

/// Reads a signed number of 32 bits.
pub fn parse_i32(s: &[char]) -> (r: Option<i32>)
    ensures
        match r {
            Some(n) => signed(s@, i32::MAX as int) == Some(n as int),
            None => signed(s@, i32::MAX as int) is None,
        },
{
    if s.len() > 0 && s[0] == '-' {
        let rest = &s[1..s.len()];
        assert(rest@ =~= s@.skip(1));
        match parse_magnitude(rest) {
            Some(n) => if n <= 0x8000_0000 {
                Some((0 - (n as i64)) as i32)
            } else {
                None
            },
            None => None,
        }
    } else {
        match parse_u64(s) {
            Some(n) => if n <= 0x7fff_ffff {
                Some(n as i32)
            } else {
                None
            },
            None => None,
        }
    }
}

/// The number that `s` spells, or 0.
pub fn parse_u64_or_zero(s: &[char]) -> (n: u64)
    ensures
        n == u64_or_zero(s@),
{
    match parse_u64(s) {
        Some(n) => n,
        None => 0,
    }
}

/// The number at word `k` of `s`, or 0.
pub fn word_u64_at(s: &[char], k: usize) -> (n: u64)
    ensures
        n == word_u64(s@, k as int),
{
    match word_at(s, k) {
        Some(w) => parse_u64_or_zero(w),
        None => 0,
    }
}

/// The digit `d` as a character.
pub open spec fn digit_char(d: nat) -> char {
    ('0' as int + d) as char
}

/// `n` in decimal, without leading zeros.
pub open spec fn decimal(n: nat) -> Seq<char>
    decreases n,
{
    if n < 10 {
        seq![digit_char(n)]
    } else {
        decimal(n / 10).push(digit_char(n % 10))
    }
}

/// Writes `n` in decimal.
fn decimal_chars(n: u32) -> (r: Vec<char>)
    ensures
        r@ == decimal(n as nat),
    decreases n,
{
    let c: char = (48u8 + (n % 10) as u8) as char;
    assert(c == digit_char((n % 10) as nat));
    if n < 10 {
        let mut r: Vec<char> = Vec::new();
        r.push(c);
        r
    } else {
        let mut r = decimal_chars(n / 10);
        r.push(c);
        r
    }
}

/// Writes `n` in decimal.
pub fn to_decimal(n: u32) -> (r: String)
    ensures
        r@ == decimal(n as nat),
{
    to_text(decimal_chars(n).as_slice())
}

/// What is written in decimal reads back as the same number.
pub proof fn law_decimal_reads_back(n: nat, max: int)
    requires
        n <= max,
    ensures
        unsigned(decimal(n), max) == Some(n as int),
{
    lemma_decimal(n);
}

/// A number in decimal is a nonempty run of digits with the number's value.
pub proof fn lemma_decimal(n: nat)
    ensures
        decimal(n).len() > 0,
        all_digits(decimal(n)),
        value(decimal(n)) == n,
        decimal(n)[0] != '+',
    decreases n,
{
    if n < 10 {
        let s = decimal(n);
        assert(s.drop_last() =~= seq![]);
        assert(value(s.drop_last()) == 0);
    } else {
        lemma_decimal(n / 10);
        assert(decimal(n).drop_last() =~= decimal(n / 10));
    }
}

} // verus!
