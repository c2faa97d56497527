//! What words, lines, trimmed texts and numbers are, said by how they are put
//! together.

use vstd::prelude::*;

use super::{is_solid, lemma_run_in_longer};
use crate::number::{
    all_digits, decimal, digit_char, is_digit, lemma_decimal, signed, unsigned, value,
};
use crate::text::{
    cut, is_space, last_place, lemma_run_len, line_with, lines, nth_word, occurs_in, run_len, trim,
    trim_end, words, Class,
};

verus! {

/// Whether `s` is made of white space.
pub open spec fn is_blank(s: Seq<char>) -> bool {
    forall|i: int| 0 <= i < s.len() ==> is_space(#[trigger] s[i])
}

/// The empty text has no words and no lines, and nothing to trim.
pub proof fn law_the_empty_text(blank: Class)
    ensures
        words(Seq::<char>::empty(), blank).len() == 0,
        lines(Seq::<char>::empty()).len() == 0,
        trim(Seq::<char>::empty()).len() == 0,
{
    assert(Seq::<char>::empty().skip(0) =~= Seq::<char>::empty());
}

/// A text without blanks is one word.
pub proof fn law_a_solid_text_is_one_word(w: Seq<char>, blank: Class)
    requires
        is_solid(w, blank),
    ensures
        words(w, blank) == seq![w],
{
    let n = run_len(w, blank, false) as int;
    lemma_run_len(w, blank, false);
    assert(n == w.len()) by {
        if n < w.len() {
            assert(!blank.has(w[n]));
        }
    }
    assert(w.take(n) =~= w);
    assert(w.skip(n) =~= seq![]);
    assert(words(w.skip(n), blank) =~= seq![]);
    assert(words(w, blank) =~= seq![w]);
}

/// The word at a place is the one that stands there, and there is none past the
/// last.
pub proof fn law_the_word_at_a_place(s: Seq<char>, k: int)
    ensures
        0 <= k < words(s, Class::Space).len() ==> nth_word(s, k) == Some(
            words(s, Class::Space)[k],
        ),
        !(0 <= k < words(s, Class::Space).len()) ==> nth_word(s, k) is None,
{
}

proof fn lemma_no_line_feed(a: Seq<char>)
    requires
        !a.contains('\n'),
    ensures
        run_len(a, Class::Is('\n'), false) == a.len(),
{
    let n = run_len(a, Class::Is('\n'), false) as int;
    lemma_run_len(a, Class::Is('\n'), false);
    if n < a.len() {
        assert(a[n] == '\n');
    }
}

/// A text without a line feed is one line.
pub proof fn law_a_text_without_line_feed_is_one_line(a: Seq<char>)
    requires
        a.len() > 0,
        !a.contains('\n'),
    ensures
        lines(a) == seq![a],
{
    lemma_no_line_feed(a);
}

/// A line ends at a line feed, and what follows has its own lines. A carriage
/// return before the line feed belongs to the ending.
pub proof fn law_lines_around_a_line_feed(a: Seq<char>, b: Seq<char>)
    requires
        !a.contains('\n'),
    ensures
        a.len() == 0 || a.last() != '\r' ==> lines(a + seq!['\n'] + b) == seq![a] + lines(b),
        a.len() > 0 && a.last() == '\r' ==> lines(a + seq!['\n'] + b) == seq![a.drop_last()]
            + lines(b),
{
    let whole = a + seq!['\n'] + b;
    lemma_no_line_feed(a);
    lemma_run_in_longer(a, '\n', b, Class::Is('\n'));
    let n = a.len() as int;
    assert(whole.take(n) =~= a);
    assert(whole.skip(n + 1) =~= b);
}

proof fn lemma_trim_end_of(core: Seq<char>, back: Seq<char>)
    requires
        is_blank(back),
        core.len() > 0 ==> !is_space(core.last()),
    ensures
        trim_end(core + back) == core,
    decreases back.len(),
{
    let whole = core + back;
    if back.len() == 0 {
        assert(whole =~= core);
    } else {
        assert(whole.last() == back[back.len() - 1]);
        assert(is_space(back[back.len() - 1]));
        assert(whole.drop_last() =~= core + back.drop_last());
        assert forall|i: int| 0 <= i < back.drop_last().len() implies is_space(
            #[trigger] back.drop_last()[i],
        ) by {
            assert(is_space(back[i]));
        }
        lemma_trim_end_of(core, back.drop_last());
    }
}

/// Trimming takes the white space at both ends and nothing else.
pub proof fn law_trimming(front: Seq<char>, core: Seq<char>, back: Seq<char>)
    requires
        is_blank(front),
        is_blank(back),
        core.len() > 0 ==> !is_space(core[0]) && !is_space(core.last()),
    ensures
        trim(front + core + back) == core,
{
    let whole = front + core + back;
    let n = run_len(whole, Class::Space, true) as int;
    lemma_run_len(whole, Class::Space, true);
    if core.len() > 0 {
        assert(n == front.len()) by {
            if n > front.len() {
                assert(Class::Space.has(whole[front.len() as int]));
                assert(whole[front.len() as int] == core[0]);
            }
            if n < front.len() {
                assert(whole[n] == front[n]);
                assert(is_space(front[n]));
            }
        }
        assert(whole.skip(n) =~= core + back);
        lemma_trim_end_of(core, back);
    } else {
        assert(n == whole.len()) by {
            if n < whole.len() {
                if n < front.len() {
                    assert(whole[n] == front[n]);
                    assert(is_space(front[n]));
                } else {
                    assert(whole[n] == back[n - front.len()]);
                    assert(is_space(back[n - front.len()]));
                }
            }
        }
        assert(whole.skip(n) =~= core);
    }
}

/// A text is cut at the first of a character, and not where it holds none.
pub proof fn law_cutting(a: Seq<char>, c: char, b: Seq<char>)
    requires
        !a.contains(c),
    ensures
        cut(a + seq![c] + b, c) == Some((a, b)),
        cut(a, c) is None,
{
    let whole = a + seq![c] + b;
    let n = run_len(a, Class::Is(c), false) as int;
    lemma_run_len(a, Class::Is(c), false);
    assert(n == a.len()) by {
        if n < a.len() {
            assert(a[n] == c);
        }
    }
    lemma_run_in_longer(a, c, b, Class::Is(c));
    assert(whole.take(n) =~= a);
    assert(whole.skip(n + 1) =~= b);
}

/// The last place of a character is the one that none follows.
pub proof fn law_the_last_place(a: Seq<char>, c: char, b: Seq<char>)
    requires
        !b.contains(c),
    ensures
        last_place(a + seq![c] + b, c) == a.len(),
        last_place(b, c) == -1,
    decreases b.len(),
{
    let whole = a + seq![c] + b;
    if b.len() == 0 {
        assert(whole.last() == c);
    } else {
        let rest = b.drop_last();
        assert(b[b.len() - 1] != c);
        assert(whole.last() == b.last());
        assert(whole.drop_last() =~= a + seq![c] + rest);
        assert(!rest.contains(c)) by {
            if rest.contains(c) {
                let i = choose|i: int| 0 <= i < rest.len() && rest[i] == c;
                assert(b[i] == c);
            }
        }
        law_the_last_place(a, c, rest);
    }
}

/// A text holds the parts that it is put together from, and no others.
pub proof fn law_parts_of_a_text(a: Seq<char>, part: Seq<char>, b: Seq<char>, s: Seq<char>)
    ensures
        occurs_in(part, a + part + b),
        occurs_in(part, s) ==> exists|x: Seq<char>, y: Seq<char>| s == #[trigger] (x + part + y),
{
    let whole = a + part + b;
    let n = a.len() as int;
    assert(whole.subrange(n, n + part.len()) =~= part);
    if occurs_in(part, s) {
        let i = choose|i: int|
            0 <= i <= s.len() - part.len() && #[trigger] s.subrange(i, i + part.len()) == part;
        let m = i + part.len();
        assert(s.subrange(i, m) =~= part);
        assert(s =~= s.take(i) + s.subrange(i, m) + s.skip(m));
        assert(s == s.take(i) + part + s.skip(m));
    }
}

/// The line with a key is the first that starts with it.
pub proof fn law_the_line_with_a_key(ls: Seq<Seq<char>>, key: Seq<char>)
    ensures
        forall|i: int|
            0 <= i < ls.len() && key.is_prefix_of(#[trigger] ls[i]) && (forall|j: int|
                0 <= j < i ==> !key.is_prefix_of(#[trigger] ls[j])) ==> line_with(ls, key) == Some(
                ls[i],
            ),
        (forall|i: int| 0 <= i < ls.len() ==> !key.is_prefix_of(#[trigger] ls[i])) ==> line_with(
            ls,
            key,
        ) is None,
    decreases ls.len(),
{
    if ls.len() > 0 && !key.is_prefix_of(ls[0]) {
        let rest = ls.skip(1);
        law_the_line_with_a_key(rest, key);
        assert forall|i: int|
            0 <= i < ls.len() && key.is_prefix_of(#[trigger] ls[i]) && (forall|j: int|
                0 <= j < i ==> !key.is_prefix_of(#[trigger] ls[j])) implies line_with(ls, key)
            == Some(ls[i]) by {
            assert(rest[i - 1] == ls[i]);
            assert forall|j: int| 0 <= j < i - 1 implies !key.is_prefix_of(#[trigger] rest[j]) by {
                assert(rest[j] == ls[j + 1]);
            }
        }
        if forall|i: int| 0 <= i < ls.len() ==> !key.is_prefix_of(#[trigger] ls[i]) {
            assert forall|i: int| 0 <= i < rest.len() implies !key.is_prefix_of(
                #[trigger] rest[i],
            ) by {
                assert(rest[i] == ls[i + 1]);
            }
        }
    }
}

/// What a digit counts.
pub open spec fn digit_value(c: char) -> int {
    c as int - '0' as int
}

/// One digit spells what it counts.
pub proof fn law_one_digit(c: char, max: int)
    requires
        '0' <= c <= '9',
    ensures
        unsigned(seq![c], max) == (if digit_value(c) <= max {
            Some(digit_value(c))
        } else {
            None
        }),
{
    let s = seq![c];
    assert(s.drop_last() =~= seq![]);
    assert(value(s.drop_last()) == 0);
    assert(all_digits(s));
}

/// A further digit makes a number ten times as large and adds what it counts;
/// past the largest number there is none.
pub proof fn law_a_further_digit(s: Seq<char>, c: char, max: int)
    requires
        '0' <= c <= '9',
        unsigned(s, max) is Some,
    ensures
        unsigned(s.push(c), max) == (if 10 * (unsigned(s, max)->0) + digit_value(c) <= max {
            Some(10 * (unsigned(s, max)->0) + digit_value(c))
        } else {
            None
        }),
{
    let t = s.push(c);
    let plus = s.len() > 0 && s[0] == '+';
    let u = if plus {
        s.skip(1)
    } else {
        s
    };
    assert(t[0] == s[0]);
    assert(t.skip(1) =~= s.skip(1).push(c));
    assert(u.push(c).drop_last() =~= u);
    assert forall|i: int| 0 <= i < u.push(c).len() implies is_digit(#[trigger] u.push(c)[i]) by {
        if i < u.len() {
            assert(is_digit(u[i]));
        }
    }
}

/// Digits that are too large for a number stay so with a further digit.
pub proof fn law_too_large_stays_too_large(s: Seq<char>, c: char, max: int)
    requires
        s.len() > 0,
        forall|i: int| 0 <= i < s.len() ==> '0' <= #[trigger] s[i] <= '9',
        '0' <= c <= '9',
        unsigned(s, max) is None,
    ensures
        unsigned(s.push(c), max) is None,
{
    let t = s.push(c);
    assert(t[0] == s[0]);
    assert(t.drop_last() =~= s);
    assert(all_digits(s)) by {
        assert forall|i: int| 0 <= i < s.len() implies is_digit(#[trigger] s[i]) by {
            assert('0' <= s[i] <= '9');
        }
    }
}

/// A number has digits, is no larger than it may be, and nothing but digits
/// stands in it, save for one plus sign before them, which changes nothing.
pub proof fn law_numbers_are_digits(s: Seq<char>, max: int)
    ensures
        unsigned(Seq::<char>::empty(), max) is None,
        unsigned(seq!['+'], max) is None,
        unsigned(s, max) matches Some(n) ==> 0 <= n <= max,
        unsigned(s, max) is Some ==> s.len() > 0 && forall|i: int|
            0 <= i < s.len() ==> '0' <= #[trigger] s[i] <= '9' || (i == 0 && s[i] == '+'),
        s.len() > 0 && s[0] != '+' ==> unsigned(seq!['+'] + s, max) == unsigned(s, max),
        unsigned(seq!['+', '+'] + s, max) is None,
{
    assert(seq!['+'].skip(1) =~= seq![]);
    if unsigned(s, max) is Some {
        assert forall|i: int| 0 <= i < s.len() implies '0' <= #[trigger] s[i] <= '9' || (i == 0
            && s[i] == '+') by {
            if s[0] == '+' {
                if i > 0 {
                    assert(is_digit(s.skip(1)[i - 1]));
                }
            } else {
                assert(is_digit(s[i]));
            }
        }
    }
    assert((seq!['+'] + s).skip(1) =~= s);
    let two = seq!['+', '+'] + s;
    assert(two.skip(1)[0] == '+');
    assert(!is_digit(two.skip(1)[0]));
}

/// A signed number is an unsigned one, or a minus sign and the digits of one.
pub proof fn law_signed_numbers(s: Seq<char>, max: int)
    ensures
        s.len() == 0 || s[0] != '-' ==> signed(s, max) == unsigned(s, max),
        s.len() > 0 && s[0] != '+' ==> signed(seq!['-'] + s, max) == (match unsigned(
            s,
            max + 1,
        ) {
            Some(n) => Some(-n),
            None => None,
        }),
        signed(seq!['-'], max) is None,
        signed(seq!['-', '+'] + s, max) is None,
{
    assert((seq!['-'] + s).skip(1) =~= s);
    assert(seq!['-'].skip(1) =~= seq![]);
    let t = seq!['-', '+'] + s;
    assert(t.skip(1)[0] == '+');
    assert(!is_digit(t.skip(1)[0]));
}

/// A number in decimal has no needless zero before it.
pub proof fn law_decimal_has_no_leading_zero(n: nat)
    ensures
        decimal(n).len() > 0,
        decimal(n).len() > 1 ==> decimal(n)[0] != '0',
    decreases n,
{
    lemma_decimal(n);
    if n >= 10 {
        lemma_decimal(n / 10);
        law_decimal_has_no_leading_zero(n / 10);
        if n / 10 < 10 {
            assert(digit_char(n / 10) as int == '0' as int + n / 10);
        } else {
            lemma_decimal(n / 10 / 10);
        }
        assert(decimal(n)[0] == decimal(n / 10)[0]);
    }
}

} // verus!
