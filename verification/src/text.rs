//! Text as a sequence of characters: blank-separated words, lines, and trimming.

use vstd::prelude::*;
use vstd::string::*;

verus! {

/// A class of characters.
#[derive(Clone, Copy)]
pub enum Class {
    /// The characters with the Unicode property `White_Space`.
    Space,
    /// Space, tab, line feed, form feed and carriage return.
    AsciiSpace,
    /// One character.
    Is(char),
}

/// Whether `c` has the Unicode property `White_Space`.
pub open spec fn is_space(c: char) -> bool {
    ||| '\u{9}' <= c <= '\u{d}'
    ||| c == '\u{20}'
    ||| c == '\u{85}'
    ||| c == '\u{a0}'
    ||| c == '\u{1680}'
    ||| '\u{2000}' <= c <= '\u{200a}'
    ||| c == '\u{2028}'
    ||| c == '\u{2029}'
    ||| c == '\u{202f}'
    ||| c == '\u{205f}'
    ||| c == '\u{3000}'
}

/// Whether `c` is one of the five blanks of ASCII.
pub open spec fn is_ascii_space(c: char) -> bool {
    c == ' ' || c == '\t' || c == '\n' || c == '\u{c}' || c == '\r'
}

impl Class {
    pub open spec fn has(self, c: char) -> bool {
        match self {
            Class::Space => is_space(c),
            Class::AsciiSpace => is_ascii_space(c),
            Class::Is(d) => c == d,
        }
    }

    /// Whether `c` belongs to the class.
    pub fn holds(&self, c: char) -> (r: bool)
        ensures
            r == self.has(c),
    {
        match *self {
            Class::Space => ('\u{9}' <= c && c <= '\u{d}') || c == '\u{20}' || c == '\u{85}' || c
                == '\u{a0}' || c == '\u{1680}' || ('\u{2000}' <= c && c <= '\u{200a}') || c
                == '\u{2028}' || c == '\u{2029}' || c == '\u{202f}' || c == '\u{205f}' || c
                == '\u{3000}',
            Class::AsciiSpace => c == ' ' || c == '\t' || c == '\n' || c == '\u{c}' || c == '\r',
            Class::Is(d) => c == d,
        }
    }
}

/// The characters of `s`.
pub fn to_chars(s: &str) -> (r: Vec<char>)
    ensures
        r@ == s@,
{
    let mut r: Vec<char> = Vec::new();
    for c in it: s.chars()
        invariant
            r@ == s@.take(it.index() as int),
            it.seq() == s@,
    {
        r.push(c);
    }
    r
}

/// `String::push` appends a character: afterwards the string holds the characters
/// that it held before, and then `c`.
pub assume_specification[ String::push ](s: &mut String, c: char)
    ensures
        final(s)@ == old(s)@.push(c),
;

/// The string made of the characters `s`.
pub fn to_text(s: &[char]) -> (r: String)
    ensures
        r@ == s@,
{
    let mut r: String = String::new();
    let mut i: usize = 0;
    while i < s.len()
        invariant
            i <= s.len(),
            r@ == s@.take(i as int),
        decreases s.len() - i,
    {
        r.push(s[i]);
        i = i + 1;
    }
    r
}

/// What an optional text says.
pub open spec fn opt_text(t: Option<String>) -> Option<Seq<char>> {
    match t {
        Some(s) => Some(s@),
        None => None,
    }
}

/// A copy of an optional text.
pub fn clone_opt(t: &Option<String>) -> (r: Option<String>)
    ensures
        opt_text(r) == opt_text(*t),
{
    match t {
        Some(s) => Some(s.clone()),
        None => None,
    }
}

/// What an optional borrowed text says.
pub open spec fn opt_str(t: Option<&str>) -> Option<Seq<char>> {
    match t {
        Some(s) => Some(s@),
        None => None,
    }
}

/// What a list of texts says.
pub open spec fn strings(v: Seq<String>) -> Seq<Seq<char>> {
    Seq::new(v.len(), |i: int| v[i]@)
}

/// The length of the longest prefix of `s` whose characters all lie in `class`
/// (`inside`), or all lie outside it (not `inside`).
pub open spec fn run_len(s: Seq<char>, class: Class, inside: bool) -> nat
    decreases s.len(),
{
    if s.len() == 0 || class.has(s[0]) != inside {
        0
    } else {
        1 + run_len(s.skip(1), class, inside)
    }
}

/// A run ends within the text, holds what it should, and stops only at a
/// character that does not belong to it.
pub proof fn lemma_run_len(s: Seq<char>, class: Class, inside: bool)
    ensures
        run_len(s, class, inside) <= s.len(),
        forall|i: int|
            0 <= i < run_len(s, class, inside) ==> class.has(#[trigger] s[i]) == inside,
        run_len(s, class, inside) < s.len() ==> class.has(s[run_len(s, class, inside) as int])
            != inside,
    decreases s.len(),
{
    if s.len() > 0 && class.has(s[0]) == inside {
        let rest = s.skip(1);
        lemma_run_len(rest, class, inside);
        assert forall|i: int| 0 <= i < run_len(s, class, inside) implies class.has(#[trigger] s[i])
            == inside by {
            if i > 0 {
                assert(s[i] == rest[i - 1]);
            }
        }
    }
}

/// The end of the run that starts at `from`.
pub fn run_end(s: &[char], from: usize, class: Class, inside: bool) -> (end: usize)
    requires
        from <= s.len(),
    ensures
        from <= end <= s.len(),
        end == from + run_len(s@.skip(from as int), class, inside),
{
    let mut i: usize = from;
    while i < s.len() && class.holds(s[i]) == inside
        invariant
            from <= i <= s.len(),
            run_len(s@.skip(from as int), class, inside) == i - from + run_len(
                s@.skip(i as int),
                class,
                inside,
            ),
        decreases s.len() - i,
    {
        assert(s@.skip(i as int).skip(1) =~= s@.skip(i + 1));
        assert(s@.skip(i as int)[0] == s@[i as int]);
        i = i + 1;
    }
    assert(i < s.len() ==> s@.skip(i as int)[0] == s@[i as int]);
    i
}

/// The texts that a list of slices holds.
pub open spec fn texts(v: Seq<&[char]>) -> Seq<Seq<char>> {
    Seq::new(v.len(), |i: int| v[i]@)
}

/// The maximal runs of `s` without a character of `blank`, in order.
pub open spec fn words(s: Seq<char>, blank: Class) -> Seq<Seq<char>>
    decreases s.len(),
{
    if s.len() == 0 {
        seq![]
    } else if blank.has(s[0]) {
        words(s.skip(1), blank)
    } else {
        let n = run_len(s, blank, false) as int;
        proof {
            lemma_run_len(s, blank, false);
        }
        seq![s.take(n)] + words(s.skip(n), blank)
    }
}

/// The blank-separated words of `s`.
pub fn split_words<'a>(s: &'a [char], blank: Class) -> (r: Vec<&'a [char]>)
    ensures
        texts(r@) == words(s@, blank),
{
    let mut r: Vec<&'a [char]> = Vec::new();
    let mut i: usize = 0;
    assert(s@.skip(0) =~= s@);
    while i < s.len()
        invariant
            i <= s.len(),
            texts(r@) + words(s@.skip(i as int), blank) =~= words(s@, blank),
        decreases s.len() - i,
    {
        let ghost rest = s@.skip(i as int);
        assert(rest[0] == s@[i as int]);
        if blank.holds(s[i]) {
            assert(rest.skip(1) =~= s@.skip(i + 1));
            i = i + 1;
        } else {
            let end = run_end(s, i, blank, false);
            proof {
                lemma_run_len(rest, blank, false);
                assert(rest.skip(end - i) =~= s@.skip(end as int));
                assert(rest.take(end - i) =~= s@.subrange(i as int, end as int));
            }
            let ghost before = texts(r@);
            r.push(&s[i..end]);
            assert(texts(r@) =~= before + seq![s@.subrange(i as int, end as int)]);
            i = end;
        }
    }
    assert(s@.skip(i as int) =~= seq![]);
    r
}

/// `line` without the carriage return that a line ending may start with.
pub open spec fn without_cr(line: Seq<char>) -> Seq<char> {
    if line.len() > 0 && line.last() == '\r' {
        line.drop_last()
    } else {
        line
    }
}

/// The lines of `s`. A line ends at a line feed, or at a carriage return and a
/// line feed; the last line may lack its ending.
pub open spec fn lines(s: Seq<char>) -> Seq<Seq<char>>
    decreases s.len(),
{
    if s.len() == 0 {
        seq![]
    } else {
        let n = run_len(s, Class::Is('\n'), false) as int;
        proof {
            lemma_run_len(s, Class::Is('\n'), false);
        }
        if n == s.len() {
            seq![s]
        } else {
            seq![without_cr(s.take(n))] + lines(s.skip(n + 1))
        }
    }
}

/// The lines of `s`, without their endings.
pub fn split_lines<'a>(s: &'a [char]) -> (r: Vec<&'a [char]>)
    ensures
        texts(r@) == lines(s@),
{
    let mut r: Vec<&'a [char]> = Vec::new();
    let mut i: usize = 0;
    assert(s@.skip(0) =~= s@);
    while i < s.len()
        invariant
            i <= s.len(),
            texts(r@) + lines(s@.skip(i as int)) =~= lines(s@),
        decreases s.len() - i,
    {
        let ghost rest = s@.skip(i as int);
        let ghost before = texts(r@);
        let end = run_end(s, i, Class::Is('\n'), false);
        proof {
            lemma_run_len(rest, Class::Is('\n'), false);
        }
        if end == s.len() {
            r.push(&s[i..end]);
            assert(s@.subrange(i as int, end as int) =~= rest);
            assert(texts(r@) =~= before + seq![rest]);
            i = end;
        } else {
            assert(rest.take(end - i) =~= s@.subrange(i as int, end as int));
            assert(rest.skip(end - i + 1) =~= s@.skip(end + 1));
            let ghost line = rest.take(end - i);
            if end > i && s[end - 1] == '\r' {
                r.push(&s[i..end - 1]);
                assert(line.drop_last() =~= s@.subrange(i as int, end - 1));
            } else {
                r.push(&s[i..end]);
            }
            assert(texts(r@) =~= before + seq![without_cr(line)]);
            i = end + 1;
        }
    }
    assert(s@.skip(i as int) =~= seq![]);
    r
}

/// `s` without the white space at its end.
pub open spec fn trim_end(s: Seq<char>) -> Seq<char>
    decreases s.len(),
{
    if s.len() > 0 && is_space(s.last()) {
        trim_end(s.drop_last())
    } else {
        s
    }
}

/// `s` without the white space at its two ends.
pub open spec fn trim(s: Seq<char>) -> Seq<char> {
    trim_end(s.skip(run_len(s, Class::Space, true) as int))
}

/// `s` without leading and trailing white space.
pub fn trimmed<'a>(s: &'a [char]) -> (r: &'a [char])
    ensures
        r@ == trim(s@),
{
    let start = run_end(s, 0, Class::Space, true);
    let mut end: usize = s.len();
    assert(s@.skip(0) =~= s@);
    assert(s@.subrange(start as int, end as int) =~= s@.skip(start as int));
    while end > start && Class::Space.holds(s[end - 1])
        invariant
            start <= end <= s.len(),
            trim(s@) == trim_end(s@.subrange(start as int, end as int)),
        decreases end,
    {
        assert(s@.subrange(start as int, end as int).drop_last() =~= s@.subrange(
            start as int,
            end - 1,
        ));
        end = end - 1;
    }
    &s[start..end]
}

/// Whether `a` and `b` hold the same characters.
pub fn same(a: &[char], b: &[char]) -> (r: bool)
    ensures
        r == (a@ == b@),
{
    if a.len() != b.len() {
        return false;
    }
    let mut i: usize = 0;
    while i < a.len()
        invariant
            i <= a.len(),
            a@.len() == b@.len(),
            forall|j: int| 0 <= j < i ==> a@[j] == b@[j],
        decreases a.len() - i,
    {
        if a[i] != b[i] {
            return false;
        }
        i = i + 1;
    }
    assert(a@ =~= b@);
    true
}

/// Whether `s` is the text `word`.
pub fn is_word(s: &[char], word: &str) -> (r: bool)
    ensures
        r == (s@ == word@),
{
    same(s, to_chars(word).as_slice())
}

/// Whether `s` starts with `prefix`.
pub fn starts_with(s: &[char], prefix: &[char]) -> (r: bool)
    ensures
        r == prefix@.is_prefix_of(s@),
{
    prefix.len() <= s.len() && same(prefix, &s[0..prefix.len()])
}

/// Whether `s` ends with `suffix`.
pub fn ends_with(s: &[char], suffix: &[char]) -> (r: bool)
    ensures
        r == suffix@.is_suffix_of(s@),
{
    suffix.len() <= s.len() && same(suffix, &s[s.len() - suffix.len()..s.len()])
}

/// Whether `part` occurs in `s`.
pub open spec fn occurs_in(part: Seq<char>, s: Seq<char>) -> bool {
    exists|i: int|
        0 <= i <= s.len() - part.len() && #[trigger] s.subrange(i, i + part.len()) == part
}

/// Whether `part` occurs in `s`.
pub fn has_part(s: &[char], part: &[char]) -> (r: bool)
    ensures
        r == occurs_in(part@, s@),
{
    if part.len() > s.len() {
        return false;
    }
    let mut i: usize = 0;
    while i <= s.len() - part.len()
        invariant
            part@.len() <= s@.len(),
            i <= s.len() - part.len() + 1,
            forall|j: int| 0 <= j < i ==> #[trigger] s@.subrange(j, j + part@.len()) != part@,
        decreases s.len() - i,
    {
        if same(&s[i..i + part.len()], part) {
            return true;
        }
        if i == s.len() - part.len() {
            return false;
        }
        i = i + 1;
    }
    false
}

/// The place of the last `c` in `s`, or -1.
pub open spec fn last_place(s: Seq<char>, c: char) -> int
    decreases s.len(),
{
    if s.len() == 0 {
        -1
    } else if s.last() == c {
        s.len() - 1
    } else {
        last_place(s.drop_last(), c)
    }
}

/// The place of the last `c` in `s`.
pub fn find_last(s: &[char], c: char) -> (r: Option<usize>)
    ensures
        match r {
            Some(i) => i < s.len() && i == last_place(s@, c),
            None => last_place(s@, c) == -1,
        },
{
    let mut i: usize = s.len();
    assert(s@.take(i as int) =~= s@);
    while i > 0
        invariant
            i <= s.len(),
            last_place(s@, c) == last_place(s@.take(i as int), c),
        decreases i,
    {
        assert(s@.take(i as int).drop_last() =~= s@.take(i - 1));
        if s[i - 1] == c {
            return Some(i - 1);
        }
        i = i - 1;
    }
    None
}

/// What stands before and after the first `c` of `s`.
pub open spec fn cut(s: Seq<char>, c: char) -> Option<(Seq<char>, Seq<char>)> {
    let n = run_len(s, Class::Is(c), false) as int;
    if n < s.len() {
        Some((s.take(n), s.skip(n + 1)))
    } else {
        None
    }
}

/// Cuts `s` at its first `c`.
pub fn cut_at<'a>(s: &'a [char], c: char) -> (r: Option<(&'a [char], &'a [char])>)
    ensures
        match r {
            Some(p) => cut(s@, c) == Some((p.0@, p.1@)),
            None => cut(s@, c) is None,
        },
{
    let n = run_end(s, 0, Class::Is(c), false);
    assert(s@.skip(0) =~= s@);
    if n < s.len() {
        let before = &s[0..n];
        let after = &s[n + 1..s.len()];
        assert(before@ =~= s@.take(n as int));
        assert(after@ =~= s@.skip(n + 1));
        Some((before, after))
    } else {
        None
    }
}

/// The first line of `all` that starts with `key`.
pub open spec fn line_with(all: Seq<Seq<char>>, key: Seq<char>) -> Option<Seq<char>>
    decreases all.len(),
{
    if all.len() == 0 {
        None
    } else if key.is_prefix_of(all[0]) {
        Some(all[0])
    } else {
        line_with(all.skip(1), key)
    }
}

/// Finds the first line that starts with `key`.
pub fn find_line<'a>(all: &Vec<&'a [char]>, key: &str) -> (r: Option<&'a [char]>)
    ensures
        match r {
            Some(line) => line_with(texts(all@), key@) == Some(line@),
            None => line_with(texts(all@), key@) is None,
        },
{
    let key_chars = to_chars(key);
    let mut i: usize = 0;
    assert(texts(all@).skip(0) =~= texts(all@));
    while i < all.len()
        invariant
            i <= all.len(),
            key_chars@ == key@,
            line_with(texts(all@), key@) == line_with(texts(all@).skip(i as int), key@),
        decreases all.len() - i,
    {
        assert(texts(all@).skip(i as int)[0] == all@[i as int]@);
        assert(texts(all@).skip(i as int).skip(1) =~= texts(all@).skip(i + 1));
        if starts_with(all[i], key_chars.as_slice()) {
            return Some(all[i]);
        }
        i = i + 1;
    }
    None
}

/// The word at place `k` of `s`.
pub open spec fn nth_word(s: Seq<char>, k: int) -> Option<Seq<char>> {
    if 0 <= k < words(s, Class::Space).len() {
        Some(words(s, Class::Space)[k])
    } else {
        None
    }
}

/// The word at place `k` of `s`.
pub fn word_at<'a>(s: &'a [char], k: usize) -> (r: Option<&'a [char]>)
    ensures
        match r {
            Some(w) => nth_word(s@, k as int) == Some(w@),
            None => nth_word(s@, k as int) is None,
        },
{
    let all = split_words(s, Class::Space);
    if k < all.len() {
        assert(texts(all@)[k as int] == all@[k as int]@);
        Some(all[k])
    } else {
        None
    }
}

} // verus!
