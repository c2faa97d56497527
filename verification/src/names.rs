//! The names that processes are shown under.

use vstd::prelude::*;

use crate::number::{decimal, lemma_decimal, to_decimal};
use crate::text::{
    ends_with, find_last, last_place, opt_str, opt_text, run_end, run_len, strings, to_chars,
    to_text, trim, trimmed, Class,
};

verus! {

/// `s` without as many copies of `suffix` as stand at its end.
pub open spec fn without_suffixes(s: Seq<char>, suffix: Seq<char>) -> Seq<char>
    decreases s.len(),
{
    if suffix.len() > 0 && suffix.is_suffix_of(s) {
        without_suffixes(s.take(s.len() - suffix.len()), suffix)
    } else {
        s
    }
}

/// The first argument of a command line, whose arguments end at null characters.
pub open spec fn first_argument(cmdline: Seq<char>) -> Seq<char> {
    trim(cmdline.take(run_len(cmdline, Class::Is('\0'), false) as int))
}

/// The last component of a path.
pub open spec fn base_name(path: Seq<char>) -> Seq<char> {
    path.skip(last_place(path, '/') + 1)
}

/// `s` without a leading dot.
pub open spec fn without_dot(s: Seq<char>) -> Seq<char> {
    if s.len() > 0 && s[0] == '.' {
        s.skip(1)
    } else {
        s
    }
}

/// A program's name without the marks that wrapper scripts leave on it.
pub open spec fn unwrapped(base: Seq<char>) -> Seq<char> {
    without_suffixes(
        without_suffixes(without_suffixes(without_dot(base), "-wrapped"@), "-wrapper"@),
        "-wrap"@,
    )
}

/// The name that a command line gives its process.
pub open spec fn command_name(cmdline: Seq<char>) -> Option<Seq<char>> {
    let arg0 = first_argument(cmdline);
    let clean = unwrapped(base_name(arg0));
    if arg0.len() == 0 || clean.len() == 0 {
        None
    } else {
        Some(clean)
    }
}

/// The name that a process is shown under: that of its command line, else its
/// own, else its number.
pub open spec fn shown_name(
    pid: u32,
    cmdline: Option<Seq<char>>,
    comm: Option<Seq<char>>,
) -> Seq<char> {
    if cmdline is Some && command_name(cmdline->0) is Some {
        command_name(cmdline->0)->0
    } else if comm is Some && trim(comm->0).len() > 0 {
        trim(comm->0)
    } else {
        decimal(pid as nat)
    }
}

/// What could be read about the name of a process: the texts of its command line
/// and of its own name.
#[derive(Debug, PartialEq, Eq)]
pub struct NameTexts {
    pub cmdline: Option<String>,
    pub comm: Option<String>,
}

/// The names that processes are shown under, each made of its number and of what
/// was read about it.
pub open spec fn shown_names(pids: Seq<u32>, found: Seq<NameTexts>) -> Seq<Seq<char>> {
    Seq::new(
        pids.len(),
        |i: int| shown_name(pids[i], opt_text(found[i].cmdline), opt_text(found[i].comm)),
    )
}

/// `s` without as many copies of `suffix` as stand at its end.
fn strip_suffixes<'a>(s: &'a [char], suffix: &str) -> (r: &'a [char])
    ensures
        r@ == without_suffixes(s@, suffix@),
{
    let suffix_chars = to_chars(suffix);
    let mut end: usize = s.len();
    assert(s@.take(end as int) =~= s@);
    assert(s@.subrange(0, end as int) =~= s@);
    while suffix_chars.len() > 0 && ends_with(&s[0..end], suffix_chars.as_slice())
        invariant
            end <= s.len(),
            suffix_chars@ == suffix@,
            without_suffixes(s@, suffix@) == without_suffixes(s@.subrange(0, end as int), suffix@),
        decreases end,
    {
        assert(s@.subrange(0, end as int).take(end - suffix@.len()) =~= s@.subrange(
            0,
            end - suffix@.len(),
        ));
        end = end - suffix_chars.len();
    }
    &s[0..end]
}

/// The name that a command line gives its process: the last component of its
/// first argument, without the marks of wrapper scripts.
pub fn read_proc_name(cmdline: &str) -> (r: Option<String>)
    ensures
        match r {
            Some(name) => command_name(cmdline@) == Some(name@),
            None => command_name(cmdline@) is None,
        },
{
    let chars = to_chars(cmdline);
    let end = run_end(chars.as_slice(), 0, Class::Is('\0'), false);
    assert(chars@.skip(0) =~= chars@);
    let first = &chars.as_slice()[0..end];
    assert(first@ =~= cmdline@.take(end as int));
    let arg0 = trimmed(first);
    if arg0.len() == 0 {
        return None;
    }
    let start: usize = match find_last(arg0, '/') {
        Some(i) => i + 1,
        None => 0,
    };
    let base = &arg0[start..arg0.len()];
    assert(base@ =~= base_name(arg0@));
    let bare = if base.len() > 0 && base[0] == '.' {
        let rest = &base[1..base.len()];
        assert(rest@ =~= base@.skip(1));
        rest
    } else {
        base
    };
    let clean = strip_suffixes(
        strip_suffixes(strip_suffixes(bare, "-wrapped"), "-wrapper"),
        "-wrap",
    );
    if clean.len() == 0 {
        return None;
    }
    Some(to_text(clean))
}

/// The name that a process is shown under. The texts are those of its command
/// line and of its own name, where they could be read.
pub fn resolve_name(pid: u32, cmdline: Option<&str>, comm: Option<&str>) -> (r: String)
    ensures
        r@ == shown_name(pid, opt_str(cmdline), opt_str(comm)),
{
    if let Some(text) = cmdline {
        if let Some(name) = read_proc_name(text) {
            return name;
        }
    }
    if let Some(text) = comm {
        let chars = to_chars(text);
        let name = trimmed(chars.as_slice());
        if name.len() > 0 {
            return to_text(name);
        }
    }
    to_decimal(pid)
}

/// A text that may be missing.
fn borrowed(s: &Option<String>) -> (r: Option<&str>)
    ensures
        opt_str(r) == opt_text(*s),
{
    match s {
        Some(text) => Some(text.as_str()),
        None => None,
    }
}

/// The names that the processes of a list are shown under, with what was read
/// about each.
pub fn resolve_names(pids: &[u32], found: &[NameTexts]) -> (r: Vec<String>)
    requires
        pids.len() == found.len(),
    ensures
        strings(r@) == shown_names(pids@, found@),
{
    let mut r: Vec<String> = Vec::new();
    let mut i: usize = 0;
    while i < pids.len()
        invariant
            i <= pids.len(),
            pids@.len() == found@.len(),
            strings(r@) =~= shown_names(pids@, found@).take(i as int),
        decreases pids.len() - i,
    {
        let ghost prev = strings(r@);
        let name = resolve_name(pids[i], borrowed(&found[i].cmdline), borrowed(&found[i].comm));
        let ghost y = name@;
        r.push(name);
        assert(strings(r@) =~= prev.push(y));
        i = i + 1;
    }
    r
}

proof fn lemma_after_last_place(s: Seq<char>, c: char)
    ensures
        -1 <= last_place(s, c) < s.len(),
        forall|i: int| last_place(s, c) < i < s.len() ==> #[trigger] s[i] != c,
    decreases s.len(),
{
    if s.len() > 0 && s.last() != c {
        let rest = s.drop_last();
        lemma_after_last_place(rest, c);
        assert forall|i: int| last_place(s, c) < i < s.len() implies #[trigger] s[i] != c by {
            if i < rest.len() {
                assert(s[i] == rest[i]);
            }
        }
    }
}

proof fn lemma_without_suffixes(s: Seq<char>, suffix: Seq<char>)
    ensures
        without_suffixes(s, suffix).len() <= s.len(),
        without_suffixes(s, suffix) == s.take(without_suffixes(s, suffix).len() as int),
        suffix.len() > 0 ==> !suffix.is_suffix_of(without_suffixes(s, suffix)),
    decreases s.len(),
{
    if suffix.len() > 0 && suffix.is_suffix_of(s) {
        let rest = s.take(s.len() - suffix.len());
        lemma_without_suffixes(rest, suffix);
        let n = without_suffixes(rest, suffix).len() as int;
        assert(rest.take(n) =~= s.take(n));
    } else {
        assert(s.take(s.len() as int) =~= s);
    }
}

/// A command's name is not empty, holds no path separator, and does not end in
/// `-wrap`.
pub proof fn law_command_name_is_clean(cmdline: Seq<char>)
    requires
        command_name(cmdline) is Some,
    ensures
        (command_name(cmdline)->0).len() > 0,
        !(command_name(cmdline)->0).contains('/'),
        !"-wrap"@.is_suffix_of(command_name(cmdline)->0),
{
    let arg0 = first_argument(cmdline);
    let base = base_name(arg0);
    let a = without_dot(base);
    let b = without_suffixes(a, "-wrapped"@);
    let c = without_suffixes(b, "-wrapper"@);
    let d = without_suffixes(c, "-wrap"@);
    reveal_strlit("-wrap");
    lemma_after_last_place(arg0, '/');
    lemma_without_suffixes(a, "-wrapped"@);
    lemma_without_suffixes(b, "-wrapper"@);
    lemma_without_suffixes(c, "-wrap"@);
    assert forall|i: int| 0 <= i < d.len() implies d[i] != '/' by {
        assert(d[i] == a[i]);
        if a.len() < base.len() {
            assert(a[i] == base[i + 1]);
            assert(base[i + 1] == arg0[last_place(arg0, '/') + 1 + i + 1]);
        } else {
            assert(a[i] == base[i]);
            assert(base[i] == arg0[last_place(arg0, '/') + 1 + i]);
        }
    }
}

/// No process is shown under an empty name.
pub proof fn law_shown_name_is_not_empty(
    pid: u32,
    cmdline: Option<Seq<char>>,
    comm: Option<Seq<char>>,
)
    ensures
        shown_name(pid, cmdline, comm).len() > 0,
{
    lemma_decimal(pid as nat);
}

} // verus!
