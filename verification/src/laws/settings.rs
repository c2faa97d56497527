//! What requests, settings, names and orders are.

use vstd::prelude::*;

use super::texts::law_the_last_place;
use super::{all_words, law_arguments_are_one_line, law_last_limit_stands, lemma_run_in_longer};
use crate::names::{
    base_name, command_name, first_argument, shown_name, shown_names, unwrapped, without_suffixes,
    NameTexts,
};
use crate::number::{decimal, unsigned};
use crate::nvml::{found_handle, nvml_next, NvmlEvent};
use crate::rank::word_le;
use crate::request::{everything, limit_of, requested, Request};
use crate::session::{after_line, after_lines, joined, left_of_interval, started, Session};
use crate::text::{lemma_run_len, opt_text, run_len, trim, words, Class};

verus! {

/// What a line lists is on, and everything else is off.
pub proof fn law_what_a_line_asks_for(line: Seq<char>)
    ensures
        ({
            let ws = words(line, Class::Space);
            let r = requested(ws);
            &&& r.cpu <==> exists|i: int| 0 <= i < ws.len() && #[trigger] ws[i] == "cpu"@
            &&& r.mem <==> exists|i: int| 0 <= i < ws.len() && #[trigger] ws[i] == "mem"@
            &&& r.gpu <==> exists|i: int| 0 <= i < ws.len() && #[trigger] ws[i] == "gpu"@
            &&& r.net <==> exists|i: int| 0 <= i < ws.len() && #[trigger] ws[i] == "net"@
            &&& r.disk <==> exists|i: int| 0 <= i < ws.len() && #[trigger] ws[i] == "disk"@
            &&& r.procs <==> exists|i: int| 0 <= i < ws.len() && #[trigger] ws[i] == "procs"@
            &&& r.filter_zero <==> exists|i: int|
                0 <= i < ws.len() && #[trigger] ws[i] == "nozero"@
        }),
{
}

/// Whether the word at `k` sets a limit: it is `limit`, and a number follows.
pub open spec fn sets_limit(ws: Seq<Seq<char>>, k: int) -> bool {
    &&& 0 <= k < ws.len() - 1
    &&& ws[k] == "limit"@
    &&& unsigned(ws[k + 1], usize::MAX as int) is Some
}

proof fn lemma_no_limit(ws: Seq<Seq<char>>)
    requires
        forall|k: int| !(#[trigger] sets_limit(ws, k)),
    ensures
        limit_of(ws) is None,
    decreases ws.len(),
{
    if ws.len() >= 2 {
        let rest = ws.drop_last();
        assert(!sets_limit(ws, ws.len() - 2));
        assert forall|k: int| !(#[trigger] sets_limit(rest, k)) by {
            assert(!sets_limit(ws, k));
        }
        lemma_no_limit(rest);
    }
}

/// The last limit of a line stands, zero for none, and without one there is none.
pub proof fn law_the_limit_of_a_line(line: Seq<char>, k: int)
    ensures
        ({
            let ws = words(line, Class::Space);
            let limit = requested(ws).proc_limit;
            let n = unsigned(ws[k + 1], usize::MAX as int)->0;
            &&& (forall|j: int| !(#[trigger] sets_limit(ws, j))) ==> limit is None
            &&& sets_limit(ws, k) && (forall|j: int| j > k ==> !(#[trigger] sets_limit(ws, j)))
                ==> if n == 0 {
                limit is None
            } else {
                limit matches Some(l) && l == n
            }
        }),
{
    let ws = words(line, Class::Space);
    if forall|j: int| !(#[trigger] sets_limit(ws, j)) {
        lemma_no_limit(ws);
    }
    if sets_limit(ws, k) && (forall|j: int| j > k ==> !(#[trigger] sets_limit(ws, j))) {
        assert forall|i: int| k < i < ws.len() - 1 && #[trigger] ws[i] == "limit"@ implies unsigned(
            ws[i + 1],
            usize::MAX as int,
        ) is None by {
            assert(!sets_limit(ws, i));
        }
        law_last_limit_stands(ws, k);
    }
}

/// Whether everything is asked for, and nothing left out.
pub open spec fn asks_for_all(r: Request) -> bool {
    r.cpu && r.mem && r.gpu && r.net && r.disk && r.procs && !r.filter_zero && r.proc_limit is None
}

/// The default request asks for everything.
pub proof fn law_everything_by_default()
    ensures
        asks_for_all(everything()),
{
}

proof fn lemma_joined_len(ss: Seq<Seq<char>>)
    ensures
        joined(ss).len() == 0 <==> ss.len() == 0 || (ss.len() == 1 && ss[0].len() == 0),
{
}

/// The first argument is the interval where it is a number, and else the interval
/// is one second. The other arguments are the request; without any, or with one
/// that is empty, everything is asked for.
pub proof fn law_settings_at_the_start(args: Seq<Seq<char>>)
    ensures
        args.len() == 0 ==> started(args).interval_ms == 1000,
        args.len() > 0 ==> match unsigned(args[0], u64::MAX as int) {
            Some(ms) => started(args).interval_ms == ms,
            None => started(args).interval_ms == 1000,
        },
        args.len() <= 1 || (args.len() == 2 && args[1].len() == 0) ==> asks_for_all(
            started(args).req,
        ),
        args.len() > 2 || (args.len() == 2 && args[1].len() > 0) ==> started(args).req == requested(
            all_words(args.skip(1)),
        ),
{
    if args.len() > 1 {
        lemma_joined_len(args.skip(1));
        law_arguments_are_one_line(args.skip(1));
    }
}

/// A line that starts with `interval` sets the interval where a number follows,
/// and nothing else; any other line makes the request, and nothing else.
pub proof fn law_what_a_line_sets(s: Session, line: Seq<char>, rest: Seq<char>)
    ensures
        after_line(s, "interval"@ + rest).req == s.req,
        match unsigned(trim(rest), u64::MAX as int) {
            Some(ms) => after_line(s, "interval"@ + rest).interval_ms == ms,
            None => after_line(s, "interval"@ + rest).interval_ms == s.interval_ms,
        },
        !"interval"@.is_prefix_of(line) ==> after_line(s, line).interval_ms == s.interval_ms
            && after_line(s, line).req == requested(words(line, Class::Space)),
{
    let key = "interval"@;
    assert((key + rest).subrange(0, key.len() as int) =~= key);
    assert((key + rest).skip(key.len() as int) =~= rest);
}

/// Lines are taken one after the other.
pub proof fn law_lines_are_taken_in_turn(s: Session, ls: Seq<Seq<char>>, line: Seq<char>)
    ensures
        after_lines(s, Seq::<Seq<char>>::empty()) == s,
        after_lines(s, ls.push(line)) == after_line(after_lines(s, ls), line),
{
    assert(ls.push(line).drop_last() =~= ls);
}

/// The time that a tick takes and the pause after it make the interval, and a tick
/// that takes longer has no pause.
pub proof fn law_tick_and_pause_make_the_interval(s: Session, elapsed_ns: int)
    requires
        elapsed_ns >= 0,
    ensures
        left_of_interval(s, elapsed_ns) >= 0,
        elapsed_ns <= s.interval_ms * 1_000_000 ==> elapsed_ns + left_of_interval(s, elapsed_ns)
            == s.interval_ms * 1_000_000,
        elapsed_ns > s.interval_ms * 1_000_000 ==> left_of_interval(s, elapsed_ns) == 0,
{
}

/// `n` copies of a text in a row.
pub open spec fn repeated(s: Seq<char>, n: nat) -> Seq<char>
    decreases n,
{
    if n == 0 {
        seq![]
    } else {
        repeated(s, (n - 1) as nat) + s
    }
}

proof fn lemma_strip_repeated(base: Seq<char>, suffix: Seq<char>, n: nat)
    requires
        suffix.len() > 0,
        !suffix.is_suffix_of(base),
    ensures
        without_suffixes(base + repeated(suffix, n), suffix) == base,
    decreases n,
{
    let whole = base + repeated(suffix, n);
    if n == 0 {
        assert(whole =~= base);
    } else {
        let shorter = base + repeated(suffix, (n - 1) as nat);
        assert(whole =~= shorter + suffix);
        assert(whole.subrange(shorter.len() as int, whole.len() as int) =~= suffix);
        assert(suffix.is_suffix_of(whole));
        assert(whole.take(whole.len() - suffix.len()) =~= shorter);
        lemma_strip_repeated(base, suffix, (n - 1) as nat);
    }
}

/// A dot before a name and the marks of wrapper scripts behind it are taken off:
/// any number of `-wrapped`, before them of `-wrapper`, before them of `-wrap`.
pub proof fn law_wrapper_marks(
    name: Seq<char>,
    dotted: bool,
    wraps: nat,
    wrappers: nat,
    wrappeds: nat,
)
    requires
        !"-wrap"@.is_suffix_of(name),
        !"-wrapper"@.is_suffix_of(name + repeated("-wrap"@, wraps)),
        !"-wrapped"@.is_suffix_of(
            name + repeated("-wrap"@, wraps) + repeated("-wrapper"@, wrappers),
        ),
        !dotted ==> (name + repeated("-wrap"@, wraps) + repeated("-wrapper"@, wrappers) + repeated(
            "-wrapped"@,
            wrappeds,
        )).len() == 0 || (name + repeated("-wrap"@, wraps) + repeated("-wrapper"@, wrappers)
            + repeated("-wrapped"@, wrappeds))[0] != '.',
    ensures
        unwrapped(
            (if dotted {
                seq!['.']
            } else {
                seq![]
            }) + (name + repeated("-wrap"@, wraps) + repeated("-wrapper"@, wrappers) + repeated(
                "-wrapped"@,
                wrappeds,
            )),
        ) == name,
{
    reveal_strlit("-wrap");
    reveal_strlit("-wrapper");
    reveal_strlit("-wrapped");
    let a = name + repeated("-wrap"@, wraps);
    let b = a + repeated("-wrapper"@, wrappers);
    let c = b + repeated("-wrapped"@, wrappeds);
    lemma_strip_repeated(name, "-wrap"@, wraps);
    lemma_strip_repeated(a, "-wrapper"@, wrappers);
    lemma_strip_repeated(b, "-wrapped"@, wrappeds);
    if dotted {
        assert((seq!['.'] + c).skip(1) =~= c);
    } else {
        assert(seq![] + c =~= c);
    }
}

/// The name of a command is made of its first argument alone, which ends at the
/// first null character.
pub proof fn law_the_first_argument_counts(a: Seq<char>, rest: Seq<char>)
    requires
        !a.contains('\0'),
    ensures
        command_name(a + seq!['\0'] + rest) == command_name(a),
        first_argument(a) == trim(a),
{
    let n = run_len(a, Class::Is('\0'), false) as int;
    lemma_run_len(a, Class::Is('\0'), false);
    assert(n == a.len()) by {
        if n < a.len() {
            assert(a[n] == '\0');
        }
    }
    lemma_run_in_longer(a, '\0', rest, Class::Is('\0'));
    assert((a + seq!['\0'] + rest).take(n) =~= a);
    assert(a.take(n) =~= a);
}

/// The name of a command is the last component of its path, without the marks of
/// wrapper scripts; there is none where nothing is left.
pub proof fn law_the_last_component_counts(a: Seq<char>, dir: Seq<char>, base: Seq<char>)
    requires
        !a.contains('\0'),
        !base.contains('/'),
        trim(a) == base || trim(a) == dir + seq!['/'] + base,
    ensures
        trim(a).len() == 0 || unwrapped(base).len() == 0 ==> command_name(a) is None,
        trim(a).len() > 0 && unwrapped(base).len() > 0 ==> command_name(a) == Some(unwrapped(base)),
{
    law_the_first_argument_counts(a, seq![]);
    law_the_last_place(dir, '/', base);
    if trim(a) == base {
        assert(base.skip(0) =~= base);
    } else {
        assert((dir + seq!['/'] + base).skip(dir.len() as int + 1) =~= base);
    }
    assert(base_name(trim(a)) == base);
}

/// A process is shown under the name of its command; where that is missing, under
/// its own name without white space around it; where that is missing too, under
/// its number.
pub proof fn law_which_name_is_shown(
    pid: u32,
    cmdline: Option<Seq<char>>,
    comm: Option<Seq<char>>,
)
    ensures
        cmdline matches Some(c) ==> (command_name(c) matches Some(n) ==> shown_name(
            pid,
            cmdline,
            comm,
        ) == n),
        cmdline is None || command_name(cmdline->0) is None ==> {
            &&& comm matches Some(t) ==> (trim(t).len() > 0 ==> shown_name(pid, cmdline, comm)
                == trim(t))
            &&& comm is None || trim(comm->0).len() == 0 ==> shown_name(pid, cmdline, comm)
                == decimal(pid as nat)
        },
{
}

/// Each process of a list is shown under its own name.
pub proof fn law_names_stand_with_their_processes(pids: Seq<u32>, found: Seq<NameTexts>, i: int)
    requires
        0 <= i < pids.len(),
    ensures
        shown_names(pids, found).len() == pids.len(),
        shown_names(pids, found)[i] == shown_name(
            pids[i],
            opt_text(found[i].cmdline),
            opt_text(found[i].comm),
        ),
{
}

/// The library of a vendor is used exactly after it was initialised with success,
/// which is tried exactly after all its functions were found, which are looked for
/// exactly after it was opened. Once open it is closed before it is given up.
pub proof fn law_loading_a_library(event: NvmlEvent)
    ensures
        nvml_next(event) is Use <==> event == (NvmlEvent::Initialised { ret: 0 }),
        nvml_next(event) is Initialise <==> event == (NvmlEvent::Resolved {
            init: true,
            pci: true,
            util: true,
            mem: true,
        }),
        nvml_next(event) is Resolve <==> event == (NvmlEvent::Opened { found: true }),
        nvml_next(event) is GiveUp <==> event == (NvmlEvent::Opened { found: false }),
{
}

/// A card's handle is found exactly if the search for it returned 0 and a handle.
pub proof fn law_finding_a_handle(ret: u32, handle_is_null: bool)
    ensures
        found_handle(ret, handle_is_null) ==> ret == 0 && !handle_is_null,
        found_handle(0, false),
{
}

proof fn lemma_word_le_prefix(p: Seq<char>, a: Seq<char>, b: Seq<char>)
    ensures
        word_le(p + a, p + b) == word_le(a, b),
    decreases p.len(),
{
    if p.len() == 0 {
        assert(p + a =~= a);
        assert(p + b =~= b);
    } else {
        assert((p + a)[0] == p[0] && (p + b)[0] == p[0]);
        assert((p + a).skip(1) =~= p.skip(1) + a);
        assert((p + b).skip(1) =~= p.skip(1) + b);
        lemma_word_le_prefix(p.skip(1), a, b);
    }
}

/// Names are ordered by the first character in which they differ, and a name comes
/// before its continuations.
pub proof fn law_the_order_of_names(p: Seq<char>, a: Seq<char>, b: Seq<char>)
    ensures
        a.len() > 0 && b.len() > 0 && a[0] < b[0] ==> word_le(p + a, p + b) && !word_le(
            p + b,
            p + a,
        ),
        word_le(p, p + b),
        b.len() > 0 ==> !word_le(p + b, p),
{
    lemma_word_le_prefix(p, a, b);
    lemma_word_le_prefix(p, b, a);
    let none = Seq::<char>::empty();
    lemma_word_le_prefix(p, none, b);
    lemma_word_le_prefix(p, b, none);
    assert(p + none =~= p);
}

} // verus!
