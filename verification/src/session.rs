//! The settings of a run, and what the command line and the lines on standard
//! input do to them.

use vstd::prelude::*;

use crate::number::{parse_u64, unsigned};
use crate::request::{everything, requested, Request};
use crate::text::{starts_with, strings, to_chars, to_text, trim, trimmed, words, Class};

verus! {

/// The time between ticks where none is given, in milliseconds.
pub const DEFAULT_INTERVAL_MS: u64 = 1000;

/// The settings of a run.
#[derive(Clone, Copy, Debug, PartialEq, Eq)]
pub struct Session {
    /// The time between ticks, in milliseconds.
    pub interval_ms: u64,
    pub req: Request,
}

/// The texts in a row, with a blank between each two.
pub open spec fn joined(ss: Seq<Seq<char>>) -> Seq<char>
    decreases ss.len(),
{
    if ss.len() == 0 {
        seq![]
    } else if ss.len() == 1 {
        ss[0]
    } else {
        joined(ss.drop_last()) + seq![' '] + ss.last()
    }
}

/// The settings that the arguments of the command line make: the first is the
/// interval, the others are the request. Without a request everything is on.
pub open spec fn started(args: Seq<Seq<char>>) -> Session {
    let rest = if args.len() > 1 {
        joined(args.skip(1))
    } else {
        seq![]
    };
    Session {
        interval_ms: if args.len() > 0 && unsigned(args[0], u64::MAX as int) is Some {
            unsigned(args[0], u64::MAX as int)->0 as u64
        } else {
            DEFAULT_INTERVAL_MS
        },
        req: if rest.len() == 0 {
            everything()
        } else {
            requested(words(rest, Class::Space))
        },
    }
}

/// Whether a line is about the interval.
pub open spec fn is_interval_line(line: Seq<char>) -> bool {
    "interval"@.is_prefix_of(line)
}

/// The interval that a line about it sets, if it holds a number.
pub open spec fn interval_on(line: Seq<char>) -> Option<int> {
    unsigned(trim(line.skip("interval"@.len() as int)), u64::MAX as int)
}

/// The settings after a line: one about the interval sets that, or nothing; any
/// other makes the request.
pub open spec fn after_line(s: Session, line: Seq<char>) -> Session {
    if is_interval_line(line) {
        match interval_on(line) {
            Some(ms) => Session { interval_ms: ms as u64, req: s.req },
            None => s,
        }
    } else {
        Session { interval_ms: s.interval_ms, req: requested(words(line, Class::Space)) }
    }
}

/// The settings after a list of lines.
pub open spec fn after_lines(s: Session, ls: Seq<Seq<char>>) -> Session
    decreases ls.len(),
{
    if ls.len() == 0 {
        s
    } else {
        after_line(after_lines(s, ls.drop_last()), ls.last())
    }
}

/// The nanoseconds that are left of the interval after `elapsed_ns` of it.
pub open spec fn left_of_interval(s: Session, elapsed_ns: int) -> int {
    if elapsed_ns < s.interval_ms * 1_000_000 {
        s.interval_ms * 1_000_000 - elapsed_ns
    } else {
        0
    }
}

/// The arguments after the first in a row, with a blank between each two.
fn join_rest(args: &[String]) -> (r: Vec<char>)
    requires
        args.len() > 1,
    ensures
        r@ == joined(strings(args@).skip(1)),
{
    let ghost ss = strings(args@).skip(1);
    let mut r = to_chars(args[1].as_str());
    let mut i: usize = 2;
    assert(ss.take(1).len() == 1 && ss.take(1)[0] == r@);
    while i < args.len()
        invariant
            2 <= i <= args.len(),
            ss == strings(args@).skip(1),
            r@ == joined(ss.take(i - 1)),
        decreases args.len() - i,
    {
        let ghost before = r@;
        proof {
            assert(ss.take(i as int).drop_last() =~= ss.take(i - 1));
            assert(ss.take(i as int).last() == args@[i as int]@);
        }
        let mut more = to_chars(args[i].as_str());
        r.push(' ');
        r.append(&mut more);
        assert(r@ =~= before + seq![' '] + args@[i as int]@);
        i = i + 1;
    }
    assert(ss.take(i - 1) =~= ss);
    r
}

impl Session {
    /// The settings that the arguments of the command line make.
    pub fn start(args: &[String]) -> (r: Self)
        ensures
            r == started(strings(args@)),
    {
        let interval_ms: u64 = if args.len() > 0 {
            assert(strings(args@)[0] == args@[0]@);
            match parse_u64(to_chars(args[0].as_str()).as_slice()) {
                Some(ms) => ms,
                None => DEFAULT_INTERVAL_MS,
            }
        } else {
            DEFAULT_INTERVAL_MS
        };
        let req = if args.len() > 1 {
            let rest = join_rest(args);
            if rest.len() == 0 {
                Request::default()
            } else {
                Request::parse(to_text(rest.as_slice()).as_str())
            }
        } else {
            Request::default()
        };
        Session { interval_ms, req }
    }

    /// Takes one line from standard input.
    pub fn take_line(&mut self, line: &str)
        ensures
            *final(self) == after_line(*old(self), line@),
    {
        let chars = to_chars(line);
        let key = to_chars("interval");
        if starts_with(chars.as_slice(), key.as_slice()) {
            let rest = &chars.as_slice()[key.len()..chars.len()];
            assert(rest@ =~= line@.skip("interval"@.len() as int));
            if let Some(ms) = parse_u64(trimmed(rest)) {
                self.interval_ms = ms;
            }
        } else {
            self.req = Request::parse(line);
        }
    }

    /// Takes the lines that have arrived since the last tick.
    pub fn take_lines(&mut self, lines: &[String])
        ensures
            *final(self) == after_lines(*old(self), strings(lines@)),
    {
        let ghost start = *self;
        let ghost ls = strings(lines@);
        let mut i: usize = 0;
        assert(ls.take(0) =~= seq![]);
        while i < lines.len()
            invariant
                i <= lines.len(),
                ls == strings(lines@),
                *self == after_lines(start, ls.take(i as int)),
            decreases lines.len() - i,
        {
            proof {
                assert(ls.take(i + 1).drop_last() =~= ls.take(i as int));
                assert(ls.take(i + 1).last() == lines@[i as int]@);
            }
            self.take_line(lines[i].as_str());
            i = i + 1;
        }
        assert(ls.take(i as int) =~= ls);
    }

    /// The time to wait until the next tick, where this one has taken
    /// `elapsed_ns` nanoseconds so far.
    pub fn pause_ns(&self, elapsed_ns: u128) -> (r: u128)
        ensures
            r == left_of_interval(*self, elapsed_ns as int),
            r == if elapsed_ns < self.interval_ms * 1_000_000 {
                self.interval_ms * 1_000_000 - elapsed_ns
            } else {
                0
            },
            elapsed_ns <= self.interval_ms * 1_000_000 ==> r + elapsed_ns == self.interval_ms
                * 1_000_000,
    {
        let target: u128 = self.interval_ms as u128 * 1_000_000;
        if elapsed_ns < target {
            target - elapsed_ns
        } else {
            0
        }
    }
}

/// A line about the interval leaves the request as it is, and any other line
/// leaves the interval as it is.
pub proof fn law_lines_set_one_thing(s: Session, line: Seq<char>)
    ensures
        is_interval_line(line) ==> after_line(s, line).req == s.req,
        !is_interval_line(line) ==> after_line(s, line).interval_ms == s.interval_ms,
{
}

/// Of all lines that make a request the last one stands, whatever was set before
/// and whatever lines about the interval follow.
pub proof fn law_last_request_stands(s: Session, ls: Seq<Seq<char>>, k: int)
    requires
        0 <= k < ls.len(),
        !is_interval_line(ls[k]),
        forall|i: int| k < i < ls.len() ==> is_interval_line(#[trigger] ls[i]),
    ensures
        after_lines(s, ls).req == requested(words(ls[k], Class::Space)),
    decreases ls.len(),
{
    if k < ls.len() - 1 {
        let rest = ls.drop_last();
        assert(is_interval_line(ls.last()));
        assert forall|i: int| k < i < rest.len() implies is_interval_line(#[trigger] rest[i]) by {
            assert(rest[i] == ls[i]);
        }
        law_last_request_stands(s, rest, k);
    }
}

} // verus!
