//! What the caller wants sampled.

use vstd::prelude::*;

use crate::number::{parse_usize, unsigned};
use crate::text::{is_word, split_words, texts, to_chars, words, Class};

verus! {

/// What is sampled and shown at each tick.
#[derive(Clone, Copy, Debug, PartialEq, Eq)]
pub struct Request {
    pub cpu: bool,
    pub mem: bool,
    pub gpu: bool,
    pub net: bool,
    pub disk: bool,
    pub procs: bool,
    /// Leave out the processes that use nothing.
    pub filter_zero: bool,
    /// The longest process list to show; `None` for any length.
    pub proc_limit: Option<usize>,
}

/// The limit that the last word `limit` with a number after it sets. Zero sets
/// none.
pub open spec fn limit_of(ws: Seq<Seq<char>>) -> Option<usize>
    decreases ws.len(),
{
    if ws.len() < 2 {
        None
    } else if ws[ws.len() - 2] == "limit"@ && unsigned(ws.last(), usize::MAX as int) is Some {
        let n = unsigned(ws.last(), usize::MAX as int)->0;
        if n == 0 {
            None
        } else {
            Some(n as usize)
        }
    } else {
        limit_of(ws.drop_last())
    }
}

/// The request that a list of words makes: what is listed is on, everything
/// else is off.
pub open spec fn requested(ws: Seq<Seq<char>>) -> Request {
    Request {
        cpu: ws.contains("cpu"@),
        mem: ws.contains("mem"@),
        gpu: ws.contains("gpu"@),
        net: ws.contains("net"@),
        disk: ws.contains("disk"@),
        procs: ws.contains("procs"@),
        filter_zero: ws.contains("nozero"@),
        proc_limit: limit_of(ws),
    }
}

/// The request that asks for everything and filters nothing.
pub open spec fn everything() -> Request {
    Request {
        cpu: true,
        mem: true,
        gpu: true,
        net: true,
        disk: true,
        procs: true,
        filter_zero: false,
        proc_limit: None,
    }
}

impl Default for Request {
    fn default() -> (r: Self)
        ensures
            r == everything(),
    {
        Request {
            cpu: true,
            mem: true,
            gpu: true,
            net: true,
            disk: true,
            procs: true,
            filter_zero: false,
            proc_limit: None,
        }
    }
}

/// One more word either is `w` or leaves open whether `w` is among the words.
proof fn lemma_contains_next(ws: Seq<Seq<char>>, i: int, w: Seq<char>)
    requires
        0 <= i < ws.len(),
    ensures
        ws.take(i + 1).contains(w) == (ws.take(i).contains(w) || ws[i] == w),
{
    let longer = ws.take(i + 1);
    let shorter = ws.take(i);
    if longer.contains(w) {
        let j = choose|j: int| 0 <= j < longer.len() && longer[j] == w;
        if j < i {
            assert(shorter[j] == w);
        }
    }
    if shorter.contains(w) {
        let j = choose|j: int| 0 <= j < shorter.len() && shorter[j] == w;
        assert(longer[j] == w);
    }
    if ws[i] == w {
        assert(longer[i] == w);
    }
}

impl Request {
    /// Reads a request from the words of a line. Unknown words are passed over.
    pub fn parse(line: &str) -> (r: Self)
        ensures
            r == requested(words(line@, Class::Space)),
    {
        let mut r = Request {
            cpu: false,
            mem: false,
            gpu: false,
            net: false,
            disk: false,
            procs: false,
            filter_zero: false,
            proc_limit: None,
        };
        let chars = to_chars(line);
        let tokens = split_words(chars.as_slice(), Class::Space);
        let ghost ws = words(line@, Class::Space);
        let mut i: usize = 0;
        while i < tokens.len()
            invariant
                i <= tokens.len(),
                texts(tokens@) == ws,
                r == requested(ws.take(i as int)),
            decreases tokens.len() - i,
        {
            let token = tokens[i];
            proof {
                assert(token@ == ws[i as int]);
                lemma_contains_next(ws, i as int, "cpu"@);
                lemma_contains_next(ws, i as int, "mem"@);
                lemma_contains_next(ws, i as int, "gpu"@);
                lemma_contains_next(ws, i as int, "net"@);
                lemma_contains_next(ws, i as int, "disk"@);
                lemma_contains_next(ws, i as int, "procs"@);
                lemma_contains_next(ws, i as int, "nozero"@);
                assert(ws.take(i + 1).drop_last() =~= ws.take(i as int));
                assert(i > 0 ==> ws.take(i + 1)[i - 1] == tokens@[i - 1]@);
            }
            if is_word(token, "cpu") {
                r.cpu = true;
            }
            if is_word(token, "mem") {
                r.mem = true;
            }
            if is_word(token, "gpu") {
                r.gpu = true;
            }
            if is_word(token, "net") {
                r.net = true;
            }
            if is_word(token, "disk") {
                r.disk = true;
            }
            if is_word(token, "procs") {
                r.procs = true;
            }
            if is_word(token, "nozero") {
                r.filter_zero = true;
            }
            if i > 0 && is_word(tokens[i - 1], "limit") {
                if let Some(n) = parse_usize(token) {
                    r.proc_limit = if n == 0 {
                        None
                    } else {
                        Some(n)
                    };
                }
            }
            i = i + 1;
        }
        assert(ws.take(i as int) =~= ws);
        r
    }
}

} // verus!
