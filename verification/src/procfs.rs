//! What the files of the process file system say about processor time, load,
//! memory and network interfaces.

use vstd::prelude::*;

use crate::number::{parse_u64_or_zero, u64_or_zero, word_u64, word_u64_at};
use crate::text::{
    cut, cut_at, is_word, lines, nth_word, split_lines, split_words, starts_with, texts, to_chars,
    to_text, trim, trimmed, word_at, words, Class,
};

verus! {

/// Clock ticks since the machine started.
#[derive(Clone, Copy, Debug, PartialEq, Eq)]
pub struct CpuTicks {
    pub total: u64,
    pub idle: u64,
}

/// Memory and swap, in bytes.
#[derive(Clone, Copy, Debug, PartialEq, Eq)]
pub struct MemSample {
    pub total_bytes: u64,
    pub available_bytes: u64,
    pub swap_total_bytes: u64,
    pub swap_free_bytes: u64,
}

/// What one network interface has carried so far.
#[derive(Debug, PartialEq, Eq)]
pub struct IfaceSample {
    pub name: String,
    pub rx_bytes: u64,
    pub tx_bytes: u64,
}

/// What an `IfaceSample` says.
pub struct IfaceView {
    pub name: Seq<char>,
    pub rx_bytes: u64,
    pub tx_bytes: u64,
}

impl View for IfaceSample {
    type V = IfaceView;

    open spec fn view(&self) -> IfaceView {
        IfaceView { name: self.name@, rx_bytes: self.rx_bytes, tx_bytes: self.tx_bytes }
    }
}

/// What a list of interfaces says.
pub open spec fn ifaces(v: Seq<IfaceSample>) -> Seq<IfaceView> {
    Seq::new(v.len(), |i: int| v[i]@)
}

/// The sum of a list of numbers.
pub open spec fn sum(s: Seq<u64>) -> nat
    decreases s.len(),
{
    if s.len() == 0 {
        0
    } else {
        sum(s.drop_last()) + s.last() as nat
    }
}

/// The number at place `k`, or 0.
pub open spec fn at_or_zero(s: Seq<u64>, k: int) -> u64 {
    if 0 <= k < s.len() {
        s[k]
    } else {
        0
    }
}

/// The first line of a text, or the empty one.
pub open spec fn first_line(content: Seq<char>) -> Seq<char> {
    if lines(content).len() > 0 {
        lines(content)[0]
    } else {
        seq![]
    }
}

/// The counters on the first line of the file: its words after the first, 0 for
/// those that are no numbers.
pub open spec fn tick_fields(content: Seq<char>) -> Seq<u64> {
    let ws = words(first_line(content), Class::Space);
    if ws.len() == 0 {
        seq![]
    } else {
        Seq::new((ws.len() - 1) as nat, |i: int| u64_or_zero(ws[i + 1]))
    }
}

/// The ticks that the file says: all counters together, and those of the idle
/// and the waiting processor.
pub open spec fn cpu_ticks(content: Seq<char>) -> CpuTicks {
    let ns = tick_fields(content);
    CpuTicks { total: sum(ns) as u64, idle: (at_or_zero(ns, 3) + at_or_zero(ns, 4)) as u64 }
}

/// Any two counters are at most the sum of all.
pub proof fn lemma_sum_bounds(s: Seq<u64>, i: int, j: int)
    requires
        i != j,
    ensures
        at_or_zero(s, i) + at_or_zero(s, j) <= sum(s),
    decreases s.len(),
{
    if s.len() > 0 {
        let rest = s.drop_last();
        lemma_sum_bounds(rest, i, j);
    }
}

/// What is left out of a sum makes it no larger.
proof fn lemma_sum_prefix(s: Seq<u64>, k: int)
    requires
        0 <= k <= s.len(),
    ensures
        sum(s.take(k)) <= sum(s),
    decreases s.len() - k,
{
    if k == s.len() {
        assert(s.take(k) =~= s);
    } else {
        lemma_sum_prefix(s, k + 1);
        assert(s.take(k + 1).drop_last() =~= s.take(k));
    }
}

/// The counters on the first line of the file.
fn read_tick_fields(content: &str) -> (r: Vec<u64>)
    ensures
        r@ == tick_fields(content@),
{
    let chars = to_chars(content);
    let all = split_lines(chars.as_slice());
    let mut r: Vec<u64> = Vec::new();
    if all.len() == 0 {
        assert(first_line(content@) =~= seq![]);
        return r;
    }
    assert(texts(all@)[0] == all@[0]@);
    let ws = split_words(all[0], Class::Space);
    if ws.len() == 0 {
        assert(words(first_line(content@), Class::Space).len() == 0);
        return r;
    }
    let mut i: usize = 1;
    while i < ws.len()
        invariant
            1 <= i <= ws.len(),
            texts(ws@) == words(first_line(content@), Class::Space),
            r@ =~= tick_fields(content@).take(i - 1),
        decreases ws.len() - i,
    {
        assert(texts(ws@)[i as int] == ws@[i as int]@);
        r.push(parse_u64_or_zero(ws[i]));
        i = i + 1;
    }
    r
}

/// Adds numbers up; `None` where their sum exceeds 64 bits.
fn add_up(ns: &[u64]) -> (r: Option<u64>)
    ensures
        match r {
            Some(total) => total == sum(ns@),
            None => sum(ns@) > u64::MAX,
        },
{
    let mut total: u64 = 0;
    let mut i: usize = 0;
    while i < ns.len()
        invariant
            i <= ns.len(),
            total == sum(ns@.take(i as int)),
        decreases ns.len() - i,
    {
        proof {
            assert(ns@.take(i + 1).drop_last() =~= ns@.take(i as int));
            lemma_sum_prefix(ns@, i + 1);
        }
        if ns[i] > u64::MAX - total {
            return None;
        }
        total = total + ns[i];
        i = i + 1;
    }
    assert(ns@.take(i as int) =~= ns@);
    Some(total)
}

/// Whether the counters of the file add up to a number of 64 bits.
pub fn cpu_ticks_fit(content: &str) -> (r: bool)
    ensures
        r == (sum(tick_fields(content@)) <= u64::MAX),
{
    let ns = read_tick_fields(content);
    add_up(ns.as_slice()).is_some()
}

/// Reads the tick counters from the text of `/proc/stat`.
pub fn read_cpu_ticks(content: &str) -> (r: CpuTicks)
    requires
        sum(tick_fields(content@)) <= u64::MAX,
    ensures
        r == cpu_ticks(content@),
        r.idle <= r.total,
{
    let ns = read_tick_fields(content);
    let total: u64 = match add_up(ns.as_slice()) {
        Some(total) => total,
        None => 0,
    };
    proof {
        lemma_sum_bounds(ns@, 3, 4);
    }
    let idle: u64 = if ns.len() > 3 {
        ns[3]
    } else {
        0
    };
    let waiting: u64 = if ns.len() > 4 {
        ns[4]
    } else {
        0
    };
    CpuTicks { total, idle: idle + waiting }
}

/// Reads the load average over the last minute from the text of
/// `/proc/loadavg`: its first word, as it is written.
pub fn read_load(content: &str) -> (r: Option<String>)
    ensures
        match r {
            Some(w) => nth_word(content@, 0) == Some(w@),
            None => nth_word(content@, 0) is None,
        },
{
    let chars = to_chars(content);
    match word_at(chars.as_slice(), 0) {
        Some(w) => Some(to_text(w)),
        None => None,
    }
}

/// The number of KiB at the start of `s`, or 0.
pub open spec fn kib(s: Seq<char>) -> u64 {
    word_u64(s, 0)
}

/// The number of bytes in as many KiB as stand at the start of `s`.
pub open spec fn kib_in_bytes(s: Seq<char>) -> int {
    kib(s) * 1024
}

/// The number of KiB at the start of `s`, or 0.
pub fn parse_kib(s: &str) -> (r: u64)
    ensures
        r == kib(s@),
{
    let chars = to_chars(s);
    word_u64_at(chars.as_slice(), 0)
}

/// The number of bytes in as many KiB as stand at the start of `s`.
pub fn parse_kb(s: &str) -> (r: u64)
    requires
        kib(s@) * 1024 <= u64::MAX,
    ensures
        r == kib_in_bytes(s@),
        r == kib(s@) * 1024,
{
    parse_kib(s) * 1024
}

/// The bytes that the last line with this key says, or 0.
pub open spec fn mem_field(ls: Seq<Seq<char>>, key: Seq<char>) -> u64
    decreases ls.len(),
{
    if ls.len() == 0 {
        0
    } else if key.is_prefix_of(ls.last()) {
        kib_in_bytes(ls.last().skip(key.len() as int)) as u64
    } else {
        mem_field(ls.drop_last(), key)
    }
}

/// What the file says about memory and swap.
pub open spec fn mem_sample(content: Seq<char>) -> MemSample {
    MemSample {
        total_bytes: mem_field(lines(content), "MemTotal:"@),
        available_bytes: mem_field(lines(content), "MemAvailable:"@),
        swap_total_bytes: mem_field(lines(content), "SwapTotal:"@),
        swap_free_bytes: mem_field(lines(content), "SwapFree:"@),
    }
}

/// Whether a line with this key says a number of bytes of 64 bits.
pub open spec fn mem_line_fits(line: Seq<char>, key: Seq<char>) -> bool {
    key.is_prefix_of(line) ==> kib(line.skip(key.len() as int)) * 1024 <= u64::MAX
}

/// Whether every line that is read says a number of bytes of 64 bits.
pub open spec fn mem_fits(content: Seq<char>) -> bool {
    forall|i: int| #![trigger lines(content)[i]]
        0 <= i < lines(content).len() ==> {
            &&& mem_line_fits(lines(content)[i], "MemTotal:"@)
            &&& mem_line_fits(lines(content)[i], "MemAvailable:"@)
            &&& mem_line_fits(lines(content)[i], "SwapTotal:"@)
            &&& mem_line_fits(lines(content)[i], "SwapFree:"@)
        }
}

/// What a line with this key says in KiB.
fn read_mem_line(line: &[char], key: &str) -> (r: Option<u64>)
    ensures
        match r {
            Some(n) => key@.is_prefix_of(line@) && n == kib(line@.skip(key@.len() as int)),
            None => !key@.is_prefix_of(line@),
        },
{
    let k = to_chars(key);
    if starts_with(line, k.as_slice()) {
        let rest = &line[k.len()..line.len()];
        assert(rest@ =~= line@.skip(key@.len() as int));
        Some(word_u64_at(rest, 0))
    } else {
        None
    }
}

/// Whether a line with this key says a number of bytes of 64 bits.
fn check_mem_line(line: &[char], key: &str) -> (r: bool)
    ensures
        r == mem_line_fits(line@, key@),
{
    match read_mem_line(line, key) {
        Some(n) => n <= u64::MAX / 1024,
        None => true,
    }
}

/// Whether every line that is read says a number of bytes of 64 bits.
pub fn mem_sample_fits(content: &str) -> (r: bool)
    ensures
        r == mem_fits(content@),
{
    let chars = to_chars(content);
    let all = split_lines(chars.as_slice());
    let ghost ls = lines(content@);
    let mut i: usize = 0;
    while i < all.len()
        invariant
            i <= all.len(),
            texts(all@) == ls,
            ls == lines(content@),
            forall|j: int| #![trigger ls[j]]
                0 <= j < i ==> {
                    &&& mem_line_fits(ls[j], "MemTotal:"@)
                    &&& mem_line_fits(ls[j], "MemAvailable:"@)
                    &&& mem_line_fits(ls[j], "SwapTotal:"@)
                    &&& mem_line_fits(ls[j], "SwapFree:"@)
                },
        decreases all.len() - i,
    {
        assert(ls[i as int] == all@[i as int]@);
        if !check_mem_line(all[i], "MemTotal:") || !check_mem_line(all[i], "MemAvailable:")
            || !check_mem_line(all[i], "SwapTotal:") || !check_mem_line(all[i], "SwapFree:") {
            return false;
        }
        i = i + 1;
    }
    true
}

/// Reads memory and swap from the text of `/proc/meminfo`.
pub fn read_mem(content: &str) -> (r: MemSample)
    requires
        mem_fits(content@),
    ensures
        r == mem_sample(content@),
{
    let chars = to_chars(content);
    let all = split_lines(chars.as_slice());
    let ghost ls = lines(content@);
    let mut total: u64 = 0;
    let mut available: u64 = 0;
    let mut swap_total: u64 = 0;
    let mut swap_free: u64 = 0;
    let mut i: usize = 0;
    while i < all.len()
        invariant
            i <= all.len(),
            texts(all@) == ls,
            ls == lines(content@),
            mem_fits(content@),
            total == mem_field(ls.take(i as int), "MemTotal:"@),
            available == mem_field(ls.take(i as int), "MemAvailable:"@),
            swap_total == mem_field(ls.take(i as int), "SwapTotal:"@),
            swap_free == mem_field(ls.take(i as int), "SwapFree:"@),
        decreases all.len() - i,
    {
        proof {
            assert(ls[i as int] == all@[i as int]@);
            assert(ls.take(i + 1).drop_last() =~= ls.take(i as int));
            assert(lines(content@)[i as int] == all@[i as int]@);
        }
        if let Some(n) = read_mem_line(all[i], "MemTotal:") {
            total = n * 1024;
        }
        if let Some(n) = read_mem_line(all[i], "MemAvailable:") {
            available = n * 1024;
        }
        if let Some(n) = read_mem_line(all[i], "SwapTotal:") {
            swap_total = n * 1024;
        }
        if let Some(n) = read_mem_line(all[i], "SwapFree:") {
            swap_free = n * 1024;
        }
        i = i + 1;
    }
    assert(ls.take(i as int) =~= ls);
    MemSample {
        total_bytes: total,
        available_bytes: available,
        swap_total_bytes: swap_total,
        swap_free_bytes: swap_free,
    }
}

/// The interface that one line of the table says: its name before the first
/// colon, then the bytes received as the first and those sent as the ninth word.
/// The loopback interface is left out.
pub open spec fn iface_on(line: Seq<char>) -> Option<IfaceView> {
    match cut(trim(line), ':') {
        Some((name, rest)) => if trim(name) == "lo"@ {
            None
        } else {
            Some(
                IfaceView {
                    name: trim(name),
                    rx_bytes: word_u64(rest, 0),
                    tx_bytes: word_u64(rest, 8),
                },
            )
        },
        None => None,
    }
}

/// The interfaces that a list of lines says.
pub open spec fn ifaces_on(ls: Seq<Seq<char>>) -> Seq<IfaceView>
    decreases ls.len(),
{
    if ls.len() == 0 {
        seq![]
    } else {
        match iface_on(ls.last()) {
            Some(x) => ifaces_on(ls.drop_last()).push(x),
            None => ifaces_on(ls.drop_last()),
        }
    }
}

/// The interfaces that the file says, below the two lines of its heading.
pub open spec fn net_sample(content: Seq<char>) -> Seq<IfaceView> {
    if lines(content).len() <= 2 {
        seq![]
    } else {
        ifaces_on(lines(content).skip(2))
    }
}

/// Reads the interface on one line of the table.
fn read_iface(line: &[char]) -> (r: Option<IfaceSample>)
    ensures
        match r {
            Some(x) => iface_on(line@) == Some(x@),
            None => iface_on(line@) is None,
        },
{
    match cut_at(trimmed(line), ':') {
        Some((name, rest)) => {
            let name = trimmed(name);
            if is_word(name, "lo") {
                None
            } else {
                Some(
                    IfaceSample {
                        name: to_text(name),
                        rx_bytes: word_u64_at(rest, 0),
                        tx_bytes: word_u64_at(rest, 8),
                    },
                )
            }
        },
        None => None,
    }
}

/// Reads the network interfaces from the text of `/proc/net/dev`.
pub fn read_net(content: &str) -> (r: Vec<IfaceSample>)
    ensures
        ifaces(r@) == net_sample(content@),
{
    let chars = to_chars(content);
    let all = split_lines(chars.as_slice());
    let mut r: Vec<IfaceSample> = Vec::new();
    if all.len() <= 2 {
        assert(texts(all@).len() <= 2);
        assert(ifaces(r@) =~= seq![]);
        return r;
    }
    let ghost ls = lines(content@).skip(2);
    let mut i: usize = 2;
    assert(ls.take(0) =~= seq![]);
    assert(ifaces(r@) =~= seq![]);
    while i < all.len()
        invariant
            2 <= i <= all.len(),
            texts(all@) == lines(content@),
            ls == lines(content@).skip(2),
            ifaces(r@) == ifaces_on(ls.take(i - 2)),
        decreases all.len() - i,
    {
        let ghost prev = ifaces(r@);
        proof {
            assert(texts(all@)[i as int] == all@[i as int]@);
            assert(ls.take(i - 1).drop_last() =~= ls.take(i - 2));
            assert(ls.take(i - 1).last() == all@[i as int]@);
        }
        if let Some(x) = read_iface(all[i]) {
            let ghost y = x@;
            r.push(x);
            assert(ifaces(r@) =~= prev.push(y));
        }
        i = i + 1;
    }
    assert(ls.take(i - 2) =~= ls);
    r
}

/// The loopback interface is never listed.
pub proof fn law_loopback_is_left_out(ls: Seq<Seq<char>>)
    ensures
        forall|i: int| 0 <= i < ifaces_on(ls).len() ==> (#[trigger] ifaces_on(ls)[i]).name != "lo"@,
    decreases ls.len(),
{
    if ls.len() > 0 {
        let rest = ls.drop_last();
        law_loopback_is_left_out(rest);
        assert forall|i: int| 0 <= i < ifaces_on(ls).len() implies (#[trigger] ifaces_on(ls)[i]).name
            != "lo"@ by {
            if i < ifaces_on(rest).len() {
                assert(ifaces_on(ls)[i] == ifaces_on(rest)[i]);
            }
        }
    }
}

} // verus!
