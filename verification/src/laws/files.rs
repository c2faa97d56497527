//! What a sample says of the texts that were read.

use vstd::prelude::*;

use super::picks::{lemma_places_where, picks, places_where};
use crate::disk::{dev_line_fits, dev_name_on, devs_on, disk_fits, DiskDevView};
use crate::gpu::CardView;
use crate::number::{u64_or_zero, unsigned, word_u64};
use crate::procfs::{
    at_or_zero, iface_on, ifaces_on, kib, kib_in_bytes, lemma_sum_bounds, mem_field, mem_fits,
    mem_line_fits, net_sample, sum, tick_fields, IfaceView,
};
use crate::request::Request;
use crate::sample::{sampled, ReadingsView};
use crate::text::{cut, last_place, lines, trim, words, Class};
use crate::walk::{
    proc_of, procs_in, stat_fields, stat_fits, stat_usage, ProcReadingView, ProcSample,
};

verus! {

/// Whether `n` is the number that the word at place `k` spells; 0 where there is
/// no such word, or it spells no number of 64 bits.
pub open spec fn spells(n: u64, ws: Seq<Seq<char>>, k: int) -> bool {
    if 0 <= k < ws.len() && unsigned(ws[k], 0xffff_ffff_ffff_ffff) is Some {
        n == unsigned(ws[k], 0xffff_ffff_ffff_ffff)->0
    } else {
        n == 0
    }
}

proof fn lemma_spells(s: Seq<char>, k: int)
    ensures
        forall|n: u64| #[trigger]
            spells(n, words(s, Class::Space), k) <==> n == word_u64(s, k),
{
}

/// All numbers of a list together.
pub open spec fn added(s: Seq<u64>) -> int
    decreases s.len(),
{
    if s.len() == 0 {
        0
    } else {
        s[0] + added(s.skip(1))
    }
}

proof fn lemma_added(s: Seq<u64>)
    ensures
        added(s) == sum(s),
    decreases s.len(),
{
    if s.len() == 1 {
        assert(s.skip(1) =~= seq![]);
        assert(added(s.skip(1)) == 0);
        assert(s.drop_last() =~= seq![]);
        assert(sum(s.drop_last()) == 0);
    } else if s.len() > 1 {
        let inner = s.skip(1);
        lemma_added(inner);
        lemma_added(s.drop_last());
        assert(s.drop_last()[0] == s[0]);
        assert(s.drop_last().skip(1) =~= inner.drop_last());
        lemma_added(inner.drop_last());
        assert(inner.last() == s.last());
    }
}

/// Whether `ns` are the counters of a text: the numbers after the first word of
/// its first line.
pub open spec fn are_counters(ns: Seq<u64>, content: Seq<char>) -> bool {
    let ws = words(lines(content)[0], Class::Space);
    if lines(content).len() == 0 || ws.len() == 0 {
        ns.len() == 0
    } else {
        ns.len() == ws.len() - 1 && forall|i: int|
            0 <= i < ns.len() ==> spells(#[trigger] ns[i], ws, i + 1)
    }
}

proof fn lemma_are_counters(ns: Seq<u64>, content: Seq<char>)
    requires
        are_counters(ns, content),
    ensures
        ns == tick_fields(content),
{
    let ls = lines(content);
    if ls.len() == 0 {
        assert(words(Seq::<char>::empty(), Class::Space) =~= seq![]);
        assert(ns =~= tick_fields(content));
    } else {
        let ws = words(ls[0], Class::Space);
        assert forall|i: int| 0 <= i < ns.len() implies #[trigger] ns[i] == u64_or_zero(
            ws[i + 1],
        ) by {
            assert(spells(ns[i], ws, i + 1));
        }
        assert(ns =~= tick_fields(content));
    }
}

/// The ticks of a sample are all counters together, and of them the idle ones are
/// the fourth and the fifth.
pub proof fn law_ticks_of_a_sample(
    cards: Seq<CardView>,
    req: Request,
    r: ReadingsView,
    ns: Seq<u64>,
)
    requires
        req.cpu,
        are_counters(ns, r.stat),
        added(ns) <= u64::MAX,
    ensures
        sampled(cards, req, r).cpu.total == added(ns),
        ns.len() >= 5 ==> sampled(cards, req, r).cpu.idle == ns[3] + ns[4],
        ns.len() == 4 ==> sampled(cards, req, r).cpu.idle == ns[3],
        ns.len() < 4 ==> sampled(cards, req, r).cpu.idle == 0,
{
    lemma_are_counters(ns, r.stat);
    lemma_added(ns);
    lemma_sum_bounds(ns, 3, 4);
    assert(at_or_zero(ns, 3) + at_or_zero(ns, 4) <= u64::MAX);
}

/// The ticks of a text can be read exactly if all its counters together are a
/// number of 64 bits.
pub proof fn law_ticks_that_fit(content: Seq<char>, ns: Seq<u64>)
    requires
        are_counters(ns, content),
    ensures
        sum(tick_fields(content)) <= u64::MAX <==> added(ns) <= u64::MAX,
{
    lemma_are_counters(ns, content);
    lemma_added(ns);
}

/// The load of a sample is the first word of its text.
pub proof fn law_load_of_a_sample(cards: Seq<CardView>, req: Request, r: ReadingsView)
    requires
        req.cpu,
    ensures
        words(r.loadavg, Class::Space).len() > 0 ==> sampled(cards, req, r).load == Some(
            words(r.loadavg, Class::Space)[0],
        ),
        words(r.loadavg, Class::Space).len() == 0 ==> sampled(cards, req, r).load is None,
{
}

/// Whether line `i` is the last that starts with `key`.
pub open spec fn is_last_line(ls: Seq<Seq<char>>, i: int, key: Seq<char>) -> bool {
    &&& 0 <= i < ls.len()
    &&& key.is_prefix_of(ls[i])
    &&& forall|j: int| i < j < ls.len() ==> !key.is_prefix_of(#[trigger] ls[j])
}

/// Whether `bytes` are as many KiB as the last line with this key says, where
/// they are a number of 64 bits; 0 where there is no such line.
pub open spec fn says_kib(bytes: u64, ls: Seq<Seq<char>>, key: Seq<char>) -> bool {
    &&& (forall|j: int| 0 <= j < ls.len() ==> !key.is_prefix_of(#[trigger] ls[j])) ==> bytes == 0
    &&& forall|i: int, n: u64|
        #[trigger] is_last_line(ls, i, key) && #[trigger] spells(
            n,
            words(ls[i].skip(key.len() as int), Class::Space),
            0,
        ) && n * 1024 <= u64::MAX ==> bytes == n * 1024
}

proof fn lemma_mem_field(ls: Seq<Seq<char>>, key: Seq<char>)
    ensures
        says_kib(mem_field(ls, key), ls, key),
    decreases ls.len(),
{
    if ls.len() > 0 {
        let rest = ls.drop_last();
        let bytes = mem_field(ls, key);
        lemma_mem_field(rest, key);
        assert(ls[ls.len() - 1] == ls.last());
        if forall|j: int| 0 <= j < ls.len() ==> !key.is_prefix_of(#[trigger] ls[j]) {
            assert forall|j: int| 0 <= j < rest.len() implies !key.is_prefix_of(
                #[trigger] rest[j],
            ) by {
                assert(!key.is_prefix_of(ls[j]));
            }
            assert(!key.is_prefix_of(ls[ls.len() - 1]));
        }
        assert forall|i: int, n: u64|
            #[trigger] is_last_line(ls, i, key) && #[trigger] spells(
                n,
                words(ls[i].skip(key.len() as int), Class::Space),
                0,
            ) && n * 1024 <= u64::MAX implies bytes == n * 1024 by {
            if i < rest.len() {
                assert(!key.is_prefix_of(ls[ls.len() - 1]));
                assert(rest[i] == ls[i]);
                assert(is_last_line(rest, i, key)) by {
                    assert forall|j: int| i < j < rest.len() implies !key.is_prefix_of(
                        #[trigger] rest[j],
                    ) by {
                        assert(!key.is_prefix_of(ls[j]));
                    }
                }
                assert(spells(n, words(rest[i].skip(key.len() as int), Class::Space), 0));
            } else {
                lemma_spells(ls[i].skip(key.len() as int), 0);
            }
        }
    }
}

/// Memory and swap of a sample are what the last lines with their keys say.
pub proof fn law_memory_of_a_sample(cards: Seq<CardView>, req: Request, r: ReadingsView)
    requires
        req.mem,
    ensures
        says_kib(sampled(cards, req, r).mem.total_bytes, lines(r.meminfo), "MemTotal:"@),
        says_kib(sampled(cards, req, r).mem.available_bytes, lines(r.meminfo), "MemAvailable:"@),
        says_kib(sampled(cards, req, r).mem.swap_total_bytes, lines(r.meminfo), "SwapTotal:"@),
        says_kib(sampled(cards, req, r).mem.swap_free_bytes, lines(r.meminfo), "SwapFree:"@),
{
    lemma_mem_field(lines(r.meminfo), "MemTotal:"@);
    lemma_mem_field(lines(r.meminfo), "MemAvailable:"@);
    lemma_mem_field(lines(r.meminfo), "SwapTotal:"@);
    lemma_mem_field(lines(r.meminfo), "SwapFree:"@);
}

/// Whether a line does not start with the key, or says a number of KiB whose bytes
/// are a number of 64 bits.
pub open spec fn kib_line_fits(line: Seq<char>, key: Seq<char>) -> bool {
    key.is_prefix_of(line) ==> forall|n: u64| #[trigger]
        spells(n, words(line.skip(key.len() as int), Class::Space), 0) ==> n * 1024 <= u64::MAX
}

proof fn lemma_kib_line_fits(line: Seq<char>, key: Seq<char>)
    ensures
        mem_line_fits(line, key) <==> kib_line_fits(line, key),
{
    let rest = line.skip(key.len() as int);
    lemma_spells(rest, 0);
    assert(spells(kib(rest), words(rest, Class::Space), 0));
}

/// Memory can be read exactly if the bytes of all lines with one of the keys are
/// numbers of 64 bits.
pub proof fn law_memory_that_fits(content: Seq<char>)
    ensures
        mem_fits(content) <==> forall|i: int| #![trigger lines(content)[i]]
            0 <= i < lines(content).len() ==> {
                &&& kib_line_fits(lines(content)[i], "MemTotal:"@)
                &&& kib_line_fits(lines(content)[i], "MemAvailable:"@)
                &&& kib_line_fits(lines(content)[i], "SwapTotal:"@)
                &&& kib_line_fits(lines(content)[i], "SwapFree:"@)
            },
{
    assert forall|line: Seq<char>, key: Seq<char>| #[trigger]
        mem_line_fits(line, key) <==> kib_line_fits(line, key) by {
        lemma_kib_line_fits(line, key);
    }
    assert forall|i: int| #![trigger lines(content)[i]]
        0 <= i < lines(content).len() implies (({
        &&& mem_line_fits(lines(content)[i], "MemTotal:"@)
        &&& mem_line_fits(lines(content)[i], "MemAvailable:"@)
        &&& mem_line_fits(lines(content)[i], "SwapTotal:"@)
        &&& mem_line_fits(lines(content)[i], "SwapFree:"@)
    }) <==> ({
        &&& kib_line_fits(lines(content)[i], "MemTotal:"@)
        &&& kib_line_fits(lines(content)[i], "MemAvailable:"@)
        &&& kib_line_fits(lines(content)[i], "SwapTotal:"@)
        &&& kib_line_fits(lines(content)[i], "SwapFree:"@)
    })) by {
    }
}

/// Whether a line is about an interface other than loopback: a name, a colon and
/// numbers.
pub open spec fn is_iface_line(line: Seq<char>) -> bool {
    cut(trim(line), ':') is Some && trim((cut(trim(line), ':')->0).0) != "lo"@
}

/// Whether an interface is the one that a line is about: with the name before the
/// colon, and after it the bytes received as the first and those sent as the
/// ninth number.
pub open spec fn is_iface_on(x: IfaceView, line: Seq<char>) -> bool {
    let (name, rest) = cut(trim(line), ':')->0;
    let ws = words(rest, Class::Space);
    &&& x.name == trim(name)
    &&& spells(x.rx_bytes, ws, 0)
    &&& spells(x.tx_bytes, ws, 8)
}

proof fn lemma_ifaces_on(ls: Seq<Seq<char>>, m: nat)
    requires
        m <= ls.len(),
    ensures
        ({
            let rows = ifaces_on(ls.take(m as int));
            let at = places_where(m, |i: int| is_iface_line(ls[i]));
            &&& rows.len() == at.len()
            &&& forall|k: int|
                0 <= k < rows.len() ==> is_iface_on(#[trigger] rows[k], ls[at[k]])
        }),
    decreases m,
{
    if m > 0 {
        let wanted = |i: int| is_iface_line(ls[i]);
        lemma_ifaces_on(ls, (m - 1) as nat);
        assert(ls.take(m as int).drop_last() =~= ls.take(m - 1));
        let a = ifaces_on(ls.take(m - 1));
        let rows = ifaces_on(ls.take(m as int));
        let shorter = places_where((m - 1) as nat, wanted);
        let at = places_where(m, wanted);
        let line = ls[m - 1];
        assert(iface_on(line) is Some <==> is_iface_line(line));
        assert forall|k: int| 0 <= k < rows.len() implies is_iface_on(
            #[trigger] rows[k],
            ls[at[k]],
        ) by {
            if k < a.len() {
                assert(rows[k] == a[k]);
                assert(at[k] == shorter[k]);
            } else {
                let rest = (cut(trim(line), ':')->0).1;
                lemma_spells(rest, 0);
                lemma_spells(rest, 8);
            }
        }
    }
}

/// Whether the interfaces are those that the lines below the heading, which has
/// two, are about, in their order.
pub open spec fn lists_ifaces(rows: Seq<IfaceView>, at: Seq<int>, ls: Seq<Seq<char>>) -> bool {
    &&& rows.len() == at.len()
    &&& picks(at, ls.len(), |i: int| i >= 2 && is_iface_line(ls[i]))
    &&& forall|k: int| 0 <= k < rows.len() ==> is_iface_on(#[trigger] rows[k], ls[at[k]])
}

/// The interfaces of a sample are those on the lines below the heading, without
/// loopback.
pub proof fn law_interfaces_of_a_sample(cards: Seq<CardView>, req: Request, r: ReadingsView)
    requires
        req.net,
    ensures
        exists|at: Seq<int>| #[trigger]
            lists_ifaces(sampled(cards, req, r).net, at, lines(r.net_dev)),
{
    let ls = lines(r.net_dev);
    let rows = sampled(cards, req, r).net;
    assert(rows == net_sample(r.net_dev));
    let wanted = |i: int| i >= 2 && is_iface_line(ls[i]);
    if ls.len() <= 2 {
        assert(lists_ifaces(rows, seq![], ls));
    } else {
        let body = ls.skip(2);
        let inner = |i: int| is_iface_line(body[i]);
        lemma_ifaces_on(body, body.len());
        assert(body.take(body.len() as int) =~= body);
        lemma_places_where(body.len(), inner);
        let below = places_where(body.len(), inner);
        let at = Seq::new(below.len(), |k: int| below[k] + 2);
        assert forall|k: int| 0 <= k < at.len() implies 0 <= #[trigger] at[k] < ls.len() && wanted(
            at[k],
        ) by {
            assert(0 <= below[k] < body.len());
            assert(inner(below[k]));
            assert(body[below[k]] == ls[at[k]]);
        }
        assert forall|i: int, j: int| 0 <= i < j < at.len() implies #[trigger] at[i]
            < #[trigger] at[j] by {
            assert(below[i] < below[j]);
        }
        assert forall|i: int| 0 <= i < ls.len() && wanted(i) implies #[trigger] at.contains(i) by {
            assert(body[i - 2] == ls[i]);
            assert(inner(i - 2));
            assert(below.contains(i - 2));
            let k = choose|k: int| 0 <= k < below.len() && below[k] == i - 2;
            assert(at[k] == i);
        }
        assert forall|k: int| 0 <= k < rows.len() implies is_iface_on(
            #[trigger] rows[k],
            ls[at[k]],
        ) by {
            assert(0 <= below[k] < body.len());
            assert(body[below[k]] == ls[at[k]]);
        }
        assert(lists_ifaces(rows, at, ls));
    }
}

/// Whether a line is about a disk device that is neither a loop nor a memory
/// device.
pub open spec fn is_dev_line(line: Seq<char>) -> bool {
    let ws = words(line, Class::Space);
    ws.len() > 2 && !"loop"@.is_prefix_of(ws[2]) && !"ram"@.is_prefix_of(ws[2])
}

/// Whether `bytes` are as many sectors of 512 bytes as the word at place `k` says,
/// where they are a number of 64 bits.
pub open spec fn says_sectors(bytes: u64, ws: Seq<Seq<char>>, k: int) -> bool {
    forall|n: u64| #[trigger] spells(n, ws, k) && n * 512 <= u64::MAX ==> bytes == n * 512
}

/// Whether a device is the one that a line is about: the third word is its name,
/// the sixth the sectors read and the tenth those written.
pub open spec fn is_dev_on(d: DiskDevView, line: Seq<char>) -> bool {
    let ws = words(line, Class::Space);
    &&& d.name == ws[2]
    &&& says_sectors(d.read_bytes, ws, 5)
    &&& says_sectors(d.write_bytes, ws, 9)
}

/// Whether the devices are those that the lines are about, in their order.
pub open spec fn lists_devs(rows: Seq<DiskDevView>, at: Seq<int>, ls: Seq<Seq<char>>) -> bool {
    &&& rows.len() == at.len()
    &&& picks(at, ls.len(), |i: int| is_dev_line(ls[i]))
    &&& forall|k: int| 0 <= k < rows.len() ==> is_dev_on(#[trigger] rows[k], ls[at[k]])
}

proof fn lemma_devs_on(ls: Seq<Seq<char>>, m: nat)
    requires
        m <= ls.len(),
    ensures
        ({
            let rows = devs_on(ls.take(m as int));
            let at = places_where(m, |i: int| is_dev_line(ls[i]));
            &&& rows.len() == at.len()
            &&& forall|k: int| 0 <= k < rows.len() ==> is_dev_on(#[trigger] rows[k], ls[at[k]])
        }),
    decreases m,
{
    if m > 0 {
        let wanted = |i: int| is_dev_line(ls[i]);
        lemma_devs_on(ls, (m - 1) as nat);
        assert(ls.take(m as int).drop_last() =~= ls.take(m - 1));
        let a = devs_on(ls.take(m - 1));
        let rows = devs_on(ls.take(m as int));
        let shorter = places_where((m - 1) as nat, wanted);
        let at = places_where(m, wanted);
        let line = ls[m - 1];
        assert(dev_name_on(line) is Some <==> is_dev_line(line));
        assert forall|k: int| 0 <= k < rows.len() implies is_dev_on(
            #[trigger] rows[k],
            ls[at[k]],
        ) by {
            if k < a.len() {
                assert(rows[k] == a[k]);
                assert(at[k] == shorter[k]);
            } else {
                lemma_spells(line, 5);
                lemma_spells(line, 9);
            }
        }
    }
}

/// The devices of a sample are those on the lines, without loop and memory
/// devices.
pub proof fn law_devices_of_a_sample(cards: Seq<CardView>, req: Request, r: ReadingsView)
    requires
        req.disk,
    ensures
        exists|at: Seq<int>| #[trigger]
            lists_devs(sampled(cards, req, r).disk, at, lines(r.diskstats)),
{
    let ls = lines(r.diskstats);
    let wanted = |i: int| is_dev_line(ls[i]);
    lemma_devs_on(ls, ls.len());
    assert(ls.take(ls.len() as int) =~= ls);
    lemma_places_where(ls.len(), wanted);
    assert(lists_devs(sampled(cards, req, r).disk, places_where(ls.len(), wanted), ls));
}

/// Whether the bytes of the device that a line is about are numbers of 64 bits.
pub open spec fn sectors_fit(line: Seq<char>) -> bool {
    let ws = words(line, Class::Space);
    is_dev_line(line) ==> {
        &&& forall|n: u64| #[trigger] spells(n, ws, 5) ==> n * 512 <= u64::MAX
        &&& forall|n: u64| #[trigger] spells(n, ws, 9) ==> n * 512 <= u64::MAX
    }
}

/// The devices can be read exactly if the bytes on all lines are numbers of 64
/// bits.
pub proof fn law_devices_that_fit(content: Seq<char>)
    ensures
        disk_fits(content) <==> forall|i: int|
            0 <= i < lines(content).len() ==> sectors_fit(#[trigger] lines(content)[i]),
{
    assert forall|line: Seq<char>| #[trigger] dev_line_fits(line) <==> sectors_fit(line) by {
        let ws = words(line, Class::Space);
        lemma_spells(line, 5);
        lemma_spells(line, 9);
        assert(dev_name_on(line) is Some <==> is_dev_line(line));
        assert(spells(word_u64(line, 5), ws, 5) && spells(word_u64(line, 9), ws, 9));
    }
    assert forall|i: int| 0 <= i < lines(content).len() implies dev_line_fits(
        #[trigger] lines(content)[i],
    ) == sectors_fit(lines(content)[i]) by {
    }
}

/// What of a status line follows the process name: what stands after the last
/// closing bracket and one more character, which must be of ASCII.
pub open spec fn after_name(stat: Seq<char>) -> Option<Seq<char>> {
    let end = last_place(stat, ')');
    if end >= 0 && end + 1 < stat.len() && stat[end + 1] <= '\u{7f}' {
        Some(stat.skip(end + 2))
    } else {
        None
    }
}

/// The numbers of a status line, by the place of their words after the name.
pub open spec fn stat_number(stat: Seq<char>, k: int) -> Option<int> {
    let ws = words(after_name(stat)->0, Class::AsciiSpace);
    if after_name(stat) is Some && 0 <= k < ws.len() {
        unsigned(ws[k], 0xffff_ffff_ffff_ffff)
    } else {
        None
    }
}

/// Whether an entry is a process whose status line can be read: the entry's name
/// is a number of 32 bits, and the twelfth, thirteenth and twenty-second words
/// after the process name are numbers of 64 bits.
pub open spec fn is_process(x: ProcReadingView) -> bool {
    &&& unsigned(x.name, 0xffff_ffff) is Some
    &&& x.stat is Some
    &&& stat_number(x.stat->0, 11) is Some
    &&& stat_number(x.stat->0, 12) is Some
    &&& stat_number(x.stat->0, 21) is Some
}

/// Whether a sample is that of a process: its number, user time and system time
/// together, and its resident pages in bytes, where these are numbers of 64 bits.
pub open spec fn is_sample_of(p: ProcSample, x: ProcReadingView, page_size: u64) -> bool {
    let utime = stat_number(x.stat->0, 11)->0;
    let stime = stat_number(x.stat->0, 12)->0;
    let pages = stat_number(x.stat->0, 21)->0;
    &&& p.pid == unsigned(x.name, 0xffff_ffff)->0
    &&& utime + stime <= u64::MAX ==> p.cpu_ticks == utime + stime
    &&& pages * page_size <= u64::MAX ==> p.rss_bytes == pages * page_size
}

/// Whether the samples are those of the processes among the entries, in their
/// order.
pub open spec fn lists_procs(
    rows: Seq<ProcSample>,
    at: Seq<int>,
    xs: Seq<ProcReadingView>,
    page_size: u64,
) -> bool {
    &&& rows.len() == at.len()
    &&& picks(at, xs.len(), |i: int| is_process(xs[i]))
    &&& forall|k: int|
        0 <= k < rows.len() ==> is_sample_of(#[trigger] rows[k], xs[at[k]], page_size)
}

pub proof fn lemma_proc_of(x: ProcReadingView)
    ensures
        proc_of(x) is Some <==> is_process(x),
        proc_of(x) matches Some((pid, f)) ==> {
            &&& pid == unsigned(x.name, 0xffff_ffff)->0
            &&& f.utime == stat_number(x.stat->0, 11)->0
            &&& f.stime == stat_number(x.stat->0, 12)->0
            &&& f.rss_pages == stat_number(x.stat->0, 21)->0
        },
{
    if x.stat is Some {
        assert(stat_fields(x.stat->0) is Some <==> {
            &&& stat_number(x.stat->0, 11) is Some
            &&& stat_number(x.stat->0, 12) is Some
            &&& stat_number(x.stat->0, 21) is Some
        });
    }
}

proof fn lemma_procs_in(xs: Seq<ProcReadingView>, page_size: u64, m: nat)
    requires
        m <= xs.len(),
    ensures
        ({
            let rows = procs_in(xs.take(m as int), page_size);
            let at = places_where(m, |i: int| is_process(xs[i]));
            &&& rows.len() == at.len()
            &&& forall|k: int|
                0 <= k < rows.len() ==> is_sample_of(#[trigger] rows[k], xs[at[k]], page_size)
        }),
    decreases m,
{
    if m > 0 {
        let wanted = |i: int| is_process(xs[i]);
        lemma_procs_in(xs, page_size, (m - 1) as nat);
        assert(xs.take(m as int).drop_last() =~= xs.take(m - 1));
        let a = procs_in(xs.take(m - 1), page_size);
        let rows = procs_in(xs.take(m as int), page_size);
        let shorter = places_where((m - 1) as nat, wanted);
        let at = places_where(m, wanted);
        let x = xs[m - 1];
        lemma_proc_of(x);
        assert forall|k: int| 0 <= k < rows.len() implies is_sample_of(
            #[trigger] rows[k],
            xs[at[k]],
            page_size,
        ) by {
            if k < a.len() {
                assert(rows[k] == a[k]);
                assert(at[k] == shorter[k]);
            } else {
                let f = (proc_of(x)->0).1;
                assert(f.rss_pages * page_size >= 0) by (nonlinear_arith);
            }
        }
    }
}

/// The processes of a sample are those among the entries, each with what its
/// status line says.
pub proof fn law_processes_of_a_sample(cards: Seq<CardView>, req: Request, r: ReadingsView)
    requires
        req.procs,
    ensures
        exists|at: Seq<int>| #[trigger]
            lists_procs(sampled(cards, req, r).procs, at, r.procs, r.page_size),
{
    let wanted = |i: int| is_process(r.procs[i]);
    lemma_procs_in(r.procs, r.page_size, r.procs.len());
    assert(r.procs.take(r.procs.len() as int) =~= r.procs);
    lemma_places_where(r.procs.len(), wanted);
    assert(lists_procs(
        sampled(cards, req, r).procs,
        places_where(r.procs.len(), wanted),
        r.procs,
        r.page_size,
    ));
}

/// A status line says user time and system time together, and its resident pages
/// in bytes, exactly if it has these three numbers.
pub proof fn law_what_a_status_line_says(stat: Seq<char>, page_size: u64)
    ensures
        ({
            let (utime, stime, pages) = (
                stat_number(stat, 11),
                stat_number(stat, 12),
                stat_number(stat, 21),
            );
            &&& stat_usage(stat, page_size) is Some <==> utime is Some && stime is Some
                && pages is Some
            &&& stat_usage(stat, page_size) matches Some((ticks, bytes)) ==> ticks == utime->0
                + stime->0 && bytes == pages->0 * page_size
        }),
{
}

/// As many KiB as a text starts with are 1024 times as many bytes.
pub proof fn law_bytes_of_kib(s: Seq<char>, n: u64)
    requires
        spells(n, words(s, Class::Space), 0),
    ensures
        kib_in_bytes(s) == n * 1024,
{
    lemma_spells(s, 0);
}

/// The status line of a process can be read exactly if its ticks and its bytes
/// are numbers of 64 bits.
pub proof fn law_status_lines_that_fit(x: ProcReadingView, page_size: u64)
    requires
        is_process(x),
    ensures
        stat_fits(x.stat->0, page_size) <==> {
            &&& (stat_number(x.stat->0, 11)->0) + (stat_number(x.stat->0, 12)->0) <= u64::MAX
            &&& (stat_number(x.stat->0, 21)->0) * page_size <= u64::MAX
        },
{
    lemma_proc_of(x);
}

} // verus!
