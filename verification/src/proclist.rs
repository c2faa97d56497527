//! The process lists: what each process has used since the last tick, the
//! largest users first.

use std::collections::HashMap;

use vstd::prelude::*;

use crate::rank::{keys_of, rank_rows, ranked};
use crate::rate::gain;
use crate::walk::{GpuProcSample, ProcSample};

verus! {

broadcast use vstd::std_specs::hash::group_hash_axioms;

/// A process in the list by processor time, with the ticks that it has used.
#[derive(Clone, Copy, Debug, PartialEq, Eq)]
pub struct ProcCpuOut {
    pub pid: u32,
    pub ticks: u64,
}

/// A process in the list by memory.
#[derive(Clone, Copy, Debug, PartialEq, Eq)]
pub struct ProcMemOut {
    pub pid: u32,
    pub rss: u64,
}

/// A process in the list of a graphics card, with the engine time that it has
/// used.
#[derive(Clone, Copy, Debug, PartialEq, Eq)]
pub struct GpuProcOut {
    pub pid: u32,
    pub vram_kib: u64,
    pub gfx_ns: u64,
}

/// The ticks of each process, of those with one number only the last.
pub open spec fn ticks_map(s: Seq<ProcSample>) -> Map<u32, u64>
    decreases s.len(),
{
    if s.len() == 0 {
        Map::empty()
    } else {
        ticks_map(s.drop_last()).insert(s.last().pid, s.last().cpu_ticks)
    }
}

/// The engine time of each process, of those with one number only the last.
pub open spec fn ns_map(s: Seq<GpuProcSample>) -> Map<u32, u64>
    decreases s.len(),
{
    if s.len() == 0 {
        Map::empty()
    } else {
        ns_map(s.drop_last()).insert(s.last().pid, s.last().engine_gfx_ns)
    }
}

/// What a counter has gained since it was noted for the process; nothing for a
/// process that is new.
pub open spec fn gain_since(noted: Map<u32, u64>, pid: u32, now: u64) -> u64 {
    if noted.dom().contains(pid) {
        gain(now, noted[pid])
    } else {
        0
    }
}

/// Whether a process has no share in the ticks that have passed: it has used
/// none, or none have passed.
pub open spec fn has_no_share(noted: Map<u32, u64>, p: ProcSample, total_d: u64) -> bool {
    total_d == 0 || gain_since(noted, p.pid, p.cpu_ticks) == 0
}

/// The places of the processes that are shown: all, or those that have a share
/// in the ticks that have passed.
pub open spec fn cpu_places(
    curr: Seq<ProcSample>,
    noted: Map<u32, u64>,
    total_d: u64,
    filter_zero: bool,
) -> Seq<int>
    decreases curr.len(),
{
    if curr.len() == 0 {
        seq![]
    } else {
        let rest = cpu_places(curr.drop_last(), noted, total_d, filter_zero);
        if filter_zero && has_no_share(noted, curr.last(), total_d) {
            rest
        } else {
            rest.push(curr.len() - 1)
        }
    }
}

/// The row of one process in the list by processor time.
pub open spec fn cpu_row(noted: Map<u32, u64>, p: ProcSample) -> ProcCpuOut {
    ProcCpuOut { pid: p.pid, ticks: gain_since(noted, p.pid, p.cpu_ticks) }
}

/// The rows at these places.
pub open spec fn cpu_rows(
    curr: Seq<ProcSample>,
    noted: Map<u32, u64>,
    shown: Seq<int>,
) -> Seq<ProcCpuOut> {
    Seq::new(shown.len(), |i: int| cpu_row(noted, curr[shown[i]]))
}

/// The weights at these places.
pub open spec fn weights_at(weights: Seq<u64>, shown: Seq<int>) -> Seq<u64> {
    Seq::new(shown.len(), |i: int| weights[shown[i]])
}

/// The list by processor time: the processes that are shown, by their weights.
pub open spec fn cpu_list(
    curr: Seq<ProcSample>,
    noted: Map<u32, u64>,
    total_d: u64,
    weights: Seq<u64>,
    filter_zero: bool,
    limit: Option<usize>,
) -> Seq<ProcCpuOut> {
    let shown = cpu_places(curr, noted, total_d, filter_zero);
    ranked(cpu_rows(curr, noted, shown), weights_at(weights, shown), limit)
}

/// The row of one process in the list by memory.
pub open spec fn mem_row(p: ProcSample) -> ProcMemOut {
    ProcMemOut { pid: p.pid, rss: p.rss_bytes }
}

/// The rows of the list by memory, in the order in which the processes came:
/// those of all processes, or of those that hold memory.
pub open spec fn mem_rows(curr: Seq<ProcSample>, filter_zero: bool) -> Seq<ProcMemOut>
    decreases curr.len(),
{
    if curr.len() == 0 {
        seq![]
    } else {
        let rest = mem_rows(curr.drop_last(), filter_zero);
        if filter_zero && curr.last().rss_bytes == 0 {
            rest
        } else {
            rest.push(mem_row(curr.last()))
        }
    }
}

/// The memory of each row.
pub open spec fn rss_of(rows: Seq<ProcMemOut>) -> Seq<u64> {
    Seq::new(rows.len(), |i: int| rows[i].rss)
}

/// The list by memory.
pub open spec fn mem_list(
    curr: Seq<ProcSample>,
    filter_zero: bool,
    limit: Option<usize>,
) -> Seq<ProcMemOut> {
    let rows = mem_rows(curr, filter_zero);
    ranked(rows, rss_of(rows), limit)
}

/// The row of one process in the list of a card.
pub open spec fn gpu_row(noted: Map<u32, u64>, p: GpuProcSample) -> GpuProcOut {
    GpuProcOut {
        pid: p.pid,
        vram_kib: p.vram_kib,
        gfx_ns: gain_since(noted, p.pid, p.engine_gfx_ns),
    }
}

/// The rows of a card's list, in the order in which the processes came: those of
/// all processes, or of those that hold card memory.
pub open spec fn gpu_rows(
    procs: Seq<GpuProcSample>,
    noted: Map<u32, u64>,
    filter_zero: bool,
) -> Seq<GpuProcOut>
    decreases procs.len(),
{
    if procs.len() == 0 {
        seq![]
    } else {
        let rest = gpu_rows(procs.drop_last(), noted, filter_zero);
        let p = procs.last();
        if filter_zero && p.vram_kib == 0 {
            rest
        } else {
            rest.push(gpu_row(noted, p))
        }
    }
}

/// The card memory of each row.
pub open spec fn vram_of(rows: Seq<GpuProcOut>) -> Seq<u64> {
    Seq::new(rows.len(), |i: int| rows[i].vram_kib)
}

/// The list of a graphics card, by card memory.
pub open spec fn gpu_list(
    procs: Seq<GpuProcSample>,
    noted: Map<u32, u64>,
    filter_zero: bool,
    limit: Option<usize>,
) -> Seq<GpuProcOut> {
    let rows = gpu_rows(procs, noted, filter_zero);
    ranked(rows, vram_of(rows), limit)
}

/// Notes the ticks of each process.
pub fn note_ticks(procs: &[ProcSample]) -> (r: HashMap<u32, u64>)
    ensures
        r@ == ticks_map(procs@),
{
    let mut r: HashMap<u32, u64> = HashMap::new();
    let mut i: usize = 0;
    assert(procs@.take(0) =~= seq![]);
    while i < procs.len()
        invariant
            i <= procs.len(),
            r@ == ticks_map(procs@.take(i as int)),
        decreases procs.len() - i,
    {
        assert(procs@.take(i + 1).drop_last() =~= procs@.take(i as int));
        r.insert(procs[i].pid, procs[i].cpu_ticks);
        i = i + 1;
    }
    assert(procs@.take(i as int) =~= procs@);
    r
}

/// Notes the engine time of each process.
pub fn note_ns(procs: &[GpuProcSample]) -> (r: HashMap<u32, u64>)
    ensures
        r@ == ns_map(procs@),
{
    let mut r: HashMap<u32, u64> = HashMap::new();
    let mut i: usize = 0;
    assert(procs@.take(0) =~= seq![]);
    while i < procs.len()
        invariant
            i <= procs.len(),
            r@ == ns_map(procs@.take(i as int)),
        decreases procs.len() - i,
    {
        assert(procs@.take(i + 1).drop_last() =~= procs@.take(i as int));
        r.insert(procs[i].pid, procs[i].engine_gfx_ns);
        i = i + 1;
    }
    assert(procs@.take(i as int) =~= procs@);
    r
}

/// What a counter has gained since it was noted for the process.
fn gained(noted: &HashMap<u32, u64>, pid: u32, now: u64) -> (r: u64)
    ensures
        r == gain_since(noted@, pid, now),
{
    match noted.get(&pid) {
        Some(then) => now.saturating_sub(*then),
        None => 0,
    }
}

/// The ticks that each process has used since they were noted.
pub open spec fn ticks_used(curr: Seq<ProcSample>, noted: Map<u32, u64>) -> Seq<u64> {
    Seq::new(curr.len(), |i: int| gain_since(noted, curr[i].pid, curr[i].cpu_ticks))
}

/// The ticks that each process has used since they were noted.
pub fn tick_gains(curr: &[ProcSample], prev_ticks: &HashMap<u32, u64>) -> (r: Vec<u64>)
    ensures
        r@ == ticks_used(curr@, prev_ticks@),
        r@ == Seq::new(
            curr@.len(),
            |i: int| gain_since(prev_ticks@, curr@[i].pid, curr@[i].cpu_ticks),
        ),
{
    let mut r: Vec<u64> = Vec::new();
    let mut i: usize = 0;
    while i < curr.len()
        invariant
            i <= curr.len(),
            r@.len() == i,
            forall|j: int|
                0 <= j < i ==> #[trigger] r@[j] == gain_since(
                    prev_ticks@,
                    curr@[j].pid,
                    curr@[j].cpu_ticks,
                ),
        decreases curr.len() - i,
    {
        r.push(gained(prev_ticks, curr[i].pid, curr[i].cpu_ticks));
        i = i + 1;
    }
    r
}

/// Lists the processes by processor time, of which `total_d` ticks have passed.
/// The weights, one per process, are what they are ordered by: the larger the
/// share, the larger the weight.
pub fn diff_cpu_procs(
    curr: &[ProcSample],
    prev_ticks: &HashMap<u32, u64>,
    total_d: u64,
    weights: &[u64],
    filter_zero: bool,
    proc_limit: Option<usize>,
) -> (r: Vec<ProcCpuOut>)
    requires
        weights.len() == curr.len(),
    ensures
        r@ == cpu_list(curr@, prev_ticks@, total_d, weights@, filter_zero, proc_limit),
        filter_zero && total_d == 0 ==> r@.len() == 0,
{
    let gains = tick_gains(curr, prev_ticks);
    let mut rows: Vec<ProcCpuOut> = Vec::new();
    let mut keys: Vec<u64> = Vec::new();
    let mut i: usize = 0;
    let ghost mut shown: Seq<int> = seq![];
    assert(curr@.take(0) =~= seq![]);
    while i < curr.len()
        invariant
            i <= curr.len(),
            weights@.len() == curr@.len(),
            gains@ == ticks_used(curr@, prev_ticks@),
            shown == cpu_places(curr@.take(i as int), prev_ticks@, total_d, filter_zero),
            filter_zero && total_d == 0 ==> shown.len() == 0,
            forall|j: int| 0 <= j < shown.len() ==> 0 <= #[trigger] shown[j] < i,
            rows@ =~= cpu_rows(curr@, prev_ticks@, shown),
            keys@ =~= weights_at(weights@, shown),
        decreases curr.len() - i,
    {
        assert(curr@.take(i + 1).drop_last() =~= curr@.take(i as int));
        let dt = gains[i];
        if !(filter_zero && (total_d == 0 || dt == 0)) {
            rows.push(ProcCpuOut { pid: curr[i].pid, ticks: dt });
            keys.push(weights[i]);
            proof {
                shown = shown.push(i as int);
            }
        }
        i = i + 1;
    }
    assert(curr@.take(i as int) =~= curr@);
    assert(keys_of(keys@) =~= keys@);
    rank_rows(rows.as_slice(), keys.as_slice(), proc_limit)
}

/// Lists the processes by memory.
pub fn diff_mem_procs(
    curr: &[ProcSample],
    filter_zero: bool,
    proc_limit: Option<usize>,
) -> (r: Vec<ProcMemOut>)
    ensures
        r@ == mem_list(curr@, filter_zero, proc_limit),
{
    let mut rows: Vec<ProcMemOut> = Vec::new();
    let mut keys: Vec<u64> = Vec::new();
    let mut i: usize = 0;
    assert(curr@.take(0) =~= seq![]);
    while i < curr.len()
        invariant
            i <= curr.len(),
            rows@ == mem_rows(curr@.take(i as int), filter_zero),
            keys@ =~= rss_of(rows@),
        decreases curr.len() - i,
    {
        assert(curr@.take(i + 1).drop_last() =~= curr@.take(i as int));
        if !filter_zero || curr[i].rss_bytes > 0 {
            rows.push(ProcMemOut { pid: curr[i].pid, rss: curr[i].rss_bytes });
            keys.push(curr[i].rss_bytes);
        }
        i = i + 1;
    }
    assert(curr@.take(i as int) =~= curr@);
    assert(keys_of(keys@) =~= keys@);
    rank_rows(rows.as_slice(), keys.as_slice(), proc_limit)
}

/// Lists the processes of a graphics card by card memory.
pub fn diff_gpu_procs(
    procs: &[GpuProcSample],
    prev_ns: &HashMap<u32, u64>,
    filter_zero: bool,
    proc_limit: Option<usize>,
) -> (r: Vec<GpuProcOut>)
    ensures
        r@ == gpu_list(procs@, prev_ns@, filter_zero, proc_limit),
{
    let mut rows: Vec<GpuProcOut> = Vec::new();
    let mut keys: Vec<u64> = Vec::new();
    let mut i: usize = 0;
    assert(procs@.take(0) =~= seq![]);
    while i < procs.len()
        invariant
            i <= procs.len(),
            rows@ == gpu_rows(procs@.take(i as int), prev_ns@, filter_zero),
            keys@ =~= vram_of(rows@),
        decreases procs.len() - i,
    {
        assert(procs@.take(i + 1).drop_last() =~= procs@.take(i as int));
        if !filter_zero || procs[i].vram_kib > 0 {
            rows.push(
                GpuProcOut {
                    pid: procs[i].pid,
                    vram_kib: procs[i].vram_kib,
                    gfx_ns: gained(prev_ns, procs[i].pid, procs[i].engine_gfx_ns),
                },
            );
            keys.push(procs[i].vram_kib);
        }
        i = i + 1;
    }
    assert(procs@.take(i as int) =~= procs@);
    assert(keys_of(keys@) =~= keys@);
    rank_rows(rows.as_slice(), keys.as_slice(), proc_limit)
}

} // verus!
