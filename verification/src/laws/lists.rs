//! What the process lists say of the processes of two samples.

use vstd::prelude::*;

use super::picks::{
    lemma_places_where, lemma_ranked_places, places_where, ranked_places, tops,
};
use crate::proclist::{
    cpu_list, cpu_places, cpu_rows, gpu_list, gpu_rows, mem_list, mem_rows, ns_map, rss_of,
    ticks_map, ticks_used, vram_of, weights_at, GpuProcOut, ProcCpuOut, ProcMemOut,
};
use crate::rank::{law_ranking_exists, ranking};
use crate::walk::{GpuProcSample, ProcSample};

verus! {

/// Whether place `j` is the last of a process with this number.
pub open spec fn is_last_proc(s: Seq<ProcSample>, j: int, pid: u32) -> bool {
    &&& 0 <= j < s.len()
    &&& s[j].pid == pid
    &&& forall|k: int| j < k < s.len() ==> (#[trigger] s[k]).pid != pid
}

/// Whether place `j` is the last of a card's process with this number.
pub open spec fn is_last_gpu_proc(s: Seq<GpuProcSample>, j: int, pid: u32) -> bool {
    &&& 0 <= j < s.len()
    &&& s[j].pid == pid
    &&& forall|k: int| j < k < s.len() ==> (#[trigger] s[k]).pid != pid
}

/// The ticks that are noted for a process are those of its last sample, and
/// nothing is noted for a process without one.
pub proof fn law_noted_ticks(s: Seq<ProcSample>)
    ensures
        forall|j: int|
            is_last_proc(s, j, (#[trigger] s[j]).pid) ==> ticks_map(s).dom().contains(s[j].pid)
                && ticks_map(s)[s[j].pid] == s[j].cpu_ticks,
        forall|pid: u32| #[trigger]
            ticks_map(s).dom().contains(pid) ==> exists|j: int|
                0 <= j < s.len() && (#[trigger] s[j]).pid == pid,
    decreases s.len(),
{
    if s.len() > 0 {
        let rest = s.drop_last();
        law_noted_ticks(rest);
        assert(s[s.len() - 1] == s.last());
        assert forall|j: int| is_last_proc(s, j, (#[trigger] s[j]).pid) implies ticks_map(
            s,
        ).dom().contains(s[j].pid) && ticks_map(s)[s[j].pid] == s[j].cpu_ticks by {
            if j < rest.len() {
                assert(s[s.len() - 1].pid != s[j].pid);
                assert(is_last_proc(rest, j, rest[j].pid)) by {
                    assert forall|k: int| j < k < rest.len() implies (#[trigger] rest[k]).pid
                        != s[j].pid by {
                        assert(s[k].pid != s[j].pid);
                    }
                }
            }
        }
        assert forall|pid: u32| #[trigger] ticks_map(s).dom().contains(pid) implies exists|j: int|
            0 <= j < s.len() && (#[trigger] s[j]).pid == pid by {
            if pid == s.last().pid {
                assert(s[s.len() - 1].pid == pid);
            } else {
                assert(ticks_map(rest).dom().contains(pid));
                let j = choose|j: int| 0 <= j < rest.len() && (#[trigger] rest[j]).pid == pid;
                assert(s[j].pid == pid);
            }
        }
    }
}

/// The engine time that is noted for a process is that of its last sample, and
/// nothing is noted for a process without one.
pub proof fn law_noted_engine_times(s: Seq<GpuProcSample>)
    ensures
        forall|j: int|
            is_last_gpu_proc(s, j, (#[trigger] s[j]).pid) ==> ns_map(s).dom().contains(s[j].pid)
                && ns_map(s)[s[j].pid] == s[j].engine_gfx_ns,
        forall|pid: u32| #[trigger]
            ns_map(s).dom().contains(pid) ==> exists|j: int|
                0 <= j < s.len() && (#[trigger] s[j]).pid == pid,
    decreases s.len(),
{
    if s.len() > 0 {
        let rest = s.drop_last();
        law_noted_engine_times(rest);
        assert(s[s.len() - 1] == s.last());
        assert forall|j: int| is_last_gpu_proc(s, j, (#[trigger] s[j]).pid) implies ns_map(
            s,
        ).dom().contains(s[j].pid) && ns_map(s)[s[j].pid] == s[j].engine_gfx_ns by {
            if j < rest.len() {
                assert(s[s.len() - 1].pid != s[j].pid);
                assert(is_last_gpu_proc(rest, j, rest[j].pid)) by {
                    assert forall|k: int| j < k < rest.len() implies (#[trigger] rest[k]).pid
                        != s[j].pid by {
                        assert(s[k].pid != s[j].pid);
                    }
                }
            }
        }
        assert forall|pid: u32| #[trigger] ns_map(s).dom().contains(pid) implies exists|j: int|
            0 <= j < s.len() && (#[trigger] s[j]).pid == pid by {
            if pid == s.last().pid {
                assert(s[s.len() - 1].pid == pid);
            } else {
                assert(ns_map(rest).dom().contains(pid));
                let j = choose|j: int| 0 <= j < rest.len() && (#[trigger] rest[j]).pid == pid;
                assert(s[j].pid == pid);
            }
        }
    }
}

/// Whether `used` is how far a counter has gone on since it was noted for the
/// process: nothing where it went back, and nothing for a process that is new.
pub open spec fn is_used_since(used: u64, noted: Map<u32, u64>, pid: u32, now: u64) -> bool {
    &&& !noted.dom().contains(pid) ==> used == 0
    &&& noted.dom().contains(pid) && now >= noted[pid] ==> used + noted[pid] == now
    &&& noted.dom().contains(pid) && now < noted[pid] ==> used == 0
}

/// The ticks that each process has used are how far its counter has gone on since
/// it was noted.
pub proof fn law_ticks_used(curr: Seq<ProcSample>, noted: Map<u32, u64>, i: int)
    requires
        0 <= i < curr.len(),
    ensures
        ticks_used(curr, noted).len() == curr.len(),
        is_used_since(ticks_used(curr, noted)[i], noted, curr[i].pid, curr[i].cpu_ticks),
{
}

/// Whether a process has a share in the ticks that have passed: some have passed,
/// and its counter has gone on since it was noted.
pub open spec fn has_used_ticks(noted: Map<u32, u64>, p: ProcSample, total_d: u64) -> bool {
    total_d > 0 && noted.dom().contains(p.pid) && p.cpu_ticks > noted[p.pid]
}

/// Whether the rows are the top of the processes at these places by weight, each
/// with the ticks that it has used; with `nozero` only of those with a share in
/// the ticks that have passed.
pub open spec fn lists_cpu(
    rows: Seq<ProcCpuOut>,
    at: Seq<int>,
    curr: Seq<ProcSample>,
    noted: Map<u32, u64>,
    total_d: u64,
    weights: Seq<u64>,
    nozero: bool,
    limit: Option<usize>,
) -> bool {
    &&& rows.len() == at.len()
    &&& tops(
        at,
        curr.len(),
        |r: int| !nozero || has_used_ticks(noted, curr[r], total_d),
        |r: int| weights[r],
        limit,
    )
    &&& forall|k: int|
        0 <= k < rows.len() ==> (#[trigger] rows[k]).pid == curr[at[k]].pid && is_used_since(
            rows[k].ticks,
            noted,
            curr[at[k]].pid,
            curr[at[k]].cpu_ticks,
        )
}

proof fn lemma_cpu_wanted(
    curr: Seq<ProcSample>,
    noted: Map<u32, u64>,
    total_d: u64,
    nozero: bool,
    m: nat,
)
    requires
        m <= curr.len(),
    ensures
        cpu_places(curr.take(m as int), noted, total_d, nozero) == places_where(
            m,
            |r: int| !nozero || has_used_ticks(noted, curr[r], total_d),
        ),
    decreases m,
{
    if m > 0 {
        lemma_cpu_wanted(curr, noted, total_d, nozero, (m - 1) as nat);
        assert(curr.take(m as int).drop_last() =~= curr.take(m - 1));
    }
}

/// The list by processor time is the top of the processes by weight, each with
/// the ticks that its counter has gone on since it was noted; with `nozero` it
/// leaves out those without a share in the ticks that have passed.
pub proof fn law_what_the_cpu_list_shows(
    curr: Seq<ProcSample>,
    noted: Map<u32, u64>,
    total_d: u64,
    weights: Seq<u64>,
    nozero: bool,
    limit: Option<usize>,
)
    requires
        weights.len() == curr.len(),
    ensures
        exists|at: Seq<int>| #[trigger]
            lists_cpu(
                cpu_list(curr, noted, total_d, weights, nozero, limit),
                at,
                curr,
                noted,
                total_d,
                weights,
                nozero,
                limit,
            ),
{
    let wanted = |r: int| !nozero || has_used_ticks(noted, curr[r], total_d);
    let key = |r: int| weights[r];
    let shown = cpu_places(curr, noted, total_d, nozero);
    lemma_cpu_wanted(curr, noted, total_d, nozero, curr.len());
    assert(curr.take(curr.len() as int) =~= curr);
    lemma_places_where(curr.len(), wanted);
    lemma_ranked_places(shown, curr.len(), wanted, key, limit);
    let keys = weights_at(weights, shown);
    assert(keys =~= Seq::new(shown.len(), |i: int| key(shown[i])));
    let at = ranked_places(shown, keys, limit);
    let rows = cpu_list(curr, noted, total_d, weights, nozero, limit);
    law_ranking_exists(keys);
    assert forall|k: int| 0 <= k < rows.len() implies (#[trigger] rows[k]).pid == curr[at[k]].pid
        && is_used_since(rows[k].ticks, noted, curr[at[k]].pid, curr[at[k]].cpu_ticks) by {
        assert(0 <= ranking(keys)[k] < shown.len());
        assert(rows[k] == cpu_rows(curr, noted, shown)[ranking(keys)[k]]);
    }
    assert(lists_cpu(rows, at, curr, noted, total_d, weights, nozero, limit));
}

/// Whether the rows are the top of the processes at these places by resident
/// memory; with `nozero` only of those that hold any.
pub open spec fn lists_mem(
    rows: Seq<ProcMemOut>,
    at: Seq<int>,
    curr: Seq<ProcSample>,
    nozero: bool,
    limit: Option<usize>,
) -> bool {
    &&& rows.len() == at.len()
    &&& tops(
        at,
        curr.len(),
        |r: int| !nozero || curr[r].rss_bytes > 0,
        |r: int| curr[r].rss_bytes,
        limit,
    )
    &&& forall|k: int|
        0 <= k < rows.len() ==> (#[trigger] rows[k]).pid == curr[at[k]].pid && rows[k].rss
            == curr[at[k]].rss_bytes
}

proof fn lemma_mem_wanted(curr: Seq<ProcSample>, nozero: bool, m: nat)
    requires
        m <= curr.len(),
    ensures
        ({
            let rows = mem_rows(curr.take(m as int), nozero);
            let shown = places_where(m, |r: int| !nozero || curr[r].rss_bytes > 0);
            &&& rows.len() == shown.len()
            &&& forall|k: int|
                0 <= k < rows.len() ==> (#[trigger] rows[k]).pid == curr[shown[k]].pid
                    && rows[k].rss == curr[shown[k]].rss_bytes
        }),
    decreases m,
{
    if m > 0 {
        lemma_mem_wanted(curr, nozero, (m - 1) as nat);
        assert(curr.take(m as int).drop_last() =~= curr.take(m - 1));
        let wanted = |r: int| !nozero || curr[r].rss_bytes > 0;
        let a = mem_rows(curr.take(m - 1), nozero);
        let rows = mem_rows(curr.take(m as int), nozero);
        let shorter = places_where((m - 1) as nat, wanted);
        let shown = places_where(m, wanted);
        assert forall|k: int| 0 <= k < rows.len() implies (#[trigger] rows[k]).pid
            == curr[shown[k]].pid && rows[k].rss == curr[shown[k]].rss_bytes by {
            if k < a.len() {
                assert(rows[k] == a[k]);
                assert(shown[k] == shorter[k]);
            }
        }
    }
}

/// The list by memory is the top of the processes by resident memory; with
/// `nozero` it leaves out those that hold none.
pub proof fn law_what_the_mem_list_shows(
    curr: Seq<ProcSample>,
    nozero: bool,
    limit: Option<usize>,
)
    ensures
        exists|at: Seq<int>| #[trigger]
            lists_mem(mem_list(curr, nozero, limit), at, curr, nozero, limit),
{
    let wanted = |r: int| !nozero || curr[r].rss_bytes > 0;
    let key = |r: int| curr[r].rss_bytes;
    let all = mem_rows(curr, nozero);
    let shown = places_where(curr.len(), wanted);
    lemma_mem_wanted(curr, nozero, curr.len());
    assert(curr.take(curr.len() as int) =~= curr);
    lemma_places_where(curr.len(), wanted);
    lemma_ranked_places(shown, curr.len(), wanted, key, limit);
    let keys = rss_of(all);
    assert(keys =~= Seq::new(shown.len(), |i: int| key(shown[i])));
    let at = ranked_places(shown, keys, limit);
    let rows = mem_list(curr, nozero, limit);
    law_ranking_exists(keys);
    assert forall|k: int| 0 <= k < rows.len() implies (#[trigger] rows[k]).pid == curr[at[k]].pid
        && rows[k].rss == curr[at[k]].rss_bytes by {
        assert(0 <= ranking(keys)[k] < shown.len());
        assert(rows[k] == all[ranking(keys)[k]]);
    }
    assert(lists_mem(rows, at, curr, nozero, limit));
}

/// Whether the rows are the top of the processes at these places by card memory,
/// each with the engine time that it has used; with `nozero` only of those that
/// hold any card memory.
pub open spec fn lists_gpu(
    rows: Seq<GpuProcOut>,
    at: Seq<int>,
    procs: Seq<GpuProcSample>,
    noted: Map<u32, u64>,
    nozero: bool,
    limit: Option<usize>,
) -> bool {
    &&& rows.len() == at.len()
    &&& tops(
        at,
        procs.len(),
        |r: int| !nozero || procs[r].vram_kib > 0,
        |r: int| procs[r].vram_kib,
        limit,
    )
    &&& forall|k: int|
        0 <= k < rows.len() ==> (#[trigger] rows[k]).pid == procs[at[k]].pid && rows[k].vram_kib
            == procs[at[k]].vram_kib && is_used_since(
            rows[k].gfx_ns,
            noted,
            procs[at[k]].pid,
            procs[at[k]].engine_gfx_ns,
        )
}

proof fn lemma_gpu_wanted(procs: Seq<GpuProcSample>, noted: Map<u32, u64>, nozero: bool, m: nat)
    requires
        m <= procs.len(),
    ensures
        ({
            let rows = gpu_rows(procs.take(m as int), noted, nozero);
            let shown = places_where(m, |r: int| !nozero || procs[r].vram_kib > 0);
            &&& rows.len() == shown.len()
            &&& forall|k: int|
                0 <= k < rows.len() ==> (#[trigger] rows[k]).pid == procs[shown[k]].pid
                    && rows[k].vram_kib == procs[shown[k]].vram_kib && is_used_since(
                    rows[k].gfx_ns,
                    noted,
                    procs[shown[k]].pid,
                    procs[shown[k]].engine_gfx_ns,
                )
        }),
    decreases m,
{
    if m > 0 {
        lemma_gpu_wanted(procs, noted, nozero, (m - 1) as nat);
        assert(procs.take(m as int).drop_last() =~= procs.take(m - 1));
        let wanted = |r: int| !nozero || procs[r].vram_kib > 0;
        let a = gpu_rows(procs.take(m - 1), noted, nozero);
        let rows = gpu_rows(procs.take(m as int), noted, nozero);
        let shorter = places_where((m - 1) as nat, wanted);
        let shown = places_where(m, wanted);
        assert forall|k: int| 0 <= k < rows.len() implies (#[trigger] rows[k]).pid
            == procs[shown[k]].pid && rows[k].vram_kib == procs[shown[k]].vram_kib
            && is_used_since(
            rows[k].gfx_ns,
            noted,
            procs[shown[k]].pid,
            procs[shown[k]].engine_gfx_ns,
        ) by {
            if k < a.len() {
                assert(rows[k] == a[k]);
                assert(shown[k] == shorter[k]);
            }
        }
    }
}

/// The list of a card is the top of its processes by card memory, each with the
/// engine time that its counter has gone on since it was noted; with `nozero` it
/// leaves out those that hold no card memory.
pub proof fn law_what_the_gpu_list_shows(
    procs: Seq<GpuProcSample>,
    noted: Map<u32, u64>,
    nozero: bool,
    limit: Option<usize>,
)
    ensures
        exists|at: Seq<int>| #[trigger]
            lists_gpu(gpu_list(procs, noted, nozero, limit), at, procs, noted, nozero, limit),
{
    let wanted = |r: int| !nozero || procs[r].vram_kib > 0;
    let key = |r: int| procs[r].vram_kib;
    let all = gpu_rows(procs, noted, nozero);
    let shown = places_where(procs.len(), wanted);
    lemma_gpu_wanted(procs, noted, nozero, procs.len());
    assert(procs.take(procs.len() as int) =~= procs);
    lemma_places_where(procs.len(), wanted);
    lemma_ranked_places(shown, procs.len(), wanted, key, limit);
    let keys = vram_of(all);
    assert(keys =~= Seq::new(shown.len(), |i: int| key(shown[i])));
    let at = ranked_places(shown, keys, limit);
    let rows = gpu_list(procs, noted, nozero, limit);
    law_ranking_exists(keys);
    assert forall|k: int| 0 <= k < rows.len() implies (#[trigger] rows[k]).pid == procs[at[k]].pid
        && rows[k].vram_kib == procs[at[k]].vram_kib && is_used_since(
        rows[k].gfx_ns,
        noted,
        procs[at[k]].pid,
        procs[at[k]].engine_gfx_ns,
    ) by {
        assert(0 <= ranking(keys)[k] < shown.len());
        assert(rows[k] == all[ranking(keys)[k]]);
    }
    assert(lists_gpu(rows, at, procs, noted, nozero, limit));
}

} // verus!
