//! What the sections that are shown at a tick say of the two samples.

use vstd::prelude::*;

use super::lists::{
    law_what_the_cpu_list_shows, law_what_the_gpu_list_shows, law_what_the_mem_list_shows,
    lists_cpu, lists_gpu, lists_mem,
};
use super::rates::{
    is_last_iface, law_device_rates, law_interface_rates, shows_devs, shows_iface, shows_ifaces,
};
use crate::diff::{
    gpu_cards, gpu_named, net_rates, net_rates_fit, shown, shown_fits, ticks_between,
};
use crate::disk::{disk_rates_fit, law_disk_tree_nests_every_device};
use crate::proclist::{cpu_list, gpu_list, mem_list, ns_map, ticks_map};
use crate::request::Request;
use crate::sample::{GpuView, SampleView};
use crate::tree::{flat, nested};

verus! {

/// The ticks that are shown are how far the counter of all ticks has gone on.
/// Where it has, and no more of them were idle, the busy ticks are the rest: with
/// the gain of the idle counter they make all ticks.
pub proof fn law_busy_and_idle_make_all_ticks(
    prev: SampleView,
    curr: SampleView,
    req: Request,
    elapsed_ns: u64,
    weights: Seq<u64>,
)
    requires
        req.cpu,
    ensures
        ({
            let c = shown(prev, curr, req, elapsed_ns, weights).cpu->0;
            &&& curr.cpu.total >= prev.cpu.total ==> c.total_ticks + prev.cpu.total
                == curr.cpu.total
            &&& curr.cpu.total <= prev.cpu.total ==> c.total_ticks == 0 && c.busy_ticks == 0
            &&& curr.cpu.total > prev.cpu.total && curr.cpu.idle >= prev.cpu.idle && curr.cpu.idle
                - prev.cpu.idle <= curr.cpu.total - prev.cpu.total ==> c.busy_ticks + (
            curr.cpu.idle - prev.cpu.idle) == curr.cpu.total - prev.cpu.total
            &&& curr.cpu.total > prev.cpu.total && curr.cpu.idle < prev.cpu.idle ==> c.busy_ticks
                == c.total_ticks
            &&& c.load == curr.load
        }),
{
}

/// The ticks between two samples are how far the counter of all ticks has gone
/// on, and nothing where it went back.
pub proof fn law_ticks_between_samples(prev: SampleView, curr: SampleView)
    ensures
        curr.cpu.total >= prev.cpu.total ==> ticks_between(prev, curr) + prev.cpu.total
            == curr.cpu.total,
        curr.cpu.total < prev.cpu.total ==> ticks_between(prev, curr) == 0,
{
}

/// The list of the processor section is the top of the processes of the later
/// sample, with what they have used since the earlier one; without `procs` there
/// is none.
pub proof fn law_the_cpu_section_lists_the_processes(
    prev: SampleView,
    curr: SampleView,
    req: Request,
    elapsed_ns: u64,
    weights: Seq<u64>,
)
    requires
        req.cpu,
        weights.len() == curr.procs.len(),
    ensures
        !req.procs ==> (shown(prev, curr, req, elapsed_ns, weights).cpu->0).procs.len() == 0,
        req.procs ==> exists|at: Seq<int>| #[trigger]
            lists_cpu(
                (shown(prev, curr, req, elapsed_ns, weights).cpu->0).procs,
                at,
                curr.procs,
                ticks_map(prev.procs),
                (shown(prev, curr, req, elapsed_ns, weights).cpu->0).total_ticks,
                weights,
                req.filter_zero,
                req.proc_limit,
            ),
{
    let c = shown(prev, curr, req, elapsed_ns, weights).cpu->0;
    let (noted, total) = (ticks_map(prev.procs), c.total_ticks);
    let (nozero, limit) = (req.filter_zero, req.proc_limit);
    let rows = cpu_list(curr.procs, noted, total, weights, nozero, limit);
    law_what_the_cpu_list_shows(curr.procs, noted, total, weights, nozero, limit);
    let at = choose|at: Seq<int>| #[trigger]
        lists_cpu(rows, at, curr.procs, noted, total, weights, nozero, limit);
    if req.procs {
        assert(c.procs == rows);
        assert(lists_cpu(c.procs, at, curr.procs, noted, total, weights, nozero, limit));
    }
}

/// Used and available memory make all memory, and used and free swap all swap;
/// where more is said to be left than there is, none is used.
pub proof fn law_used_and_free_make_all_memory(
    prev: SampleView,
    curr: SampleView,
    req: Request,
    elapsed_ns: u64,
    weights: Seq<u64>,
)
    requires
        req.mem,
    ensures
        ({
            let m = shown(prev, curr, req, elapsed_ns, weights).memory->0;
            &&& m.total_bytes == curr.mem.total_bytes
            &&& m.swap_total_bytes == curr.mem.swap_total_bytes
            &&& curr.mem.available_bytes <= curr.mem.total_bytes ==> m.used_bytes
                + curr.mem.available_bytes == curr.mem.total_bytes
            &&& curr.mem.available_bytes > curr.mem.total_bytes ==> m.used_bytes == 0
            &&& curr.mem.swap_free_bytes <= curr.mem.swap_total_bytes ==> m.swap_used_bytes
                + curr.mem.swap_free_bytes == curr.mem.swap_total_bytes
            &&& curr.mem.swap_free_bytes > curr.mem.swap_total_bytes ==> m.swap_used_bytes == 0
        }),
{
}

/// The list of the memory section is the top of the processes of the later
/// sample; without `procs` there is none.
pub proof fn law_the_mem_section_lists_the_processes(
    prev: SampleView,
    curr: SampleView,
    req: Request,
    elapsed_ns: u64,
    weights: Seq<u64>,
)
    requires
        req.mem,
    ensures
        !req.procs ==> (shown(prev, curr, req, elapsed_ns, weights).memory->0).procs.len() == 0,
        req.procs ==> exists|at: Seq<int>| #[trigger]
            lists_mem(
                (shown(prev, curr, req, elapsed_ns, weights).memory->0).procs,
                at,
                curr.procs,
                req.filter_zero,
                req.proc_limit,
            ),
{
    let (nozero, limit) = (req.filter_zero, req.proc_limit);
    let m = shown(prev, curr, req, elapsed_ns, weights).memory->0;
    let rows = mem_list(curr.procs, nozero, limit);
    law_what_the_mem_list_shows(curr.procs, nozero, limit);
    let at = choose|at: Seq<int>| #[trigger] lists_mem(rows, at, curr.procs, nozero, limit);
    if req.procs {
        assert(m.procs == rows);
        assert(lists_mem(m.procs, at, curr.procs, nozero, limit));
    }
}

/// Whether place `j` is the first of a card with this name.
pub open spec fn is_first_gpu(s: Seq<GpuView>, j: int, card: Seq<char>) -> bool {
    &&& 0 <= j < s.len()
    &&& s[j].card == card
    &&& forall|k: int| 0 <= k < j ==> (#[trigger] s[k]).card != card
}

proof fn lemma_gpu_named(s: Seq<GpuView>, card: Seq<char>)
    ensures
        (forall|k: int| 0 <= k < s.len() ==> (#[trigger] s[k]).card != card) ==> gpu_named(
            s,
            card,
        ) is None,
        forall|j: int| #[trigger] is_first_gpu(s, j, card) ==> gpu_named(s, card) == Some(s[j]),
    decreases s.len(),
{
    if s.len() > 0 && s[0].card != card {
        let rest = s.skip(1);
        lemma_gpu_named(rest, card);
        if forall|k: int| 0 <= k < s.len() ==> (#[trigger] s[k]).card != card {
            assert forall|k: int| 0 <= k < rest.len() implies (#[trigger] rest[k]).card != card by {
                assert(s[k + 1].card != card);
            }
        }
        assert forall|j: int| #[trigger] is_first_gpu(s, j, card) implies gpu_named(s, card)
            == Some(s[j]) by {
            assert(is_first_gpu(rest, j - 1, card)) by {
                assert forall|k: int| 0 <= k < j - 1 implies (#[trigger] rest[k]).card != card by {
                    assert(s[k + 1].card != card);
                }
            }
        }
    } else if s.len() > 0 {
        assert forall|j: int| #[trigger] is_first_gpu(s, j, card) implies j == 0 by {
            if j > 0 {
                assert(s[0].card != card);
            }
        }
    }
}

/// Each card of the later sample is shown, in its place, in the state in which it
/// was sampled and with the top of its own processes; what these have used is
/// counted from the earlier sample of the card with the same name, and is nothing
/// where that lacks it.
pub proof fn law_the_gpu_section_shows_each_card(
    prev: SampleView,
    curr: SampleView,
    req: Request,
    elapsed_ns: u64,
    weights: Seq<u64>,
    i: int,
)
    requires
        req.gpu,
        0 <= i < curr.gpus.len(),
    ensures
        (shown(prev, curr, req, elapsed_ns, weights).gpu->0).len() == curr.gpus.len(),
        ({
            let g = (shown(prev, curr, req, elapsed_ns, weights).gpu->0)[i];
            let x = curr.gpus[i];
            &&& g.card == x.card
            &&& g.stats == x.stats
            &&& !req.procs ==> g.procs.len() == 0
            &&& req.procs && (forall|k: int|
                0 <= k < prev.gpus.len() ==> (#[trigger] prev.gpus[k]).card != x.card)
                ==> exists|at: Seq<int>| #[trigger]
                lists_gpu(
                    g.procs,
                    at,
                    x.procs,
                    Map::empty(),
                    req.filter_zero,
                    req.proc_limit,
                )
            &&& forall|j: int|
                req.procs && #[trigger] is_first_gpu(prev.gpus, j, x.card) ==> exists|at: Seq<int>|
                    #[trigger]
                    lists_gpu(
                        g.procs,
                        at,
                        x.procs,
                        ns_map(prev.gpus[j].procs),
                        req.filter_zero,
                        req.proc_limit,
                    )
        }),
{
    let x = curr.gpus[i];
    let g = (shown(prev, curr, req, elapsed_ns, weights).gpu->0)[i];
    assert(g == gpu_cards(prev.gpus, curr.gpus, req)[i]);
    let (nozero, limit) = (req.filter_zero, req.proc_limit);
    lemma_gpu_named(prev.gpus, x.card);
    let none = Map::<u32, u64>::empty();
    law_what_the_gpu_list_shows(x.procs, none, nozero, limit);
    let fresh = choose|at: Seq<int>| #[trigger]
        lists_gpu(gpu_list(x.procs, none, nozero, limit), at, x.procs, none, nozero, limit);
    if req.procs && gpu_named(prev.gpus, x.card) is None {
        assert(g.procs == gpu_list(x.procs, none, nozero, limit));
        assert(lists_gpu(g.procs, fresh, x.procs, none, nozero, limit));
    }
    assert forall|j: int|
        req.procs && #[trigger] is_first_gpu(prev.gpus, j, x.card) implies exists|at: Seq<int>|
        #[trigger]
        lists_gpu(
            g.procs,
            at,
            x.procs,
            ns_map(prev.gpus[j].procs),
            req.filter_zero,
            req.proc_limit,
        ) by {
        let noted = ns_map(prev.gpus[j].procs);
        let rows = gpu_list(x.procs, noted, nozero, limit);
        law_what_the_gpu_list_shows(x.procs, noted, nozero, limit);
        let at = choose|at: Seq<int>| #[trigger]
            lists_gpu(rows, at, x.procs, noted, nozero, limit);
        assert(g.procs == rows);
        assert(lists_gpu(g.procs, at, x.procs, noted, nozero, limit));
    }
}

/// The network section shows the interfaces of the later sample, with what they
/// have carried since the earlier one.
pub proof fn law_the_net_section_shows_each_interface(
    prev: SampleView,
    curr: SampleView,
    req: Request,
    elapsed_ns: u64,
    weights: Seq<u64>,
)
    requires
        req.net,
    ensures
        exists|at: Seq<int>| #[trigger]
            shows_ifaces(
                shown(prev, curr, req, elapsed_ns, weights).net->0,
                prev.net,
                curr.net,
                elapsed_ns,
                at,
            ),
{
    let rows = net_rates(prev.net, curr.net, elapsed_ns);
    law_interface_rates(prev.net, curr.net, elapsed_ns);
    let at = choose|at: Seq<int>| #[trigger]
        shows_ifaces(rows, prev.net, curr.net, elapsed_ns, at);
    assert(shows_ifaces(
        shown(prev, curr, req, elapsed_ns, weights).net->0,
        prev.net,
        curr.net,
        elapsed_ns,
        at,
    ));
}

/// The disk section is a tree of the devices of the later sample, with what they
/// have moved since the earlier one, each under the device whose name is the
/// longest proper prefix of its own.
pub proof fn law_the_disk_section_shows_each_device(
    prev: SampleView,
    curr: SampleView,
    req: Request,
    elapsed_ns: u64,
    weights: Seq<u64>,
)
    requires
        req.disk,
    ensures
        ({
            let tree = shown(prev, curr, req, elapsed_ns, weights).disk->0;
            &&& shows_devs(flat(tree), prev.disk, curr.disk, elapsed_ns)
            &&& nested(tree, flat(tree), None)
        }),
{
    law_device_rates(prev.disk, curr.disk, elapsed_ns);
    law_disk_tree_nests_every_device(prev.disk, curr.disk, elapsed_ns);
}

/// What is asked for can be shown exactly if the rates are numbers of 64 bits and
/// no more ticks were idle than have passed.
pub proof fn law_what_can_be_shown(
    prev: SampleView,
    curr: SampleView,
    req: Request,
    elapsed_ns: u64,
)
    ensures
        shown_fits(prev, curr, req, elapsed_ns) <==> {
            &&& req.cpu && curr.cpu.total > prev.cpu.total && curr.cpu.idle > prev.cpu.idle
                ==> curr.cpu.idle - prev.cpu.idle <= curr.cpu.total - prev.cpu.total
            &&& req.net ==> net_rates_fit(prev.net, curr.net, elapsed_ns)
            &&& req.disk ==> disk_rates_fit(prev.disk, curr.disk, elapsed_ns)
        },
{
}

/// Between a sample and itself no interface has carried anything, where their
/// names differ.
pub proof fn law_interfaces_standing_still(
    s: SampleView,
    req: Request,
    elapsed_ns: u64,
    weights: Seq<u64>,
    k: int,
)
    requires
        req.net,
        0 <= k < s.net.len(),
        forall|i: int, j: int|
            0 <= i < j < s.net.len() ==> (#[trigger] s.net[i]).name != (#[trigger] s.net[j]).name,
    ensures
        (shown(s, s, req, elapsed_ns, weights).net->0).len() == s.net.len(),
        (shown(s, s, req, elapsed_ns, weights).net->0)[k].rx_bytes_per_sec == 0,
        (shown(s, s, req, elapsed_ns, weights).net->0)[k].tx_bytes_per_sec == 0,
{
    let rows = shown(s, s, req, elapsed_ns, weights).net->0;
    law_the_net_section_shows_each_interface(s, s, req, elapsed_ns, weights);
    let at = choose|at: Seq<int>| #[trigger] shows_ifaces(rows, s.net, s.net, elapsed_ns, at);
    assert(shows_iface(rows[k], s.net, s.net[at[k]], elapsed_ns));
    assert(is_last_iface(s.net, at[k], s.net[at[k]].name));
    if elapsed_ns > 0 {
        let rx = rows[k].rx_bytes_per_sec as int;
        let tx = rows[k].tx_bytes_per_sec as int;
        let e = elapsed_ns as int;
        assert(rx == 0 && tx == 0) by (nonlinear_arith)
            requires
                rx * e <= 0,
                tx * e <= 0,
                rx >= 0,
                tx >= 0,
                e > 0,
        ;
    }
}

} // verus!
