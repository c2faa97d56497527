//! What is shown at a tick: the sections that were asked for, made of the last
//! sample and the one before.

use vstd::prelude::*;

use crate::disk::{diff_disk, diff_disk_fits, disk_rates_fit, disk_tree};
use crate::gpu::CardStats;
use crate::procfs::{ifaces, IfaceSample, IfaceView};
use crate::proclist::{
    cpu_list, diff_cpu_procs, diff_gpu_procs, diff_mem_procs, gain_since, gpu_list, mem_list,
    note_ns, note_ticks, ns_map, tick_gains, ticks_map, ticks_used, GpuProcOut, ProcCpuOut,
    ProcMemOut,
};
use crate::rank::{labels, ranked, sort_by_name, views, Named};
use crate::rate::{bytes_per_sec, bytes_per_sec_fits, gain, rate, rate_fits};
use crate::request::Request;
use crate::sample::{gpus_of, GpuSample, GpuView, Sample, SampleView};
use crate::text::{clone_opt, opt_text};
use crate::tree::{nodes, DiskNode, DiskOut};

verus! {

/// Processor time. The busy ticks are a share of the total ticks.
#[derive(Debug, PartialEq, Eq)]
pub struct CpuOut {
    pub busy_ticks: u64,
    pub total_ticks: u64,
    /// The load average, as it is written.
    pub load: Option<String>,
    pub procs: Vec<ProcCpuOut>,
}

/// What a `CpuOut` says.
pub struct CpuOutView {
    pub busy_ticks: u64,
    pub total_ticks: u64,
    pub load: Option<Seq<char>>,
    pub procs: Seq<ProcCpuOut>,
}

impl View for CpuOut {
    type V = CpuOutView;

    open spec fn view(&self) -> CpuOutView {
        CpuOutView {
            busy_ticks: self.busy_ticks,
            total_ticks: self.total_ticks,
            load: opt_text(self.load),
            procs: self.procs@,
        }
    }
}

/// Memory and swap.
#[derive(Debug, PartialEq, Eq)]
pub struct MemOut {
    pub used_bytes: u64,
    pub total_bytes: u64,
    pub swap_used_bytes: u64,
    pub swap_total_bytes: u64,
    pub procs: Vec<ProcMemOut>,
}

/// What a `MemOut` says.
pub struct MemOutView {
    pub used_bytes: u64,
    pub total_bytes: u64,
    pub swap_used_bytes: u64,
    pub swap_total_bytes: u64,
    pub procs: Seq<ProcMemOut>,
}

impl View for MemOut {
    type V = MemOutView;

    open spec fn view(&self) -> MemOutView {
        MemOutView {
            used_bytes: self.used_bytes,
            total_bytes: self.total_bytes,
            swap_used_bytes: self.swap_used_bytes,
            swap_total_bytes: self.swap_total_bytes,
            procs: self.procs@,
        }
    }
}

/// One graphics card.
#[derive(Debug, PartialEq, Eq)]
pub struct GpuOut {
    pub card: String,
    pub stats: CardStats,
    pub procs: Vec<GpuProcOut>,
}

/// What a `GpuOut` says.
pub struct GpuOutView {
    pub card: Seq<char>,
    pub stats: CardStats,
    pub procs: Seq<GpuProcOut>,
}

impl View for GpuOut {
    type V = GpuOutView;

    open spec fn view(&self) -> GpuOutView {
        GpuOutView { card: self.card@, stats: self.stats, procs: self.procs@ }
    }
}

/// What a list of cards says.
pub open spec fn gpu_outs(v: Seq<GpuOut>) -> Seq<GpuOutView> {
    Seq::new(v.len(), |i: int| v[i]@)
}

/// One network interface.
#[derive(Debug, PartialEq, Eq)]
pub struct IfaceOut {
    pub name: String,
    pub rx_bytes_per_sec: u64,
    pub tx_bytes_per_sec: u64,
}

/// What an `IfaceOut` says.
pub struct IfaceOutView {
    pub name: Seq<char>,
    pub rx_bytes_per_sec: u64,
    pub tx_bytes_per_sec: u64,
}

impl View for IfaceOut {
    type V = IfaceOutView;

    open spec fn view(&self) -> IfaceOutView {
        IfaceOutView {
            name: self.name@,
            rx_bytes_per_sec: self.rx_bytes_per_sec,
            tx_bytes_per_sec: self.tx_bytes_per_sec,
        }
    }
}

/// Interfaces are listed by name.
impl Named for IfaceOut {
    open spec fn label(&self) -> Seq<char> {
        self.name@
    }

    fn label_text(&self) -> (r: &String) {
        &self.name
    }

    fn duplicate(&self) -> (r: Self) {
        IfaceOut {
            name: self.name.clone(),
            rx_bytes_per_sec: self.rx_bytes_per_sec,
            tx_bytes_per_sec: self.tx_bytes_per_sec,
        }
    }
}

/// What a list of interfaces says.
pub open spec fn iface_outs(v: Seq<IfaceOut>) -> Seq<IfaceOutView> {
    Seq::new(v.len(), |i: int| v[i]@)
}

/// What is shown at a tick. A section that was not asked for is absent.
#[derive(Debug, PartialEq, Eq)]
pub struct Output {
    pub cpu: Option<CpuOut>,
    pub memory: Option<MemOut>,
    pub gpu: Option<Vec<GpuOut>>,
    pub net: Option<Vec<IfaceOut>>,
    pub disk: Option<Vec<DiskOut>>,
}

/// What an `Output` says.
pub struct OutputView {
    pub cpu: Option<CpuOutView>,
    pub memory: Option<MemOutView>,
    pub gpu: Option<Seq<GpuOutView>>,
    pub net: Option<Seq<IfaceOutView>>,
    pub disk: Option<Seq<DiskNode>>,
}

impl View for Output {
    type V = OutputView;

    open spec fn view(&self) -> OutputView {
        OutputView {
            cpu: match self.cpu {
                Some(x) => Some(x@),
                None => None,
            },
            memory: match self.memory {
                Some(x) => Some(x@),
                None => None,
            },
            gpu: match self.gpu {
                Some(x) => Some(gpu_outs(x@)),
                None => None,
            },
            net: match self.net {
                Some(x) => Some(iface_outs(x@)),
                None => None,
            },
            disk: match self.disk {
                Some(x) => Some(nodes(x@)),
                None => None,
            },
        }
    }
}

/// The last interface of a list with this name.
pub open spec fn iface_named(s: Seq<IfaceView>, name: Seq<char>) -> Option<IfaceView>
    decreases s.len(),
{
    if s.len() == 0 {
        None
    } else if s.last().name == name {
        Some(s.last())
    } else {
        iface_named(s.drop_last(), name)
    }
}

/// What an interface has received since the earlier list; nothing where that
/// lacks it.
pub open spec fn rx_gain(prev: Seq<IfaceView>, i: IfaceView) -> u64 {
    match iface_named(prev, i.name) {
        Some(p) => gain(i.rx_bytes, p.rx_bytes),
        None => 0,
    }
}

/// What an interface has sent since the earlier list; nothing where that lacks
/// it.
pub open spec fn tx_gain(prev: Seq<IfaceView>, i: IfaceView) -> u64 {
    match iface_named(prev, i.name) {
        Some(p) => gain(i.tx_bytes, p.tx_bytes),
        None => 0,
    }
}

/// The rates of an interface since the earlier list.
pub open spec fn iface_rate(
    prev: Seq<IfaceView>,
    i: IfaceView,
    elapsed_ns: u64,
) -> IfaceOutView {
    IfaceOutView {
        name: i.name,
        rx_bytes_per_sec: rate(rx_gain(prev, i), elapsed_ns),
        tx_bytes_per_sec: rate(tx_gain(prev, i), elapsed_ns),
    }
}

/// The rates of all interfaces, in the order in which they are listed.
pub open spec fn iface_rates(
    prev: Seq<IfaceView>,
    curr: Seq<IfaceView>,
    elapsed_ns: u64,
) -> Seq<IfaceOutView> {
    Seq::new(curr.len(), |i: int| iface_rate(prev, curr[i], elapsed_ns))
}

/// The names of a list of interfaces.
pub open spec fn iface_names(s: Seq<IfaceView>) -> Seq<Seq<char>> {
    Seq::new(s.len(), |i: int| s[i].name)
}

/// The rates of all interfaces, by name.
pub open spec fn net_rates(
    prev: Seq<IfaceView>,
    curr: Seq<IfaceView>,
    elapsed_ns: u64,
) -> Seq<IfaceOutView> {
    ranked(iface_rates(prev, curr, elapsed_ns), iface_names(curr), None)
}

/// Whether the rates of all interfaces are numbers of 64 bits.
pub open spec fn net_rates_fit(
    prev: Seq<IfaceView>,
    curr: Seq<IfaceView>,
    elapsed_ns: u64,
) -> bool {
    forall|i: int| #![trigger curr[i]]
        0 <= i < curr.len() ==> rate_fits(rx_gain(prev, curr[i]), elapsed_ns) && rate_fits(
            tx_gain(prev, curr[i]),
            elapsed_ns,
        )
}

/// The first card of a list with this name.
pub open spec fn gpu_named(s: Seq<GpuView>, card: Seq<char>) -> Option<GpuView>
    decreases s.len(),
{
    if s.len() == 0 {
        None
    } else if s[0].card == card {
        Some(s[0])
    } else {
        gpu_named(s.skip(1), card)
    }
}

/// The engine times that were noted for the processes of this card.
pub open spec fn noted_ns(prev: Seq<GpuView>, card: Seq<char>) -> Map<u32, u64> {
    match gpu_named(prev, card) {
        Some(g) => ns_map(g.procs),
        None => Map::empty(),
    }
}

/// What is shown of one card.
pub open spec fn gpu_card(
    g: GpuView,
    prev: Seq<GpuView>,
    include_procs: bool,
    filter_zero: bool,
    proc_limit: Option<usize>,
) -> GpuOutView {
    GpuOutView {
        card: g.card,
        stats: g.stats,
        procs: if include_procs {
            gpu_list(g.procs, noted_ns(prev, g.card), filter_zero, proc_limit)
        } else {
            seq![]
        },
    }
}

/// What is shown of all cards.
pub open spec fn gpu_cards(
    prev: Seq<GpuView>,
    curr: Seq<GpuView>,
    req: Request,
) -> Seq<GpuOutView> {
    Seq::new(
        curr.len(),
        |i: int| gpu_card(curr[i], prev, req.procs, req.filter_zero, req.proc_limit),
    )
}

/// The ticks that have passed between two samples.
pub open spec fn ticks_between(prev: SampleView, curr: SampleView) -> u64 {
    gain(curr.cpu.total, prev.cpu.total)
}

/// What is shown of processor time.
pub open spec fn cpu_section(
    prev: SampleView,
    curr: SampleView,
    req: Request,
    weights: Seq<u64>,
) -> CpuOutView {
    let total = ticks_between(prev, curr);
    CpuOutView {
        busy_ticks: if total > 0 {
            (total - gain(curr.cpu.idle, prev.cpu.idle)) as u64
        } else {
            0
        },
        total_ticks: total,
        load: curr.load,
        procs: if req.procs {
            cpu_list(
                curr.procs,
                ticks_map(prev.procs),
                total,
                weights,
                req.filter_zero,
                req.proc_limit,
            )
        } else {
            seq![]
        },
    }
}

/// What is shown of memory.
pub open spec fn mem_section(curr: SampleView, req: Request) -> MemOutView {
    MemOutView {
        used_bytes: gain(curr.mem.total_bytes, curr.mem.available_bytes),
        total_bytes: curr.mem.total_bytes,
        swap_used_bytes: gain(curr.mem.swap_total_bytes, curr.mem.swap_free_bytes),
        swap_total_bytes: curr.mem.swap_total_bytes,
        procs: if req.procs {
            mem_list(curr.procs, req.filter_zero, req.proc_limit)
        } else {
            seq![]
        },
    }
}

/// What is shown at a tick.
pub open spec fn shown(
    prev: SampleView,
    curr: SampleView,
    req: Request,
    elapsed_ns: u64,
    weights: Seq<u64>,
) -> OutputView {
    OutputView {
        cpu: if req.cpu {
            Some(cpu_section(prev, curr, req, weights))
        } else {
            None
        },
        memory: if req.mem {
            Some(mem_section(curr, req))
        } else {
            None
        },
        gpu: if req.gpu {
            Some(gpu_cards(prev.gpus, curr.gpus, req))
        } else {
            None
        },
        net: if req.net {
            Some(net_rates(prev.net, curr.net, elapsed_ns))
        } else {
            None
        },
        disk: if req.disk {
            Some(disk_tree(prev.disk, curr.disk, elapsed_ns))
        } else {
            None
        },
    }
}

/// Whether the processor was idle for no longer than time has passed. Counters
/// that go back can break that.
pub open spec fn ticks_add_up(prev: SampleView, curr: SampleView) -> bool {
    let total = gain(curr.cpu.total, prev.cpu.total);
    total > 0 ==> gain(curr.cpu.idle, prev.cpu.idle) <= total
}

/// Whether all numbers that are shown are unsigned numbers of 64 bits.
pub open spec fn shown_fits(
    prev: SampleView,
    curr: SampleView,
    req: Request,
    elapsed_ns: u64,
) -> bool {
    &&& req.cpu ==> ticks_add_up(prev, curr)
    &&& req.net ==> net_rates_fit(prev.net, curr.net, elapsed_ns)
    &&& req.disk ==> disk_rates_fit(prev.disk, curr.disk, elapsed_ns)
}

/// The place of the last interface with this name.
fn find_iface(s: &[IfaceSample], name: &String) -> (r: Option<usize>)
    ensures
        match r {
            Some(i) => i < s.len() && iface_named(ifaces(s@), name@) == Some(s@[i as int]@),
            None => iface_named(ifaces(s@), name@) is None,
        },
{
    let ghost all = ifaces(s@);
    let mut i: usize = s.len();
    assert(all.take(i as int) =~= all);
    while i > 0
        invariant
            i <= s.len(),
            all == ifaces(s@),
            iface_named(all, name@) == iface_named(all.take(i as int), name@),
        decreases i,
    {
        assert(all.take(i as int).drop_last() =~= all.take(i - 1));
        assert(all.take(i as int).last() == s@[i - 1]@);
        if s[i - 1].name == *name {
            return Some(i - 1);
        }
        i = i - 1;
    }
    None
}

/// What an interface has received and sent since the earlier list.
fn iface_gains(prev: &[IfaceSample], x: &IfaceSample) -> (r: (u64, u64))
    ensures
        r.0 == rx_gain(ifaces(prev@), x@),
        r.1 == tx_gain(ifaces(prev@), x@),
{
    match find_iface(prev, &x.name) {
        Some(i) => (
            x.rx_bytes.saturating_sub(prev[i].rx_bytes),
            x.tx_bytes.saturating_sub(prev[i].tx_bytes),
        ),
        None => (0, 0),
    }
}

/// Whether the rates of all interfaces are numbers of 64 bits.
pub fn diff_net_fits(prev: &[IfaceSample], curr: &[IfaceSample], elapsed_ns: u64) -> (r: bool)
    ensures
        r == net_rates_fit(ifaces(prev@), ifaces(curr@), elapsed_ns),
{
    let ghost all = ifaces(curr@);
    let mut i: usize = 0;
    while i < curr.len()
        invariant
            i <= curr.len(),
            all == ifaces(curr@),
            forall|j: int| #![trigger all[j]]
                0 <= j < i ==> rate_fits(rx_gain(ifaces(prev@), all[j]), elapsed_ns) && rate_fits(
                    tx_gain(ifaces(prev@), all[j]),
                    elapsed_ns,
                ),
        decreases curr.len() - i,
    {
        let (rx, tx) = iface_gains(prev, &curr[i]);
        assert(all[i as int] == curr@[i as int]@);
        if !bytes_per_sec_fits(rx, elapsed_ns) || !bytes_per_sec_fits(tx, elapsed_ns) {
            return false;
        }
        i = i + 1;
    }
    true
}

/// The rates of all interfaces since the earlier list, by name.
pub fn diff_net(prev: &[IfaceSample], curr: &[IfaceSample], elapsed_ns: u64) -> (r: Vec<IfaceOut>)
    requires
        net_rates_fit(ifaces(prev@), ifaces(curr@), elapsed_ns),
    ensures
        iface_outs(r@) == net_rates(ifaces(prev@), ifaces(curr@), elapsed_ns),
{
    let ghost p = ifaces(prev@);
    let ghost all = ifaces(curr@);
    let mut rates: Vec<IfaceOut> = Vec::new();
    let mut i: usize = 0;
    while i < curr.len()
        invariant
            i <= curr.len(),
            p == ifaces(prev@),
            all == ifaces(curr@),
            net_rates_fit(p, all, elapsed_ns),
            iface_outs(rates@) =~= iface_rates(p, all, elapsed_ns).take(i as int),
        decreases curr.len() - i,
    {
        let x = &curr[i];
        assert(all[i as int] == x@);
        let (rx, tx) = iface_gains(prev, x);
        let ghost before = iface_outs(rates@);
        let y = IfaceOut {
            name: x.name.clone(),
            rx_bytes_per_sec: bytes_per_sec(rx, elapsed_ns),
            tx_bytes_per_sec: bytes_per_sec(tx, elapsed_ns),
        };
        let ghost z = y@;
        rates.push(y);
        assert(iface_outs(rates@) =~= before.push(z));
        assert(iface_rates(p, all, elapsed_ns)[i as int] == z);
        i = i + 1;
    }
    let r = sort_by_name(rates.as_slice());
    proof {
        assert(iface_outs(rates@) =~= iface_rates(p, all, elapsed_ns));
        assert(views(rates@) =~= iface_outs(rates@));
        assert forall|j: int| 0 <= j < all.len() implies #[trigger] labels(rates@)[j]
            == all[j].name by {
            assert(iface_outs(rates@)[j] == rates@[j]@);
        }
        assert(labels(rates@) =~= iface_names(all));
        assert(iface_outs(r@) =~= views(r@));
    }
    r
}

/// What is shown of one card.
pub fn diff_gpu_card(
    g: &GpuSample,
    prev_gpus: &[GpuSample],
    include_procs: bool,
    filter_zero: bool,
    proc_limit: Option<usize>,
) -> (r: GpuOut)
    ensures
        r@ == gpu_card(g@, gpus_of(prev_gpus@), include_procs, filter_zero, proc_limit),
{
    let procs = if include_procs {
        let ghost all = gpus_of(prev_gpus@);
        let mut i: usize = 0;
        assert(all.skip(0) =~= all);
        while i < prev_gpus.len() && prev_gpus[i].card != g.card
            invariant
                i <= prev_gpus.len(),
                all == gpus_of(prev_gpus@),
                gpu_named(all, g.card@) == gpu_named(all.skip(i as int), g.card@),
            decreases prev_gpus.len() - i,
        {
            assert(all.skip(i as int)[0] == prev_gpus@[i as int]@);
            assert(all.skip(i as int).skip(1) =~= all.skip(i + 1));
            i = i + 1;
        }
        assert(i < prev_gpus.len() ==> all.skip(i as int)[0] == prev_gpus@[i as int]@);
        let prev_ns = if i < prev_gpus.len() {
            note_ns(prev_gpus[i].procs.as_slice())
        } else {
            let none = Vec::new();
            note_ns(none.as_slice())
        };
        assert(prev_ns@ =~= noted_ns(all, g.card@));
        diff_gpu_procs(g.procs.as_slice(), &prev_ns, filter_zero, proc_limit)
    } else {
        Vec::new()
    };
    GpuOut { card: g.card.clone(), stats: g.stats, procs }
}

/// Whether all numbers that are shown are unsigned numbers of 64 bits.
pub fn diff_fits(prev: &Sample, curr: &Sample, req: &Request, elapsed_ns: u64) -> (r: bool)
    ensures
        r == shown_fits(prev@, curr@, *req, elapsed_ns),
{
    if req.cpu {
        let total = curr.cpu.total.saturating_sub(prev.cpu.total);
        let idle = curr.cpu.idle.saturating_sub(prev.cpu.idle);
        if total > 0 && idle > total {
            return false;
        }
    }
    if req.net && !diff_net_fits(prev.net.as_slice(), curr.net.as_slice(), elapsed_ns) {
        return false;
    }
    !req.disk || diff_disk_fits(prev.disk.as_slice(), curr.disk.as_slice(), elapsed_ns)
}

/// The ticks that have passed between two samples, and those that each process
/// of the later sample has used of them.
pub fn cpu_gains(prev: &Sample, curr: &Sample) -> (r: (u64, Vec<u64>))
    ensures
        r.0 == ticks_between(prev@, curr@),
        r.0 == gain(curr.cpu.total, prev.cpu.total),
        r.1@ == ticks_used(curr.procs@, ticks_map(prev.procs@)),
        r.1@ == Seq::new(
            curr.procs@.len(),
            |i: int|
                gain_since(
                    ticks_map(prev.procs@),
                    curr.procs@[i].pid,
                    curr.procs@[i].cpu_ticks,
                ),
        ),
{
    let prev_ticks = note_ticks(prev.procs.as_slice());
    (
        curr.cpu.total.saturating_sub(prev.cpu.total),
        tick_gains(curr.procs.as_slice(), &prev_ticks),
    )
}

/// What is shown of processor time.
fn diff_cpu(prev: &Sample, curr: &Sample, req: &Request, weights: &[u64]) -> (r: CpuOut)
    requires
        ticks_add_up(prev@, curr@),
        req.procs ==> weights.len() == curr.procs.len(),
    ensures
        r@ == cpu_section(prev@, curr@, *req, weights@),
{
    let total_ticks = curr.cpu.total.saturating_sub(prev.cpu.total);
    let idle = curr.cpu.idle.saturating_sub(prev.cpu.idle);
    let busy_ticks = if total_ticks > 0 {
        total_ticks - idle
    } else {
        0
    };
    let procs = if req.procs {
        let prev_ticks = note_ticks(prev.procs.as_slice());
        diff_cpu_procs(
            curr.procs.as_slice(),
            &prev_ticks,
            total_ticks,
            weights,
            req.filter_zero,
            req.proc_limit,
        )
    } else {
        Vec::new()
    };
    CpuOut { busy_ticks, total_ticks, load: clone_opt(&curr.load), procs }
}

/// What is shown of memory.
fn diff_mem(curr: &Sample, req: &Request) -> (r: MemOut)
    ensures
        r@ == mem_section(curr@, *req),
{
    let procs = if req.procs {
        diff_mem_procs(curr.procs.as_slice(), req.filter_zero, req.proc_limit)
    } else {
        Vec::new()
    };
    MemOut {
        used_bytes: curr.mem.total_bytes.saturating_sub(curr.mem.available_bytes),
        total_bytes: curr.mem.total_bytes,
        swap_used_bytes: curr.mem.swap_total_bytes.saturating_sub(curr.mem.swap_free_bytes),
        swap_total_bytes: curr.mem.swap_total_bytes,
        procs,
    }
}

/// What is shown of all cards.
fn diff_gpus(prev: &Sample, curr: &Sample, req: &Request) -> (r: Vec<GpuOut>)
    ensures
        gpu_outs(r@) == gpu_cards(prev@.gpus, curr@.gpus, *req),
{
    let mut r: Vec<GpuOut> = Vec::new();
    let mut i: usize = 0;
    while i < curr.gpus.len()
        invariant
            i <= curr.gpus@.len(),
            gpu_outs(r@) =~= gpu_cards(prev@.gpus, curr@.gpus, *req).take(i as int),
        decreases curr.gpus.len() - i,
    {
        let ghost before = gpu_outs(r@);
        let x = diff_gpu_card(
            &curr.gpus[i],
            prev.gpus.as_slice(),
            req.procs,
            req.filter_zero,
            req.proc_limit,
        );
        let ghost y = x@;
        r.push(x);
        assert(gpu_outs(r@) =~= before.push(y));
        assert(curr@.gpus[i as int] == curr.gpus@[i as int]@);
        i = i + 1;
    }
    r
}

/// Makes what is shown at a tick of two samples. The weights, one per process of
/// the later sample, are what the list by processor time is ordered by.
pub fn diff(
    prev: &Sample,
    curr: &Sample,
    req: &Request,
    elapsed_ns: u64,
    weights: &[u64],
) -> (r: Output)
    requires
        shown_fits(prev@, curr@, *req, elapsed_ns),
        req.cpu && req.procs ==> weights.len() == curr.procs.len(),
    ensures
        r@ == shown(prev@, curr@, *req, elapsed_ns, weights@),
{
    let cpu = if req.cpu {
        Some(diff_cpu(prev, curr, req, weights))
    } else {
        None
    };
    let memory = if req.mem {
        Some(diff_mem(curr, req))
    } else {
        None
    };
    let gpu = if req.gpu {
        Some(diff_gpus(prev, curr, req))
    } else {
        None
    };
    let net = if req.net {
        Some(diff_net(prev.net.as_slice(), curr.net.as_slice(), elapsed_ns))
    } else {
        None
    };
    let disk = if req.disk {
        Some(diff_disk(prev.disk.as_slice(), curr.disk.as_slice(), elapsed_ns))
    } else {
        None
    };
    Output { cpu, memory, gpu, net, disk }
}

} // verus!
