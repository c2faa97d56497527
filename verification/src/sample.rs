//! One sample of the machine, made of what was read at a tick.

use vstd::prelude::*;

use crate::disk::{
    devs, devs_on, disk_fits, disk_sample_fits, read_disk, DiskDevSample, DiskDevView,
};
use crate::gpu::{
    cards_of, read_card_stats, stats_of, CardReading, CardReadingView, CardStats,
    CardView, GpuCardMeta,
};
use crate::procfs::{
    cpu_ticks, cpu_ticks_fit, ifaces, mem_fits, mem_sample, mem_sample_fits, net_sample,
    read_cpu_ticks, read_load, read_mem, read_net, sum, tick_fields, CpuTicks, IfaceSample,
    IfaceView, MemSample,
};
use crate::request::Request;
use crate::text::{lines, nth_word, opt_text};
use crate::walk::{
    gpu_procs_in, procs_in, readings_of, walk_fits, walk_proc, walk_proc_fits, GpuProcSample,
    ProcReading, ProcReadingView, ProcSample,
};

verus! {

/// What was read at a tick. What was not asked for, or could not be read, has
/// the empty text.
#[derive(Debug, PartialEq, Eq)]
pub struct Readings {
    pub stat: String,
    pub loadavg: String,
    pub meminfo: String,
    pub net_dev: String,
    pub diskstats: String,
    pub procs: Vec<ProcReading>,
    /// One reading for each card.
    pub cards: Vec<CardReading>,
    /// Bytes in a page of memory.
    pub page_size: u64,
}

/// What a list of card readings says.
pub open spec fn card_readings(v: Seq<CardReading>) -> Seq<CardReadingView> {
    Seq::new(v.len(), |i: int| v[i]@)
}

/// What `Readings` say.
pub struct ReadingsView {
    pub stat: Seq<char>,
    pub loadavg: Seq<char>,
    pub meminfo: Seq<char>,
    pub net_dev: Seq<char>,
    pub diskstats: Seq<char>,
    pub procs: Seq<ProcReadingView>,
    pub cards: Seq<CardReadingView>,
    pub page_size: u64,
}

impl View for Readings {
    type V = ReadingsView;

    open spec fn view(&self) -> ReadingsView {
        ReadingsView {
            stat: self.stat@,
            loadavg: self.loadavg@,
            meminfo: self.meminfo@,
            net_dev: self.net_dev@,
            diskstats: self.diskstats@,
            procs: readings_of(self.procs@),
            cards: card_readings(self.cards@),
            page_size: self.page_size,
        }
    }
}

/// The state of a card, with what each process uses of it.
#[derive(Debug, PartialEq, Eq)]
pub struct GpuSample {
    pub card: String,
    pub stats: CardStats,
    pub procs: Vec<GpuProcSample>,
}

/// What a `GpuSample` says.
pub struct GpuView {
    pub card: Seq<char>,
    pub stats: CardStats,
    pub procs: Seq<GpuProcSample>,
}

impl View for GpuSample {
    type V = GpuView;

    open spec fn view(&self) -> GpuView {
        GpuView { card: self.card@, stats: self.stats, procs: self.procs@ }
    }
}

/// What a list of card samples says.
pub open spec fn gpus_of(v: Seq<GpuSample>) -> Seq<GpuView> {
    Seq::new(v.len(), |i: int| v[i]@)
}

/// One sample of the machine.
#[derive(Debug, PartialEq, Eq)]
pub struct Sample {
    pub cpu: CpuTicks,
    /// The load average, as it is written.
    pub load: Option<String>,
    pub mem: MemSample,
    pub net: Vec<IfaceSample>,
    pub disk: Vec<DiskDevSample>,
    pub procs: Vec<ProcSample>,
    pub gpus: Vec<GpuSample>,
}

/// What a `Sample` says.
pub struct SampleView {
    pub cpu: CpuTicks,
    pub load: Option<Seq<char>>,
    pub mem: MemSample,
    pub net: Seq<IfaceView>,
    pub disk: Seq<DiskDevView>,
    pub procs: Seq<ProcSample>,
    pub gpus: Seq<GpuView>,
}

impl View for Sample {
    type V = SampleView;

    open spec fn view(&self) -> SampleView {
        SampleView {
            cpu: self.cpu,
            load: opt_text(self.load),
            mem: self.mem,
            net: ifaces(self.net@),
            disk: devs(self.disk@),
            procs: self.procs@,
            gpus: gpus_of(self.gpus@),
        }
    }
}

/// The cards whose processes are looked for: none where cards are not asked for.
pub open spec fn walked_cards(cards: Seq<CardView>, req: Request) -> Seq<CardView> {
    if req.gpu {
        cards
    } else {
        seq![]
    }
}

/// The sample of one card.
pub open spec fn gpu_sampled(
    cards: Seq<CardView>,
    req: Request,
    r: ReadingsView,
    i: int,
) -> GpuView {
    GpuView {
        card: cards[i].card,
        stats: stats_of(cards[i].vendor, r.cards[i]),
        procs: if req.procs {
            gpu_procs_in(cards, cards[i].pdev, r.procs)
        } else {
            seq![]
        },
    }
}

/// The sample that the readings make: what is asked for is read, everything else
/// is empty.
pub open spec fn sampled(cards: Seq<CardView>, req: Request, r: ReadingsView) -> SampleView {
    SampleView {
        cpu: if req.cpu {
            cpu_ticks(r.stat)
        } else {
            CpuTicks { total: 0, idle: 0 }
        },
        load: if req.cpu {
            nth_word(r.loadavg, 0)
        } else {
            None
        },
        mem: if req.mem {
            mem_sample(r.meminfo)
        } else {
            MemSample {
                total_bytes: 0,
                available_bytes: 0,
                swap_total_bytes: 0,
                swap_free_bytes: 0,
            }
        },
        net: if req.net {
            net_sample(r.net_dev)
        } else {
            seq![]
        },
        disk: if req.disk {
            devs_on(lines(r.diskstats))
        } else {
            seq![]
        },
        procs: if req.procs {
            procs_in(r.procs, r.page_size)
        } else {
            seq![]
        },
        gpus: if req.gpu {
            Seq::new(cards.len(), |i: int| gpu_sampled(cards, req, r, i))
        } else {
            seq![]
        },
    }
}

/// Whether all numbers of the sample are numbers of 64 bits.
pub open spec fn readings_fit(cards: Seq<CardView>, req: Request, r: ReadingsView) -> bool {
    &&& req.cpu ==> sum(tick_fields(r.stat)) <= u64::MAX
    &&& req.mem ==> mem_fits(r.meminfo)
    &&& req.disk ==> disk_fits(r.diskstats)
    &&& req.procs ==> walk_fits(walked_cards(cards, req), r.procs, r.page_size)
}

/// The cards whose processes are looked for.
fn cards_to_walk<'a>(cards: &'a [GpuCardMeta], req: &Request) -> (r: &'a [GpuCardMeta])
    ensures
        cards_of(r@) == walked_cards(cards_of(cards@), *req),
        req.gpu ==> r@ == cards@,
        !req.gpu ==> r@.len() == 0,
{
    if req.gpu {
        cards
    } else {
        let none = &cards[0..0];
        assert(cards_of(none@) =~= seq![]);
        none
    }
}

/// Whether all numbers of the sample are numbers of 64 bits.
pub fn sample_fits(cards: &[GpuCardMeta], req: &Request, r: &Readings) -> (fits: bool)
    ensures
        fits == readings_fit(cards_of(cards@), *req, r@),
{
    if req.cpu && !cpu_ticks_fit(r.stat.as_str()) {
        return false;
    }
    if req.mem && !mem_sample_fits(r.meminfo.as_str()) {
        return false;
    }
    if req.disk && !disk_sample_fits(r.diskstats.as_str()) {
        return false;
    }
    !req.procs || walk_proc_fits(cards_to_walk(cards, req), r.procs.as_slice(), r.page_size)
}

/// Makes the sample of all cards.
fn sample_gpus(
    cards: &[GpuCardMeta],
    req: &Request,
    r: &Readings,
    by_card: Vec<Vec<GpuProcSample>>,
) -> (gpus: Vec<GpuSample>)
    requires
        r.cards@.len() == cards@.len(),
        req.procs ==> by_card@.len() == cards@.len(),
        req.procs ==> forall|i: int|
            0 <= i < cards@.len() ==> (#[trigger] by_card@[i])@ == gpu_procs_in(
                cards_of(cards@),
                cards@[i].pdev@,
                r@.procs,
            ),
    ensures
        gpus_of(gpus@) == Seq::new(
            cards@.len(),
            |i: int| gpu_sampled(cards_of(cards@), *req, r@, i),
        ),
{
    let mut gpus: Vec<GpuSample> = Vec::new();
    let mut i: usize = 0;
    while i < cards.len()
        invariant
            i <= cards.len(),
            r.cards@.len() == cards@.len(),
            req.procs ==> by_card@.len() == cards@.len(),
            req.procs ==> forall|i: int|
                0 <= i < cards@.len() ==> (#[trigger] by_card@[i])@ == gpu_procs_in(
                    cards_of(cards@),
                    cards@[i].pdev@,
                    r@.procs,
                ),
            gpus@.len() == i,
            forall|j: int|
                0 <= j < i ==> (#[trigger] gpus@[j])@ == gpu_sampled(
                    cards_of(cards@),
                    *req,
                    r@,
                    j,
                ),
        decreases cards.len() - i,
    {
        let procs = if req.procs {
            let v = by_card[i].clone();
            assert(v@ =~= by_card@[i as int]@);
            v
        } else {
            Vec::new()
        };
        gpus.push(
            GpuSample {
                card: cards[i].card.clone(),
                stats: read_card_stats(&cards[i].vendor, &r.cards[i]),
                procs,
            },
        );
        i = i + 1;
    }
    assert(gpus_of(gpus@) =~= Seq::new(
        cards@.len(),
        |i: int| gpu_sampled(cards_of(cards@), *req, r@, i),
    ));
    gpus
}

/// Makes a sample of what was read.
pub fn sample(cards: &[GpuCardMeta], req: &Request, r: &Readings) -> (s: Sample)
    requires
        readings_fit(cards_of(cards@), *req, r@),
        req.gpu ==> r.cards.len() == cards.len(),
    ensures
        s@ == sampled(cards_of(cards@), *req, r@),
{
    let cpu = if req.cpu {
        read_cpu_ticks(r.stat.as_str())
    } else {
        CpuTicks { total: 0, idle: 0 }
    };
    let load = if req.cpu {
        read_load(r.loadavg.as_str())
    } else {
        None
    };
    let mem = if req.mem {
        read_mem(r.meminfo.as_str())
    } else {
        MemSample { total_bytes: 0, available_bytes: 0, swap_total_bytes: 0, swap_free_bytes: 0 }
    };
    let net = if req.net {
        read_net(r.net_dev.as_str())
    } else {
        Vec::new()
    };
    let disk = if req.disk {
        read_disk(r.diskstats.as_str())
    } else {
        Vec::new()
    };
    let (procs, by_card) = if req.procs {
        walk_proc(cards_to_walk(cards, req), r.procs.as_slice(), r.page_size)
    } else {
        (Vec::new(), Vec::new())
    };
    let gpus = if req.gpu {
        sample_gpus(cards, req, r, by_card)
    } else {
        Vec::new()
    };
    let s = Sample { cpu, load, mem, net, disk, procs, gpus };
    proof {
        let t = sampled(cards_of(cards@), *req, r@);
        assert(s@.load == t.load);
        assert(s@.net =~= t.net);
        assert(s@.disk =~= t.disk);
        assert(s@.procs =~= t.procs);
        assert(s@.gpus =~= t.gpus);
    }
    s
}

} // verus!
