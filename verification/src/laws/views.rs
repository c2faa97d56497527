//! What the models of values say: the values of all their fields, and nothing
//! else.

use vstd::prelude::*;

use crate::diff::{
    gpu_outs, iface_outs, CpuOut, GpuOut, IfaceOut, MemOut, Output,
};
use crate::disk::{devs, DiskDevSample};
use crate::gpu::{cards_of, entries_of, CardEntry, CardReading, GpuCardMeta};
use crate::procfs::{ifaces, IfaceSample};
use crate::sample::{card_readings, gpus_of, GpuSample, Readings, Sample};
use crate::text::{opt_str, opt_text, strings, texts};
use crate::tree::{nodes, rates, DiskOut, DiskRate};
use crate::walk::{readings_of, ProcReading};

verus! {

/// The model of a text that may be missing is the text, or that it is missing.
pub proof fn law_models_of_missing_texts(s: String, b: &str)
    ensures
        opt_text(Some(s)) == Some(s@),
        opt_text(None) is None,
        opt_str(Some(b)) == Some(b@),
        opt_str(None) is None,
{
}

/// The models of lists of texts have the models of the texts in their places.
pub proof fn law_models_of_texts(v: Seq<String>, w: Seq<&[char]>, i: int)
    ensures
        strings(v).len() == v.len(),
        texts(w).len() == w.len(),
        0 <= i < v.len() ==> strings(v)[i] == v[i]@,
        0 <= i < w.len() ==> texts(w)[i] == w[i]@,
{
}

/// The models of the parts of a sample hold their fields.
pub proof fn law_models_of_samples(x: IfaceSample, d: DiskDevSample, g: GpuSample)
    ensures
        x@.name == x.name@,
        x@.rx_bytes == x.rx_bytes,
        x@.tx_bytes == x.tx_bytes,
        d@.name == d.name@,
        d@.read_bytes == d.read_bytes,
        d@.write_bytes == d.write_bytes,
        g@.card == g.card@,
        g@.stats == g.stats,
        g@.procs == g.procs@,
{
}

/// The models of lists of parts have the models of the parts in their places.
pub proof fn law_models_of_lists_of_samples(
    x: Seq<IfaceSample>,
    d: Seq<DiskDevSample>,
    g: Seq<GpuSample>,
    i: int,
)
    ensures
        ifaces(x).len() == x.len(),
        devs(d).len() == d.len(),
        gpus_of(g).len() == g.len(),
        0 <= i < x.len() ==> ifaces(x)[i] == x[i]@,
        0 <= i < d.len() ==> devs(d)[i] == d[i]@,
        0 <= i < g.len() ==> gpus_of(g)[i] == g[i]@,
{
}

/// The model of a sample holds its fields.
pub proof fn law_model_of_a_sample(s: Sample)
    ensures
        s@.cpu == s.cpu,
        s@.load == opt_text(s.load),
        s@.mem == s.mem,
        s@.net == ifaces(s.net@),
        s@.disk == devs(s.disk@),
        s@.procs == s.procs@,
        s@.gpus == gpus_of(s.gpus@),
{
}

/// The models of what was read hold their fields.
pub proof fn law_models_of_readings(r: Readings, c: CardReading, p: ProcReading)
    ensures
        r@.stat == r.stat@,
        r@.loadavg == r.loadavg@,
        r@.meminfo == r.meminfo@,
        r@.net_dev == r.net_dev@,
        r@.diskstats == r.diskstats@,
        r@.procs == readings_of(r.procs@),
        r@.cards == card_readings(r.cards@),
        r@.page_size == r.page_size,
        c@.busy == c.busy@,
        c@.vram_used == c.vram_used@,
        c@.vram_total == c.vram_total@,
        c@.temp == c.temp@,
        c@.power == c.power@,
        c@.nvml == c.nvml,
        p@.name == p.name@,
        p@.stat == opt_text(p.stat),
        p@.links == strings(p.links@),
        p@.fdinfo == strings(p.fdinfo@),
{
}

/// The models of lists of readings have the models of the readings in their
/// places.
pub proof fn law_models_of_lists_of_readings(p: Seq<ProcReading>, c: Seq<CardReading>, i: int)
    ensures
        readings_of(p).len() == p.len(),
        card_readings(c).len() == c.len(),
        0 <= i < p.len() ==> readings_of(p)[i] == p[i]@,
        0 <= i < c.len() ==> card_readings(c)[i] == c[i]@,
{
}

/// The models of cards and of the entries that they are found in hold their
/// fields.
pub proof fn law_models_of_cards(e: CardEntry, c: GpuCardMeta)
    ensures
        e@.name == e.name@,
        e@.vendor == e.vendor@,
        e@.uevent == e.uevent@,
        e@.hwmon_path == opt_text(e.hwmon_path),
        c@.card == c.card@,
        c@.pdev == c.pdev@,
        c@.vendor == c.vendor,
        c@.path_busy == c.path_busy@,
        c@.path_vram_used == c.path_vram_used@,
        c@.path_vram_total == c.path_vram_total@,
        c@.hwmon_path == opt_text(c.hwmon_path),
{
}

/// The models of lists of cards and entries have the models of these in their
/// places.
pub proof fn law_models_of_lists_of_cards(e: Seq<CardEntry>, c: Seq<GpuCardMeta>, i: int)
    ensures
        entries_of(e).len() == e.len(),
        cards_of(c).len() == c.len(),
        0 <= i < e.len() ==> entries_of(e)[i] == e[i]@,
        0 <= i < c.len() ==> cards_of(c)[i] == c[i]@,
{
}

/// The models of the sections hold their fields.
pub proof fn law_models_of_sections(c: CpuOut, m: MemOut, g: GpuOut, x: IfaceOut)
    ensures
        c@.busy_ticks == c.busy_ticks,
        c@.total_ticks == c.total_ticks,
        c@.load == opt_text(c.load),
        c@.procs == c.procs@,
        m@.used_bytes == m.used_bytes,
        m@.total_bytes == m.total_bytes,
        m@.swap_used_bytes == m.swap_used_bytes,
        m@.swap_total_bytes == m.swap_total_bytes,
        m@.procs == m.procs@,
        g@.card == g.card@,
        g@.stats == g.stats,
        g@.procs == g.procs@,
        x@.name == x.name@,
        x@.rx_bytes_per_sec == x.rx_bytes_per_sec,
        x@.tx_bytes_per_sec == x.tx_bytes_per_sec,
{
}

/// The models of lists of cards and interfaces that are shown have the models of
/// these in their places.
pub proof fn law_models_of_lists_in_sections(g: Seq<GpuOut>, x: Seq<IfaceOut>, i: int)
    ensures
        gpu_outs(g).len() == g.len(),
        iface_outs(x).len() == x.len(),
        0 <= i < g.len() ==> gpu_outs(g)[i] == g[i]@,
        0 <= i < x.len() ==> iface_outs(x)[i] == x[i]@,
{
}

/// The models of devices hold their fields, and those of lists of them the models
/// of the devices in their places.
pub proof fn law_models_of_devices(
    r: DiskRate,
    d: DiskOut,
    v: Seq<DiskRate>,
    w: Seq<DiskOut>,
    i: int,
)
    ensures
        r@.name == r.name@,
        r@.read_bytes_per_sec == r.read_bytes_per_sec,
        r@.write_bytes_per_sec == r.write_bytes_per_sec,
        d.node().name == d.name@,
        d.node().read_bytes_per_sec == d.read_bytes_per_sec,
        d.node().write_bytes_per_sec == d.write_bytes_per_sec,
        d.node().partitions == nodes(d.partitions@),
        rates(v).len() == v.len(),
        nodes(w).len() == w.len(),
        0 <= i < v.len() ==> rates(v)[i] == v[i]@,
        0 <= i < w.len() ==> nodes(w)[i] == w[i].node(),
{
    assert(d.node().partitions =~= nodes(d.partitions@));
}

/// The model of what is shown holds the models of its sections, and lacks those
/// that it lacks.
pub proof fn law_model_of_what_is_shown(o: Output)
    ensures
        o@.cpu is Some <==> o.cpu is Some,
        o@.memory is Some <==> o.memory is Some,
        o@.gpu is Some <==> o.gpu is Some,
        o@.net is Some <==> o.net is Some,
        o@.disk is Some <==> o.disk is Some,
        o.cpu matches Some(c) ==> o@.cpu == Some(c@),
        o.memory matches Some(m) ==> o@.memory == Some(m@),
        o.gpu matches Some(g) ==> o@.gpu == Some(gpu_outs(g@)),
        o.net matches Some(n) ==> o@.net == Some(iface_outs(n@)),
        o.disk matches Some(d) ==> o@.disk == Some(nodes(d@)),
{
}

} // verus!
