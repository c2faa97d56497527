use std::collections::HashMap;

use athroisma::diff::{
    cpu_gains, diff, diff_fits, diff_gpu_card, diff_net, diff_net_fits, GpuOut, IfaceOut, Output,
};
use athroisma::disk::DiskDevSample;
use athroisma::gpu::{discover_gpu_cards, CardEntry, CardReading, CardStats};
use athroisma::procfs::{CpuTicks, IfaceSample, MemSample};
use athroisma::proclist::{
    diff_cpu_procs, diff_gpu_procs, diff_mem_procs, note_ns, note_ticks, tick_gains, GpuProcOut,
    ProcCpuOut, ProcMemOut,
};
use athroisma::request::Request;
use athroisma::sample::{sample, sample_fits, GpuSample, Readings, Sample};
use athroisma::walk::{GpuProcSample, ProcReading, ProcSample};

const SECOND: u64 = 1_000_000_000;

fn proc(pid: u32, cpu_ticks: u64, rss_bytes: u64) -> ProcSample {
    ProcSample { pid, cpu_ticks, rss_bytes }
}

fn cpu(pid: u32, ticks: u64) -> ProcCpuOut {
    ProcCpuOut { pid, ticks }
}

fn mem(pid: u32, rss: u64) -> ProcMemOut {
    ProcMemOut { pid, rss }
}

// The order by percentage that a weight stands for.
fn weight(part: u64, whole: u64) -> u64 {
    let share: f32 = if whole > 0 { part as f32 / whole as f32 * 100.0 } else { 0.0 };
    u64::from(share.to_bits())
}

#[test]
fn memory_list() {
    let curr = [proc(1, 0, 10), proc(2, 0, 0), proc(3, 0, 30), proc(4, 0, 10)];
    assert_eq!(
        diff_mem_procs(&curr, false, None),
        vec![mem(3, 30), mem(1, 10), mem(4, 10), mem(2, 0)]
    );
    assert_eq!(
        diff_mem_procs(&curr, true, None),
        vec![mem(3, 30), mem(1, 10), mem(4, 10)]
    );
    assert_eq!(diff_mem_procs(&curr, true, Some(2)), vec![mem(3, 30), mem(1, 10)]);
    assert_eq!(diff_mem_procs(&[], false, None), vec![]);
}

#[test]
fn processor_list() {
    let prev = [proc(1, 100, 0), proc(2, 50, 0), proc(3, 70, 0), proc(5, 9, 0)];
    let curr = [proc(1, 110, 0), proc(2, 90, 0), proc(3, 70, 0), proc(4, 500, 0), proc(5, 3, 0)];
    let noted = note_ticks(&prev);
    let gains = tick_gains(&curr, &noted);
    assert_eq!(gains, [10, 40, 0, 0, 0]);
    let weights: Vec<u64> = gains.iter().map(|g| weight(*g, 200)).collect();
    assert_eq!(
        diff_cpu_procs(&curr, &noted, 200, &weights, false, None),
        vec![cpu(2, 40), cpu(1, 10), cpu(3, 0), cpu(4, 0), cpu(5, 0)]
    );
    assert_eq!(
        diff_cpu_procs(&curr, &noted, 200, &weights, true, None),
        vec![cpu(2, 40), cpu(1, 10)]
    );
    assert_eq!(diff_cpu_procs(&curr, &noted, 200, &weights, true, Some(1)), vec![cpu(2, 40)]);
}

#[test]
fn without_ticks_the_processor_list_keeps_its_order() {
    let prev = [proc(1, 0, 0), proc(2, 0, 0)];
    let curr = [proc(1, 5, 0), proc(2, 9, 0)];
    let noted = note_ticks(&prev);
    let weights = vec![weight(5, 0), weight(9, 0)];
    assert_eq!(
        diff_cpu_procs(&curr, &noted, 0, &weights, false, None),
        vec![cpu(1, 5), cpu(2, 9)]
    );
}

#[test]
fn without_ticks_no_process_has_a_share() {
    let curr = [proc(1, 5, 0)];
    let noted = HashMap::from([(1u32, 3u64)]);
    assert_eq!(diff_cpu_procs(&curr, &noted, 0, &[weight(2, 0)], true, None), vec![]);
    assert_eq!(
        diff_cpu_procs(&curr, &noted, 0, &[weight(2, 0)], false, None),
        vec![cpu(1, 2)]
    );
    assert_eq!(
        diff_cpu_procs(&curr, &noted, 4, &[weight(2, 4)], true, None),
        vec![cpu(1, 2)]
    );

    let (prev, mut curr) = two_samples();
    curr.cpu = prev.cpu;
    let weights = vec![weight(5, 0), weight(40, 0)];
    let nozero = diff(&prev, &curr, &Request::parse("cpu procs nozero"), SECOND, &weights);
    assert_eq!(nozero.cpu.unwrap().procs, vec![]);
    let all = diff(&prev, &curr, &Request::parse("cpu procs"), SECOND, &weights);
    assert_eq!(all.cpu.unwrap().procs, vec![cpu(1, 5), cpu(2, 40)]);
}

#[test]
fn equal_shares_keep_their_order_and_a_limit_takes_the_top() {
    // Of shares with 24 binary places the first two are equal.
    let curr = [proc(1, 16_777_216, 0), proc(2, 16_777_217, 0), proc(3, 16_777_300, 0)];
    let noted = HashMap::from([(1u32, 0u64), (2, 0), (3, 0)]);
    let total = 50_331_733;
    let weights: Vec<u64> =
        tick_gains(&curr, &noted).iter().map(|g| weight(*g, total)).collect();
    assert_eq!(weights[0], weights[1]);
    let whole = diff_cpu_procs(&curr, &noted, total, &weights, false, None);
    assert_eq!(whole, vec![cpu(3, 16_777_300), cpu(1, 16_777_216), cpu(2, 16_777_217)]);
    for n in 0..5 {
        assert_eq!(
            diff_cpu_procs(&curr, &noted, total, &weights, false, Some(n)),
            whole[..n.min(3)].to_vec()
        );
    }
}

#[test]
fn noted_numbers_are_the_last() {
    let noted = note_ticks(&[proc(1, 5, 0), proc(1, 8, 0)]);
    assert_eq!(noted, HashMap::from([(1u32, 8u64)]));
}

#[test]
fn card_list() {
    let g = |pid, vram_kib, engine_gfx_ns| GpuProcSample { pid, vram_kib, engine_gfx_ns };
    let o = |pid, vram_kib, gfx_ns| GpuProcOut { pid, vram_kib, gfx_ns };
    let noted = note_ns(&[g(1, 0, 100), g(2, 0, 900)]);
    let curr = [g(1, 5, 150), g(2, 9, 800), g(3, 0, 70), g(4, 9, 70)];
    assert_eq!(
        diff_gpu_procs(&curr, &noted, false, None),
        vec![o(2, 9, 0), o(4, 9, 0), o(1, 5, 50), o(3, 0, 0)]
    );
    assert_eq!(
        diff_gpu_procs(&curr, &noted, true, Some(2)),
        vec![o(2, 9, 0), o(4, 9, 0)]
    );
}

const STATS: CardStats =
    CardStats { busy: 43, temp_mc: 65000, power_mw: 120500, vram_used: 1, vram_total: 2 };

fn gpu(card: &str, ns: u64) -> GpuSample {
    GpuSample {
        card: card.to_string(),
        stats: STATS,
        procs: vec![GpuProcSample { pid: 7, vram_kib: 1, engine_gfx_ns: ns }],
    }
}

#[test]
fn cards_are_found_again_by_name() {
    let prev = vec![gpu("card1", 5), gpu("card0", 10), gpu("card0", 99)];
    let shown = diff_gpu_card(&gpu("card0", 30), &prev, true, false, None);
    assert_eq!(
        shown,
        GpuOut {
            card: "card0".to_string(),
            stats: STATS,
            procs: vec![GpuProcOut { pid: 7, vram_kib: 1, gfx_ns: 20 }],
        }
    );
    let fresh = diff_gpu_card(&gpu("card2", 30), &prev, true, false, None);
    assert_eq!(fresh.procs[0].gfx_ns, 0);
    assert_eq!(diff_gpu_card(&gpu("card0", 30), &prev, false, false, None).procs, vec![]);
}

fn iface(name: &str, rx_bytes: u64, tx_bytes: u64) -> IfaceSample {
    IfaceSample { name: name.to_string(), rx_bytes, tx_bytes }
}

#[test]
fn interface_rates() {
    let prev = vec![iface("wlan0", 0, 0), iface("eth0", 100, 100), iface("eth0", 200, 500)];
    let curr = vec![iface("wlan0", 10, 20), iface("eth0", 1200, 400), iface("br0", 7, 7)];
    assert!(diff_net_fits(&prev, &curr, 2 * SECOND));
    let o = |name: &str, rx, tx| IfaceOut {
        name: name.to_string(),
        rx_bytes_per_sec: rx,
        tx_bytes_per_sec: tx,
    };
    assert_eq!(
        diff_net(&prev, &curr, 2 * SECOND),
        vec![o("br0", 0, 0), o("eth0", 500, 0), o("wlan0", 5, 10)]
    );
    assert!(!diff_net_fits(&[iface("a", 0, 0)], &[iface("a", 0, u64::MAX)], SECOND - 1));
}

fn empty() -> Sample {
    Sample {
        cpu: CpuTicks { total: 0, idle: 0 },
        load: None,
        mem: MemSample {
            total_bytes: 0,
            available_bytes: 0,
            swap_total_bytes: 0,
            swap_free_bytes: 0,
        },
        net: vec![],
        disk: vec![],
        procs: vec![],
        gpus: vec![],
    }
}

#[test]
fn silence_shows_nothing() {
    let s = empty();
    assert_eq!(
        diff(&s, &s, &Request::parse(""), SECOND, &[]),
        Output { cpu: None, memory: None, gpu: None, net: None, disk: None }
    );
}

#[test]
fn only_what_is_asked_for_is_shown() {
    let s = empty();
    let out = diff(&s, &s, &Request::parse("cpu disk"), SECOND, &[]);
    assert!(out.cpu.is_some() && out.disk.is_some());
    assert!(out.memory.is_none() && out.gpu.is_none() && out.net.is_none());
}

fn two_samples() -> (Sample, Sample) {
    let prev = Sample {
        cpu: CpuTicks { total: 1000, idle: 800 },
        procs: vec![proc(1, 10, 0), proc(2, 20, 0)],
        disk: vec![DiskDevSample { name: "sda".to_string(), read_bytes: 0, write_bytes: 0 }],
        ..empty()
    };
    let curr = Sample {
        cpu: CpuTicks { total: 1200, idle: 950 },
        load: Some("1.02".to_string()),
        mem: MemSample {
            total_bytes: 100,
            available_bytes: 30,
            swap_total_bytes: 50,
            swap_free_bytes: 60,
        },
        procs: vec![proc(1, 15, 700), proc(2, 60, 800)],
        disk: vec![DiskDevSample { name: "sda".to_string(), read_bytes: 512, write_bytes: 0 }],
        ..empty()
    };
    (prev, curr)
}

#[test]
fn sections_of_two_samples() {
    let (prev, curr) = two_samples();
    let req = Request::parse("cpu mem disk procs limit 1");
    assert!(diff_fits(&prev, &curr, &req, SECOND));
    let (total, gains) = cpu_gains(&prev, &curr);
    assert_eq!((total, gains.clone()), (200, vec![5, 40]));
    let weights: Vec<u64> = gains.iter().map(|g| weight(*g, total)).collect();
    let out = diff(&prev, &curr, &req, SECOND, &weights);
    let c = out.cpu.unwrap();
    assert_eq!((c.busy_ticks, c.total_ticks), (50, 200));
    assert_eq!(c.load.as_deref(), Some("1.02"));
    assert_eq!(c.procs, vec![cpu(2, 40)]);
    let m = out.memory.unwrap();
    assert_eq!((m.used_bytes, m.total_bytes), (70, 100));
    assert_eq!((m.swap_used_bytes, m.swap_total_bytes), (0, 50));
    assert_eq!(m.procs, vec![mem(2, 800)]);
    assert_eq!(out.disk.unwrap()[0].read_bytes_per_sec, 512);
}

#[test]
fn without_procs_no_list() {
    let (prev, curr) = two_samples();
    let out = diff(&prev, &curr, &Request::parse("cpu mem"), SECOND, &[]);
    assert!(out.cpu.unwrap().procs.is_empty());
    assert!(out.memory.unwrap().procs.is_empty());
}

#[test]
fn a_sample_against_itself() {
    let (_, curr) = two_samples();
    let out = diff(&curr, &curr, &Request::parse("cpu disk"), SECOND, &[]);
    let c = out.cpu.unwrap();
    assert_eq!((c.busy_ticks, c.total_ticks), (0, 0));
    let d = &out.disk.unwrap()[0];
    assert_eq!((d.read_bytes_per_sec, d.write_bytes_per_sec), (0, 0));
}

#[test]
fn idle_ticks_that_exceed_the_total() {
    let (prev, mut curr) = two_samples();
    curr.cpu = CpuTicks { total: 1100, idle: 950 };
    assert!(!diff_fits(&prev, &curr, &Request::parse("cpu"), SECOND));
    assert!(diff_fits(&prev, &curr, &Request::parse("mem"), SECOND));
    curr.cpu = CpuTicks { total: 900, idle: 950 };
    assert!(diff_fits(&prev, &curr, &Request::parse("cpu"), SECOND));
    let out = diff(&prev, &curr, &Request::parse("cpu"), SECOND, &[]);
    assert_eq!(out.cpu.unwrap().busy_ticks, 0);
}

fn readings() -> Readings {
    let stat = "9 (p) S 1 2 3 4 5 6 7 8 9 10 11 12 13 14 15 16 17 18 19 20 21 22".to_string();
    let fdinfo = "drm-driver: amdgpu\ndrm-pdev: A\ndrm-memory-vram: 64 KiB\ndrm-engine-gfx: 8 ns\n";
    Readings {
        stat: "cpu 1 2 3 4 5\n".to_string(),
        loadavg: "0.50 0.4 0.3\n".to_string(),
        meminfo: "MemTotal: 2 kB\nMemAvailable: 1 kB\n".to_string(),
        net_dev: "h\nh\neth0: 9 0 0 0 0 0 0 0 8\n".to_string(),
        diskstats: "8 0 sda 0 0 1 0 0 0 2\n".to_string(),
        procs: vec![ProcReading {
            name: "9".to_string(),
            stat: Some(stat),
            links: vec!["/dev/dri/card0".to_string()],
            fdinfo: vec![fdinfo.to_string()],
        }],
        cards: vec![CardReading {
            busy: "43".to_string(),
            vram_used: "5".to_string(),
            vram_total: "6".to_string(),
            temp: "65000".to_string(),
            power: "120500000".to_string(),
            nvml: None,
        }],
        page_size: 4096,
    }
}

#[test]
fn samples_hold_what_is_asked_for() {
    let cards = discover_gpu_cards(&[CardEntry {
        name: "card0".to_string(),
        vendor: "0x1002".to_string(),
        uevent: "PCI_SLOT_NAME=A".to_string(),
        hwmon_path: None,
    }]);
    let r = readings();
    let all = Request::default();
    assert!(sample_fits(&cards, &all, &r));
    let s = sample(&cards, &all, &r);
    assert_eq!(s.cpu, CpuTicks { total: 15, idle: 9 });
    assert_eq!(s.load.as_deref(), Some("0.50"));
    assert_eq!(s.mem.total_bytes, 2048);
    assert_eq!(s.net, vec![iface("eth0", 9, 8)]);
    assert_eq!((s.disk[0].read_bytes, s.disk[0].write_bytes), (512, 1024));
    assert_eq!(s.procs, vec![proc(9, 23, 21 * 4096)]);
    assert_eq!(s.gpus[0].card, "card0");
    assert_eq!(s.gpus[0].stats.busy, 43);
    assert_eq!(
        s.gpus[0].procs,
        vec![GpuProcSample { pid: 9, vram_kib: 64, engine_gfx_ns: 8 }]
    );

    assert_eq!(sample(&cards, &Request::parse(""), &r), empty());
    let gpu_only = sample(&cards, &Request::parse("gpu"), &r);
    assert_eq!(gpu_only.gpus[0].procs, vec![]);
    assert_eq!(gpu_only.procs, vec![]);
    let procs_only = sample(&cards, &Request::parse("procs"), &r);
    assert_eq!(procs_only.procs.len(), 1);
    assert_eq!(procs_only.gpus, vec![]);
}

#[test]
fn readings_that_exceed_64_bits() {
    let mut r = readings();
    r.stat = "cpu 18446744073709551615 1\n".to_string();
    assert!(!sample_fits(&[], &Request::parse("cpu"), &r));
    assert!(sample_fits(&[], &Request::parse("mem disk procs"), &r));
}
