use athroisma::gpu::{discover_gpu_cards, CardEntry, GpuCardMeta};
use athroisma::walk::{
    is_dri_link, parse_pid, proc_stat_fits, read_proc_stat, read_stat_fields, walk_proc,
    walk_proc_fits, GpuProcSample, ProcReading, ProcSample,
};

fn stat(comm: &str, utime: &str, stime: &str, rss: &str) -> String {
    format!("77 ({comm}) S 1 2 3 4 5 6 7 8 9 10 {utime} {stime} 13 14 15 16 17 18 19 20 {rss} 22")
}

#[test]
fn status_lines() {
    let s = stat("bash", "100", "23", "500");
    let f = read_stat_fields(&s).unwrap();
    assert_eq!((f.utime, f.stime, f.rss_pages), (100, 23, 500));
    assert_eq!(read_proc_stat(&s, 4096), Some((123, 2_048_000)));
}

#[test]
fn names_with_brackets_and_blanks() {
    let s = stat("a) b (c d", "1", "2", "3");
    assert_eq!(read_proc_stat(&s, 1), Some((3, 3)));
}

#[test]
fn broken_status_lines() {
    assert_eq!(read_proc_stat("", 1), None);
    assert_eq!(read_proc_stat("77 (a)", 1), None);
    assert_eq!(read_proc_stat("77 (a) S 1 2", 1), None);
    assert_eq!(read_proc_stat(&stat("a", "x", "2", "3"), 1), None);
    assert_eq!(read_proc_stat(&stat("a", "1", "-2", "3"), 1), None);
    assert_eq!(read_proc_stat(&stat("a", "1", "2", "3.0"), 1), None);
    let wide = stat("a", "1", "2", "3").replace(") S", ")\u{2003}S");
    assert_eq!(read_proc_stat(&wide, 1), None);
}

#[test]
fn status_numbers_that_exceed_64_bits() {
    let s = stat("a", "18446744073709551615", "1", "1");
    assert!(!proc_stat_fits(&s, 1));
    let s = stat("a", "1", "1", "4503599627370496");
    assert!(!proc_stat_fits(&s, 4096));
    assert!(proc_stat_fits(&s, 4095));
    assert!(proc_stat_fits("junk", 4096));
}

#[test]
fn process_numbers() {
    assert_eq!(parse_pid("1234"), Some(1234));
    assert_eq!(parse_pid("self"), None);
    assert_eq!(parse_pid("4294967296"), None);
    assert!(is_dri_link("/dev/dri/renderD128"));
    assert!(!is_dri_link("/dev/drip"));
}

fn card(name: &str, vendor: &str, slot: &str) -> CardEntry {
    CardEntry {
        name: name.to_string(),
        vendor: vendor.to_string(),
        uevent: format!("PCI_SLOT_NAME={slot}\n"),
        hwmon_path: None,
    }
}

fn cards() -> Vec<GpuCardMeta> {
    discover_gpu_cards(&[card("card0", "0x1002", "A"), card("card1", "0x8086", "B")])
}

fn amd(pdev: &str, vram: u64, ns: u64) -> String {
    format!(
        "drm-driver: amdgpu\ndrm-pdev: {pdev}\ndrm-memory-vram: {vram} KiB\ndrm-engine-gfx: {ns} ns\n"
    )
}

fn reading(name: &str, links: &[&str], fdinfo: Vec<String>) -> ProcReading {
    ProcReading {
        name: name.to_string(),
        stat: Some(stat("p", "1", "2", "3")),
        links: links.iter().map(|s| s.to_string()).collect(),
        fdinfo,
    }
}

#[test]
fn processes_and_their_use_of_cards() {
    let dri = ["/dev/null", "/dev/dri/card0"];
    let readings = vec![
        reading("self", &dri, vec![amd("A", 1000, 1000)]),
        reading("10", &dri, vec![amd("A", 50, 7), "junk".to_string(), amd("A", 80, 3), amd("A", 60, 1)]),
        reading("11", &["/dev/null"], vec![amd("A", 999, 999)]),
        reading("12", &dri, vec![amd("B", 5, 5), amd("A", 9, 9)]),
        ProcReading {
            name: "13".to_string(),
            stat: None,
            links: vec!["/dev/dri/card0".to_string()],
            fdinfo: vec![amd("A", 1, 1)],
        },
    ];
    let cards = cards();
    assert!(walk_proc_fits(&cards, &readings, 4096));
    let (procs, by_card) = walk_proc(&cards, &readings, 4096);
    let p = |pid| ProcSample { pid, cpu_ticks: 3, rss_bytes: 12288 };
    assert_eq!(procs, vec![p(10), p(11), p(12)]);
    assert_eq!(
        by_card[0],
        vec![
            GpuProcSample { pid: 10, vram_kib: 80, engine_gfx_ns: 11 },
            GpuProcSample { pid: 12, vram_kib: 9, engine_gfx_ns: 9 },
        ]
    );
    // The file on the second card is not one of its vendor's driver.
    assert_eq!(by_card[1], vec![]);
}

#[test]
fn without_cards_only_processes() {
    let readings = vec![reading("10", &["/dev/dri/card0"], vec![amd("A", 50, 7)])];
    let (procs, by_card) = walk_proc(&[], &readings, 1);
    assert_eq!(procs.len(), 1);
    assert!(by_card.is_empty());
}

#[test]
fn cards_with_one_address_share_their_processes() {
    let cards = discover_gpu_cards(&[card("card0", "0x8086", "A"), card("card1", "0x1002", "A")]);
    let readings = vec![reading("10", &["/dev/dri/card0"], vec![amd("A", 50, 7)])];
    let (_, by_card) = walk_proc(&cards, &readings, 1);
    let g = vec![GpuProcSample { pid: 10, vram_kib: 50, engine_gfx_ns: 7 }];
    assert_eq!(by_card, vec![g.clone(), g]);
}

#[test]
fn a_card_without_address_takes_files_without_one() {
    let mut entry = card("card0", "0x1002", "");
    entry.uevent = String::new();
    let cards = discover_gpu_cards(&[entry]);
    let file = "drm-driver: amdgpu\ndrm-memory-vram: 4 KiB\n".to_string();
    let readings = vec![reading("10", &["/dev/dri/card0"], vec![file])];
    let (_, by_card) = walk_proc(&cards, &readings, 1);
    assert_eq!(by_card[0], vec![GpuProcSample { pid: 10, vram_kib: 4, engine_gfx_ns: 0 }]);
}

#[test]
fn engine_times_that_exceed_64_bits() {
    let files = vec![amd("A", 1, u64::MAX), amd("A", 1, 1)];
    let readings = vec![reading("10", &["/dev/dri/card0"], files)];
    assert!(!walk_proc_fits(&cards(), &readings, 1));
    assert!(walk_proc_fits(&[], &readings, 1));
}
