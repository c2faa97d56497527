use athroisma::procfs::{
    cpu_ticks_fit, mem_sample_fits, parse_kb, parse_kib, read_cpu_ticks, read_load, read_mem,
    read_net, CpuTicks, IfaceSample,
};

#[test]
fn ticks_of_the_first_line() {
    let s = "cpu  100 5 50 800 40 1 2 3 0 0\ncpu0 1 2 3 4 5 6 7 8 9 10\n";
    assert!(cpu_ticks_fit(s));
    assert_eq!(read_cpu_ticks(s), CpuTicks { total: 1001, idle: 840 });
}

#[test]
fn ticks_of_odd_lines() {
    assert_eq!(read_cpu_ticks(""), CpuTicks { total: 0, idle: 0 });
    assert_eq!(read_cpu_ticks("cpu"), CpuTicks { total: 0, idle: 0 });
    assert_eq!(read_cpu_ticks("cpu 1 x 3 4"), CpuTicks { total: 8, idle: 4 });
}

#[test]
fn ticks_that_exceed_64_bits() {
    assert!(!cpu_ticks_fit("cpu 18446744073709551615 1"));
    assert!(cpu_ticks_fit("cpu 18446744073709551615 0"));
    assert!(cpu_ticks_fit("cpu 18446744073709551616 1"));
}

#[test]
fn load_is_the_first_word() {
    assert_eq!(read_load("1.02 0.97 0.90 2/800 12345\n"), Some("1.02".to_string()));
    assert_eq!(read_load("\n"), None);
}

#[test]
fn kib_to_bytes() {
    assert_eq!(parse_kb("       16384 kB"), 16777216);
    assert_eq!(parse_kb("kB"), 0);
    assert_eq!(parse_kb(""), 0);
    assert_eq!(parse_kib(" 7 kB"), 7);
}

#[test]
fn memory_and_swap() {
    let s = "MemTotal:       1000 kB\nMemFree:         10 kB\nMemAvailable:    600 kB\n\
             SwapCached: 1 kB\nSwapTotal:      200 kB\nSwapFree:       150 kB\n";
    assert!(mem_sample_fits(s));
    let m = read_mem(s);
    assert_eq!(m.total_bytes, 1_024_000);
    assert_eq!(m.available_bytes, 614_400);
    assert_eq!(m.swap_total_bytes, 204_800);
    assert_eq!(m.swap_free_bytes, 153_600);
}

#[test]
fn last_memory_line_stands() {
    let m = read_mem("MemTotal: 1 kB\nMemTotal: 2 kB\n MemTotal: 3 kB\n");
    assert_eq!(m.total_bytes, 2048);
    assert_eq!(m.available_bytes, 0);
}

#[test]
fn memory_that_exceeds_64_bits() {
    assert!(!mem_sample_fits("SwapFree: 18014398509481984 kB"));
    assert!(mem_sample_fits("SwapFree: 18014398509481983 kB"));
    assert!(mem_sample_fits("Other: 18014398509481984 kB"));
}

#[test]
fn interfaces_without_loopback() {
    let s = "Inter-|   Receive                                                |  Transmit\n \
             face |bytes    packets errs drop fifo frame compressed multicast|bytes    packets\n    \
             lo: 500 5 0 0 0 0 0 0 500 5 0 0 0 0 0 0\n\
             enp15s0: 204800 9 0 0 0 0 0 0 51200 7 0 0 0 0 0 0\n  \
             wlan0:7 1\nno colon here\n";
    assert_eq!(
        read_net(s),
        vec![
            IfaceSample { name: "enp15s0".to_string(), rx_bytes: 204800, tx_bytes: 51200 },
            IfaceSample { name: "wlan0".to_string(), rx_bytes: 7, tx_bytes: 0 },
        ]
    );
}

#[test]
fn interfaces_below_the_heading_only() {
    assert_eq!(read_net("a: 1\nb: 2\n"), vec![]);
    assert_eq!(read_net("a: 1\nb: 2\nc : 3\n")[0].name, "c");
    assert_eq!(read_net(""), vec![]);
}
