use athroisma::fdinfo::Vendor;
use athroisma::gpu::{
    detect_vendor, device_path, discover_gpu_cards, is_card_name, read_card_stats,
    read_gpu_hwmon, read_pdev, read_sysfs_u64, CardEntry, CardReading, CardStats,
};
use athroisma::nvml::{nvml_device_found, nvml_load_step, NvmlAction, NvmlEvent, NvmlReading};

#[test]
fn vendors() {
    assert_eq!(detect_vendor("0x1002\n"), Some(Vendor::Amd));
    assert_eq!(detect_vendor(" 0x10de"), Some(Vendor::Nvidia));
    assert_eq!(detect_vendor("0x8086"), Some(Vendor::Intel));
    assert_eq!(detect_vendor("0x10DE"), None);
    assert_eq!(detect_vendor(""), None);
}

#[test]
fn card_names() {
    assert!(is_card_name("card0"));
    assert!(is_card_name("card"));
    assert!(!is_card_name("card0-HDMI-A-1"));
    assert!(!is_card_name("renderD128"));
}

#[test]
fn bus_addresses() {
    let s = "DRIVER=amdgpu\nPCI_SLOT_NAME=0000:03:00.0\nMODALIAS=pci\n";
    assert_eq!(read_pdev(s), "0000:03:00.0");
    assert_eq!(read_pdev("PCI_SLOT_NAME= a =b=c\n"), "a");
    assert_eq!(read_pdev("X=1\n"), "");
}

fn entry(name: &str, vendor: &str, slot: &str) -> CardEntry {
    CardEntry {
        name: name.to_string(),
        vendor: vendor.to_string(),
        uevent: format!("PCI_SLOT_NAME={slot}\n"),
        hwmon_path: None,
    }
}

#[test]
fn cards_are_found_and_sorted() {
    let mut second = entry("card1", "0x1002\n", "0000:03:00.0");
    second.hwmon_path = Some("/sys/class/drm/card1/device/hwmon/hwmon4".to_string());
    let entries = vec![
        second,
        entry("version", "0x1002", ""),
        entry("card0-DP-1", "0x1002", ""),
        entry("card2", "0xffff", ""),
        entry("card0", "0x8086\n", "0000:00:02.0"),
    ];
    let cards = discover_gpu_cards(&entries);
    assert_eq!(cards.len(), 2);
    assert_eq!(cards[0].card, "card0");
    assert_eq!(cards[0].vendor, Vendor::Intel);
    assert_eq!(cards[0].pdev, "0000:00:02.0");
    assert_eq!(cards[0].hwmon_path, None);
    assert_eq!(cards[1].card, "card1");
    assert_eq!(cards[1].path_busy, "/sys/class/drm/card1/device/gpu_busy_percent");
    assert_eq!(cards[1].path_vram_used, "/sys/class/drm/card1/device/mem_info_vram_used");
    assert_eq!(cards[1].path_vram_total, "/sys/class/drm/card1/device/mem_info_vram_total");
    assert_eq!(
        cards[1].hwmon_path.as_deref(),
        Some("/sys/class/drm/card1/device/hwmon/hwmon4")
    );
    assert_eq!(device_path("card7"), "/sys/class/drm/card7/device");
}

#[test]
fn number_files() {
    assert_eq!(read_sysfs_u64("43\n"), 43);
    assert_eq!(read_sysfs_u64(""), 0);
    assert_eq!(read_sysfs_u64("n/a"), 0);
}

#[test]
fn sensors() {
    assert_eq!(read_gpu_hwmon("65000\n", "120500000\n"), (65000, 120500));
    assert_eq!(read_gpu_hwmon("-5000\n", "999"), (-5000, 0));
    assert_eq!(read_gpu_hwmon("", ""), (0, 0));
    assert_eq!(read_gpu_hwmon("2147483648", "4294967296000").0, 0);
    assert_eq!(read_gpu_hwmon("0", "4294967297000").1, 1);
}

fn reading(nvml: Option<NvmlReading>) -> CardReading {
    CardReading {
        busy: "300\n".to_string(),
        vram_used: "10\n".to_string(),
        vram_total: "20\n".to_string(),
        temp: "50000\n".to_string(),
        power: "7000\n".to_string(),
        nvml,
    }
}

#[test]
fn card_states_by_vendor() {
    let base = CardStats { busy: 0, temp_mc: 50000, power_mw: 7, vram_used: 10, vram_total: 20 };
    assert_eq!(read_card_stats(&Vendor::Amd, &reading(None)), CardStats { busy: 44, ..base });
    assert_eq!(read_card_stats(&Vendor::Intel, &reading(None)), base);
    assert_eq!(
        read_card_stats(&Vendor::Nvidia, &reading(None)),
        CardStats { vram_used: 0, vram_total: 0, ..base }
    );
    let n = NvmlReading { util_ret: 0, gpu: 99, mem_ret: 0, used: 5, total: 6 };
    assert_eq!(
        read_card_stats(&Vendor::Nvidia, &reading(Some(n))),
        CardStats { busy: 99, vram_used: 5, vram_total: 6, ..base }
    );
    let n = NvmlReading { util_ret: 3, mem_ret: 0, ..n };
    assert_eq!(
        read_card_stats(&Vendor::Nvidia, &reading(Some(n))),
        CardStats { busy: 0, vram_used: 5, vram_total: 6, ..base }
    );
    let n = NvmlReading { util_ret: 0, mem_ret: 1, ..n };
    assert_eq!(
        read_card_stats(&Vendor::Nvidia, &reading(Some(n))),
        CardStats { busy: 99, vram_used: 0, vram_total: 0, ..base }
    );
}

#[test]
fn loading_the_vendor_library() {
    assert_eq!(nvml_load_step(NvmlEvent::Opened { found: false }), NvmlAction::GiveUp);
    assert_eq!(nvml_load_step(NvmlEvent::Opened { found: true }), NvmlAction::Resolve);
    let all = NvmlEvent::Resolved { init: true, pci: true, util: true, mem: true };
    assert_eq!(nvml_load_step(all), NvmlAction::Initialise);
    let some = NvmlEvent::Resolved { init: true, pci: true, util: false, mem: true };
    assert_eq!(nvml_load_step(some), NvmlAction::CloseAndGiveUp);
    assert_eq!(nvml_load_step(NvmlEvent::Initialised { ret: 0 }), NvmlAction::Use);
    assert_eq!(nvml_load_step(NvmlEvent::Initialised { ret: 9 }), NvmlAction::CloseAndGiveUp);
    assert!(nvml_device_found(0, false));
    assert!(!nvml_device_found(0, true));
    assert!(!nvml_device_found(1, false));
}
