use athroisma::fdinfo::{
    fdinfo_u64, parse_fd_pdev, parse_fdinfo, parse_fdinfo_amd, parse_fdinfo_intel,
    parse_fdinfo_nvidia, Vendor,
};

const AMD: &str = "pos:\t0\ndrm-driver:\tamdgpu\ndrm-pdev:\t0000:03:00.0\n\
                   drm-memory-vram:\t2048 KiB\ndrm-engine-gfx:\t123456 ns\n";

#[test]
fn values_of_keys() {
    assert_eq!(fdinfo_u64(AMD, "drm-memory-vram:"), 2048);
    assert_eq!(fdinfo_u64(AMD, "drm-engine-gfx:"), 123456);
    assert_eq!(fdinfo_u64(AMD, "drm-engine-compute:"), 0);
    assert_eq!(fdinfo_u64(AMD, "drm-driver:"), 0);
    assert_eq!(fdinfo_u64("k: 1\nk: 2\n", "k:"), 1);
    assert_eq!(fdinfo_u64("k:1 2\n", "k:"), 2);
}

#[test]
fn amd_files() {
    assert_eq!(parse_fdinfo_amd(AMD), Some((2048, 123456)));
    assert_eq!(parse_fdinfo_amd("drm-driver: amdgpu\n"), Some((0, 0)));
    assert_eq!(parse_fdinfo_amd("drm-driver: i915\n"), None);
    assert_eq!(parse_fdinfo_amd("xdrm-driver: amdgpu\n"), None);
    assert_eq!(parse_fdinfo_amd(""), None);
}

#[test]
fn nvidia_files() {
    let s = "drm-driver: nvidia\ndrm-memory-device: 77 KiB\ndrm-engine-graphics: 5 ns\n\
             drm-engine-compute: 9 ns\n";
    assert_eq!(parse_fdinfo_nvidia(s), Some((77, 5)));
    assert_eq!(
        parse_fdinfo_nvidia("drm-driver: nvidia\ndrm-engine-compute: 9 ns\n"),
        Some((0, 9))
    );
    assert_eq!(parse_fdinfo_nvidia("drm-driver: nvidia\n"), Some((0, 0)));
    assert_eq!(parse_fdinfo_nvidia(AMD), None);
}

#[test]
fn nvidia_graphics_time_comes_before_compute_time() {
    let s = "drm-driver: nvidia\ndrm-memory-device: 4 KiB\ndrm-engine-compute: 7 ns\n\
             drm-engine-graphics: 9 ns\n";
    assert_eq!(parse_fdinfo_nvidia(s), Some((4, 9)));
    assert_eq!(parse_fdinfo(&Vendor::Nvidia, s), Some((4, 9)));
    let s = "drm-driver: nvidia\ndrm-engine-compute: 7 ns\ndrm-engine-graphics: 0 ns\n";
    assert_eq!(parse_fdinfo_nvidia(s), Some((0, 0)));
}

#[test]
fn intel_files() {
    let s = "drm-driver: xe\ndrm-memory-device: 10 KiB\ndrm-memory-system: 20 KiB\n\
             drm-engine-render: 30 ns\n";
    assert_eq!(parse_fdinfo_intel(s), Some((10, 30)));
    let s = "drm-driver: i915\ndrm-memory-device: 0 KiB\ndrm-memory-system: 20 KiB\n";
    assert_eq!(parse_fdinfo_intel(s), Some((20, 0)));
    assert_eq!(parse_fdinfo_intel(AMD), None);
}

#[test]
fn vendor_decides_how_a_file_is_read() {
    assert_eq!(parse_fdinfo(&Vendor::Amd, AMD), Some((2048, 123456)));
    assert_eq!(parse_fdinfo(&Vendor::Nvidia, AMD), None);
    assert_eq!(parse_fdinfo(&Vendor::Intel, AMD), None);
}

#[test]
fn bus_address_of_a_file() {
    assert_eq!(parse_fd_pdev(AMD), "0000:03:00.0");
    assert_eq!(parse_fd_pdev("drm-pdev:\n"), "");
    assert_eq!(parse_fd_pdev("pos: 0\n"), "");
}
