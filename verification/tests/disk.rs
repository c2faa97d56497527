use athroisma::disk::{diff_disk, diff_disk_fits, disk_sample_fits, read_disk, DiskDevSample};
use athroisma::rate::{bytes_per_sec, bytes_per_sec_fits};
use athroisma::tree::DiskOut;

fn dev(name: &str, read_bytes: u64, write_bytes: u64) -> DiskDevSample {
    DiskDevSample { name: name.to_string(), read_bytes, write_bytes }
}

fn out(name: &str, r: u64, w: u64, partitions: Vec<DiskOut>) -> DiskOut {
    DiskOut {
        name: name.to_string(),
        read_bytes_per_sec: r,
        write_bytes_per_sec: w,
        partitions,
    }
}

const SECOND: u64 = 1_000_000_000;

#[test]
fn rates_per_second() {
    assert_eq!(bytes_per_sec(1000, SECOND), 1000);
    assert_eq!(bytes_per_sec(1000, SECOND / 2), 2000);
    assert_eq!(bytes_per_sec(1000, 3 * SECOND), 333);
    assert_eq!(bytes_per_sec(1000, 0), 0);
    assert_eq!(bytes_per_sec(30_000_000_000, 10 * SECOND), 3_000_000_000);
    assert_eq!(bytes_per_sec(u64::MAX, SECOND), u64::MAX);
    assert!(bytes_per_sec_fits(u64::MAX, SECOND));
    assert!(!bytes_per_sec_fits(u64::MAX, SECOND - 1));
    assert!(bytes_per_sec_fits(u64::MAX, 0));
}

#[test]
fn devices_without_loop_and_ram() {
    let s = "   7       0 loop0 1 2 3 4 5 6 7 8 9\n\
             1 0 ram0 1 2 3 4 5 6 7 8 9\n\
             8 0 sda 10 0 100 0 20 0 200 0 0 0 0\n\
             8 1 sda1 1 0 2\n8 2\n";
    assert!(disk_sample_fits(s));
    assert_eq!(
        read_disk(s),
        vec![dev("sda", 51_200, 102_400), dev("sda1", 1024, 0)]
    );
}

#[test]
fn sectors_that_exceed_64_bits() {
    assert!(!disk_sample_fits("8 0 sda 0 0 36028797018963968"));
    assert!(disk_sample_fits("8 0 sda 0 0 36028797018963967"));
    assert!(!disk_sample_fits("8 0 sda 0 0 0 0 0 0 36028797018963968"));
    assert!(disk_sample_fits("8 0 loop0 0 0 36028797018963968"));
}

#[test]
fn partitions_are_nested() {
    let prev = vec![dev("sda", 0, 0), dev("sda1", 0, 0), dev("sda2", 0, 0)];
    let curr = vec![dev("sda2", 0, 85924), dev("sda", 0, 85924), dev("sda1", 0, 0), dev("nvme0n1", 5, 5)];
    assert!(diff_disk_fits(&prev, &curr, SECOND));
    assert_eq!(
        diff_disk(&prev, &curr, SECOND),
        vec![
            out("nvme0n1", 0, 0, vec![]),
            out(
                "sda",
                0,
                85924,
                vec![out("sda1", 0, 0, vec![]), out("sda2", 0, 85924, vec![])]
            ),
        ]
    );
}

#[test]
fn every_level_of_the_tree_is_kept() {
    let curr = vec![dev("sda12", 1, 1), dev("sda1", 1, 1), dev("sda", 1, 1), dev("sdb", 1, 1), dev("sda2", 1, 1)];
    assert_eq!(
        diff_disk(&curr, &curr, SECOND),
        vec![
            out(
                "sda",
                0,
                0,
                vec![
                    out("sda1", 0, 0, vec![out("sda12", 0, 0, vec![])]),
                    out("sda2", 0, 0, vec![])
                ]
            ),
            out("sdb", 0, 0, vec![]),
        ]
    );
}

#[test]
fn of_one_name_the_last_device_counts() {
    let prev = vec![dev("sda", 0, 0), dev("sda", 100, 50)];
    let curr = vec![dev("sda", 900, 900), dev("sda", 300, 40)];
    assert_eq!(diff_disk(&prev, &curr, SECOND), vec![out("sda", 200, 0, vec![])]);
}

#[test]
fn rates_that_exceed_64_bits() {
    let prev = vec![dev("sda", 0, 0)];
    let curr = vec![dev("sda", u64::MAX, 0)];
    assert!(!diff_disk_fits(&prev, &curr, SECOND - 1));
    assert!(diff_disk_fits(&prev, &curr, SECOND));
    assert!(diff_disk_fits(&prev, &curr, 0));
    assert!(diff_disk_fits(&[], &curr, SECOND - 1));
}
