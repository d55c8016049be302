//! Which filesystems count, and how full they are.

use pv::storage::{
    calc_used_pct, dedupe, filesystems, fullest, keep, mounts_fit, mounts_found, mounts_to_measure,
    parse_mounts, to_kb, unescape, Filesystem, Measured, Statvfs,
};

#[test]
fn parse_mounts_reads_device_mount_fstype() {
    let s = "sysfs /sys sysfs rw,nosuid,nodev,noexec,relatime 0 0\n\
             /dev/nvme0n1p2 / ext4 rw,relatime 0 0\n\
             tmpfs /tmp tmpfs rw,nosuid,nodev 0 0\n";
    let m = parse_mounts(s);
    assert_eq!(m.len(), 3);
    assert_eq!(
        m[1],
        ("/dev/nvme0n1p2".to_string(), "/".to_string(), "ext4".to_string())
    );
}

#[test]
fn parse_mounts_unescapes_octal_sequences() {
    let s = "/dev/sda1 /mnt/my\\040drive ext4 rw 0 0\n\
             /dev/sdb1 /mnt/tab\\011here ext4 rw 0 0\n";
    let m = parse_mounts(s);
    assert_eq!(m[0].1, "/mnt/my drive");
    assert_eq!(m[1].1, "/mnt/tab\there");
}

#[test]
fn parse_mounts_skips_malformed_lines() {
    assert!(parse_mounts("").is_empty());
    assert!(parse_mounts("only-one-field\n").is_empty());
    assert_eq!(parse_mounts("a b c\nd\n").len(), 1);
}

#[test]
fn keep_drops_loop_overlay_and_pseudo_noise() {
    assert!(!keep("/dev/loop0", "squashfs"));
    assert!(!keep("/dev/loop23", "ext4"));
    assert!(!keep("overlay", "overlay"));
    assert!(!keep("efivarfs", "efivarfs"));
    assert!(!keep("none", "pstore"));
    assert!(keep("/dev/nvme0n1p2", "ext4"));
    assert!(keep("tmpfs", "tmpfs"));
    assert!(keep("udev", "devtmpfs"));
    assert!(keep("server:/export", "nfs"));
}

#[test]
fn used_pct_counts_reserved_blocks_as_used() {
    // blocks 100, bfree 10, bavail 5 -> used 90, 90/(90+5) = 94%
    assert_eq!(calc_used_pct(100, 10, 5), 94);
    // nothing used even though root reserves blocks
    assert_eq!(calc_used_pct(100, 100, 95), 0);
}

#[test]
fn used_pct_handles_empty_and_full() {
    assert_eq!(calc_used_pct(0, 0, 0), 0, "pseudo fs, no blocks");
    assert_eq!(calc_used_pct(100, 0, 0), 100);
    assert_eq!(calc_used_pct(200, 100, 100), 50);
}

fn fs(mount: &str, device: &str, fstype: &str, used_pct: u8) -> Filesystem {
    Filesystem {
        mount: mount.to_string(),
        device: device.to_string(),
        fstype: fstype.to_string(),
        total_kb: 1000,
        avail_kb: 500,
        used_pct,
    }
}

#[test]
fn dedupe_keeps_shortest_mount_per_block_device() {
    let out = dedupe(vec![
        fs("/var/lib/docker/bind", "/dev/sda1", "ext4", 50),
        fs("/", "/dev/sda1", "ext4", 50),
        fs("/boot", "/dev/sda2", "vfat", 10),
    ]);
    assert_eq!(out.len(), 2);
    let root = out.iter().find(|f| f.device == "/dev/sda1").unwrap();
    assert_eq!(root.mount, "/");
}

#[test]
fn dedupe_keeps_distinct_tmpfs_mounts() {
    let out = dedupe(vec![
        fs("/tmp", "tmpfs", "tmpfs", 5),
        fs("/dev/shm", "tmpfs", "tmpfs", 1),
    ]);
    assert_eq!(out.len(), 2, "same source name, distinct instances");
}

#[test]
fn escapes_that_are_no_bytes_are_noticed() {
    assert!(mounts_fit("a /mnt/x\\040y c\n"));
    assert!(!mounts_fit("a /mnt/x\\777y c\n"));
    // too few fields: the line is skipped in any case
    assert!(mounts_fit("a /mnt/x\\777y\n"));
    assert_eq!(unescape("a\\134b\\12"), "a\\b\\12");
    // an escaped byte that is no text is marked
    assert_eq!(unescape("x\\377"), "x\u{fffd}");
    assert_eq!(unescape("\\303\\251"), "é");
}

#[test]
fn blocks_become_kilobytes() {
    assert_eq!(to_kb(3, 4096), 12);
    assert_eq!(to_kb(1, 1023), 0);
    assert_eq!(to_kb(u64::MAX, u64::MAX), u64::MAX);
    assert_eq!(calc_used_pct(u64::MAX, 0, u64::MAX), 100);
    assert_eq!(calc_used_pct(5, 9, 7), 0);
}

fn measured(device: &str, mount: &str, stat: Option<(u64, u64, u64)>) -> Measured {
    Measured {
        device: device.to_string(),
        mount: mount.to_string(),
        fstype: "ext4".to_string(),
        stat: stat.map(|(blocks, bfree, bavail)| Statvfs { frsize: 1024, blocks, bfree, bavail }),
    }
}

#[test]
fn listings_come_fullest_first() {
    let list = filesystems(&vec![
        measured("/dev/a", "/b", Some((100, 50, 50))),
        measured("/dev/b", "/a", Some((100, 50, 50))),
        measured("/dev/c", "/full", Some((100, 0, 0))),
        measured("proc", "/proc", Some((0, 0, 0))),
        measured("gone", "/gone", None),
        measured("/dev/c", "/f", Some((100, 0, 0))),
    ]);
    let got: Vec<(&str, u8)> = list.iter().map(|f| (f.mount.as_str(), f.used_pct)).collect();
    assert_eq!(got, vec![("/f", 100), ("/a", 50), ("/b", 50)]);
    assert_eq!(fullest(&list).map(|f| f.mount.as_str()), Some("/f"));
    assert_eq!(list[1].total_kb, 100);
    assert_eq!(list[1].avail_kb, 50);
    assert!(fullest(&vec![]).is_none());
}

#[test]
fn only_mounts_that_count_are_measured() {
    let m = mounts_to_measure("/dev/loop1 /snap squashfs ro 0 0\n/dev/sda1 / ext4 rw 0 0\n");
    assert_eq!(m.len(), 1);
    assert_eq!(m[0].1, "/");
    assert_eq!(mounts_found("/dev/sda1 / ext4 rw 0 0\n").map(|m| m.len()), Some(1));
    assert!(mounts_found("/dev/sda1 /\\400 ext4 rw 0 0\n").is_none());
}

#[test]
fn paths_survive_the_escapes_of_the_kernel() {
    let escaped = |s: &str| -> String {
        s.chars()
            .map(|c| {
                if " \t\n\\".contains(c) {
                    format!("\\{:03o}", c as u32)
                } else {
                    c.to_string()
                }
            })
            .collect()
    };
    for path in ["", "/", "/mnt/my disk", "/a\tb\nc", "/back\\slash", "/\\040", "/é 日本"] {
        assert_eq!(unescape(&escaped(path)), path);
    }
}
