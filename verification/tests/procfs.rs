//! What the kernel's files say.

use pv::procfs::{
    battery, group_apps, hottest_thermal, list_pids, loadavg, meminfo, psi, read_process, snapshot,
    stat_readable, system_uptime, xdg, Battery, ProcFiles, Process, Supply,
};

const STAT: &str =
    "42 (a (b) c) R 7 8 9 34816 0 0 0 0 0 0 100 50 0 0 20 0 3 0 600 0 0 0 0\n";

fn files() -> ProcFiles {
    ProcFiles {
        stat: STAT.to_string(),
        cmdline: b"/bin/tool\0--flag\0\0\xff\0".to_vec(),
        status: Some("Name:\tx\nUid:\t1000\t1000\nVmRSS:\t  2048 kB\nThreads:\t3\n".to_string()),
        exe: Some("/opt/x/Tool (deleted)".to_string()),
        fds: vec!["/dev/null".to_string(), "/dev/snd/pcm0".to_string()],
    }
}

#[test]
fn a_process_is_read_from_its_files() {
    assert!(stat_readable(STAT));
    let p = read_process(42, 10_000_000_000, 100, &files()).expect("readable");
    assert_eq!((p.pid, p.ppid, p.pgrp, p.state, p.tty), (42, 7, 8, 'R', true));
    assert_eq!(p.comm, "a (b) c");
    assert_eq!(p.exe, "Tool");
    assert_eq!(p.argv, vec!["/bin/tool", "--flag", "\u{fffd}"]);
    assert_eq!(p.cmdline, "/bin/tool --flag \u{fffd}");
    assert_eq!((p.uid, p.rss_kb, p.threads), (1000, 2048, 3));
    assert_eq!((p.utime, p.stime, p.cpu_ticks()), (100, 50, 150));
    // started 6 s after boot, 10 s ago
    assert_eq!(p.age_ns, 4_000_000_000);
    assert!(p.has_audio);
    assert!(!p.kernel_thread);
}

#[test]
fn a_process_without_files_has_defaults() {
    let f = ProcFiles {
        stat: STAT.to_string(),
        cmdline: vec![],
        status: None,
        exe: None,
        fds: vec![],
    };
    let p = read_process(42, 0, 100, &f).expect("readable");
    assert!(p.kernel_thread);
    assert_eq!(p.exe, "a (b) c");
    assert_eq!((p.uid, p.rss_kb, p.threads, p.age_ns), (0, 0, 1, 0));
    let mut f = files();
    f.status = Some("Uid:\n".to_string());
    assert!(read_process(42, 0, 100, &f).is_none());
    let mut f = files();
    f.stat = "42 (x) R 1 2".to_string();
    assert!(stat_readable(&f.stat));
    assert!(read_process(42, 0, 100, &f).is_none());
    f.stat = "garbage".to_string();
    assert!(read_process(42, 0, 100, &f).is_none());
    assert!(!stat_readable("1 (x)"));
    assert!(!stat_readable("1 )x( "));
}

fn proc(pid: u32, exe: &str, rss_kb: u64, utime: u64, state: char, age_ns: u64) -> Process {
    Process {
        pid,
        ppid: 1,
        pgrp: 1,
        state,
        tty: false,
        comm: String::new(),
        exe: exe.to_string(),
        cmdline: format!("{exe} {pid}"),
        argv: vec![exe.to_string(), pid.to_string()],
        uid: 0,
        rss_kb,
        threads: 1,
        utime,
        stime: 0,
        age_ns,
        has_audio: false,
        kernel_thread: false,
    }
}

#[test]
fn processes_are_grouped_by_program() {
    let mut kernel = proc(9, "kworker", 0, 0, 'S', 0);
    kernel.kernel_thread = true;
    let apps = group_apps(
        &vec![
            proc(10, "Firefox", 100, 10, 'S', 50),
            proc(11, "firefox", 200, 20, 'R', 90),
            proc(12, "élan", 900, 0, 'Z', 1),
            proc(1, "init", 5, 0, 'S', 999),
            kernel,
        ],
        100,
        500,
    );
    assert_eq!(apps.len(), 2);
    assert_eq!((apps[0].key.as_str(), apps[0].display.as_str()), ("élan", "Élan"));
    assert_eq!(apps[0].state, 'Z');
    let f = &apps[1];
    assert_eq!((f.key.as_str(), f.display.as_str()), ("firefox", "Firefox"));
    assert_eq!(f.pids, vec![10, 11]);
    assert_eq!((f.rss_kb, f.leader, f.state), (300, 11, 'R'));
    assert_eq!(f.cmdline, "firefox 11");
    // 30 ticks of 10 ms in half a second
    assert_eq!(f.cpu_pct, 60_000_000_000);
    assert_eq!(f.age_ns, 90);
}

#[test]
fn the_load_of_a_program_is_the_nearest_billionth() {
    // two ticks of 10 ms in 300 ms, and one
    for (ticks, want) in [(2u64, 6_666_666_667u64), (1, 3_333_333_333)] {
        let apps = group_apps(&vec![proc(10, "a", 1, ticks, 'S', 0)], 100, 300);
        assert_eq!(apps[0].cpu_pct, want);
    }
}

#[test]
fn a_snapshot_holds_the_ticks_since_the_first_look() {
    let out = snapshot(
        &vec![(10, 5), (11, 100)],
        vec![
            proc(10, "a", 0, 25, 'S', 0),
            proc(11, "b", 0, 60, 'S', 0),
            proc(12, "c", 0, 7, 'S', 0),
        ],
    );
    let got: Vec<(u32, u64, u64)> = out.iter().map(|p| (p.pid, p.utime, p.stime)).collect();
    assert_eq!(got, vec![(10, 20, 0), (11, 0, 0), (12, 7, 0)]);
}

#[test]
fn kernel_tables_are_parsed() {
    let m = meminfo("MemTotal: 100 kB\nMemAvailable: x\nSwapTotal: 7 kB\nSwapFree: 3\nBad\n");
    assert_eq!(
        (m.total_kb, m.available_kb, m.swap_total_kb, m.swap_free_kb),
        (100, 0, 7, 3)
    );
    assert_eq!(loadavg("0.52 0.6 1 2/3 4"), vec!["0.52", "0.6", "1"]);
    assert_eq!(system_uptime("12.5 9\n").as_deref(), Some("12.5"));
    assert_eq!(system_uptime(" \n"), None);
    let p = psi("some avg10=1.50 avg60=0\nfull avg10=0.25 total=1\n").expect("two kinds");
    assert_eq!((p.some.as_deref(), p.full.as_deref()), (Some("1.50"), Some("0.25")));
    assert!(psi("\n").is_none());
    let names = vec!["1".to_string(), "self".to_string(), "+7".to_string(), "99999999999".to_string()];
    assert_eq!(list_pids(&names), vec![1, 7]);
}

fn supply(kind: &str, capacity: Option<&str>, status: Option<&str>) -> Supply {
    Supply {
        kind: Some(kind.to_string()),
        capacity: capacity.map(|s| s.to_string()),
        status: status.map(|s| s.to_string()),
    }
}

#[test]
fn the_first_battery_counts() {
    let found = battery(&vec![
        supply("Mains\n", None, None),
        supply("Battery\n", Some("81\n"), Some("Discharging\n")),
        supply("Battery\n", Some("3\n"), None),
    ]);
    assert_eq!(found, Some(Battery { capacity: 81, discharging: true }));
    assert_eq!(
        battery(&vec![supply("Battery", Some("50"), None)]),
        Some(Battery { capacity: 50, discharging: false })
    );
    assert_eq!(
        battery(&vec![supply("Battery", None, None), supply("Battery", Some("5"), None)]),
        None
    );
    assert_eq!(battery(&vec![]), None);
}

#[test]
fn only_plausible_temperatures_count() {
    assert_eq!(hottest_thermal(&vec![45_000, 150_000, 61_500, 0, -3]), Some(61_500));
    assert_eq!(hottest_thermal(&vec![0, 200_000]), None);
}

#[test]
fn an_empty_variable_counts_as_unset() {
    let h = Some("/h".to_string());
    assert_eq!(xdg(&Some("/c".to_string()), &h, ".config"), "/c");
    assert_eq!(xdg(&Some(String::new()), &h, ".config"), "/h/.config");
    assert_eq!(xdg(&None, &None, ".config"), "/tmp/.config");
}
