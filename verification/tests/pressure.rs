//! Scores, details and projections.

use pv::pressure::{fmt_eta, fmt_kb, fmt_rate, measure, Readings};
use pv::procfs::{Battery, MemInfo, Psi};

fn mem(total_kb: u64, available_kb: u64) -> MemInfo {
    MemInfo { total_kb, available_kb, swap_total_kb: 2 * 1_048_576, swap_free_kb: 1_048_576 }
}

fn psi(x: u32) -> Psi {
    Psi { some_avg10: x, full_avg10: 0 }
}

fn readings() -> Readings {
    Readings {
        mem0: mem(16 * 1_048_576, 4 * 1_048_576),
        mem1: mem(16 * 1_048_576, 4 * 1_048_576),
        trend_ms: 500,
        load_milli: 4000,
        ncpu: 8,
        psi_cpu: psi(10_000),
        psi_mem: psi(20_000),
        psi_io: psi(33_900),
        battery: None,
        thermal_milli: None,
    }
}

#[test]
fn scores_blend_use_and_stalls() {
    let r = measure(&readings());
    // 50 % of 150 % is a third of the load scale; half of it, and half of 10 %
    assert_eq!(r.cpu.score, 21);
    assert_eq!(r.cpu.detail, "load 4.00 on 8 cores, psi 10%");
    // 75 % used and 20 % stalled: 52.5 + 6
    assert_eq!(r.memory.score, 58);
    assert_eq!(r.memory.detail, "12.0/16.0 GB used (75%), swap 1.0 GB in use, psi 20%");
    assert_eq!(r.io.score, 33);
    assert_eq!(r.io.detail, "psi 34%");
    assert_eq!(r.overall, 58);
    assert_eq!(r.oom_eta_secs, None);
}

#[test]
fn stalls_and_load_are_capped() {
    let mut x = readings();
    x.load_milli = 900_000;
    x.psi_cpu = psi(250_000);
    x.psi_io = psi(100_000);
    let r = measure(&x);
    assert_eq!((r.cpu.score, r.io.score, r.overall), (100, 100, 100));
}

#[test]
fn exhaustion_is_foreseen_when_memory_drains() {
    let mut x = readings();
    // 1 MB in half a second
    x.mem0 = mem(16 * 1_048_576, 4 * 1_048_576 + 1024);
    let r = measure(&x);
    assert_eq!(r.oom_eta_secs, Some(2048));
    assert_eq!((r.mem_drop_kb, r.mem_window_ms), (1024, 500));
    // at 512 kB a second it is not yet foreseen
    x.mem0 = mem(16 * 1_048_576, 4 * 1_048_576 + 256);
    assert_eq!(measure(&x).oom_eta_secs, None);
    // nor where 60 % or less is in use
    x.mem0 = mem(100_000, 60_000);
    x.mem1 = mem(100_000, 40_000);
    assert_eq!(measure(&x).oom_eta_secs, None);
}

#[test]
fn a_draining_battery_presses() {
    let mut x = readings();
    x.battery = Some(Battery { capacity: 7, discharging: true });
    let r = measure(&x);
    let b = r.battery.unwrap();
    assert_eq!((b.name, b.score, b.detail.as_str()), ("Battery", 93, "7%, discharging"));
    assert_eq!(r.overall, 93);
    x.battery = Some(Battery { capacity: 7, discharging: false });
    let b = measure(&x).battery.unwrap();
    assert_eq!((b.score, b.detail.as_str()), (0, "7%, on AC"));
}

#[test]
fn heat_is_scored_between_forty_and_a_hundred_degrees() {
    let at = |t: u32| {
        let mut x = readings();
        x.thermal_milli = Some(t);
        let th = measure(&x).thermal.unwrap();
        (th.score, th.detail)
    };
    assert_eq!(at(70_000), (50, "70°C hottest zone".to_string()));
    assert_eq!(at(30_000).0, 0);
    assert_eq!(at(149_500), (100, "150°C hottest zone".to_string()));
}

#[test]
fn durations_and_sizes_are_short() {
    assert_eq!(fmt_eta(59), "59s");
    assert_eq!(fmt_eta(61), "1m 01s");
    assert_eq!(fmt_eta(3_661), "1h 01m");
    assert_eq!(fmt_kb(1023), "1023 kB");
    assert_eq!(fmt_kb(1536), "2 MB");
    assert_eq!(fmt_kb(2560), "2 MB");
    assert_eq!(fmt_kb(1_572_864), "1.5 GB");
}

#[test]
fn rates_are_signed() {
    // what is lost counts as negative, in MB a second
    assert_eq!(fmt_rate(512, 500), "-1.0");
    assert_eq!(fmt_rate(-512, 500), "+1.0");
    assert_eq!(fmt_rate(0, 500), format!("{:+.1}", -(0.0 / 0.5) / 1024.0));
    assert_eq!(fmt_rate(1, 500), format!("{:+.1}", -(1.0 / 0.5) / 1024.0));
}
