//! What the daemon plans, and what it learns.

use pv::daemon::{plan_notices, Habits, History, LoadStats, Slope, SysSample, WINDOW};
use pv::intent::{classify, Intent};
use pv::label::Labels;
use pv::notify::{Level, Notice};
use pv::pressure::{PressureReport, ResourcePressure};
use pv::procfs::{App, Battery, MemInfo};

const TOTAL_KB: u64 = 16_000_000; // pretend 16 GB machine

fn rp(name: &'static str, score: u8) -> ResourcePressure {
    ResourcePressure { name, score, detail: String::new() }
}

/// A calm report: low pressure everywhere, nothing draining.
fn base_report(total_kb: u64, available_kb: u64) -> PressureReport {
    PressureReport {
        cpu: rp("CPU", 10),
        memory: rp("RAM", 20),
        io: rp("IO", 0),
        battery: None,
        thermal: None,
        mem: MemInfo { total_kb, available_kb, swap_total_kb: 0, swap_free_kb: 0 },
        battery_info: None,
        mem_drop_kb: 0,
        mem_window_ms: 1000,
        oom_eta_secs: None,
        overall: 20,
    }
}

fn report_with_used_pct(used_pct: f64) -> PressureReport {
    let avail = (TOTAL_KB as f64 * (100.0 - used_pct) / 100.0) as u64;
    base_report(TOTAL_KB, avail)
}

/// A quantity in billionths.
fn nano(x: f64) -> u64 {
    (x * 1e9).round() as u64
}

/// A quantity in thousandths.
fn milli(x: f64) -> u32 {
    (x * 1e3).round() as u32
}

fn app(key: &str, display: &str, rss_kb: u64, cpu_pct: f64) -> App {
    App {
        key: key.into(),
        display: display.into(),
        pids: vec![4242],
        leader: 4242,
        rss_kb,
        cpu_pct: nano(cpu_pct),
        state: 'S',
        tty: false,
        has_audio: false,
        cmdline: key.into(),
        argv: vec![key.into()],
        age_ns: nano(7200.0),
        kernel: false,
    }
}

fn intents_of(apps: &Vec<App>) -> Vec<(String, Intent)> {
    apps.iter().map(|a| (a.key.clone(), classify(a))).collect()
}

fn fresh_habits() -> Habits {
    Habits::new()
}

/// Ambient readings of a healthy machine at 09:00.
fn quiet_sys() -> SysSample {
    SysSample {
        ncpu: 8,
        load1: milli(0.4),
        psi_mem_some_avg10: milli(0.0),
        hottest_thermal: None,
        hour: 9,
    }
}

fn valves(notices: &Vec<Notice>) -> Vec<&'static str> {
    notices.iter().map(|n| n.valve).collect()
}

fn plan(
    apps: &Vec<App>,
    intents: &Vec<(String, Intent)>,
    report: &PressureReport,
    hist: &History,
    habits: &Habits,
    interval: u64,
    sys: &SysSample,
) -> Vec<Notice> {
    plan_notices(apps, intents, report, hist, habits, interval, sys, &Labels::default(), 0)
}

fn rate(s: Slope) -> f64 {
    s.kb as f64 / s.secs as f64
}

fn mean_and_cv(s: LoadStats) -> (f64, f64) {
    (s.sum as f64 / 1e3 / s.count as f64, s.cv() as f64 / 1e9)
}

// ---------- the decision step ----------

#[test]
fn quiet_system_produces_no_notices() {
    let apps = vec![app("code", "Code", 800_000, 0.5)];
    let intents = intents_of(&apps);
    let report = report_with_used_pct(30.0);
    let mut hist = History::default();
    for _ in 0..6 {
        hist.push(&report, milli(0.4));
    }
    let notices = plan(&apps, &intents, &report, &hist, &fresh_habits(), 5, &quiet_sys());
    assert!(
        notices.is_empty(),
        "quiet system should plan nothing, got {:?}",
        valves(&notices)
    );
}

#[test]
fn rising_memory_trend_warns_before_critical() {
    let mut hist = History::default();
    // 24 samples at 5s cadence climbing 70% -> ~79% committed
    for i in 0..24u64 {
        hist.push(&report_with_used_pct(70.0 + i as f64 * 0.4), milli(0.5));
    }
    assert!(rate(hist.mem_slope_kb_s(5)) > 2048.0);
    assert!(hist.len() >= 12);

    let report = report_with_used_pct(79.0);
    let notices =
        plan(&vec![], &vec![], &report, &hist, &fresh_habits(), 5, &quiet_sys());
    assert_eq!(valves(&notices), vec!["V-01"]);
    let v1 = &notices[0];
    assert_eq!(v1.level, Level::Warning);
    assert_eq!(v1.title, "MEMORY PRESSURE RISING");
    assert!(v1.obs[0].contains("committed and climbing"));
}

#[test]
fn committed_memory_fires_critical_overpressure() {
    let mut report = report_with_used_pct(90.0);
    report.memory.score = 90;
    let notices = plan(
        &vec![],
        &vec![],
        &report,
        &History::default(),
        &fresh_habits(),
        5,
        &quiet_sys(),
    );
    assert_eq!(valves(&notices), vec!["V-01"]);
    let v1 = &notices[0];
    assert_eq!(v1.level, Level::Critical);
    assert_eq!(v1.title, "MEMORY OVERPRESSURE");
    assert_eq!(v1.gauge, Some(("RAM".to_string(), 90)));
}

#[test]
fn oom_eta_under_ten_minutes_fires_overpressure() {
    // 60% committed is below the 85% line; the ETA alone must trip V-01.
    let mut report = report_with_used_pct(60.0);
    report.oom_eta_secs = Some(300);
    let notices = plan(
        &vec![],
        &vec![],
        &report,
        &History::default(),
        &fresh_habits(),
        5,
        &quiet_sys(),
    );
    assert_eq!(valves(&notices), vec!["V-01"]);
    let v1 = &notices[0];
    assert_eq!(v1.level, Level::Critical);
    assert!(v1
        .obs
        .iter()
        .any(|o| o.contains("projected exhaustion in 5m 00s")));
}

#[test]
fn idle_browser_surfaces_reclaimable_reserve() {
    let apps = vec![app("firefox", "Firefox", 2_000_000, 0.2)];
    let intents = intents_of(&apps);
    let mut report = report_with_used_pct(60.0);
    report.memory.score = 60; // warm enough to look for reclaim
    let notices = plan(
        &apps,
        &intents,
        &report,
        &History::default(),
        &fresh_habits(),
        5,
        &quiet_sys(),
    );
    assert_eq!(valves(&notices), vec!["V-03"]);
    let v3 = &notices[0];
    assert_eq!(v3.level, Level::Advisory);
    assert_eq!(v3.title, "RECLAIMABLE RESERVE: FIREFOX");
    assert_eq!(v3.suggest.as_deref(), Some("pv suspend firefox"));
}

#[test]
fn busy_browser_is_not_reclaimable() {
    let apps = vec![app("firefox", "Firefox", 2_000_000, 35.0)];
    let intents = intents_of(&apps);
    let mut report = report_with_used_pct(60.0);
    report.memory.score = 60;
    let notices = plan(
        &apps,
        &intents,
        &report,
        &History::default(),
        &fresh_habits(),
        5,
        &quiet_sys(),
    );
    assert!(notices.iter().all(|n| n.valve != "V-03"));
}

#[test]
fn low_battery_with_migratable_build_suggests_migration() {
    let apps = vec![app("cargo", "Cargo", 500_000, 85.0)];
    let intents = intents_of(&apps);
    let mut report = report_with_used_pct(30.0);
    report.battery_info = Some(Battery { capacity: 12, discharging: true });
    let notices = plan(
        &apps,
        &intents,
        &report,
        &History::default(),
        &fresh_habits(),
        5,
        &quiet_sys(),
    );
    assert_eq!(valves(&notices), vec!["V-07"]);
    let v7 = &notices[0];
    assert_eq!(v7.level, Level::Warning); // 12%: serious, not yet critical
    assert_eq!(v7.gauge, Some(("BAT".to_string(), 88)));
    assert!(v7
        .obs
        .iter()
        .any(|o| o.contains("migratable workloads: Cargo")));
    assert_eq!(v7.suggest.as_deref(), Some("pv migrate cargo"));
}

#[test]
fn critical_battery_without_migratable_work_escalates() {
    let apps = vec![app("firefox", "Firefox", 900_000, 5.0)];
    let intents = intents_of(&apps);
    let mut report = report_with_used_pct(30.0);
    report.battery_info = Some(Battery { capacity: 6, discharging: true });
    let notices = plan(
        &apps,
        &intents,
        &report,
        &History::default(),
        &fresh_habits(),
        5,
        &quiet_sys(),
    );
    assert_eq!(valves(&notices), vec!["V-07"]);
    let v7 = &notices[0];
    assert_eq!(v7.level, Level::Critical); // <= 8% is critical
    assert!(v7
        .obs
        .iter()
        .any(|o| o.contains("no migratable workloads running")));
    assert!(v7.suggest.is_none());
}

#[test]
fn charging_battery_stays_quiet() {
    let mut report = report_with_used_pct(30.0);
    report.battery_info = Some(Battery { capacity: 10, discharging: false });
    let notices = plan(
        &vec![],
        &vec![],
        &report,
        &History::default(),
        &fresh_habits(),
        5,
        &quiet_sys(),
    );
    assert!(notices.is_empty());
}

#[test]
fn demand_spike_against_habit_baseline_fires_v02() {
    let mut habits = fresh_habits();
    for _ in 0..20 {
        habits.observe_at(9, nano(30.0), nano(40.0), nano(0.2), &vec![]);
    }
    let apps = vec![app("ffmpeg", "Ffmpeg", 300_000, 92.0)];
    let intents = intents_of(&apps);
    let report = report_with_used_pct(30.0);
    // load 2.6 on 4 cores = 65% vs a 30% learned baseline
    let sys = SysSample { ncpu: 4, load1: milli(2.6), hour: 9, ..quiet_sys() };
    let notices = plan(&apps, &intents, &report, &History::default(), &habits, 5, &sys);
    assert_eq!(valves(&notices), vec!["V-02"]);
    let v2 = &notices[0];
    assert_eq!(v2.level, Level::Advisory);
    assert!(v2.obs[0].contains("load 65% — your usual here is 30%"));
    assert!(v2.obs.iter().any(|o| o.contains("primary source: Ffmpeg")));

    // same hour at the learned baseline: no spike
    let calm = SysSample { ncpu: 4, load1: milli(1.0), hour: 9, ..quiet_sys() };
    let notices = plan(&apps, &intents, &report, &History::default(), &habits, 5, &calm);
    assert!(notices.iter().all(|n| n.valve != "V-02"));
}

#[test]
fn next_hour_demand_front_forecast_fires_v06() {
    let mut habits = fresh_habits();
    for _ in 0..20 {
        habits.observe_at(10, nano(50.0), nano(80.0), nano(0.2), &vec!["build".to_string()]);
    }
    let report = report_with_used_pct(40.0);
    let notices = plan(
        &vec![],
        &vec![],
        &report,
        &History::default(),
        &habits,
        5,
        &quiet_sys(), // hour 9 -> forecast looks at slot 10
    );
    assert_eq!(valves(&notices), vec!["V-06"]);
    let v6 = &notices[0];
    assert_eq!(v6.level, Level::Advisory);
    assert_eq!(v6.title, "DEMAND FRONT INCOMING");
    assert!(v6.obs[0].contains("your 10:00 block usually runs ~80% RAM (now 40%)"));
    assert!(v6.obs.iter().any(|o| o.contains("usual suspects: build")));
}

#[test]
fn erratic_load_pattern_fires_v05() {
    let report = report_with_used_pct(30.0);
    let mut hist = History::default();
    for i in 0..30 {
        let load = if i % 2 == 0 { 0.2 } else { 3.0 };
        hist.push(&report, milli(load));
    }
    let (mean, cv) = mean_and_cv(hist.load_stats());
    assert!(mean > 1.0 && cv > 0.55);
    let notices = plan(&vec![], &vec![], &report, &hist, &fresh_habits(), 5, &quiet_sys());
    assert_eq!(valves(&notices), vec!["V-05"]);
    assert_eq!(notices[0].title, "ERRATIC DEMAND PATTERN");
}

// ---------- history windows ----------

#[test]
fn history_window_trims_to_capacity() {
    let mut h = History::default();
    let r = report_with_used_pct(50.0);
    for _ in 0..WINDOW + 25 {
        h.push(&r, milli(1.0));
    }
    assert_eq!(h.len(), WINDOW);
    assert_eq!(h.swap_used_kb.len(), WINDOW);
    assert_eq!(h.load1.len(), WINDOW);
}

#[test]
fn mem_slope_measures_growth_rate() {
    let mut h = History::default();
    // available shrinks 10_000 kB per 5s tick -> used grows 2_000 kB/s
    for i in 0..10u64 {
        h.push(&base_report(TOTAL_KB, 8_000_000 - i * 10_000), milli(1.0));
    }
    assert!((rate(h.mem_slope_kb_s(5)) - 2_000.0).abs() < 1e-9);
}

#[test]
fn mem_slope_guards_degenerate_windows() {
    let mut h = History::default();
    assert!(rate(h.mem_slope_kb_s(5)).abs() < 1e-9); // empty
    h.push(&report_with_used_pct(50.0), milli(1.0));
    assert!(rate(h.mem_slope_kb_s(5)).abs() < 1e-9); // single sample
    h.push(&report_with_used_pct(60.0), milli(1.0));
    assert!(rate(h.mem_slope_kb_s(0)).abs() < 1e-9); // zero interval
}

#[test]
fn swap_growth_tracks_first_to_last() {
    let mut h = History::default();
    assert_eq!(h.swap_growth_kb(), 0);
    for i in 0..4u64 {
        let mut r = report_with_used_pct(50.0);
        r.mem.swap_total_kb = 8_000_000;
        r.mem.swap_free_kb = 2_000_000 - i * 25_000;
        h.push(&r, milli(1.0));
    }
    assert_eq!(h.swap_growth_kb(), 75_000);
}

#[test]
fn load_stats_reports_mean_and_coefficient_of_variation() {
    let mut h = History::default();
    let (mean, cv) = mean_and_cv(h.load_stats());
    assert!(mean.abs() < 1e-9 && cv.abs() < 1e-9); // empty

    let r = report_with_used_pct(50.0);
    h.push(&r, milli(1.0));
    h.push(&r, milli(3.0));
    let (mean, cv) = mean_and_cv(h.load_stats());
    assert!((mean - 2.0).abs() < 1e-9);
    assert!((cv - 0.5).abs() < 1e-9);

    // flat load has zero variance even with a full window
    let mut flat = History::default();
    for _ in 0..5 {
        flat.push(&r, milli(2.0));
    }
    let (mean, cv) = mean_and_cv(flat.load_stats());
    assert!((mean - 2.0).abs() < 1e-9);
    assert!(cv.abs() < 1e-9);
}

// ---------- habit learning ----------

fn close(x: u64, want: f64) -> bool {
    (x as f64 / 1e9 - want).abs() < 1e-9
}

#[test]
fn observe_seeds_emas_from_first_sample() {
    let mut h = fresh_habits();
    h.observe_at(9, nano(40.0), nano(60.0), nano(0.3), &vec!["build".to_string()]);
    let s = h.slot(9);
    assert_eq!(s.samples, 1);
    assert!(close(s.cpu_ema, 40.0));
    assert!(close(s.mem_ema, 60.0));
    assert!(close(s.var_ema, 0.3));
    assert_eq!(s.top, vec![("build".to_string(), 1)]);
    // every other slot stays untouched
    assert_eq!(h.slot(10).samples, 0);
    assert_eq!(h.total_samples(), 1);
}

#[test]
fn observe_learns_fast_early_then_slows() {
    let mut h = fresh_habits();
    h.observe_at(9, nano(50.0), nano(0.0), nano(1.0), &vec![]);
    // samples < 50 -> alpha 0.2
    h.observe_at(9, nano(100.0), nano(0.0), nano(0.0), &vec![]);
    assert!(close(h.slot(9).cpu_ema, 60.0)); // 50*0.8 + 100*0.2
    assert!(close(h.slot(9).var_ema, 0.8)); // 1.0*0.8 + 0.0*0.2

    // drive to exactly 50 samples with a steady signal
    let mut steady = fresh_habits();
    for _ in 0..50 {
        steady.observe_at(9, nano(10.0), nano(10.0), nano(0.1), &vec![]);
    }
    assert_eq!(steady.slot(9).samples, 50);
    // samples >= 50 -> alpha 0.05: 10*0.95 + 110*0.05 = 15.0
    steady.observe_at(9, nano(110.0), nano(10.0), nano(0.1), &vec![]);
    assert!(close(steady.slot(9).cpu_ema, 15.0));
}

#[test]
fn observe_tracks_top_categories_capped_at_three() {
    let mut h = fresh_habits();
    for _ in 0..3 {
        h.observe_at(9, 0, 0, 0, &vec!["build".to_string()]);
    }
    for _ in 0..2 {
        h.observe_at(9, 0, 0, 0, &vec!["browser".to_string()]);
    }
    h.observe_at(9, 0, 0, 0, &vec!["shell".to_string()]);
    h.observe_at(9, 0, 0, 0, &vec!["encode".to_string()]);
    // one observe can count several categories at once
    h.observe_at(9, 0, 0, 0, &vec!["build".to_string(), "shell".to_string()]);

    let top = &h.slot(9).top;
    assert_eq!(top.len(), 3);
    assert_eq!(top[0], ("build".to_string(), 4));
    assert_eq!(top[1], ("browser".to_string(), 2));
    assert_eq!(top[2], ("shell".to_string(), 2));
}

#[test]
fn slots_learn_independently_per_hour() {
    let mut h = fresh_habits();
    h.observe_at(9, nano(80.0), 0, 0, &vec![]);
    h.observe_at(21, nano(10.0), 0, 0, &vec![]);
    assert!(close(h.slot(9).cpu_ema, 80.0));
    assert!(close(h.slot(21).cpu_ema, 10.0));
    assert_eq!(h.slot(10).samples, 0);
    assert_eq!(h.total_samples(), 2);

    // hours wrap like the clock: 33 == 09
    h.observe_at(33, nano(40.0), 0, 0, &vec![]);
    assert_eq!(h.slot(9).samples, 2);
    assert_eq!(h.total_samples(), 3);
}

#[test]
fn demand_at_the_mark_is_unusual() {
    let mut habits = fresh_habits();
    for _ in 0..20 {
        habits.observe_at(9, nano(30.0), nano(40.0), nano(0.2), &vec![]);
    }
    let apps = vec![app("ffmpeg", "Ffmpeg", 300_000, 92.0)];
    let intents = intents_of(&apps);
    let report = report_with_used_pct(30.0);
    // 54% is exactly 1.8 times a 30% baseline
    for (load1, fires) in [(2160u32, true), (2159, false)] {
        let sys = SysSample { ncpu: 4, load1, hour: 9, ..quiet_sys() };
        let notices = plan(&apps, &intents, &report, &History::default(), &habits, 5, &sys);
        assert_eq!(notices.iter().any(|n| n.valve == "V-02"), fires, "{load1}");
    }
}

#[test]
fn averages_are_kept_to_the_nearest_billionth() {
    let mut h = fresh_habits();
    h.observe_at(9, 0, 0, 10, &vec![]);
    h.observe_at(9, 3, 2, 9, &vec![]);
    let s = h.slot(9);
    // 0.6, 0.4 and 9.8
    assert_eq!((s.cpu_ema, s.mem_ema, s.var_ema), (1, 0, 10));
    for _ in 2..50 {
        h.observe_at(9, 0, 0, 0, &vec![]);
    }
    h.slots[9].cpu_ema = 7;
    h.slots[9].mem_ema = 7;
    h.observe_at(9, 17, 16, 0, &vec![]);
    // 7.5 and 7.45
    assert_eq!((h.slot(9).cpu_ema, h.slot(9).mem_ema), (8, 7));
}

#[test]
fn the_variation_is_kept_to_the_nearest_billionth() {
    let report = report_with_used_pct(30.0);
    let runs: [&[u32]; 8] = [
        &[1000, 2000],
        &[1000, 5000],
        &[0, 21],
        &[0, u32::MAX],
        &[0, 20],
        &[4000, 4001, 3999],
        &[17, 0, 93_000, 250, 1],
        &[u32::MAX, u32::MAX - 1, u32::MAX, u32::MAX],
    ];
    let mut got: Vec<u64> = vec![];
    for run in runs {
        let mut hist = History::default();
        for &x in run {
            hist.push(&report, x);
        }
        let s = hist.load_stats();
        let c = s.cv();
        let want = (s.spread as f64).sqrt() / s.sum as f64 * 1e9;
        assert!((c as f64 - want).abs() <= 0.5 + want * 1e-12, "{run:?}: {c} for {want}");
        got.push(c);
    }
    // a third, two thirds, as much as the mean itself, and nothing at a mean
    // of a hundredth
    assert_eq!(got[..5], [333_333_333, 666_666_667, 1_000_000_000, 1_000_000_000, 0]);
}

#[test]
fn a_window_forgets_what_has_left_it() {
    let report = report_with_used_pct(30.0);
    let (mut long, mut short) = (History::default(), History::default());
    for i in 0..(WINDOW as u32 + 30) {
        long.push(&report, 100 + i);
        if i >= 30 {
            short.push(&report, 100 + i);
        }
    }
    let (a, b) = (long.load_stats(), short.load_stats());
    assert_eq!((a.sum, a.count, a.spread), (b.sum, b.count, b.spread));
    assert_eq!(long.len(), WINDOW);
}
