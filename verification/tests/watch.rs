//! The daemon's ticks and what it shows of itself.

use pv::commands::gather;
use pv::daemon::{
    active_categories, banner, gate, habits_path, install_service, oneshot_notices, print_habits,
    run_notify, service_path, Daemon, HabitSlot, Habits, SysSample,
};
use pv::display::Theme;
use pv::label::Labels;
use pv::notify::{Cooldowns, Level, Notice};
use pv::pressure::{PressureReport, ResourcePressure};
use pv::procfs::{App, MemInfo};

const PLAIN: Theme = Theme { enabled: false };
const SEC: u64 = 1_000_000_000;

fn app(key: &str, rss_kb: u64, cpu: u64) -> App {
    App {
        key: key.to_string(),
        display: key.to_uppercase(),
        pids: vec![9],
        leader: 9,
        rss_kb,
        cpu_pct: cpu * SEC,
        state: 'S',
        tty: false,
        has_audio: false,
        cmdline: key.to_string(),
        argv: vec![],
        age_ns: 0,
        kernel: false,
    }
}

fn report(available_kb: u64) -> PressureReport {
    let rp = |score: u8| ResourcePressure { name: "X", score, detail: String::new() };
    PressureReport {
        cpu: rp(0),
        memory: rp(20),
        io: rp(0),
        battery: None,
        thermal: None,
        mem: MemInfo { total_kb: 1_000_000, available_kb, swap_total_kb: 10, swap_free_kb: 4 },
        battery_info: None,
        mem_drop_kb: 0,
        mem_window_ms: 250,
        oom_eta_secs: None,
        overall: 33,
    }
}

fn sample() -> SysSample {
    SysSample {
        ncpu: 4,
        load1: 2000,
        psi_mem_some_avg10: 0,
        hottest_thermal: Some(85_000),
        hour: 23,
    }
}

fn no_labels() -> Labels {
    Labels { global: None, app: vec![] }
}

#[test]
fn a_tick_learns_and_vents_once() {
    let mut d = Daemon::new(Habits::new());
    let st = gather(vec![app("cargo", 300_000, 50), app("tiny", 10, 0)], report(400_000));
    assert_eq!(active_categories(&st.apps, &st.intents), vec!["build"]);
    let (s, l) = (sample(), no_labels());
    let first = d.tick(&st.apps, &st.intents, &st.report, 5, &s, &l, 100, SEC);
    assert_eq!(first.len(), 1);
    assert_eq!((first[0].valve, first[0].level), ("V-08", Level::Warning));
    assert_eq!(first[0].obs, vec!["85°C hottest zone", "largest heat source: CARGO"]);
    let slot = d.habits.slot(23);
    // two of four cores, 60 percent of memory
    assert_eq!((slot.samples, slot.cpu_ema, slot.mem_ema), (1, 50 * SEC, 60 * SEC));
    assert_eq!(slot.top, vec![("build".to_string(), 1)]);
    assert_eq!((d.hist.len(), d.hist.swap_growth_kb()), (1, 0));
    // the valve rests for ten minutes
    assert!(d.tick(&st.apps, &st.intents, &st.report, 5, &s, &l, 105, 600 * SEC).is_empty());
    assert_eq!(d.tick(&st.apps, &st.intents, &st.report, 5, &s, &l, 701, 601 * SEC).len(), 1);
    assert_eq!(d.habits.total_samples(), 3);
}

#[test]
fn habits_are_saved_every_minute() {
    let mut h = Habits::new();
    assert!(h.save_due(61) && !h.save_due(60));
    h.save(1000);
    assert!(!h.save_due(1060) && h.save_due(1061) && !h.save_due(0));
}

#[test]
fn habits_have_a_slot_for_each_hour() {
    let slot = |n: u64| HabitSlot { samples: n, cpu_ema: 0, mem_ema: 0, var_ema: 0, top: vec![] };
    assert_eq!(Habits::load(None).slots.len(), 24);
    let short = Habits::load(Some(Habits { slots: vec![slot(3)], last_save: 0 }));
    assert_eq!((short.slots.len(), short.slots[0].samples, short.slots[23].samples), (24, 3, 0));
    let long = Habits { slots: (0..30).map(slot).collect(), last_save: 0 };
    assert_eq!(Habits::load(Some(long)).slots.len(), 24);
}

#[test]
fn the_profile_is_shown_by_the_hour() {
    let mut h = Habits::new();
    assert_eq!(
        print_habits(&PLAIN, &h, 9),
        vec!["No habit data yet — run `pv daemon` for a while and it will learn your rhythm."]
    );
    h.observe_at(9, 16 * SEC, 71 * SEC, SEC / 25, &vec!["build".to_string(), "browser".to_string()]);
    h.observe_at(10, 250 * SEC, 99 * SEC, 0, &vec![]);
    let lines = print_habits(&PLAIN, &h, 9);
    assert_eq!(lines[0], "Learned demand profile (per hour, local time)");
    assert_eq!(
        lines[1],
        "  → 09:00  cpu   16% █░░░░░░░  mem   71% █████░░░  var 0.04  build, browser"
    );
    assert_eq!(lines[2], "    10:00  cpu  250% ████████  mem   99% ███████░  var 0.00");
    assert_eq!(lines[3], "\n2 samples — profile strengthens as the daemon keeps watching.");
}

#[test]
fn a_quiet_machine_is_told_so() {
    let r = report(400_000);
    let none = oneshot_notices(&vec![], &vec![], &r, &vec![40_000], &no_labels(), 0);
    assert!(none.is_empty());
    let shown = run_notify(none, &r, 520);
    assert_eq!((shown[0].valve, shown[0].title.as_str()), ("V-00", "ALL VALVES NOMINAL"));
    assert_eq!(shown[0].gauge, Some(("SYS".to_string(), 33)));
    assert_eq!(shown[0].obs[0], "RAM 60% · load 0.52 · no reclaimable reserves");
    let hot = oneshot_notices(&vec![], &vec![], &r, &vec![95_000], &no_labels(), 0);
    assert_eq!(run_notify(hot, &r, 0)[0].level, Level::Critical);
}

#[test]
fn more_available_than_there_is_reads_below_nothing() {
    let mut r = report(1_100_000);
    assert_eq!(
        run_notify(vec![], &r, 0)[0].obs[0],
        "RAM -10% · load 0.00 · no reclaimable reserves"
    );
    r.oom_eta_secs = Some(30);
    let shown = oneshot_notices(&vec![], &vec![], &r, &vec![], &no_labels(), 0);
    assert_eq!(shown[0].obs[0], "-10% of physical memory committed");
    assert_eq!(shown[0].gauge, Some(("RAM".to_string(), 0)));
    r.mem.available_kb = 1_000_001;
    assert!(run_notify(vec![], &r, 0)[0].obs[0].starts_with("RAM -0% "));
}

#[test]
fn cooldowns_go_by_valve_and_title() {
    let n = |title: &str| Notice {
        level: Level::Warning,
        valve: "V-01",
        title: title.to_string(),
        gauge: None,
        obs: vec![],
        suggest: None,
    };
    let mut c = Cooldowns::new();
    assert_eq!(gate(&mut c, &vec![n("a"), n("b"), n("a")], 0).len(), 2);
    assert!(gate(&mut c, &vec![n("b")], SEC).is_empty());
}

#[test]
fn the_service_runs_this_program() {
    let unit = install_service("/opt/pv");
    assert!(unit.contains("\nExecStart=/opt/pv daemon --desktop\n"));
    assert_eq!(
        service_path(&Some("/h".to_string())),
        "/h/.config/systemd/user/pv-daemon.service"
    );
    assert_eq!(habits_path(&None, &Some("/h".to_string())), "/h/.local/share/pv/habits.toml");
    assert_eq!(
        banner(5, 12),
        "┌─[ PV-DAEMON ]── online · 8 valves armed · interval 5s · habits: 12 samples"
    );
}

#[test]
fn shares_are_learned_to_the_nearest_billionth() {
    let mut d = Daemon::new(Habits::new());
    let mut r = report(200_000);
    r.mem.total_kb = 600_000;
    let st = gather(vec![app("cargo", 300_000, 50)], r);
    let s = SysSample { ncpu: 3, hottest_thermal: None, ..sample() };
    d.tick(&st.apps, &st.intents, &st.report, 5, &s, &no_labels(), 100, SEC);
    // two of three cores, two thirds of memory
    let slot = d.habits.slot(23);
    assert_eq!((slot.cpu_ema, slot.mem_ema), (66_666_666_667, 66_666_666_667));
}
