//! The live view.

use pv::display::Theme;
use pv::groq::GroqEvent;
use pv::intent::{classify, Intent};
use pv::live::{
    frozen_among, infer_prompt, pause, quits, remember, render, state_sig, too_small, wrap, Extras,
    Infer, Live, Screen,
};
use pv::pressure::{PressureReport, ResourcePressure};
use pv::procfs::{App, Battery, MemInfo};
use pv::suspend::SuspendedApp;

const SEC: u64 = 1_000_000_000;

fn token(t: &str) -> GroqEvent {
    GroqEvent::Token(t.to_string())
}

#[test]
fn inference_waits_its_turn() {
    let mut i = Infer::new(0);
    assert_eq!(i.note, "warming up");
    assert!(i.maybe_fire(7, "12:00:00", SEC));
    assert_eq!(i.note, "12:00:00 · streaming");
    // nothing is asked while an answer streams
    assert!(!i.maybe_fire(8, "x", 500 * SEC));
    i.drain(&vec![token("a "), token("b"), GroqEvent::Done], "12:00:01", 2 * SEC);
    assert_eq!((i.text.as_str(), i.note.as_str(), i.streaming), ("a b", "12:00:01 · 2 tok", false));
    // nor within 20 seconds, even if the state changed
    assert!(!i.maybe_fire(8, "x", 21 * SEC));
    assert!(i.maybe_fire(8, "x", 21 * SEC + 1));
    i.drain(&vec![GroqEvent::Done], "y", 22 * SEC);
    // where it has not, two minutes go by
    assert!(!i.maybe_fire(8, "x", 141 * SEC));
    assert!(i.maybe_fire(8, "x", 141 * SEC + 2));
}

#[test]
fn errors_hold_it_back_for_a_minute() {
    let mut i = Infer::new(0);
    assert!(i.maybe_fire(1, "t", SEC));
    i.drain(&vec![GroqEvent::Error("no key".to_string())], "t", 30 * SEC);
    assert_eq!(i.note, "inference error: no key");
    assert!(!i.maybe_fire(2, "t", 90 * SEC - 1));
    assert!(i.maybe_fire(2, "t", 90 * SEC));
}

#[test]
fn the_reason_is_shown_while_nothing_was_heard() {
    let mut i = Infer::new(0);
    i.fail_offline("offline");
    assert_eq!(i.note, "offline");
    i.drain(&vec![token("x")], "t", 0);
    i.fail_offline("later");
    assert_eq!(i.note, "offline");
}

fn app(key: &str, rss_kb: u64, cpu: u64) -> App {
    App {
        key: key.to_string(),
        display: key.to_uppercase(),
        pids: vec![9],
        leader: 9,
        rss_kb,
        cpu_pct: cpu * SEC,
        state: 'S',
        tty: false,
        has_audio: false,
        cmdline: key.to_string(),
        argv: vec![],
        age_ns: 0,
        kernel: false,
    }
}

fn report() -> PressureReport {
    let rp = |name: &'static str, score: u8| ResourcePressure {
        name,
        score,
        detail: String::new(),
    };
    PressureReport {
        cpu: rp("CPU", 30),
        memory: rp("RAM", 60),
        io: rp("IO", 5),
        battery: None,
        thermal: None,
        mem: MemInfo {
            total_kb: 16 * 1_048_576,
            available_kb: 4 * 1_048_576,
            swap_total_kb: 1_048_576,
            swap_free_kb: 1_048_576,
        },
        battery_info: Some(Battery { capacity: 40, discharging: true }),
        mem_drop_kb: 0,
        mem_window_ms: 150,
        oom_eta_secs: Some(90),
        overall: 60,
    }
}

fn extras() -> Extras {
    Extras {
        load_milli: 1500,
        ncpu: 8,
        psi_cpu_milli: 2000,
        psi_io_milli: 0,
        thermal_milli: Some(61_500),
        running: 2,
    }
}

fn intents(apps: &Vec<App>) -> Vec<(String, Intent)> {
    apps.iter().map(|a| (a.key.clone(), classify(a))).collect()
}

fn frozen() -> Vec<SuspendedApp> {
    vec![SuspendedApp {
        key: "gimp".to_string(),
        display: "Gimp".to_string(),
        pids: vec![1],
        rss_kb: 1,
        suspended_at: 0,
        task: String::new(),
        starts: vec![],
        cgroup: None,
    }]
}

#[test]
fn the_snapshot_names_what_matters() {
    let apps = vec![app("firefox", 900_000, 4)];
    let p = infer_prompt(&apps, &intents(&apps), &report(), &extras(), &frozen());
    assert!(p.contains("75%"), "{p}");
    assert!(p.contains(" OOM~1m 30s"), "{p}");
    assert!(p.contains(" | TOP: FIREFOX("), "{p}");
    assert!(p.contains(" | SUSPENDED: gimp(1 kB)"), "{p}");
    assert!(p.ends_with(" | PV-SESSIONS: 2 running"), "{p}");
    assert!(frozen_among(&frozen(), "gimp"));
    assert!(!frozen_among(&frozen(), "firefox"));
}

#[test]
fn the_signature_follows_the_state() {
    let apps = vec![app("firefox", 900_000, 4)];
    let a = state_sig(&apps, &report());
    assert_eq!(a, state_sig(&apps, &report()));
    let mut r = report();
    r.oom_eta_secs = None;
    assert_ne!(a, state_sig(&apps, &r));
    let mut r = report();
    r.memory.score = 61;
    assert_eq!(a, state_sig(&apps, &r));
    assert_ne!(a, state_sig(&vec![app("chrome", 900_000, 4)], &report()));
}

#[test]
fn answers_are_wrapped_to_the_panel() {
    assert_eq!(wrap("one two  three", 8), vec!["one two", "three"]);
    assert_eq!(wrap("a\nb", 8), vec!["a b"]);
    assert!(wrap(" ", 8).is_empty());
}

fn screen(cols: usize, rows: usize, key_present: bool) -> Screen {
    Screen {
        theme: Theme { enabled: false },
        cols,
        rows,
        interval: 1,
        model: "m".to_string(),
        hms: "12:00:00".to_string(),
        key_present,
    }
}

#[test]
fn frames_fill_the_terminal_and_no_more() {
    let apps: Vec<App> = (0..60).map(|n| app(&format!("app{n}"), 90_000, 5)).collect();
    for (cols, rows) in [(50usize, 15usize), (80, 24), (200, 50)] {
        let f = render(
            &screen(cols, rows, true),
            &apps,
            &intents(&apps),
            &report(),
            &extras(),
            &vec![],
            &vec![],
            &Infer::new(0),
        );
        let lines: Vec<&str> = f.split('\n').collect();
        assert!(lines.len() <= rows);
        assert!(lines[0].starts_with("╔═[ PV::LIVE ]═[ 12:00:00 ]═[ 1s ]"), "{}", lines[0]);
        assert_eq!(lines[0].chars().count(), cols.min(110));
        assert!(lines.last().unwrap().starts_with("╚═[ q quit ]"));
    }
}

#[test]
fn without_a_key_the_panel_says_so() {
    let f = render(
        &screen(80, 24, false),
        &vec![],
        &vec![],
        &report(),
        &extras(),
        &vec![],
        &vec![],
        &Infer::new(0),
    );
    assert!(f.contains("GROQ_API_KEY not set — inference offline, metrics live"));
}

#[test]
fn keys_and_sizes_end_the_view() {
    assert!(quits(b'q') && quits(0x1b) && quits(0x03));
    assert!(!quits(b'Q'));
    assert!(too_small(49, 14) && too_small(50, 13));
    assert!(!too_small(50, 14));
    assert_eq!(pause(1, 0), SEC / 2);
    assert_eq!(pause(1, 700_000_000), 300_000_000);
    assert_eq!(pause(1, 2 * SEC), 10_000_000);
}

#[test]
fn memory_is_remembered_by_name() {
    let mut prev = vec![("a".to_string(), 1)];
    remember(&mut prev, &vec![app("b", 5, 0), app("a", 7, 0)]);
    assert_eq!(prev, vec![("a".to_string(), 7), ("b".to_string(), 5)]);
}

#[test]
fn a_tick_asks_draws_and_remembers() {
    let apps = vec![app("firefox", 900_000, 4)];
    let ints = intents(&apps);
    let mut live = Live::new(true, 0);
    let s = screen(80, 24, true);
    let (r, x) = (report(), extras());
    let (ask, frame) = live.tick(&s, &apps, &ints, &r, &x, &vec![], &vec![], true, SEC);
    assert_eq!(ask, Some(infer_prompt(&apps, &ints, &r, &x, &vec![])));
    assert!(frame.contains("infer: 12:00:00 · streaming"));
    assert_eq!(live.prev, vec![("firefox".to_string(), 900_000)]);
    // while the answer streams nothing more is asked
    let (ask, frame) =
        live.tick(&s, &apps, &ints, &r, &x, &vec![], &vec![token("hello")], true, 300 * SEC);
    assert_eq!(ask, None);
    assert!(frame.contains("hello▌"));
    let (ask, _) =
        live.tick(&s, &apps, &ints, &r, &x, &vec![], &vec![GroqEvent::Done], false, 600 * SEC);
    assert_eq!(ask, None);
    assert_eq!(Live::new(false, 0).infer.note, "offline");
}

#[test]
fn frames_are_rectangular_where_all_fits() {
    let apps = vec![
        app("chrome", 2_800_000, 0),
        app("rustc", 1_300_000, 120),
        app("gimp", 90_000, 3),
    ];
    let mut infer = Infer::new(0);
    assert!(infer.maybe_fire(7, "12:00:00", SEC));
    infer.drain(&vec![token("RAM usage is high. "), token("Shut down Chrome.")], "t", SEC);
    for score in [0u8, 36, 99, 100] {
        let mut r = report();
        r.cpu.score = score;
        for (key_present, cols) in [(true, 64usize), (false, 64), (true, 110), (true, 63)] {
            let f = render(
                &screen(cols, 24, key_present),
                &apps,
                &intents(&apps),
                &r,
                &extras(),
                &vec![("chrome".to_string(), 1)],
                &frozen(),
                &infer,
            );
            for line in f.split('\n') {
                assert_eq!(line.chars().count(), cols, "{line}");
            }
        }
    }
}

#[test]
fn gauges_have_eight_cells() {
    let f = render(
        &screen(64, 24, false),
        &vec![],
        &vec![],
        &report(),
        &extras(),
        &vec![],
        &vec![],
        &Infer::new(0),
    );
    let lines: Vec<&str> = f.split('\n').collect();
    assert!(lines[1].starts_with("║ CPU ██░░░░░░ 30%  RAM ████░░░░ 60%  IO ░░░░░░░░  5% "), "{f}");
    assert!(lines[3].starts_with("╟─[ processes ]──"), "{f}");
}
