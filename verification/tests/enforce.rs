//! Policy hits, carried out.

use pv::commands::{gather, no_policies, policy, State};
use pv::display::Theme;
use pv::enforce::{enforce, Act, Event, Ran};
use pv::policy::{PolicyHit, Rule};
use pv::pressure::{PressureReport, ResourcePressure};
use pv::procfs::{App, MemInfo};

const PLAIN: Theme = Theme { enabled: false };

fn app(key: &str) -> App {
    App {
        key: key.to_string(),
        display: key.to_uppercase(),
        pids: vec![5],
        leader: 5,
        rss_kb: 400 * 1024,
        cpu_pct: 0,
        state: 'S',
        tty: false,
        has_audio: false,
        cmdline: key.to_string(),
        argv: vec![],
        age_ns: 0,
        kernel: false,
    }
}

fn hit(key: &str, action: &str, pids: Vec<u32>) -> PolicyHit {
    PolicyHit {
        rule: "r".to_string(),
        app_key: key.to_string(),
        display: key.to_uppercase(),
        action: action.to_string(),
        message: format!("m-{key}"),
        pids,
        rss_kb: 1,
    }
}

fn report() -> PressureReport {
    let rp = |score: u8| ResourcePressure { name: "X", score, detail: String::new() };
    PressureReport {
        cpu: rp(0),
        memory: rp(50),
        io: rp(0),
        battery: None,
        thermal: None,
        mem: MemInfo { total_kb: 0, available_kb: 0, swap_total_kb: 0, swap_free_kb: 0 },
        battery_info: None,
        mem_drop_kb: 0,
        mem_window_ms: 1000,
        oom_eta_secs: None,
        overall: 0,
    }
}

fn state(keys: &[&str]) -> State {
    gather(keys.iter().map(|k| app(k)).collect(), report())
}

fn rule(category: &str) -> Rule {
    Rule {
        name: "r".to_string(),
        category: Some(category.to_string()),
        min_rss_mb: None,
        min_cpu_pct: None,
        battery_below: None,
        min_mem_pressure: None,
        action: "suspend".to_string(),
        message: None,
    }
}

#[test]
fn a_dry_run_only_shows() {
    let hits = vec![hit("firefox", "suspend", vec![5]), hit("x", "throttle", vec![6])];
    let (_, turn) = enforce(&PLAIN, hits, vec![app("firefox")], false);
    assert_eq!(
        turn.out,
        vec!["  [suspend] m-firefox (r)", "  [throttle] m-x (r)", "\n(dry run — pass --apply to act)"]
    );
    assert!(matches!(turn.act, Act::Exit { code: 0 }));
}

#[test]
fn protected_work_is_skipped() {
    let hits = vec![
        hit("ssh", "suspend", vec![5]),
        hit("gone", "suspend", vec![5]),
        hit("n", "notify", vec![5]),
    ];
    let (_, turn) = enforce(&PLAIN, hits, vec![app("ssh")], true);
    assert_eq!(
        turn.out,
        vec![
            "  [suspend] m-ssh (r)",
            "    skipped: protected intent",
            "  [suspend] m-gone (r)",
            "  [notify] m-n (r)"
        ]
    );
    assert!(matches!(turn.act, Act::Exit { code: 0 }));
}

#[test]
fn a_suspension_is_asked_for_and_reported() {
    let hits = vec![hit("firefox", "suspend", vec![5]), hit("firefox", "suspend", vec![5])];
    let (run, turn) = enforce(&PLAIN, hits, vec![app("a"), app("firefox")], true);
    assert!(matches!(&turn.act, Act::Suspend { app: 1, task } if task == "Web browsing"));
    let (run, turn) = run.next(&Event::Suspended(Ok(())));
    assert_eq!(turn.out, vec!["    applied", "  [suspend] m-firefox (r)"]);
    let (_, turn) = run.next(&Event::Suspended(Err("no".to_string())));
    assert_eq!(turn.out, vec!["    no"]);
    assert!(matches!(turn.act, Act::Exit { code: 0 }));
}

#[test]
fn each_process_is_throttled() {
    let hits = vec![hit("x", "throttle", vec![6, 7, 8, 9])];
    let (run, turn) = enforce(&PLAIN, hits, vec![], true);
    assert!(matches!(turn.act, Act::Look { pid: 6 }));
    let (run, turn) = run.next(&Event::Found(true));
    assert!(matches!(&turn.act, Act::Renice { args } if args == &["+15", "-p", "6"]));
    let (run, turn) = run.next(&Event::Ran(Ran::Fine));
    assert!(matches!(&turn.act, Act::Ionice { args } if args == &["-c", "3", "-p", "6"]));
    let (run, turn) = run.next(&Event::Ran(Ran::Fine));
    assert!(matches!(turn.act, Act::Look { pid: 7 }));
    let (run, turn) = run.next(&Event::Found(false));
    assert!(matches!(turn.act, Act::Look { pid: 8 }));
    let (run, _) = run.next(&Event::Found(true));
    let (run, turn) = run.next(&Event::Ran(Ran::Missing("gone".to_string())));
    assert_eq!(turn.warn.as_deref(), Some("throttle pid 8 failed: renice spawn: gone"));
    let (run, _) = run.next(&Event::Found(true));
    let (run, _) = run.next(&Event::Ran(Ran::Fine));
    let (_, turn) = run.next(&Event::Ran(Ran::Refused(b" denied\xff\n".to_vec())));
    assert_eq!(turn.warn.as_deref(), Some("throttle pid 9 failed: ionice: denied\u{fffd}"));
    assert_eq!(turn.out, vec!["    throttle applied to 1 pids, 2 failed"]);
    assert!(matches!(turn.act, Act::Exit { code: 0 }));
}

#[test]
fn nothing_to_throttle_is_no_failure() {
    let (_, turn) = enforce(&PLAIN, vec![hit("x", "throttle", vec![])], vec![], true);
    assert_eq!(turn.out[1], "    reniced +15, ionice idle (0 pids)");
}

#[test]
fn rules_without_hits_say_so() {
    let none = policy(&PLAIN, true, &vec![], state(&["firefox"])).err().expect("no rules");
    assert_eq!(none.out, vec!["No policies. Create defaults with `pv policy --init`."]);
    assert_eq!(no_policies(&PLAIN, &vec![]).expect("no rules").out, none.out);
    assert!(no_policies(&PLAIN, &vec![rule("build")]).is_none());
    let idle = policy(&PLAIN, true, &vec![rule("build")], state(&["firefox"])).err().expect("idle");
    assert_eq!(idle.out, vec!["No policy conditions met right now."]);
    assert_eq!(idle.code, 0);
    let (_, turn) = policy(&PLAIN, false, &vec![rule("browser")], state(&["firefox"])).ok().unwrap();
    assert_eq!(turn.out[0], "  [suspend] suspend: FIREFOX (r)");
}
