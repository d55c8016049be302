//! Rules, and what they hit.

use pv::intent::Category;
use pv::policy::{config_path, default_policy, evaluate, Rule};
use pv::pressure::{PressureReport, ResourcePressure};
use pv::procfs::{App, Battery, MemInfo};

fn app(key: &str, rss_kb: u64, cpu_pct: u64) -> App {
    App {
        key: key.to_string(),
        display: key.to_uppercase(),
        pids: vec![5, 6],
        leader: 5,
        rss_kb,
        cpu_pct: cpu_pct * 1_000_000_000,
        state: 'S',
        tty: false,
        has_audio: false,
        cmdline: String::new(),
        argv: vec![],
        age_ns: 0,
        kernel: false,
    }
}

fn report(mem: u8, battery_info: Option<Battery>) -> PressureReport {
    let rp = |score: u8| ResourcePressure { name: "X", score, detail: String::new() };
    PressureReport {
        cpu: rp(0),
        memory: rp(mem),
        io: rp(0),
        battery: None,
        thermal: None,
        mem: MemInfo { total_kb: 0, available_kb: 0, swap_total_kb: 0, swap_free_kb: 0 },
        battery_info,
        mem_drop_kb: 0,
        mem_window_ms: 1000,
        oom_eta_secs: None,
        overall: 0,
    }
}

fn rule(name: &str, action: &str) -> Rule {
    Rule {
        name: name.to_string(),
        category: None,
        min_rss_mb: None,
        min_cpu_pct: None,
        battery_below: None,
        min_mem_pressure: None,
        action: action.to_string(),
        message: None,
    }
}

fn cats() -> Vec<(String, Category)> {
    vec![
        ("firefox".to_string(), Category::Browser),
        ("cargo".to_string(), Category::Build),
        ("odd".to_string(), Category::Unknown),
    ]
}

#[test]
fn every_condition_must_hold() {
    let apps = vec![app("firefox", 300 * 1024, 5), app("cargo", 900_000, 90)];
    let mut r = rule("r", "suspend");
    r.category = Some("BROWSER".to_string());
    r.min_rss_mb = Some(300);
    r.min_mem_pressure = Some(40);
    let hits = evaluate(&vec![r], &apps, &cats(), &report(40, None));
    assert_eq!(hits.len(), 1);
    assert_eq!(hits[0].app_key, "firefox");
    assert_eq!(hits[0].pids, vec![5, 6]);
    assert_eq!(hits[0].message, "suspend: FIREFOX");
    let mut r = rule("r", "suspend");
    r.min_mem_pressure = Some(41);
    assert!(evaluate(&vec![r], &apps, &cats(), &report(40, None)).is_empty());
    let mut r = rule("r", "throttle");
    r.min_cpu_pct = Some(90_000_000_001);
    assert!(evaluate(&vec![r], &apps, &cats(), &report(40, None)).is_empty());
    let mut r = rule("r", "suspend");
    r.min_rss_mb = Some(301);
    r.category = Some("browser".to_string());
    assert!(evaluate(&vec![r], &apps, &cats(), &report(40, None)).is_empty());
}

#[test]
fn a_battery_rule_needs_a_draining_battery() {
    let apps = vec![app("cargo", 2048, 0)];
    let low = || {
        let mut r = rule("b", "notify");
        r.battery_below = Some(10);
        r.message = Some("{app} {rss_mb} {battery}%".to_string());
        vec![r]
    };
    let at = |capacity: u32, discharging: bool| report(0, Some(Battery { capacity, discharging }));
    let hits = evaluate(&low(), &apps, &cats(), &at(10, true));
    assert_eq!(hits[0].message, "CARGO 2 10%");
    assert!(evaluate(&low(), &apps, &cats(), &at(11, true)).is_empty());
    assert!(evaluate(&low(), &apps, &cats(), &at(5, false)).is_empty());
    assert!(evaluate(&low(), &apps, &cats(), &report(0, None)).is_empty());
}

#[test]
fn a_category_that_is_no_rule_word_means_unknown() {
    let apps = vec![app("odd", 1, 0), app("absent", 1, 0)];
    let mut r = rule("r", "notify");
    r.category = Some("editor".to_string());
    r.message = Some("{battery}".to_string());
    let hits = evaluate(&vec![r], &apps, &cats(), &report(0, None));
    assert_eq!(hits.len(), 1);
    assert_eq!((hits[0].app_key.as_str(), hits[0].message.as_str()), ("odd", "?"));
}

#[test]
fn the_default_rules_are_written_to_the_configuration() {
    assert!(default_policy().starts_with("# Pressure Valve policies"));
    assert!(default_policy().contains("name = \"battery-migrate-builds\""));
    assert_eq!(
        config_path(&None, &None),
        "/tmp/.config/pv/policies.toml"
    );
}
