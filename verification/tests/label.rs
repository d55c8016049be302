//! Notes of the user, and the grace that they give.

use pv::intent::{classify, Intent};
use pv::label::{
    apply, config_path, format_duration, grace_remaining, infer, load, AppLabel, GlobalLabel,
    Labels, Scope, DEFAULT_GRACE_SECS,
};
use pv::procfs::App;

fn app(key: &str, rss_kb: u64) -> App {
    App {
        key: key.into(),
        display: key.into(),
        pids: vec![],
        leader: 0,
        rss_kb,
        cpu_pct: 0,
        state: 'S',
        tty: false,
        has_audio: false,
        cmdline: key.into(),
        argv: vec![],
        age_ns: 0,
        kernel: false,
    }
}

fn intents(apps: &Vec<App>) -> Vec<(String, Intent)> {
    apps.iter().map(|app| (app.key.clone(), classify(app))).collect()
}

#[test]
fn tutorial_graces_the_largest_browser() {
    let apps = vec![app("firefox", 400_000), app("chrome", 900_000)];
    let decision = infer("I am watching tutorials on YouTube", &apps, &intents(&apps));
    assert_eq!(decision.grace_secs, Some(DEFAULT_GRACE_SECS));
    assert_eq!(
        decision.scope,
        Scope::App { key: "chrome".into(), display: "chrome".into() }
    );
}

#[test]
fn development_note_is_global_context() {
    let decision = infer("I am developing a Python based game today", &vec![], &vec![]);
    assert_eq!(decision.scope, Scope::Global);
    assert_eq!(decision.grace_secs, None);
}

#[test]
fn a_named_app_gets_the_grace_and_no_other() {
    let apps = vec![app("firefox", 400_000), app("chrome", 900_000)];
    let (labels, decision) =
        apply("reading in Firefox", &apps, &intents(&apps), Labels::default(), 1_000);
    assert_eq!(decision.rationale, "your note directly refers to firefox");
    assert_eq!(grace_remaining(&labels, "firefox", 1_000), Some(DEFAULT_GRACE_SECS));
    assert_eq!(grace_remaining(&labels, "chrome", 1_000), None);
}

#[test]
fn a_grace_runs_out() {
    let labels = Labels {
        global: None,
        app: vec![AppLabel {
            key: "chrome".into(),
            display: "Chrome".into(),
            prompt: "p".into(),
            expires_at: 500,
        }],
    };
    assert_eq!(grace_remaining(&labels, "chrome", 499), Some(1));
    assert_eq!(grace_remaining(&labels, "chrome", 500), None);
    assert!(load(labels, 500).app.is_empty());
}

#[test]
fn a_global_note_is_kept_with_its_time() {
    let (labels, _) = apply("shipping today", &vec![], &vec![], Labels::default(), 77);
    let GlobalLabel { prompt, created_at } = labels.global.expect("global");
    assert_eq!((prompt.as_str(), created_at), ("shipping today", 77));
}

#[test]
fn durations_round_up_to_minutes() {
    assert_eq!(format_duration(0), "0m");
    assert_eq!(format_duration(61), "2m");
    assert_eq!(format_duration(900), "15m");
}

#[test]
fn labels_live_in_the_configuration_directory() {
    let home = Some("/home/u".to_string());
    assert_eq!(config_path(&None, &home), "/home/u/.config/pv/labels.toml");
    assert_eq!(config_path(&Some("/cfg".to_string()), &home), "/cfg/pv/labels.toml");
    assert_eq!(config_path(&Some(String::new()), &None), "/tmp/.config/pv/labels.toml");
}
