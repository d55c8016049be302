//! What is recommended, and in which order.

use pv::intent::{classify, Intent};
use pv::label::{AppLabel, Labels};
use pv::pressure::{PressureReport, ResourcePressure};
use pv::procfs::{App, MemInfo};
use pv::recommend::{recommend, recommend_with_labels, Action};

fn app(key: &str, rss_kb: u64, cpu_pct: f64) -> App {
    App {
        key: key.to_string(),
        display: key.to_string(),
        pids: vec![4242],
        leader: 4242,
        rss_kb,
        cpu_pct: (cpu_pct * 1e9).round() as u64,
        state: 'S',
        tty: false,
        has_audio: false,
        cmdline: key.to_string(),
        argv: vec![key.to_string()],
        age_ns: 3_600_000_000_000,
        kernel: false,
    }
}

fn report(mem_score: u8, cpu_score: u8, oom_eta_secs: Option<u64>) -> PressureReport {
    let rp = |name: &'static str, score: u8| ResourcePressure {
        name,
        score,
        detail: String::new(),
    };
    PressureReport {
        cpu: rp("CPU", cpu_score),
        memory: rp("RAM", mem_score),
        io: rp("IO", 0),
        battery: None,
        thermal: None,
        mem: MemInfo::default(),
        battery_info: None,
        mem_drop_kb: 0,
        mem_window_ms: 1000,
        oom_eta_secs,
        overall: mem_score.max(cpu_score),
    }
}

fn intents_for(apps: &Vec<App>) -> Vec<(String, Intent)> {
    apps.iter().map(|a| (a.key.clone(), classify(a))).collect()
}

#[test]
fn empty_system_produces_no_recommendations() {
    let recs = recommend(&vec![], &vec![], &report(95, 90, Some(10)));
    assert!(recs.is_empty());
}

#[test]
fn idle_browser_under_memory_pressure_gets_suspend() {
    let apps = vec![app("firefox", 500_000, 0.2)];
    let recs = recommend(&apps, &intents_for(&apps), &report(60, 0, None));
    assert_eq!(recs.len(), 1);
    let r = &recs[0];
    assert_eq!(r.action, Action::Suspend);
    assert_eq!(r.target, "firefox");
    assert_eq!(r.benefit_kb, 500_000);
    assert_eq!(r.confidence, 80);
    assert!(r.display.starts_with("Suspend firefox (+"), "{}", r.display);
}

#[test]
fn active_grace_excludes_a_browser_from_suspend_recommendations() {
    let apps = vec![app("chrome", 900_000, 0.0)];
    let labels = Labels {
        global: None,
        app: vec![AppLabel {
            key: "chrome".into(),
            display: "Chrome".into(),
            prompt: "Watching a tutorial".into(),
            expires_at: u64::MAX,
        }],
    };
    let recs = recommend_with_labels(
        &apps,
        &intents_for(&apps),
        &report(60, 0, None),
        &labels,
        1_700_000_000,
    );
    assert!(recs.is_empty());
}

#[test]
fn busy_or_audio_playing_browser_is_left_alone() {
    let mut audio = app("firefox", 500_000, 0.2);
    audio.has_audio = true;
    for a in [app("firefox", 500_000, 5.0), audio] {
        let apps = vec![a];
        let recs = recommend(&apps, &intents_for(&apps), &report(90, 0, None));
        assert!(recs.is_empty(), "active browser must not be suspended");
    }
}

#[test]
fn small_browser_below_rss_floor_gets_nothing() {
    let apps = vec![app("firefox", 149_000, 0.1)];
    assert!(recommend(&apps, &intents_for(&apps), &report(60, 0, None)).is_empty());
}

#[test]
fn calm_memory_means_no_suspend_recommendation() {
    let apps = vec![app("firefox", 500_000, 0.1)];
    // memory score 44 sits under the 45-point "warm" gate
    assert!(recommend(&apps, &intents_for(&apps), &report(44, 0, None)).is_empty());
}

#[test]
fn never_suspend_apps_survive_even_predicted_oom() {
    let apps = vec![app("postgres", 2_000_000, 5.0), app("ssh", 50_000, 1.0)];
    let recs = recommend(&apps, &intents_for(&apps), &report(95, 0, Some(20)));
    assert!(
        recs.is_empty(),
        "databases and live sessions are protected: {recs:?}"
    );
}

#[test]
fn predicted_oom_overrides_with_first_suspendable_app() {
    let apps = vec![app("postgres", 4_000_000, 5.0), app("bigapp", 2_097_152, 0.0)];
    let recs = recommend(&apps, &intents_for(&apps), &report(95, 0, Some(30)));
    assert_eq!(recs.len(), 1);
    let r = &recs[0];
    assert_eq!(r.action, Action::Suspend);
    assert_eq!(r.target, "bigapp", "postgres is never_suspend, skipped");
    assert_eq!(r.confidence, 85);
    assert!(r.display.contains("OOM in ~30s"), "{}", r.display);
    assert!(r.display.contains("2.0 GB"), "{}", r.display);
}

#[test]
fn predicted_oom_does_not_double_recommend_suspend() {
    let apps = vec![app("firefox", 500_000, 0.2)];
    let recs = recommend(&apps, &intents_for(&apps), &report(80, 0, Some(30)));
    assert_eq!(recs.len(), 1);
    assert_eq!(recs[0].action, Action::Suspend);
    assert_eq!(recs[0].target, "firefox");
}

#[test]
fn restartable_build_migrates_only_on_critical_battery() {
    let apps = vec![app("cargo", 300_000, 40.0)];
    let mut rep = report(10, 10, None);

    rep.battery = Some(ResourcePressure {
        name: "Battery",
        score: 90,
        detail: String::new(),
    });
    let recs = recommend(&apps, &intents_for(&apps), &rep);
    assert_eq!(recs.len(), 1);
    assert_eq!(recs[0].action, Action::Migrate);
    assert_eq!(recs[0].confidence, 80);

    // low but not critical -> no migration
    rep.battery = Some(ResourcePressure {
        name: "Battery",
        score: 84,
        detail: String::new(),
    });
    assert!(recommend(&apps, &intents_for(&apps), &rep).is_empty());

    // no battery at all -> no migration
    rep.battery = None;
    assert!(recommend(&apps, &intents_for(&apps), &rep).is_empty());
}

#[test]
fn non_migratable_apps_are_never_migrated() {
    // curl is a Download: throttleable but not migratable
    let apps = vec![app("curl", 100_000, 40.0)];
    let mut rep = report(10, 80, None);
    rep.battery = Some(ResourcePressure {
        name: "Battery",
        score: 99,
        detail: String::new(),
    });
    let recs = recommend(&apps, &intents_for(&apps), &rep);
    assert_eq!(recs.len(), 1, "only the throttle rule fires: {recs:?}");
    assert_eq!(recs[0].action, Action::Throttle);
}

#[test]
fn backup_saturating_cpu_gets_throttled() {
    let apps = vec![app("rsync", 50_000, 45.0)];
    let recs = recommend(&apps, &intents_for(&apps), &report(10, 75, None));
    assert_eq!(recs.len(), 1);
    assert_eq!(recs[0].action, Action::Throttle);
    assert_eq!(recs[0].benefit_kb, 0);

    // same app while cpu is merely warm -> nothing
    assert!(recommend(&apps, &intents_for(&apps), &report(10, 69, None)).is_empty());

    // hot cpu but the backup is not the hog -> nothing
    let apps = vec![app("rsync", 50_000, 5.0)];
    assert!(recommend(&apps, &intents_for(&apps), &report(10, 75, None)).is_empty());
}

#[test]
fn loaded_llm_gets_gpu_reserve() {
    let apps = vec![app("ollama", 600_000, 2.0)];
    let recs = recommend(&apps, &intents_for(&apps), &report(10, 10, None));
    assert_eq!(recs.len(), 1);
    assert_eq!(recs[0].action, Action::Reserve);
    assert_eq!(recs[0].confidence, 90);
    assert!(
        recs[0].pids.is_empty(),
        "reserve is a note, not an operation"
    );

    // small and quiet -> not actively loaded
    let apps = vec![app("ollama", 100_000, 2.0)];
    assert!(recommend(&apps, &intents_for(&apps), &report(10, 10, None)).is_empty());
}

#[test]
fn recommendations_are_sorted_by_benefit_and_capped_at_five() {
    let keys = ["firefox", "chromium", "chrome", "brave", "vivaldi", "opera"];
    let apps: Vec<App> = keys
        .iter()
        .enumerate()
        .map(|(i, k)| app(k, 200_000 + 100_000 * i as u64, 0.1))
        .collect();
    let recs = recommend(&apps, &intents_for(&apps), &report(60, 0, None));
    assert_eq!(recs.len(), 5, "capped at five");
    assert!(recs.windows(2).all(|w| w[0].benefit_kb >= w[1].benefit_kb));
    assert_eq!(recs[0].target, "opera", "largest consumer first");
    assert!(recs.iter().all(|r| r.action == Action::Suspend));
}
