//! What each verb says.

use pv::commands::{
    attach, categories, dashboard, explain, find_app, gather, hosts, init_refused, init_reply,
    intent, kill, kill_reply, label, label_reply, outcome_reply, pressure, print_app_table, ps,
    remote_host, resource_lines, resume, resume_reply, run, run_reply, sessions, suspend,
    suspend_reply, suspended, truncate, HostSeen, Seen, State,
};
use pv::display::Theme;
use pv::intent::Category;
use pv::label::{AppLabel, GlobalLabel, Labels};
use pv::migrate::Host;
use pv::pressure::{PressureReport, ResourcePressure};
use pv::procfs::{App, MemInfo};
use pv::session::Session;
use pv::suspend::SuspendedApp;

const PLAIN: Theme = Theme { enabled: false };

#[test]
fn truncate_respects_char_boundaries() {
    assert_eq!(truncate("short", 70), "short");
    assert_eq!(truncate("abcdefghij", 4), "abc…");
    // multibyte chars must not panic when the cut lands inside one
    assert_eq!(truncate("héllo wörld, éèêë", 8), "héllo w…");
    assert_eq!(truncate("日本語のテキストです", 5), "日本語の…");
}

fn app(key: &str, rss_kb: u64, cpu: u64) -> App {
    App {
        key: key.to_string(),
        display: key.to_uppercase(),
        pids: vec![key.len() as u32 + 100],
        leader: 1,
        rss_kb,
        cpu_pct: cpu * 1_000_000_000,
        state: 'S',
        tty: false,
        has_audio: false,
        cmdline: key.to_string(),
        argv: vec![],
        age_ns: 0,
        kernel: false,
    }
}

fn report(overall: u8) -> PressureReport {
    let rp = |name: &'static str, score: u8| ResourcePressure {
        name,
        score,
        detail: "d".to_string(),
    };
    PressureReport {
        cpu: rp("CPU", 10),
        memory: rp("RAM", overall),
        io: rp("IO", 0),
        battery: None,
        thermal: Some(rp("Thermals", 5)),
        mem: MemInfo {
            total_kb: 8_000_000,
            available_kb: 4_000_000,
            swap_total_kb: 1_000_000,
            swap_free_kb: 1_000_000,
        },
        battery_info: None,
        mem_drop_kb: 512,
        mem_window_ms: 500,
        oom_eta_secs: None,
        overall,
    }
}

fn state(overall: u8) -> State {
    gather(vec![app("firefox", 900_000, 0), app("ssh", 20_000, 3), app("tiny", 100, 0)], report(overall))
}

fn no_labels() -> Labels {
    Labels { global: None, app: vec![] }
}

#[test]
fn apps_are_found_by_pid_name_or_part() {
    let apps = vec![app("firefox-bin", 1, 0), app("firefox", 1, 0), app("7", 1, 0)];
    assert_eq!(find_app(&apps, "107"), Some(1));
    assert_eq!(find_app(&apps, "FireFox"), Some(1));
    assert_eq!(find_app(&apps, "fox-b"), Some(0));
    // a number is a process id and nothing else
    assert_eq!(find_app(&apps, "7"), None);
    assert_eq!(find_app(&apps, "zzz"), None);
}

#[test]
fn resources_are_listed_where_there_are_any() {
    let names: Vec<&str> = resource_lines(&report(1)).iter().map(|r| r.name).collect();
    assert_eq!(names, vec!["CPU", "RAM", "IO", "Thermals"]);
}

#[test]
fn the_table_shows_what_matters() {
    let st = state(10);
    let frozen = vec![record("firefox")];
    let rows = print_app_table(&PLAIN, &st.apps, &st.intents, &frozen, 12);
    assert_eq!(rows.len(), 2);
    assert_eq!(
        rows[0],
        format!(
            "  {:<18}  {:<28}  {:<12}  {:>10}  safe to suspend 80%",
            "FIREFOX", "Web browsing", "suspended", "879 MB"
        )
    );
    assert_eq!(
        rows[1],
        format!(
            "  {:<18}  {:<28}  {:<12}  {:>10}  never suspend",
            "SSH", "Interactive remote session", "interactive", "20 MB"
        )
    );
    assert_eq!(print_app_table(&PLAIN, &vec![], &vec![], &vec![], 12), vec!["  (nothing notable running)"]);
    assert_eq!(print_app_table(&PLAIN, &st.apps, &st.intents, &frozen, 1).len(), 1);
}

fn record(key: &str) -> SuspendedApp {
    SuspendedApp {
        key: key.to_string(),
        display: key.to_uppercase(),
        pids: vec![1],
        rss_kb: 2048,
        suspended_at: 100,
        task: "t".to_string(),
        starts: vec![],
        cgroup: None,
    }
}

#[test]
fn the_dashboard_tells_the_whole_story() {
    let labels = Labels {
        global: Some(GlobalLabel { prompt: "writing".to_string(), created_at: 1 }),
        app: vec![AppLabel {
            key: "firefox".to_string(),
            display: "Firefox".to_string(),
            prompt: "watching".to_string(),
            expires_at: 1000,
        }],
    };
    let lines = dashboard(&PLAIN, &state(60), &labels, &vec![], 400);
    assert_eq!(lines[0], "PV / NOW  live system overview");
    assert_eq!(lines[3], "  RAM       ██████░░░░  60%  d");
    assert!(lines.contains(&"  writing".to_string()));
    assert!(lines.contains(&"  grace: Firefox for 10m".to_string()));
    assert_eq!(lines.last().unwrap(), "  No action recommended — system is comfortable.");
    let lines = dashboard(&PLAIN, &state(60), &no_labels(), &vec![], 400);
    assert!(lines.last().unwrap().starts_with("  [suspend] Suspend FIREFOX (+879 MB)"));
}

#[test]
fn processes_show_what_may_be_done_with_them() {
    let lines = ps(&PLAIN, &state(10));
    assert_eq!(lines[0], "PV / PROCESSES  intent-aware workload view");
    assert_eq!(
        lines[3],
        format!(
            "{:<18}  {:<28}  {:<12}  {:>10}  {:>8}  suspend",
            "FIREFOX", "Web browsing", "idle", "879 MB", "1"
        )
    );
    assert_eq!(
        lines[4],
        format!(
            "{:<18}  {:<28}  {:<12}  {:>10}  {:>8}  ",
            "SSH", "Interactive remote session", "3% cpu", "20 MB", "1"
        )
    );
    assert_eq!(lines.len(), 6);
}

#[test]
fn pressure_is_broken_down() {
    let lines = pressure(&PLAIN, &report(80), false, true);
    assert_eq!(lines[0], "PV / SYSTEM PRESSURE  System pressure · overall HOT");
    assert!(lines.contains(&"  Mem trend  draining  -1.0 MB/s available".to_string()));
    assert_eq!(lines.last().unwrap(), "  Context    remote session");
    let lines = pressure(&PLAIN, &report(80), true, true);
    assert_eq!(lines.last().unwrap(), "  Context    graphical session active");
    assert_eq!(pressure(&PLAIN, &report(80), false, false).last().unwrap(), "  Context    unknown");
}

#[test]
fn the_state_is_explained() {
    let lines = explain(&PLAIN, &state(60), &no_labels(), 0);
    assert_eq!(lines[2], "  • System is under moderate pressure.");
    assert_eq!(lines[3], "  • High RAM is mostly FIREFOX (879 MB, 11% of memory).");
    assert_eq!(lines[4], "  • No meaningful swap pressure.");
    assert!(lines[5].starts_with("  • Recommendation: Suspend FIREFOX"));
    let mut st = state(10);
    st.report.mem.swap_free_kb = 0;
    st.report.oom_eta_secs = Some(61);
    let lines = explain(&PLAIN, &st, &no_labels(), 0);
    assert_eq!(lines[2], "  • System is responsive.");
    assert_eq!(lines[4], "  • Swap is in use (977 MB) — memory pressure is real.");
    assert_eq!(lines[5], "  • Projected memory exhaustion in 1m 01s.");
}

#[test]
fn an_intent_is_profiled() {
    let none = intent(&PLAIN, &vec![]);
    assert_eq!((none.err, none.code), (vec!["usage: pv intent <command...>".to_string()], 2));
    let r = intent(&PLAIN, &vec!["cargo".to_string(), "build".to_string()]);
    assert_eq!(r.code, 0);
    assert_eq!(r.out[2], "  Task Build Rust workspace");
    assert_eq!(r.out[3], "  Category:             Build");
    assert_eq!(r.out[5], "  Can survive interrupt: yes");
    assert_eq!(r.out[9], "  GPU required:         no");
    assert_eq!(r.out[10], "  survives interruption; incremental artifacts persist");
}

#[test]
fn a_label_is_saved_and_confirmed() {
    let e = label("  \n", &state(1), no_labels(), 100).err().expect("usage");
    assert_eq!((e.err, e.code), (vec!["usage: pv label <what you are doing>".to_string()], 2));
    let (labels, decision) = label("watching firefox", &state(1), no_labels(), 100).ok().unwrap();
    assert_eq!(labels.app[0].key, "firefox");
    let r = label_reply(&PLAIN, &decision, &Ok(()));
    assert!(r.out[0].starts_with("✓ FIREFOX has a "), "{}", r.out[0]);
    let r = label_reply(&PLAIN, &decision, &Err("disk".to_string()));
    assert_eq!((r.err, r.code), (vec!["[pv] cannot save label: disk".to_string()], 1));
    let (labels, decision) = label("deep work", &state(1), no_labels(), 100).ok().unwrap();
    assert_eq!(labels.global.unwrap().prompt, "deep work");
    assert_eq!(label_reply(&PLAIN, &decision, &Ok(())).out[0], "✓ global context saved");
}

fn session(id: &str, cmd: &str) -> Session {
    Session {
        id: id.to_string(),
        cmd: cmd.split(' ').map(|s| s.to_string()).collect(),
        pid: 77,
        started: 0,
        intent_task: String::new(),
        intent_category: String::new(),
        cwd: String::new(),
        log: "/l/x.log".to_string(),
        host: "local".to_string(),
    }
}

#[test]
fn a_detached_run_is_not_interactive() {
    let (i, lines) = run(&PLAIN, &vec!["bash".to_string()]);
    assert!(!i.interactive && !i.never_suspend);
    assert_eq!(lines, vec!["Intent: Interactive shell"]);
    let (i, lines) = run(&PLAIN, &vec!["ssh".to_string(), "h".to_string()]);
    assert!(!i.never_suspend);
    assert_eq!(lines[1], "  never suspend: live session");
    let r = run_reply(&PLAIN, &Ok(session("ab", "x")));
    assert_eq!(
        r.out,
        vec!["▶ detached session ab (pid 77)", "  log: /l/x.log", "  reattach with: pv attach ab"]
    );
    let r = run_reply(&PLAIN, &Err("spawn".to_string()));
    assert_eq!((r.err, r.code), (vec!["[pv] spawn".to_string()], 1));
    assert_eq!(outcome_reply(&Ok(())).code, 0);
    assert_eq!(outcome_reply(&Err("e".to_string())).err, vec!["[pv] e"]);
}

#[test]
fn sessions_show_their_last_line() {
    assert_eq!(sessions(&PLAIN, &vec![]), vec!["No pv sessions. Start one with `pv run -- <cmd>`."]);
    let lines = sessions(
        &PLAIN,
        &vec![
            Seen { session: session("ab", "make all"), alive: true, last: Some("done".to_string()) },
            Seen { session: session("cd", "x"), alive: false, last: None },
        ],
    );
    assert_eq!(lines[3], format!("  {:<10}  {:<10}  {:<24}  pid 77", "running", "ab", "make all"));
    assert_eq!(lines[4], "    └ done");
    assert_eq!(lines[5], format!("  {:<10}  {:<10}  {:<24}  pid 77", "finished", "cd", "x"));
}

#[test]
fn a_session_is_followed_by_id() {
    let all = vec![session("ab", "make all")];
    let (s, line) = attach(&PLAIN, &all, "a").ok().unwrap();
    assert_eq!((s.id.as_str(), line.as_str()), ("ab", "Attaching to ab — make all"));
    assert_eq!(attach(&PLAIN, &all, "z").err().unwrap().err, vec!["no session matching 'z'"]);
}

#[test]
fn protected_apps_are_suspended_by_force_only() {
    let apps = state(1).apps;
    assert_eq!(suspend(&PLAIN, &apps, "fire", false).ok().unwrap().0, 0);
    let e = suspend(&PLAIN, &apps, "ssh", false).err().unwrap();
    assert_eq!(e.err, vec!["refusing: SSH — never suspend: live session (use --force to override)"]);
    assert_eq!(suspend(&PLAIN, &apps, "ssh", true).ok().unwrap().1.category, Category::Shell);
    let e = suspend(&PLAIN, &apps, "nobody", true).err().unwrap();
    assert_eq!((e.err, e.code), (vec!["no running app matching 'nobody'".to_string()], 1));
    let r = suspend_reply(&PLAIN, &Ok(record("firefox")));
    assert_eq!(r.out, vec!["❄ FIREFOX frozen — 2 MB held, resume with `pv resume firefox`"]);
    assert_eq!(suspend_reply(&PLAIN, &Err("e".to_string())).err, vec!["[pv] e"]);
}

#[test]
fn suspended_apps_are_resumed_and_killed_by_name() {
    let list = vec![record("firefox"), record("fire")];
    assert_eq!(resume(&list, "FIRE").ok().as_deref(), Some("firefox"));
    assert_eq!(kill(&list, "refo").ok().as_deref(), Some("firefox"));
    assert_eq!(resume(&list, "zz").err().unwrap().err, vec!["no suspended app matching 'zz'"]);
    assert_eq!(
        kill(&list, "zz").err().unwrap().err,
        vec!["no suspended app matching 'zz' (kill works on suspended apps)"]
    );
    assert_eq!(
        resume_reply(&PLAIN, "k", &Ok((3, 2048))).out,
        vec!["▶ k thawed (3 processes, 2 MB returned to service)"]
    );
    assert_eq!(resume_reply(&PLAIN, "k", &Err("e".to_string())).code, 1);
    assert_eq!(kill_reply(&PLAIN, "k", &Ok(2)).out, vec!["✖ k terminated (2 processes)"]);
    assert_eq!(kill_reply(&PLAIN, "k", &Err("e".to_string())).err, vec!["[pv] e"]);
}

#[test]
fn suspended_apps_are_listed_with_their_age() {
    assert_eq!(suspended(&PLAIN, &vec![], 0), vec!["Nothing suspended."]);
    let lines = suspended(&PLAIN, &vec![record("firefox")], 161);
    assert_eq!(lines[1], format!("  {:<18}  {:<28}  {:>10}  frozen 1m 01s", "FIREFOX", "t", "2 MB"));
    // a clock that went back makes no age
    assert!(suspended(&PLAIN, &vec![record("a")], 0)[1].ends_with("frozen 0s"));
}

#[test]
fn defaults_are_written_once() {
    assert!(init_refused("/p", false).is_none());
    assert_eq!(init_refused("/p", true).unwrap().err, vec!["already exists: /p"]);
    assert_eq!(init_reply("/p", &Ok(())).out, vec!["wrote /p"]);
    assert_eq!(init_reply("/p", &Err("e".to_string())).err, vec!["[pv] e"]);
}

#[test]
fn hosts_show_whether_they_answer() {
    let host = |note: &str| Host { addr: "u@h".to_string(), note: note.to_string() };
    assert!(hosts(&PLAIN, &vec![])[0].starts_with("No remote hosts configured"));
    let lines = hosts(
        &PLAIN,
        &vec![
            HostSeen { name: "a".to_string(), host: host("n"), up: true, probe: Some("8 cores".to_string()) },
            HostSeen { name: "b".to_string(), host: host("n"), up: true, probe: None },
            HostSeen { name: "c".to_string(), host: host("n"), up: false, probe: None },
        ],
    );
    assert_eq!(lines[1], format!("  {:<14}  {:<24}  {:<9}  8 cores", "a", "u@h", "online"));
    assert_eq!(lines[2], format!("  {:<14}  {:<24}  {:<9}  n", "b", "u@h", "online"));
    assert_eq!(lines[3], format!("  {:<14}  {:<24}  {:<9}  n", "c", "u@h", "offline"));
    let list = vec![("a".to_string(), host("n"))];
    assert_eq!(remote_host(&list, "a").ok().unwrap().addr, "u@h");
    assert_eq!(remote_host(&list, "z").err().unwrap().err, vec!["unknown host 'z' — see `pv hosts`"]);
}

#[test]
fn each_app_has_its_category() {
    let c = categories(&state(1).intents);
    assert_eq!(c[0], ("firefox".to_string(), Category::Browser));
    assert_eq!(c[1].1, Category::Shell);
}
