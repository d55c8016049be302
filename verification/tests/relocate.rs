//! Work on its way to another host.

use pv::commands::migrate;
use pv::display::Theme;
use pv::migrate::Host;
use pv::procfs::App;
use pv::relocate::{Act, Event, Relocation};
use pv::session::Session;

const PLAIN: Theme = Theme { enabled: false };

fn app(key: &str, cmdline: &str, argv: Vec<&str>) -> App {
    App {
        key: key.to_string(),
        display: key.to_uppercase(),
        pids: vec![50],
        leader: 50,
        rss_kb: 0,
        cpu_pct: 0,
        state: 'S',
        tty: false,
        has_audio: false,
        cmdline: cmdline.to_string(),
        argv: argv.iter().map(|s| s.to_string()).collect(),
        age_ns: 0,
        kernel: false,
    }
}

fn session(id: &str, cmd: &str) -> Session {
    Session {
        id: id.to_string(),
        cmd: cmd.split(' ').map(|s| s.to_string()).collect(),
        pid: 1,
        started: 0,
        intent_task: String::new(),
        intent_category: String::new(),
        cwd: "/s".to_string(),
        log: String::new(),
        host: "local".to_string(),
    }
}

fn hosts() -> Vec<(String, Host)> {
    let h = |a: &str| Host { addr: a.to_string(), note: String::new() };
    vec![("one".to_string(), h("u@1")), ("two".to_string(), h("u@2"))]
}

fn chosen(target: &str) -> Relocation {
    let (run, turn) = migrate(&PLAIN, target, &Some("two".to_string()), hosts());
    assert!(matches!(&turn.act, Act::Ask { addr } if addr == "u@2"));
    let (run, turn) = run.next(Event::Answer(true));
    assert!(matches!(turn.act, Act::Sessions));
    run
}

#[test]
fn a_host_is_needed() {
    let (_, turn) = migrate(&PLAIN, "x", &None, vec![]);
    assert_eq!(turn.err, vec!["no remote hosts configured — run `pv hosts --init` and edit it"]);
    assert!(matches!(turn.act, Act::Exit { code: 1 }));
    let (_, turn) = migrate(&PLAIN, "x", &Some("three".to_string()), hosts());
    assert_eq!(turn.err, vec!["unknown host 'three' — see `pv hosts`"]);
}

#[test]
fn the_first_host_that_answers_is_taken() {
    let (run, turn) = migrate(&PLAIN, "x", &None, hosts());
    assert!(matches!(&turn.act, Act::Ask { addr } if addr == "u@1"));
    let (run, turn) = run.next(Event::Answer(false));
    assert!(matches!(&turn.act, Act::Ask { addr } if addr == "u@2"));
    let (run, turn) = run.next(Event::Answer(true));
    assert_eq!(turn.out, vec!["[pv] selected host two"]);
    assert!(matches!(&turn.act, Act::Ask { addr } if addr == "u@2"));
    let (_, turn) = run.next(Event::Answer(false));
    assert_eq!(turn.err, vec!["host u@2 is offline"]);
    let (run, _) = migrate(&PLAIN, "x", &None, hosts());
    let (run, _) = run.next(Event::Answer(false));
    let (_, turn) = run.next(Event::Answer(false));
    assert_eq!(turn.err, vec!["no configured host is online"]);
}

#[test]
fn a_session_moves_with_its_directory() {
    let (run, turn) = chosen("ab").next(Event::Sessions(vec![session("abc", "make all")]));
    assert_eq!(turn.out, vec!["[pv] migrating session abc (make all) → u@2"]);
    match &turn.act {
        Act::Migrate { host, cmd, cwd } => {
            assert_eq!(host.addr, "u@2");
            assert_eq!(cmd, &["make", "all"]);
            assert_eq!(cwd, "/s");
        }
        _ => panic!("migrate"),
    }
    let (_, turn) = run.next(Event::Migrated(Err("no".to_string())));
    assert_eq!(turn.err, vec!["[pv] no"]);
    assert!(matches!(turn.act, Act::Exit { code: 1 }));
}

#[test]
fn an_app_moves_where_it_can_be_restarted() {
    let (run, turn) = chosen("cargo").next(Event::Sessions(vec![]));
    assert!(matches!(turn.act, Act::Apps));
    let (run, turn) = run.next(Event::Apps(vec![app("cargo", "cargo build", vec!["cargo", "b c"])]));
    assert!(matches!(turn.act, Act::Cwd { pid: 50 }));
    let (run, turn) = run.next(Event::Cwd(None));
    assert_eq!(turn.out[0], "[pv] migrating CARGO (Build Rust workspace) from . → u@2");
    assert!(matches!(&turn.act, Act::Migrate { cmd, cwd, .. } if cmd == &["cargo", "b c"] && cwd == "."));
    let (_, turn) = run.next(Event::Migrated(Ok(())));
    assert!(matches!(turn.act, Act::Exit { code: 0 }));
}

#[test]
fn what_cannot_be_restarted_stays() {
    let (run, _) = chosen("firefox").next(Event::Sessions(vec![]));
    let (_, turn) = run.next(Event::Apps(vec![app("firefox", "", vec![])]));
    assert_eq!(
        turn.err,
        vec!["refusing: FIREFOX — intent 'Web browsing' is not migratable (safe to suspend when idle; tabs restore on resume)"]
    );
    let (run, _) = chosen("odd").next(Event::Sessions(vec![]));
    let (_, turn) = run.next(Event::Apps(vec![app("odd", "", vec![])]));
    assert_eq!(
        turn.err,
        vec!["refusing: ODD — intent 'Application' is not migratable (state lives locally)"]
    );
    let (run, _) = chosen("nobody").next(Event::Sessions(vec![]));
    let (_, turn) = run.next(Event::Apps(vec![]));
    assert_eq!(turn.err, vec!["no session or app matching 'nobody'"]);
}

#[test]
fn a_command_is_read_from_the_words_where_arguments_are_unknown() {
    let (run, _) = chosen("make").next(Event::Sessions(vec![]));
    let (run, _) = run.next(Event::Apps(vec![app("make", " make  -j 4 ", vec![])]));
    let (_, turn) = run.next(Event::Cwd(Some("/w".to_string())));
    assert!(matches!(&turn.act, Act::Migrate { cmd, cwd, .. } if cmd == &["make", "-j", "4"] && cwd == "/w"));
    let (run, _) = chosen("make").next(Event::Sessions(vec![]));
    let (run, _) = run.next(Event::Apps(vec![app("make", "", vec![])]));
    let (_, turn) = run.next(Event::Cwd(None));
    assert_eq!(turn.err, vec!["cannot reconstruct command line for MAKE"]);
}
