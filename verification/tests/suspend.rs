//! Suspensions and releases, step by step.

use pv::suspend::{
    gc, has_tail, kill_suspended, known_start, record, resume, signal_guarded, start_time,
    state_file, suspend, Act, Event, Outcome, PidStart, Sig, SuspendRun, SuspendedApp,
};

#[test]
fn start_time_none_for_dead_pid() {
    assert_eq!(start_time(&None), None);
}

#[test]
fn start_time_is_the_twenty_second_field() {
    let stat = "42 (odd) name) S 1 2 3 4 5 6 7 8 9 10 11 12 13 14 15 16 17 18 987654 20\n";
    assert!(has_tail(stat));
    assert_eq!(start_time(&Some(stat.to_string())), Some(987_654));
    assert_eq!(start_time(&Some("42 no name".to_string())), None);
    assert_eq!(start_time(&Some("42 (x) S 1".to_string())), None);
    assert!(!has_tail("42 (x)"));
}

#[test]
fn the_guard_wants_the_recorded_identity() {
    assert!(signal_guarded(Some(5), Some(5)));
    assert!(signal_guarded(None, Some(5)));
    assert!(signal_guarded(None, None));
    assert!(!signal_guarded(Some(5), Some(6)));
    assert!(!signal_guarded(Some(5), None));
    let starts = vec![PidStart { pid: 1, start: 10 }, PidStart { pid: 2, start: 20 }];
    assert_eq!(known_start(&starts, 2), Some(20));
    assert_eq!(known_start(&starts, 3), None);
}

fn fail(m: &str) -> Event {
    Event::Failed { message: m.to_string() }
}

fn started(t: u64) -> Event {
    Event::Started { start: Some(t) }
}

fn grouped(path: &str) -> Event {
    Event::Grouped { group: Some(path.to_string()) }
}

fn begin() -> (SuspendRun, Act) {
    suspend("firefox", "Firefox", &vec![10, 11], 2048, "Web browsing").expect("pids given")
}

fn entry(key: &str, pids: Vec<u32>, cgroup: Option<&str>) -> SuspendedApp {
    SuspendedApp {
        key: key.to_string(),
        display: key.to_uppercase(),
        starts: pids.iter().map(|p| PidStart { pid: *p, start: 100 + *p as u64 }).collect(),
        pids,
        rss_kb: 4096,
        suspended_at: 1,
        task: "t".to_string(),
        cgroup: cgroup.map(|c| c.to_string()),
    }
}

#[test]
fn nothing_to_suspend_is_refused() {
    assert_eq!(
        suspend("k", "K", &vec![], 0, "t").err().as_deref(),
        Some("no processes matched")
    );
}

#[test]
fn a_suspension_freezes_a_group_and_records_it() {
    let (run, act) = begin();
    assert!(matches!(act, Act::Sync));
    let (run, act) = run.next(&Event::Fine, 9);
    assert!(matches!(&act, Act::Create { key } if key == "firefox"));
    let (run, act) = run.next(&Event::Created { path: "/g".to_string() }, 9);
    assert!(matches!(act, Act::StartOf { pid: 10 }));
    let (run, act) = run.next(&started(110), 9);
    assert!(matches!(act, Act::GroupOf { pid: 10 }));
    let (run, act) = run.next(&grouped("/a"), 9);
    assert!(matches!(&act, Act::Move { path, pid: 10 } if path == "/g"));
    let (run, act) = run.next(&Event::Fine, 9);
    assert!(matches!(act, Act::StartOf { pid: 11 }));
    let (run, _) = run.next(&Event::Started { start: None }, 9);
    let (run, _) = run.next(&grouped("/b"), 9);
    let (run, act) = run.next(&Event::Fine, 9);
    assert!(matches!(&act, Act::Freeze { path } if path == "/g"));
    let (run, act) = run.next(&Event::Fine, 77);
    assert!(matches!(&act, Act::Record { entry } if entry.suspended_at == 77));
    let (_, act) = run.next(&Event::Fine, 99);
    match act {
        Act::Done { outcome: Outcome::Suspended { entry } } => {
            assert_eq!(entry.key, "firefox");
            assert_eq!(entry.pids, vec![10, 11]);
            assert_eq!(entry.starts, vec![PidStart { pid: 10, start: 110 }]);
            assert_eq!(entry.cgroup.as_deref(), Some("/g"));
            assert_eq!(entry.rss_kb, 2048);
        }
        _ => panic!("suspended"),
    }
}

#[test]
fn without_a_group_each_process_is_stopped() {
    let (run, _) = begin();
    let (run, _) = run.next(&Event::Fine, 9);
    let (run, act) = run.next(&fail("unavailable"), 9);
    assert!(matches!(act, Act::StartOf { pid: 10 }));
    let (run, act) = run.next(&started(110), 9);
    assert!(matches!(act, Act::StartOf { pid: 11 }));
    let (run, act) = run.next(&started(111), 9);
    assert!(matches!(act, Act::Signal { pid: 10, sig: Sig::Stop }));
    let (run, act) = run.next(&Event::Signalled { sent: false }, 9);
    assert!(matches!(act, Act::Signal { pid: 11, sig: Sig::Stop }));
    let (run, act) = run.next(&Event::Signalled { sent: true }, 9);
    assert!(matches!(&act, Act::Record { entry } if entry.cgroup.is_none()));
    // what cannot be recorded is let go, and only what is still itself
    let (run, act) = run.next(&fail("disk full"), 9);
    assert!(matches!(act, Act::StartOf { pid: 10 }));
    let (run, act) = run.next(&started(999), 9);
    assert!(matches!(act, Act::StartOf { pid: 11 }));
    let (run, act) = run.next(&started(111), 9);
    assert!(matches!(act, Act::Signal { pid: 11, sig: Sig::Cont }));
    let (_, act) = run.next(&Event::Signalled { sent: true }, 9);
    assert!(
        matches!(act, Act::Done { outcome: Outcome::Failed { message } } if message == "cannot record suspension: disk full")
    );
}

#[test]
fn stopping_nothing_is_a_failure() {
    let (run, _) = begin();
    let (run, _) = run.next(&Event::Fine, 9);
    let (run, _) = run.next(&fail("x"), 9);
    let (run, _) = run.next(&started(1), 9);
    let (run, _) = run.next(&started(2), 9);
    let (run, _) = run.next(&Event::Signalled { sent: false }, 9);
    let (_, act) = run.next(&Event::Signalled { sent: false }, 9);
    assert!(
        matches!(act, Act::Done { outcome: Outcome::Failed { message } } if message == "failed to stop any process (permission?)")
    );
}

#[test]
fn a_group_that_cannot_be_recorded_is_given_up() {
    let (run, _) = suspend("k", "K", &vec![10], 1, "t").expect("given");
    let (run, _) = run.next(&Event::Fine, 9);
    let (run, _) = run.next(&Event::Created { path: "/g".to_string() }, 9);
    let (run, _) = run.next(&started(1), 9);
    let (run, _) = run.next(&grouped("/home"), 9);
    let (run, _) = run.next(&Event::Fine, 9);
    let (run, _) = run.next(&Event::Fine, 9);
    let (run, act) = run.next(&fail("disk full"), 9);
    assert!(matches!(act, Act::Open { .. }));
    let (run, act) = run.next(&Event::Fine, 9);
    assert!(matches!(act, Act::Thaw { .. }));
    let (run, act) = run.next(&Event::Fine, 9);
    assert!(matches!(&act, Act::Move { path, pid: 10 } if path == "/home"));
    let (run, act) = run.next(&Event::Fine, 9);
    assert!(matches!(act, Act::Destroy { .. }));
    let (_, act) = run.next(&Event::Fine, 9);
    assert!(matches!(act, Act::StartOf { pid: 10 }));
}

#[test]
fn a_group_is_thawed_and_forgotten() {
    let all = vec![entry("a", vec![1], None), entry("b", vec![2, 3], Some("/g"))];
    let (run, act) = resume(all, "b").expect("suspended");
    assert!(matches!(&act, Act::Open { path } if path == "/g"));
    let (run, act) = run.next(&Event::Fine);
    assert!(matches!(act, Act::Members { .. }));
    let (run, act) = run.next(&Event::Pids { pids: vec![2, 3, 4] });
    assert!(matches!(act, Act::Thaw { .. }));
    let (run, act) = run.next(&Event::Fine);
    assert!(matches!(act, Act::Destroy { .. }));
    let (run, act) = run.next(&Event::Fine);
    assert!(matches!(&act, Act::Save { list } if list.len() == 1 && list[0].key == "a"));
    let (_, act) = run.next(&Event::Fine);
    assert!(matches!(act, Act::Done { outcome: Outcome::Thawed { count: 3, rss_kb: 4096 } }));
}

#[test]
fn recycled_processes_stay_unsignalled() {
    let (run, act) = resume(vec![entry("a", vec![1, 2], None)], "a").expect("suspended");
    assert!(matches!(act, Act::StartOf { pid: 1 }));
    let (run, act) = run.next(&started(7));
    assert!(matches!(act, Act::StartOf { pid: 2 }));
    let (run, act) = run.next(&started(102));
    assert!(matches!(act, Act::Signal { pid: 2, sig: Sig::Cont }));
    let (run, act) = run.next(&Event::Signalled { sent: true });
    assert!(matches!(&act, Act::Save { list } if list.is_empty()));
    let (_, act) = run.next(&fail("read-only"));
    assert!(
        matches!(act, Act::Done { outcome: Outcome::Failed { message } } if message == "read-only")
    );
}

#[test]
fn a_kill_thaws_before_it_terminates() {
    let (run, act) = kill_suspended(vec![entry("a", vec![1], None)], "a").expect("suspended");
    assert!(matches!(act, Act::StartOf { pid: 1 }));
    let (run, act) = run.next(&started(101));
    assert!(matches!(act, Act::Signal { pid: 1, sig: Sig::Cont }));
    let (run, act) = run.next(&Event::Signalled { sent: true });
    assert!(matches!(act, Act::StartOf { pid: 1 }));
    let (run, act) = run.next(&started(101));
    assert!(matches!(act, Act::Signal { pid: 1, sig: Sig::Term }));
    let (run, _) = run.next(&Event::Signalled { sent: true });
    let (_, act) = run.next(&Event::Fine);
    assert!(matches!(act, Act::Done { outcome: Outcome::Killed { count: 1 } }));
}

#[test]
fn what_is_not_suspended_is_named() {
    assert_eq!(resume(vec![], "x").err().as_deref(), Some("'x' is not suspended"));
    assert_eq!(kill_suspended(vec![], "x").err().as_deref(), Some("'x' is not suspended"));
}

#[test]
fn an_app_has_one_record() {
    let list = vec![entry("a", vec![1], None), entry("b", vec![2], None)];
    let more = record(&list, &entry("a", vec![9], None));
    let keys: Vec<(&str, u32)> = more.iter().map(|e| (e.key.as_str(), e.pids[0])).collect();
    assert_eq!(keys, vec![("b", 2), ("a", 9)]);
}

#[test]
fn records_of_the_dead_are_dropped() {
    let list = vec![entry("a", vec![1, 2], None), entry("b", vec![3], None)];
    let left = gc(&list, &vec![2, 7]);
    assert_eq!(left.len(), 1);
    assert_eq!(left[0].key, "a");
    assert_eq!(left[0].starts, list[0].starts);
}

#[test]
fn records_live_in_the_data_directory() {
    assert_eq!(
        state_file(&Some(String::new()), &Some("/h".to_string())),
        "/h/.local/share/pv/suspended.toml"
    );
    assert_eq!(state_file(&Some("/d".to_string()), &None), "/d/pv/suspended.toml");
}

/// A suspension of 10 and 11 whose first process has been moved from `/a`.
fn one_moved() -> SuspendRun {
    let (run, _) = begin();
    let (run, _) = run.next(&Event::Fine, 9);
    let (run, _) = run.next(&Event::Created { path: "/g".to_string() }, 9);
    let (run, _) = run.next(&started(110), 9);
    let (run, _) = run.next(&grouped("/a"), 9);
    let (run, _) = run.next(&Event::Fine, 9);
    run.next(&started(111), 9).0
}

#[test]
fn processes_go_back_where_a_move_fails() {
    let (run, act) = one_moved().next(&grouped("/b"), 9);
    assert!(matches!(&act, Act::Move { path, pid: 11 } if path == "/g"));
    let (run, act) = run.next(&fail("refused"), 9);
    assert!(matches!(&act, Act::Move { path, pid: 10 } if path == "/a"));
    let (run, act) = run.next(&Event::Fine, 9);
    assert!(matches!(&act, Act::Destroy { path } if path == "/g"));
    let (_, act) = run.next(&Event::Fine, 9);
    assert!(matches!(act, Act::StartOf { pid: 10 }));
}

#[test]
fn processes_go_back_where_the_freeze_fails() {
    let (run, _) = one_moved().next(&grouped("/b"), 9);
    let (run, act) = run.next(&Event::Fine, 9);
    assert!(matches!(act, Act::Freeze { .. }));
    let (run, act) = run.next(&fail("too late"), 9);
    assert!(matches!(&act, Act::Move { path, pid: 11 } if path == "/b"));
    let (run, act) = run.next(&Event::Fine, 9);
    assert!(matches!(&act, Act::Move { path, pid: 10 } if path == "/a"));
    let (run, act) = run.next(&Event::Fine, 9);
    assert!(matches!(&act, Act::Destroy { path } if path == "/g"));
    let (_, act) = run.next(&fail("busy"), 9);
    assert!(matches!(act, Act::StartOf { pid: 10 }));
}

#[test]
fn a_process_without_a_known_group_is_not_moved() {
    let (run, act) = one_moved().next(&Event::Grouped { group: None }, 9);
    assert!(matches!(&act, Act::Move { path, pid: 10 } if path == "/a"));
    let (_, act) = run.next(&Event::Fine, 9);
    assert!(matches!(act, Act::Destroy { .. }));
}

#[test]
fn releasing_leaves_the_other_records() {
    let list = vec![entry("a", vec![1], None), entry("b", vec![2], None)];
    let (run, _) = resume(record(&list, &entry("a", vec![9], None)), "a").expect("recorded");
    assert_eq!(run.entry.pids, vec![9]);
    let left: Vec<&str> = run.rest.iter().map(|e| e.key.as_str()).collect();
    assert_eq!(left, vec!["b"]);
}
