//! Session records.

use pv::session::{
    find, follow, gc, is_alive, is_session_file, list, run, session_files, session_id,
    sessions_dir, tail, Session,
};

fn sess(id: &str, cmd: &str, started: u64, host: &str) -> Session {
    Session {
        id: id.to_string(),
        cmd: cmd.split(' ').map(|w| w.to_string()).collect(),
        pid: 7,
        started,
        intent_task: String::new(),
        intent_category: String::new(),
        cwd: String::new(),
        log: format!("/s/{id}.log"),
        host: host.to_string(),
    }
}

#[test]
fn sessions_are_listed_by_their_start() {
    let l = list(&vec![
        sess("c", "x", 9, "local"),
        sess("a", "y", 3, "local"),
        sess("b", "z", 3, "local"),
    ]);
    let ids: Vec<&str> = l.iter().map(|s| s.id.as_str()).collect();
    assert_eq!(ids, vec!["a", "b", "c"]);
}

#[test]
fn an_exact_id_wins_over_a_prefix() {
    let all = vec![
        sess("abcd", "cargo build", 1, "local"),
        sess("ab", "Make ALL", 2, "local"),
    ];
    assert_eq!(find(&all, "ab").unwrap().id, "ab");
    assert_eq!(find(&all, "abc").unwrap().id, "abcd");
    // commands are searched without regard to case
    assert_eq!(find(&all, "make all").unwrap().id, "ab");
    assert!(find(&all, "nothing").is_none());
}

#[test]
fn remote_sessions_count_as_alive() {
    assert!(is_alive(&sess("a", "x", 0, "u@h"), false));
    assert!(!is_alive(&sess("a", "x", 0, "local"), false));
    assert!(is_alive(&sess("a", "x", 0, "local"), true));
}

#[test]
fn ids_mix_the_time_with_the_process() {
    assert_eq!(session_id(0x1_0000_00ff, 0x0f), "000000f0");
    assert_eq!(session_id(0xdead_beef, 0), "deadbeef");
    let (record, log) = session_files("/d", "0a");
    assert_eq!((log.as_str(), record.as_str()), ("/d/0a.log", "/d/0a.toml"));
}

#[test]
fn a_session_needs_a_command() {
    let none: Vec<String> = vec![];
    assert_eq!(
        run(&none, "t", "c", "id", 1, 2, "/", "/l").err().as_deref(),
        Some("no command given")
    );
    let s = run(&vec!["ls".to_string()], "t", "c", "id", 1, 2, "/w", "/l").expect("given");
    assert_eq!((s.pid, s.started, s.host.as_str(), s.cwd.as_str()), (1, 2, "local", "/w"));
    assert_eq!((s.intent_task.as_str(), s.intent_category.as_str()), ("t", "c"));
}

#[test]
fn the_last_lines_are_shown() {
    assert_eq!(tail("a\nb\r\nc\n", 2), vec!["b", "c"]);
    assert_eq!(tail("a\nb", 9), vec!["a", "b"]);
    assert!(tail("", 3).is_empty());
}

#[test]
fn following_reads_what_is_new_and_ends_with_the_process() {
    let s = sess("a", "x", 0, "local");
    let f = follow(&s, 10, 15, true);
    assert_eq!((f.read_from, f.pos, f.ended), (Some(10), 15, false));
    let f = follow(&s, 15, 15, false);
    assert_eq!((f.read_from, f.pos, f.ended), (None, 15, true));
    assert!(!follow(&sess("a", "x", 0, "u@h"), 0, 0, false).ended);
}

#[test]
fn finished_sessions_are_kept_for_a_day() {
    let all = vec![
        sess("old", "x", 0, "local"),
        sess("edge", "x", 1, "local"),
        sess("live", "x", 0, "local"),
        sess("far", "x", 0, "u@h"),
    ];
    assert_eq!(gc(&all, &vec![false, false, true, false], 86_401), vec![0]);
}

#[test]
fn records_are_toml_files_of_the_sessions_directory() {
    assert!(is_session_file("ab.toml"));
    assert!(!is_session_file("ab.log"));
    assert!(!is_session_file(".toml"));
    assert_eq!(
        sessions_dir(&None, &Some("/h".to_string())),
        "/h/.local/share/pv/sessions"
    );
    // an empty variable is taken as it is
    assert_eq!(sessions_dir(&Some(String::new()), &None), "pv/sessions");
}
