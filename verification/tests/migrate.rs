//! Addresses, quoting, and the steps of a migration.

use pv::migrate::{
    default_hosts, hosts_path, load_hosts, migrate_command, online, probe, probe_answer,
    sanitize_job, shell_join, shell_quote, shell_quote_keep_tilde, validate_addr, Host, Outcome,
    Stage, Step, PROBE,
};

#[test]
fn sanitize_job_strips_shell_metachars() {
    assert_eq!(sanitize_job("x'; cmd #"), "x---cmd--");
    assert_eq!(sanitize_job("cargo"), "cargo");
    assert_eq!(sanitize_job("a/b\0c"), "a-b-c");
    assert_eq!(sanitize_job(""), "job");
    assert_eq!(sanitize_job("ünïcode"), "-n-code");
    assert_eq!(sanitize_job(&"a".repeat(100)), "a".repeat(40));
}

#[test]
fn shell_join_quotes_unsafe_args() {
    assert_eq!(shell_join(&vec!["ls".into(), "-la".into()]), "ls -la");
    // sanitized remote dir keeps `~/` unquoted so the tilde still expands
    assert_eq!(
        shell_quote_keep_tilde("~/.pv/migrated/pv-x---cmd--"),
        "~/'.pv/migrated/pv-x---cmd--'"
    );
    // anything unsafe is single-quoted, so it cannot inject commands
    assert_eq!(
        shell_join(&vec!["~/.pv/migrated/pv-x'; rm -rf / #".into()]),
        "'~/.pv/migrated/pv-x'\\''; rm -rf / #'"
    );
}

#[test]
fn validate_addr_allows_typical_forms() {
    validate_addr("user@192.168.1.20").unwrap();
    validate_addr("my-host.example.com").unwrap();
    validate_addr("root@[2001:db8::1]").unwrap();
}

#[test]
fn validate_addr_rejects_unsafe_chars() {
    assert!(validate_addr("user@host; rm -rf /").is_err());
    assert!(validate_addr("host & cmd").is_err());
    assert!(validate_addr("host`cmd`").is_err());
    assert!(validate_addr("$(cmd)").is_err());
    assert!(validate_addr("").is_err());
}

#[test]
fn shell_quote_escapes_single_quotes() {
    assert_eq!(shell_quote("it's"), "'it'\\''s'");
    assert_eq!(shell_quote("a'b'c"), "'a'\\''b'\\''c'");
}

fn host(addr: &str) -> Host {
    Host { addr: addr.to_string(), note: String::new() }
}

/// Read one single-quoted word as a shell does.
fn unquote(s: &str) -> String {
    let mut out = String::new();
    let mut quoted = false;
    let mut chars = s.chars();
    while let Some(c) = chars.next() {
        if c == '\'' {
            quoted = !quoted;
        } else if c == '\\' && !quoted {
            out.push(chars.next().expect("escaped"));
        } else {
            out.push(c);
        }
    }
    assert!(!quoted);
    out
}

#[test]
fn a_shell_gives_back_what_was_quoted() {
    for text in ["", "a b", "it's", "'", "''", "\\'", "$(x); `y` & |", "日本"] {
        assert_eq!(unquote(&shell_quote(text)), text);
    }
}

#[test]
fn hosts_with_unsafe_addresses_are_dropped() {
    let list = vec![
        ("ok".to_string(), host("u@h")),
        ("bad".to_string(), host("h; rm")),
        ("dash".to_string(), host("-oProxyCommand=x")),
    ];
    let kept: Vec<String> = load_hosts(&list).into_iter().map(|(n, _)| n).collect();
    for n in &kept {
        let h = list.iter().find(|(m, _)| m == n).unwrap();
        assert!(validate_addr(&h.1.addr).is_ok());
    }
    assert!(kept.contains(&"ok".to_string()));
    assert!(!kept.contains(&"bad".to_string()));
}

#[test]
fn hosts_are_asked_over_ssh_only_at_valid_addresses() {
    let args = online("u@h").expect("valid");
    assert_eq!(
        args,
        vec![
            "-o",
            "BatchMode=yes",
            "-o",
            "ConnectTimeout=3",
            "-o",
            "StrictHostKeyChecking=accept-new",
            "u@h",
            "true"
        ]
    );
    assert_eq!(probe("u@h").unwrap().last().map(|s| s.as_str()), Some(PROBE));
    assert_eq!(online("a b"), None);
    assert_eq!(probe(""), None);
    assert_eq!(probe_answer(true, &b" 8 cores, 16 GB RAM\n".to_vec()).as_deref(), Some("8 cores, 16 GB RAM"));
    assert_eq!(probe_answer(false, &b"x".to_vec()), None);
}

#[test]
fn a_migration_copies_and_then_runs() {
    let cmd = vec!["/usr/bin/cargo".to_string(), "build it".to_string()];
    let (m, step) = migrate_command(&host("u@h"), &cmd, "/work");
    assert!(matches!(&step, Step::Check { tool } if tool == "ssh"));
    let (m, step) = m.next(&Outcome::Success);
    assert!(matches!(&step, Step::Check { tool } if tool == "rsync"));
    let (m, step) = m.next(&Outcome::Success);
    match &step {
        Step::Copy { say, args } => {
            assert_eq!(say, "[pv] syncing /work → u@h:~/.pv/migrated/pv-cargo");
            assert_eq!(args[9], "/work/");
            assert_eq!(args[10], "u@h:~/.pv/migrated/pv-cargo");
        }
        _ => panic!("copy"),
    }
    let (m, step) = m.next(&Outcome::Success);
    match &step {
        Step::Start { say, args } => {
            assert_eq!(say, "[pv] resuming remotely: /usr/bin/cargo build it");
            assert_eq!(
                args.last().unwrap(),
                "cd ~/'.pv/migrated/pv-cargo' && /usr/bin/cargo 'build it'"
            );
        }
        _ => panic!("start"),
    }
    let (m, step) = m.next(&Outcome::Success);
    assert!(matches!(&step, Step::Finish { say } if say.ends_with("untouched in /work")));
    assert_eq!(m.stage, Stage::Over);
}

#[test]
fn a_migration_fails_with_the_step_that_failed() {
    let cmd = vec!["make".to_string()];
    let missing = Outcome::NoTool { message: "gone".to_string() };
    let (_, step) = migrate_command(&host("a b"), &cmd, "/w");
    assert!(matches!(step, Step::Fail { .. }));
    let (m, _) = migrate_command(&host("h"), &cmd, "/w");
    let (_, step) = m.next(&missing);
    assert!(matches!(step, Step::Fail { message } if message == "`ssh` not found — install it to enable migration"));
    let (m, _) = migrate_command(&host("h"), &vec![], "/w");
    let (m, _) = m.next(&Outcome::Success);
    let (_, step) = m.next(&Outcome::Success);
    assert!(matches!(step, Step::Fail { message } if message == "no command to migrate"));
    let (m, _) = migrate_command(&host("h"), &cmd, "/w\0");
    let (m, _) = m.next(&Outcome::Success);
    let (_, step) = m.next(&Outcome::Success);
    assert!(matches!(step, Step::Fail { message } if message == "working directory contains a null byte"));
    let (m, _) = migrate_command(&host("h"), &cmd, "/w");
    let (m, _) = m.next(&Outcome::Success);
    let (m, _) = m.next(&Outcome::Success);
    let (_, step) = m.next(&Outcome::Status { text: "exit status: 12".to_string() });
    assert!(matches!(step, Step::Fail { message } if message == "rsync failed (exit status: 12)"));
}

#[test]
fn hosts_live_in_the_configuration_directory() {
    assert_eq!(
        hosts_path(&None, &Some("/home/u".to_string())),
        "/home/u/.config/pv/hosts.toml"
    );
    assert!(!default_hosts().is_empty());
}

#[test]
fn letters_beyond_ascii_are_quoted() {
    assert_eq!(shell_join(&vec!["echo".into(), "é".into()]), "echo 'é'");
    assert_eq!(shell_join(&vec!["Az09._/=+:,~-".into()]), "Az09._/=+:,~-");
    assert_eq!(
        shell_join(&vec!["sh".into(), "-c".into(), "a b; c 'd'".into()]),
        "sh -c 'a b; c '\\''d'\\'''"
    );
}
