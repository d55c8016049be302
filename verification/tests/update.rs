//! Versions, and the turns of an update.

use pv::display::Theme;
use pv::update::{
    current_version, install_dir, is_newer, latest_release, parse_ver, path_hint,
    remote_source_version, run, Act, Event, Note, Options, Place, Turn, Update, DEFAULT_REPO,
};

#[test]
fn parses_versions() {
    assert_eq!(parse_ver("v0.4.5"), (0, 4, 5));
    assert_eq!(parse_ver("1.2.3"), (1, 2, 3));
    assert_eq!(parse_ver("0.10"), (0, 10, 0));
}

#[test]
fn compares_versions() {
    assert!(is_newer("v0.5.0", "0.4.9"));
    assert!(is_newer("0.4.10", "0.4.9"));
    assert!(!is_newer("0.4.5", "0.4.5"));
    assert!(!is_newer("v0.4.4", "0.4.5"));
}

#[test]
fn odd_versions_count_as_zero() {
    assert_eq!(parse_ver(""), (0, 0, 0));
    assert_eq!(parse_ver(" vv2 . 3 .x"), (2, 3, 0));
    assert_eq!(parse_ver("1.2.3.4"), (1, 2, 3));
    assert_eq!(parse_ver("4294967296.1"), (0, 1, 0));
    assert_eq!(current_version(), "0.4.5");
}

fn body(text: &str) -> Result<String, String> {
    Ok(text.to_string())
}

#[test]
fn releases_are_read() {
    assert_eq!(
        latest_release(&body(
            "{\"tag_name\":\"v9\",\"assets\":[{\"browser_download_url\":\"https://x/pv\"}]}"
        )),
        Ok(Some(("v9".to_string(), "https://x/pv".to_string())))
    );
    assert_eq!(latest_release(&body("{\"message\":\"Not Found\"}")), Ok(None));
    assert_eq!(latest_release(&Err("request failed (curl: (22) 404)".to_string())), Ok(None));
    assert_eq!(latest_release(&Err("Not Found".to_string())), Ok(None));
    assert_eq!(latest_release(&Err("curl: gone".to_string())), Err("curl: gone".to_string()));
    assert_eq!(latest_release(&body("{}")), Err("release JSON had no tag_name".to_string()));
    assert_eq!(
        latest_release(&body("{\"tag_name\":\"v9\"}")),
        Err("release has no downloadable assets".to_string())
    );
}

#[test]
fn manifests_are_read() {
    let m = "[package]\nname = \"pv\"\nversion = \"1.2.3\"\nversion = \"9\"\n";
    assert_eq!(remote_source_version(&body(m)), Ok("1.2.3".to_string()));
    assert_eq!(
        remote_source_version(&body("versions\nname = \"x\"\n")),
        Err("no version in remote Cargo.toml".to_string())
    );
    assert_eq!(remote_source_version(&Err("e".to_string())), Err("e".to_string()));
}

fn some(x: &str) -> Option<String> {
    Some(x.to_string())
}

#[test]
fn the_target_follows_the_running_program() {
    let home = some("/home/u");
    assert_eq!(install_dir(true, &None, &home), "/usr/local/bin");
    assert_eq!(install_dir(false, &some("/usr/local/bin/pv"), &home), "/usr/local/bin");
    // a directory whose name merely begins alike is another one
    assert_eq!(install_dir(false, &some("/usr/local/binary/pv"), &home), "/home/u/.local/bin");
    assert_eq!(install_dir(false, &None, &None), "/tmp/.local/bin");
}

#[test]
fn a_target_off_the_path_gets_a_hint() {
    let t = Theme { enabled: false };
    assert_eq!(path_hint(&t, "/b", &some("/a:/b")), None);
    assert_eq!(
        path_hint(&t, "/b", &some("/a:/bb")).as_deref(),
        Some("note: /b is not on your PATH — add it or run `/b/pv/pv`")
    );
    assert!(path_hint(&t, "/b", &None).is_some());
}

fn options() -> Options {
    Options {
        source: false,
        system: false,
        force: false,
        check: false,
        repo: DEFAULT_REPO.to_string(),
    }
}

fn start(o: Options) -> (Update, Turn) {
    run(
        o,
        Place {
            theme: Theme { enabled: false },
            dir: "/home/u/.local/bin".to_string(),
            tmp: "/tmp/pv-update-1".to_string(),
            path: some("/home/u/.local/bin"),
        },
    )
}

fn ok(text: &str) -> Event {
    Event::Success(text.to_string())
}

fn release(tag: &str) -> Event {
    ok(&format!("{{\"tag_name\":\"{tag}\",\"browser_download_url\":\"https://x/pv\"}}"))
}

fn said(t: &Turn) -> Vec<String> {
    t.notes
        .iter()
        .map(|n| match n {
            Note::Out(s) => format!("out {s}"),
            Note::Part(s) => format!("part {s}"),
            Note::Warn(s) => format!("warn {s}"),
        })
        .collect()
}

#[test]
fn a_newer_release_is_downloaded_and_installed() {
    let (u, t) = start(options());
    assert_eq!(said(&t), vec!["out current: 0.4.5"]);
    assert!(
        matches!(&t.act, Act::Fetch { args } if args[3] == "https://api.github.com/repos/elci-group/pv/releases/latest")
    );
    let (u, t) = u.next(&release("v9.0.0"));
    assert_eq!(said(&t), vec!["out latest: v9.0.0 (release asset)", "part downloading… "]);
    assert!(
        matches!(&t.act, Act::Download { args, .. } if args[4] == "/tmp/pv-update-1/pv" && args[5] == "https://x/pv")
    );
    let (u, t) = u.next(&ok(""));
    assert!(matches!(&t.act, Act::Look { dir } if dir == "/home/u/.local/bin"));
    let (u, t) = u.next(&Event::Failure(String::new()));
    assert!(matches!(&t.act, Act::MakeDir { .. }));
    let (u, t) = u.next(&ok(""));
    assert!(matches!(&t.act, Act::TestWrite { .. }));
    let (u, t) = u.next(&ok(""));
    assert!(
        matches!(&t.act, Act::Copy { from, to } if from == "/tmp/pv-update-1/pv" && to == "/home/u/.local/bin/.pv-new")
    );
    let (u, t) = u.next(&ok(""));
    assert!(matches!(&t.act, Act::Rename { to, .. } if to == "/home/u/.local/bin/pv"));
    let (_, t) = u.next(&ok(""));
    assert!(t.clean);
    assert_eq!(said(&t), vec!["out \n✓ updated 0.4.5 → v9.0.0 → /home/u/.local/bin/pv"]);
    assert!(matches!(t.act, Act::Exit { code: 0 }));
}

#[test]
fn what_is_not_newer_is_left_alone_unless_forced() {
    let (u, _) = start(options());
    let (_, t) = u.next(&release("v0.4.5"));
    assert!(matches!(t.act, Act::Exit { code: 0 }));
    assert_eq!(said(&t)[1], "out ✓ already up to date");
    let (u, _) = start(Options { force: true, ..options() });
    let (_, t) = u.next(&release("v0.4.5"));
    assert!(matches!(t.act, Act::Download { .. }));
}

#[test]
fn a_check_changes_nothing() {
    let (u, _) = start(Options { check: true, ..options() });
    let (_, t) = u.next(&release("v9"));
    assert_eq!(said(&t)[1], "out update available: 0.4.5 → v9");
    assert!(matches!(t.act, Act::Exit { code: 0 }));
    let (u, _) = start(Options { check: true, source: true, ..options() });
    let (_, t) = u.next(&ok("version = \"9.9.9\"\n"));
    assert!(matches!(t.act, Act::Exit { code: 0 }));
}

#[test]
fn without_a_release_it_builds_from_source() {
    let (u, _) = start(options());
    let (u, t) = u.next(&Event::Failure("request failed (404)".to_string()));
    assert_eq!(said(&t), vec!["out no GitHub releases yet — building from source"]);
    let (u, _) = u.next(&ok("version = \"9.9.9\"\n"));
    let (u, t) = u.next(&ok(""));
    assert!(matches!(&t.act, Act::Check { tool } if tool == "cargo"));
    let (u, t) = u.next(&ok(""));
    assert!(t.clean);
    assert!(
        matches!(&t.act, Act::Clone { args } if args[3] == "https://github.com/elci-group/pv.git")
    );
    let (u, t) = u.next(&ok(""));
    assert!(
        matches!(&t.act, Act::Build { binary, .. } if binary == "/tmp/pv-update-1/target/release/pv")
    );
    let (u, _) = u.next(&ok(""));
    let (u, _) = u.next(&ok(""));
    // nothing can be written there: the system's own means are used
    let (u, t) = u.next(&Event::Failure(String::new()));
    assert!(
        matches!(&t.act, Act::Sudo { args } if args[0] == "install" && args[4] == "/home/u/.local/bin/pv")
    );
    let (_, t) = u.next(&ok(""));
    assert_eq!(said(&t), vec!["out ✓ built and installed → /home/u/.local/bin/pv"]);
}

#[test]
fn each_failure_of_an_update_is_named() {
    let bad = |x: &str| Event::Failure(x.to_string());
    let gone = |x: &str| Event::Unstarted(x.to_string());
    let at_download = || start(options()).0.next(&release("v9")).0;
    let (_, t) = at_download().next(&bad("exit status: 22"));
    assert_eq!(said(&t), vec!["warn \n[pv] download failed (exit status: 22)"]);
    let (_, t) = at_download().next(&gone("e"));
    assert_eq!(said(&t), vec!["warn \n[pv] curl: e"]);
    let at_dir = || at_download().next(&ok("")).0.next(&bad("")).0;
    let (_, t) = at_dir().next(&bad("e"));
    assert_eq!(said(&t), vec!["warn \n[pv] create /home/u/.local/bin: e"]);
    let at_test = || at_dir().next(&ok("")).0;
    let (_, t) = at_test().next(&ok("")).0.next(&bad("e"));
    assert_eq!(said(&t), vec!["warn \n[pv] copy: e"]);
    let (_, t) = at_test().next(&ok("")).0.next(&ok("")).0.next(&bad("e"));
    assert_eq!(said(&t), vec!["warn \n[pv] install to /home/u/.local/bin/pv: e"]);
    let (_, t) = at_test().next(&bad("")).0.next(&bad("exit status: 1"));
    assert_eq!(said(&t), vec!["warn \n[pv] sudo install failed (exit status: 1)"]);
    let (_, t) = at_test().next(&bad("")).0.next(&gone("e"));
    assert_eq!(said(&t), vec!["warn \n[pv] sudo: e"]);
    let source = || start(Options { source: true, ..options() }).0;
    let (_, t) = source().next(&bad("e"));
    assert_eq!(said(&t), vec!["warn [pv] cannot read remote version: e"]);
    let at_git = || source().next(&ok("version = \"9\"\n")).0;
    let (_, t) = at_git().next(&gone("e"));
    assert_eq!(said(&t), vec!["warn [pv] `git` is required for --source builds"]);
    let at_clone = || at_git().next(&ok("")).0.next(&ok("")).0;
    let (_, t) = at_clone().next(&bad(""));
    assert_eq!(said(&t), vec!["warn [pv] clone failed"]);
    let (_, t) = at_clone().next(&ok("")).0.next(&bad(""));
    assert_eq!(said(&t), vec!["warn [pv] build failed"]);
    assert!(matches!(t.act, Act::Exit { code: 1 }));
}
