//! Names, paths and writes of the freezer.

use pv::cgroup::{
    available, enable_freezer, group_of, own_cgroup_path, read_frozen, timeout_text,
    unique_cgroup_name, wait_frozen, Error, Freezer, Wait,
};

#[test]
fn unique_name_sanitizes_and_truncates() {
    let pid = 4242;
    assert!(unique_cgroup_name("firefox", pid).starts_with("pv-firefox-"));
    assert!(unique_cgroup_name("Web Content (GPU)", pid).starts_with("pv-Web-Content--GPU--"));
    assert!(unique_cgroup_name("", pid).starts_with("pv-pv-"));
    assert!(unique_cgroup_name(&"a/\\*?".repeat(30), pid).len() <= 60);
}

#[test]
fn read_frozen_parses_events_file() {
    assert_eq!(read_frozen("frozen 1\npopulated 0\n"), Some("1".into()));
    assert_eq!(read_frozen("frozen 0\n"), Some("0".into()));
    assert_eq!(read_frozen("populated 1\n"), None);
}

fn text(s: &str) -> Result<String, String> {
    Ok(s.to_string())
}

#[test]
fn the_own_group_is_on_the_unified_line() {
    let path = |s: &str| own_cgroup_path(&text(s)).ok();
    assert_eq!(path("1:name=x:/a\n0::/user.slice/a\n").as_deref(), Some("/sys/fs/cgroup/user.slice/a"));
    assert_eq!(path("0::/\n").as_deref(), Some("/sys/fs/cgroup"));
    assert_eq!(path("1:cpu:/\n"), None);
    let none = own_cgroup_path(&text("")).err().unwrap().message();
    assert_eq!(none, "cannot read own cgroup: no v2 cgroup line found");
    let gone = own_cgroup_path(&Err("gone".to_string())).err().unwrap().message();
    assert_eq!(gone, "cannot read own cgroup: gone");
    assert!(available(true, true, &text("0::/\n")));
    assert!(!available(false, true, &text("0::/\n")));
    assert!(!available(true, false, &text("0::/\n")));
    assert!(!available(true, true, &text("")));
}

#[test]
fn a_freezer_writes_to_its_own_files() {
    let f = Freezer::new("fire fox", 7, true, true, &text("0::/u\n")).ok().unwrap();
    assert_eq!(f.path(), "/sys/fs/cgroup/u/pv-fire-fox-7");
    let w = f.add_pid(12);
    assert_eq!((w.path.as_str(), w.data.as_str()), ("/sys/fs/cgroup/u/pv-fire-fox-7/cgroup.procs", "12"));
    let w = f.freeze();
    assert_eq!((w.path.as_str(), w.data.as_str()), ("/sys/fs/cgroup/u/pv-fire-fox-7/cgroup.freeze", "1"));
    assert_eq!(f.thaw().data, "0");
    let w = f.kill_all(true).ok().unwrap();
    assert_eq!((w.path.as_str(), w.data.as_str()), ("/sys/fs/cgroup/u/pv-fire-fox-7/cgroup.kill", "1"));
    let back = f.destroy(&Some("/sys/fs/cgroup/u".to_string()), &vec![1, 22]).ok().unwrap();
    let got: Vec<(&str, &str)> = back.iter().map(|w| (w.path.as_str(), w.data.as_str())).collect();
    assert_eq!(
        got,
        vec![("/sys/fs/cgroup/u/cgroup.procs", "1"), ("/sys/fs/cgroup/u/cgroup.procs", "22")]
    );
}

#[test]
fn each_failure_has_its_message() {
    let s = |x: &str| x.to_string();
    let unusable = Freezer::new("k", 1, false, true, &text("0::/\n")).err().unwrap();
    assert_eq!(unusable.message(), "cgroup v2 freezer not available or not delegated");
    assert!(matches!(Freezer::open("/x", false), Err(Error::Unavailable)));
    let f = Freezer::open("/x", true).ok().unwrap();
    assert_eq!(f.kill_all(false).err().unwrap().message(), "kernel lacks cgroup.kill (need 5.14+)");
    assert_eq!(
        f.destroy(&None, &vec![]).err().unwrap().message(),
        "cannot remove cgroup /x: no parent"
    );
    assert_eq!(Error::Create(s("/x"), s("e")).message(), "cannot create cgroup /x: e");
    assert_eq!(Error::AddPid(3, s("/x"), s("e")).message(), "cannot move pid 3 into cgroup /x: e");
    assert_eq!(Error::Freeze(s("/x"), s("e")).message(), "cannot freeze cgroup /x: e");
    assert_eq!(Error::Thaw(s("/x"), s("e")).message(), "cannot thaw cgroup /x: e");
    assert_eq!(Error::Kill(s("/x"), s("e")).message(), "cannot kill cgroup /x: e");
}

#[test]
fn waiting_ends_when_the_state_is_reached_or_time_is_up() {
    let frozen = Some("populated 1\nfrozen 1\n".to_string());
    assert_eq!(wait_frozen(true, &frozen, 5000, 2000), Wait::Reached);
    assert_eq!(wait_frozen(false, &frozen, 1999, 2000), Wait::Again);
    assert_eq!(wait_frozen(false, &frozen, 2000, 2000), Wait::TimedOut);
    assert_eq!(wait_frozen(true, &None, 0, 2000), Wait::Again);
}

#[test]
fn members_are_the_numbers_listed() {
    assert_eq!(Freezer::members("1\n 22 \nx\n-3\n4294967296\n"), vec![1, 22]);
}

#[test]
fn the_parent_hands_the_controller_on() {
    let parent = Some("/sys/fs/cgroup/u".to_string());
    let w = enable_freezer(&parent, true).expect("a control file");
    assert_eq!(
        (w.path.as_str(), w.data.as_str()),
        ("/sys/fs/cgroup/u/cgroup.subtree_control", "+freezer")
    );
    assert!(enable_freezer(&parent, false).is_none());
    assert!(enable_freezer(&None, true).is_none());
}

#[test]
fn a_freeze_settles_or_fails_in_time() {
    let f = Freezer::open("/x", true).ok().unwrap();
    let frozen = Some("frozen 1\n".to_string());
    assert!(matches!(f.settled(true, &frozen, 9000, 2000), Some(Ok(()))));
    assert!(f.settled(false, &frozen, 1999, 2000).is_none());
    let late = f.settled(true, &None, 2000, 2000).expect("time is up").err().expect("not frozen");
    assert!(matches!(late, Error::Freeze(..)));
    assert_eq!(
        late.message(),
        "cannot freeze cgroup /x: cgroup freeze state did not reach frozen=1 in 2s"
    );
    let late = f.settled(false, &frozen, 2000, 2000).expect("time is up").err().expect("frozen");
    assert!(matches!(late, Error::Thaw(..)));
    for ms in [0u64, 5, 999, 1000, 1500, 1050, 1001, 61_000] {
        let lapse = std::time::Duration::from_millis(ms);
        assert_eq!(
            timeout_text(false, ms),
            format!("cgroup freeze state did not reach frozen=0 in {lapse:?}")
        );
    }
}

#[test]
fn errors_name_the_group() {
    let f = Freezer::open("/x", true).ok().unwrap();
    assert_eq!(f.create_failed("e").message(), "cannot create cgroup /x: e");
    assert_eq!(f.add_failed(3, "e").message(), "cannot move pid 3 into cgroup /x: e");
    assert_eq!(f.freeze_failed("e").message(), "cannot freeze cgroup /x: e");
    assert_eq!(f.thaw_failed("e").message(), "cannot thaw cgroup /x: e");
    assert_eq!(f.kill_failed("e").message(), "cannot kill cgroup /x: e");
    assert_eq!(f.destroy_failed("e").message(), "cannot remove cgroup /x: e");
}

#[test]
fn a_process_is_in_the_group_of_its_unified_line() {
    let group = |s: &str| group_of(&Some(s.to_string()));
    assert_eq!(
        group("1:cpu:/a\n0::/user.slice/b\n").as_deref(),
        Some("/sys/fs/cgroup/user.slice/b")
    );
    assert_eq!(group("1:cpu:/a\n"), None);
    assert_eq!(group_of(&None), None);
}
