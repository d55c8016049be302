//! The preflight.

use pv::display::Theme;
use pv::doctor::{candidates, on_path, probes, run, FileKind, Findings};

const PLAIN: Theme = Theme { enabled: false };

#[test]
fn probes_cover_every_required_tool() {
    // required probes must stay aligned with what the transport and the updater use
    let list = probes();
    assert!(list.iter().any(|p| p.tool == "curl" && p.required));
    assert!(list.iter().any(|p| p.tool == "sha256sum" && p.required));
}

#[test]
fn finds_shell_on_path() {
    let places = candidates("sh", &Some("/sbin:/bin".to_string()));
    assert_eq!(places, vec!["/sbin/sh", "/bin/sh"]);
    assert!(on_path(&vec![None, Some(FileKind { is_file: true, mode: 0o100755 })]));
}

#[test]
fn missing_tool_is_absent() {
    let places = candidates("pv-definitely-not-a-real-tool-9f3k", &Some("/bin".to_string()));
    assert_eq!(places, vec!["/bin/pv-definitely-not-a-real-tool-9f3k"]);
    assert!(!on_path(&vec![None]));
}

#[test]
fn only_executable_files_count() {
    assert!(!on_path(&vec![Some(FileKind { is_file: true, mode: 0o644 })]));
    assert!(!on_path(&vec![Some(FileKind { is_file: false, mode: 0o755 })]));
    assert!(on_path(&vec![Some(FileKind { is_file: true, mode: 0o001 })]));
    assert!(candidates("sh", &None).is_empty());
    assert_eq!(candidates("sh", &Some(String::new())), vec!["sh"]);
}

fn findings(tools: &[&str]) -> Findings {
    Findings {
        tools: tools.iter().map(|t| t.to_string()).collect(),
        cgroup: true,
        groq_key: false,
        hosts: false,
        policies: true,
    }
}

#[test]
fn a_missing_required_tool_fails_the_preflight() {
    let (lines, code) = run(&PLAIN, &findings(&["curl", "ssh"]));
    assert_eq!(code, 1);
    assert_eq!(
        lines.last().unwrap(),
        "1 required tool(s) missing — inference and update will fail"
    );
    assert_eq!(lines[2], " curl          ready       core  Groq inference, pv update");
    assert_eq!(lines[3], " sha256sum     required    core  update checksum verification");
    assert_eq!(lines[5], " rsync         missing     opt   pv migrate file copy");
}

#[test]
fn missing_optional_tools_do_not() {
    let (lines, code) = run(&PLAIN, &findings(&["curl", "sha256sum"]));
    assert_eq!(code, 0);
    assert_eq!(
        lines.last().unwrap(),
        "core ready; 9 optional tool(s) missing (features above degrade gracefully)"
    );
    let all: Vec<&str> = probes().iter().map(|p| p.tool).collect();
    let (lines, code) = run(&PLAIN, &findings(&all));
    assert_eq!(code, 0);
    assert_eq!(lines.last().unwrap(), "all systems nominal — valve seated");
    assert!(lines.contains(&" cgroup v2     ready         atomic process-tree freeze/thaw".to_string()));
    assert!(lines.contains(&" hosts.toml    not created   pv migrate targets".to_string()));
    assert!(lines.contains(
        &" groq key      not set       inference ($GROQ_API_KEY or ~/.config/pv/groq_api_key)"
            .to_string()
    ));
}
