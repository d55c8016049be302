//! What a process is up to.

use pv::intent::{classify, classify_cmd, classify_command, find_intent, suspend_confidence, Category, Intent};
use pv::procfs::App;

fn app(key: &str, cmdline: &str, tty: bool) -> App {
    App {
        key: key.to_string(),
        display: key.to_string(),
        pids: vec![5],
        leader: 5,
        rss_kb: 0,
        cpu_pct: 0,
        state: 'S',
        tty,
        has_audio: false,
        cmdline: cmdline.to_string(),
        argv: vec![],
        age_ns: 0,
        kernel: false,
    }
}

#[test]
fn commands_are_classified_by_their_program() {
    let task = |c: &str| classify_command(c).task;
    assert_eq!(task("/usr/bin/Cargo build"), "Build Rust workspace");
    assert_eq!(task("go build"), "Build Go workspace");
    assert_eq!(task("gradle x"), "Build JVM project");
    assert_eq!(task("npm ci"), "JS toolchain task");
    assert_eq!(task("npm run DEV"), "JS dev server");
    assert_eq!(task("vite"), "JS dev server");
    assert_eq!(task("tsc -p ."), "JS bundle / typecheck");
    assert_eq!(task("make"), "Compile project");
    assert_eq!(task("ffmpeg -i a"), "Media encode / transcode");
    assert_eq!(task("python serve_vllm.py"), "LLM inference");
    assert_eq!(task("python3 train.py"), "ML training");
    assert_eq!(task("python -m jupyter"), "Jupyter server");
    assert_eq!(task("ssh host"), "Interactive remote session");
    assert_eq!(task("-bash"), "Interactive shell");
    assert_eq!(task("docker ps"), "Container runtime");
    assert_eq!(task("rsync a b"), "Backup / bulk copy");
    assert_eq!(task("curl x"), "Download");
    assert_eq!(task("postgres"), "Database server");
    assert_eq!(task("code ."), "Editing session");
    assert_eq!(task("apt update"), "Package operation");
    assert_eq!(task("gnome-anything"), "System service");
    assert_eq!(task("kitty"), "Desktop component");
    assert_eq!(task("perl x.pl"), "Script");
    assert_eq!(task("my-own-thing"), "Application");
    assert_eq!(task(""), "Application");
    assert_eq!(task("/"), "Application");
    assert_eq!(task("ungoogled-chromium"), "Web browsing");
}

#[test]
fn hardware_encoders_need_the_gpu() {
    assert!(classify_command("ffmpeg -c:v h264_NVENC").gpu);
    assert!(!classify_command("ffmpeg -c:v libx264").gpu);
}

#[test]
fn protected_work_keeps_running() {
    for c in ["ssh h", "dockerd", "mysqld", "apt x", "systemd", "ollama serve", "foot"] {
        assert!(classify_command(c).never_suspend, "{c}");
    }
    assert!(!classify_command("firefox").never_suspend);
    // a shell or a terminal editor is protected at a terminal only
    assert!(classify_cmd("zsh", "zsh", true).never_suspend);
    assert!(!classify_cmd("zsh", "zsh", false).never_suspend);
    assert!(classify_cmd("vim", "vim", true).never_suspend);
    assert!(!classify_cmd("code", "code", true).never_suspend);
    assert!(!classify_cmd("systemd", "x", false).can_suspend);
}

#[test]
fn leading_marks_are_not_part_of_a_name() {
    assert_eq!(classify(&app("-(firefox", "", false)).category, Category::Browser);
    // letters of any script are
    assert_eq!(classify(&app("éfirefox", "", false)).category, Category::Unknown);
}

#[test]
fn categories_have_names() {
    assert_eq!(Category::Llm.name(), "Llm");
    assert_eq!(Category::Database.name(), "Database");
}

#[test]
fn confidence_adds_up() {
    let mut a = app("firefox", "", false);
    let i = classify(&a);
    assert_eq!(suspend_confidence(&a, &i, 0), 80);
    assert_eq!(suspend_confidence(&a, &i, 601), 95);
    a.cpu_pct = 1_000_000_000;
    assert_eq!(suspend_confidence(&a, &i, 0), 60);
    a.cpu_pct = 20_000_000_001;
    assert_eq!(suspend_confidence(&a, &i, 0), 30);
    a.has_audio = true;
    assert_eq!(suspend_confidence(&a, &i, 0), 10);
    a.tty = true;
    assert_eq!(suspend_confidence(&a, &i, 0), 0);
    let guarded = classify_command("ssh h");
    assert_eq!(suspend_confidence(&a, &guarded, 9999), 0);
}

#[test]
fn the_first_intent_of_a_key_is_found() {
    let list: Vec<(String, Intent)> = vec![
        ("a".to_string(), classify_command("cargo")),
        ("a".to_string(), classify_command("ssh")),
    ];
    assert_eq!(find_intent(&list, "a").unwrap().category, Category::Build);
    assert!(find_intent(&list, "b").is_none());
}
