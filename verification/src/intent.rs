//! Intent recognition: what is a process trying to accomplish, and what
//! lifecycle operations does that intent tolerate?

use vstd::prelude::*;

use crate::fixed::UNIT;
use crate::path::{base_name, base_name_of, the_last_name_is_the_base};
use crate::procfs::App;
use crate::scan::{
    begins, contains, found, holds_text, lemma_found_from, lemma_mentions, mentions, starts_with,
    words, words_of, words_part_at_white_space,
};
use crate::text::{chars_of, is_alnum, is_space, lower, lower_of, owned, same, text_between, texts};

verus! {

#[derive(Debug, Clone, Copy, PartialEq, Eq, Structural)]
pub enum Category {
    Build,
    Browser,
    Editor,
    Encode,
    Llm,
    Shell,
    Container,
    Backup,
    Download,
    Database,
    System,
    Desktop,
    App,
    Unknown,
}

/// The name of a category.
pub open spec fn category_name(c: Category) -> Seq<char> {
    match c {
        Category::Build => "Build"@,
        Category::Browser => "Browser"@,
        Category::Editor => "Editor"@,
        Category::Encode => "Encode"@,
        Category::Llm => "Llm"@,
        Category::Shell => "Shell"@,
        Category::Container => "Container"@,
        Category::Backup => "Backup"@,
        Category::Download => "Download"@,
        Category::Database => "Database"@,
        Category::System => "System"@,
        Category::Desktop => "Desktop"@,
        Category::App => "App"@,
        Category::Unknown => "Unknown"@,
    }
}

/// The lower-case tag of a category, as habits and tables show it.
pub open spec fn category_tag(c: Category) -> Seq<char> {
    match c {
        Category::Build => "build"@,
        Category::Browser => "browser"@,
        Category::Editor => "editor"@,
        Category::Encode => "encode"@,
        Category::Llm => "llm"@,
        Category::Shell => "shell"@,
        Category::Container => "container"@,
        Category::Backup => "backup"@,
        Category::Download => "download"@,
        Category::Database => "database"@,
        Category::System => "system"@,
        Category::Desktop => "desktop"@,
        Category::App => "app"@,
        Category::Unknown => "unknown"@,
    }
}

impl Category {
    pub fn name(self) -> (r: &'static str)
        ensures
            r@ == category_name(self),
    {
        match self {
            Category::Build => "Build",
            Category::Browser => "Browser",
            Category::Editor => "Editor",
            Category::Encode => "Encode",
            Category::Llm => "Llm",
            Category::Shell => "Shell",
            Category::Container => "Container",
            Category::Backup => "Backup",
            Category::Download => "Download",
            Category::Database => "Database",
            Category::System => "System",
            Category::Desktop => "Desktop",
            Category::App => "App",
            Category::Unknown => "Unknown",
        }
    }

    pub fn tag(self) -> (r: &'static str)
        ensures
            r@ == category_tag(self),
    {
        match self {
            Category::Build => "build",
            Category::Browser => "browser",
            Category::Editor => "editor",
            Category::Encode => "encode",
            Category::Llm => "llm",
            Category::Shell => "shell",
            Category::Container => "container",
            Category::Backup => "backup",
            Category::Download => "download",
            Category::Database => "database",
            Category::System => "system",
            Category::Desktop => "desktop",
            Category::App => "app",
            Category::Unknown => "unknown",
        }
    }
}

pub struct Intent {
    pub category: Category,
    /// What the process does, such as "Build Rust workspace".
    pub task: String,
    /// A human is, or may be, driving it.
    pub interactive: bool,
    /// Safe to freeze without corruption.
    pub can_suspend: bool,
    /// Can be killed and restarted without losing much.
    pub can_interrupt: bool,
    /// Restartable on another host.
    pub can_migrate: bool,
    /// Worth running remotely.
    pub remote_friendly: bool,
    pub gpu: bool,
    /// Hard rule: interactive sessions, runtimes.
    pub never_suspend: bool,
    /// One line of context.
    pub detail: String,
}

/// What an intent says, with its texts as sequences.
#[verifier::ext_equal]
pub struct IntentView {
    pub category: Category,
    pub task: Seq<char>,
    pub interactive: bool,
    pub can_suspend: bool,
    pub can_interrupt: bool,
    pub can_migrate: bool,
    pub remote_friendly: bool,
    pub gpu: bool,
    pub never_suspend: bool,
    pub detail: Seq<char>,
}

impl View for Intent {
    type V = IntentView;

    open spec fn view(&self) -> IntentView {
        IntentView {
            category: self.category,
            task: self.task@,
            interactive: self.interactive,
            can_suspend: self.can_suspend,
            can_interrupt: self.can_interrupt,
            can_migrate: self.can_migrate,
            remote_friendly: self.remote_friendly,
            gpu: self.gpu,
            never_suspend: self.never_suspend,
            detail: self.detail@,
        }
    }
}

/// An intent that may be suspended and nothing else.
pub open spec fn base_intent(category: Category, task: Seq<char>) -> IntentView {
    IntentView {
        category,
        task,
        interactive: false,
        can_suspend: true,
        can_interrupt: false,
        can_migrate: false,
        remote_friendly: false,
        gpu: false,
        never_suspend: false,
        detail: Seq::empty(),
    }
}

impl Intent {
    pub fn base(category: Category, task: &str) -> (r: Self)
        ensures
            r@ == base_intent(category, task@),
    {
        Intent {
            category,
            task: owned(task),
            interactive: false,
            can_suspend: true,
            can_interrupt: false,
            can_migrate: false,
            remote_friendly: false,
            gpu: false,
            never_suspend: false,
            detail: String::new(),
        }
    }

    /// An intent that says the same.
    pub fn copy(&self) -> (r: Self)
        ensures
            r@ == self@,
    {
        Intent {
            category: self.category,
            task: self.task.clone(),
            interactive: self.interactive,
            can_suspend: self.can_suspend,
            can_interrupt: self.can_interrupt,
            can_migrate: self.can_migrate,
            remote_friendly: self.remote_friendly,
            gpu: self.gpu,
            never_suspend: self.never_suspend,
            detail: self.detail.clone(),
        }
    }
}

// ------------------------------------------------------------ the catalogue

/// Whether the name is that of the Rust toolchain.
pub open spec fn is_rust_tool(k: Seq<char>) -> bool {
    ||| k == "cargo"@
    ||| k == "rustc"@
    ||| k == "sccache"@
}

fn rust_tool(k: &str) -> (r: bool)
    ensures
        r == is_rust_tool(k@),
{
    same(k, "cargo")
        || same(k, "rustc")
        || same(k, "sccache")
}

/// Whether the name is that of a compiler, build system or JavaScript toolchain.
pub open spec fn is_build_tool(k: Seq<char>) -> bool {
    ||| k == "make"@
    ||| k == "ninja"@
    ||| k == "cmake"@
    ||| k == "gcc"@
    ||| k == "g++"@
    ||| k == "clang"@
    ||| k == "cc"@
    ||| k == "go"@
    ||| k == "javac"@
    ||| k == "mvn"@
    ||| k == "gradle"@
    ||| k == "pnpm"@
    ||| k == "npm"@
    ||| k == "yarn"@
    ||| k == "tsc"@
    ||| k == "webpack"@
    ||| k == "vite"@
    ||| k == "bun"@
}

fn build_tool(k: &str) -> (r: bool)
    ensures
        r == is_build_tool(k@),
{
    same(k, "make")
        || same(k, "ninja")
        || same(k, "cmake")
        || same(k, "gcc")
        || same(k, "g++")
        || same(k, "clang")
        || same(k, "cc")
        || same(k, "go")
        || same(k, "javac")
        || same(k, "mvn")
        || same(k, "gradle")
        || same(k, "pnpm")
        || same(k, "npm")
        || same(k, "yarn")
        || same(k, "tsc")
        || same(k, "webpack")
        || same(k, "vite")
        || same(k, "bun")
}

/// Whether the name is that of a JVM build tool.
pub open spec fn is_jvm_tool(k: Seq<char>) -> bool {
    ||| k == "javac"@
    ||| k == "mvn"@
    ||| k == "gradle"@
}

fn jvm_tool(k: &str) -> (r: bool)
    ensures
        r == is_jvm_tool(k@),
{
    same(k, "javac")
        || same(k, "mvn")
        || same(k, "gradle")
}

/// Whether the name is that of a JavaScript package manager.
pub open spec fn is_js_manager(k: Seq<char>) -> bool {
    ||| k == "npm"@
    ||| k == "yarn"@
    ||| k == "pnpm"@
    ||| k == "bun"@
}

fn js_manager(k: &str) -> (r: bool)
    ensures
        r == is_js_manager(k@),
{
    same(k, "npm")
        || same(k, "yarn")
        || same(k, "pnpm")
        || same(k, "bun")
}

/// Whether the name is that of a JavaScript bundler or type checker.
pub open spec fn is_js_bundler(k: Seq<char>) -> bool {
    ||| k == "vite"@
    ||| k == "webpack"@
    ||| k == "tsc"@
}

fn js_bundler(k: &str) -> (r: bool)
    ensures
        r == is_js_bundler(k@),
{
    same(k, "vite")
        || same(k, "webpack")
        || same(k, "tsc")
}

/// Whether the name is that of a known browser.
pub open spec fn is_browser_name(k: Seq<char>) -> bool {
    ||| k == "firefox"@
    ||| k == "chromium"@
    ||| k == "chrome"@
    ||| k == "google-chrome"@
    ||| k == "brave"@
    ||| k == "brave-browser"@
    ||| k == "vivaldi"@
    ||| k == "opera"@
    ||| k == "librewolf"@
    ||| k == "zen"@
    ||| k == "zen-browser"@
}

fn browser_name(k: &str) -> (r: bool)
    ensures
        r == is_browser_name(k@),
{
    same(k, "firefox")
        || same(k, "chromium")
        || same(k, "chrome")
        || same(k, "google-chrome")
        || same(k, "brave")
        || same(k, "brave-browser")
        || same(k, "vivaldi")
        || same(k, "opera")
        || same(k, "librewolf")
        || same(k, "zen")
        || same(k, "zen-browser")
}

/// Whether the name is that of a media encoder.
pub open spec fn is_encoder(k: Seq<char>) -> bool {
    ||| k == "ffmpeg"@
    ||| k == "handbrake"@
    ||| k == "handbrakecli"@
    ||| k == "x264"@
    ||| k == "x265"@
    ||| k == "avifenc"@
    ||| k == "cwebp"@
    ||| k == "convert"@
    ||| k == "magick"@
}

fn encoder(k: &str) -> (r: bool)
    ensures
        r == is_encoder(k@),
{
    same(k, "ffmpeg")
        || same(k, "handbrake")
        || same(k, "handbrakecli")
        || same(k, "x264")
        || same(k, "x265")
        || same(k, "avifenc")
        || same(k, "cwebp")
        || same(k, "convert")
        || same(k, "magick")
}

/// Whether the name is that of a language model server.
pub open spec fn is_llm_server(k: Seq<char>) -> bool {
    ||| k == "ollama"@
    ||| k == "llama-server"@
    ||| k == "llama.cpp"@
    ||| k == "vllm"@
    ||| k == "text-generation-webui"@
    ||| k == "koboldcpp"@
}

fn llm_server(k: &str) -> (r: bool)
    ensures
        r == is_llm_server(k@),
{
    same(k, "ollama")
        || same(k, "llama-server")
        || same(k, "llama.cpp")
        || same(k, "vllm")
        || same(k, "text-generation-webui")
        || same(k, "koboldcpp")
}

/// Whether the name is that of a client of a remote session.
pub open spec fn is_remote_session(k: Seq<char>) -> bool {
    ||| k == "ssh"@
    ||| k == "mosh"@
    ||| k == "telnet"@
}

fn remote_session(k: &str) -> (r: bool)
    ensures
        r == is_remote_session(k@),
{
    same(k, "ssh")
        || same(k, "mosh")
        || same(k, "telnet")
}

/// Whether the name is that of a shell or terminal multiplexer.
pub open spec fn is_shell(k: Seq<char>) -> bool {
    ||| k == "bash"@
    ||| k == "zsh"@
    ||| k == "fish"@
    ||| k == "sh"@
    ||| k == "tmux"@
    ||| k == "screen"@
    ||| k == "nu"@
    ||| k == "xonsh"@
}

fn shell(k: &str) -> (r: bool)
    ensures
        r == is_shell(k@),
{
    same(k, "bash")
        || same(k, "zsh")
        || same(k, "fish")
        || same(k, "sh")
        || same(k, "tmux")
        || same(k, "screen")
        || same(k, "nu")
        || same(k, "xonsh")
}

/// Whether the name is that of a container runtime.
pub open spec fn is_container_runtime(k: Seq<char>) -> bool {
    ||| k == "docker"@
    ||| k == "dockerd"@
    ||| k == "containerd"@
    ||| k == "podman"@
    ||| k == "buildkitd"@
    ||| k == "runc"@
    ||| k == "kubelet"@
}

fn container_runtime(k: &str) -> (r: bool)
    ensures
        r == is_container_runtime(k@),
{
    same(k, "docker")
        || same(k, "dockerd")
        || same(k, "containerd")
        || same(k, "podman")
        || same(k, "buildkitd")
        || same(k, "runc")
        || same(k, "kubelet")
}

/// Whether the name is that of a backup or bulk copy tool.
pub open spec fn is_copier(k: Seq<char>) -> bool {
    ||| k == "rsync"@
    ||| k == "restic"@
    ||| k == "borg"@
    ||| k == "rclone"@
    ||| k == "duplicity"@
    ||| k == "tar"@
    ||| k == "cp"@
    ||| k == "mv"@
    ||| k == "dd"@
}

fn copier(k: &str) -> (r: bool)
    ensures
        r == is_copier(k@),
{
    same(k, "rsync")
        || same(k, "restic")
        || same(k, "borg")
        || same(k, "rclone")
        || same(k, "duplicity")
        || same(k, "tar")
        || same(k, "cp")
        || same(k, "mv")
        || same(k, "dd")
}

/// Whether the name is that of a download tool.
pub open spec fn is_downloader(k: Seq<char>) -> bool {
    ||| k == "curl"@
    ||| k == "wget"@
    ||| k == "aria2c"@
    ||| k == "yt-dlp"@
    ||| k == "torrent"@
    ||| k == "transmission"@
}

fn downloader(k: &str) -> (r: bool)
    ensures
        r == is_downloader(k@),
{
    same(k, "curl")
        || same(k, "wget")
        || same(k, "aria2c")
        || same(k, "yt-dlp")
        || same(k, "torrent")
        || same(k, "transmission")
}

/// Whether the name is that of a database server.
pub open spec fn is_database(k: Seq<char>) -> bool {
    ||| k == "postgres"@
    ||| k == "postmaster"@
    ||| k == "mysqld"@
    ||| k == "mariadbd"@
    ||| k == "redis-server"@
    ||| k == "mongod"@
    ||| k == "clickhouse-server"@
}

fn database(k: &str) -> (r: bool)
    ensures
        r == is_database(k@),
{
    same(k, "postgres")
        || same(k, "postmaster")
        || same(k, "mysqld")
        || same(k, "mariadbd")
        || same(k, "redis-server")
        || same(k, "mongod")
        || same(k, "clickhouse-server")
}

/// Whether the name is that of an editor.
pub open spec fn is_editor(k: Seq<char>) -> bool {
    ||| k == "code"@
    ||| k == "codium"@
    ||| k == "nvim"@
    ||| k == "vim"@
    ||| k == "emacs"@
    ||| k == "sublime_text"@
    ||| k == "zed"@
    ||| k == "helix"@
    ||| k == "hx"@
    ||| k == "kate"@
    ||| k == "gedit"@
}

fn editor(k: &str) -> (r: bool)
    ensures
        r == is_editor(k@),
{
    same(k, "code")
        || same(k, "codium")
        || same(k, "nvim")
        || same(k, "vim")
        || same(k, "emacs")
        || same(k, "sublime_text")
        || same(k, "zed")
        || same(k, "helix")
        || same(k, "hx")
        || same(k, "kate")
        || same(k, "gedit")
}

/// Whether the name is that of an editor that lives in a terminal.
pub open spec fn is_terminal_editor(k: Seq<char>) -> bool {
    ||| k == "nvim"@
    ||| k == "vim"@
    ||| k == "emacs"@
    ||| k == "hx"@
    ||| k == "helix"@
}

fn terminal_editor(k: &str) -> (r: bool)
    ensures
        r == is_terminal_editor(k@),
{
    same(k, "nvim")
        || same(k, "vim")
        || same(k, "emacs")
        || same(k, "hx")
        || same(k, "helix")
}

/// Whether the name is that of a package manager.
pub open spec fn is_package_tool(k: Seq<char>) -> bool {
    ||| k == "apt"@
    ||| k == "apt-get"@
    ||| k == "dpkg"@
    ||| k == "dnf"@
    ||| k == "yum"@
    ||| k == "pacman"@
    ||| k == "zypper"@
    ||| k == "nix"@
    ||| k == "snap"@
    ||| k == "flatpak"@
}

fn package_tool(k: &str) -> (r: bool)
    ensures
        r == is_package_tool(k@),
{
    same(k, "apt")
        || same(k, "apt-get")
        || same(k, "dpkg")
        || same(k, "dnf")
        || same(k, "yum")
        || same(k, "pacman")
        || same(k, "zypper")
        || same(k, "nix")
        || same(k, "snap")
        || same(k, "flatpak")
}

/// Whether the name is that of a known system service.
pub open spec fn is_system_service(k: Seq<char>) -> bool {
    ||| k == "systemd"@
    ||| k == "init"@
    ||| k == "sshd"@
    ||| k == "dbus-daemon"@
    ||| k == "kwin"@
    ||| k == "kwin_wayland"@
    ||| k == "mutter"@
    ||| k == "gnome-shell"@
    ||| k == "plasmashell"@
    ||| k == "sway"@
    ||| k == "wayfire"@
    ||| k == "xorg"@
    ||| k == "xwayland"@
    ||| k == "pipewire"@
    ||| k == "wireplumber"@
    ||| k == "pulseaudio"@
    ||| k == "networkmanager"@
    ||| k == "cupsd"@
    ||| k == "polkitd"@
    ||| k == "upowerd"@
    ||| k == "xdg-desktop-portal"@
    ||| k == "sddm"@
    ||| k == "gdm"@
    ||| k == "login"@
    ||| k == "tailscaled"@
    ||| k == "cloudflared"@
    ||| k == "coredns"@
    ||| k == "resolved"@
    ||| k == "systemd-resolved"@
    ||| k == "chronyd"@
    ||| k == "ntpd"@
    ||| k == "fwupd"@
    ||| k == "udisksd"@
    ||| k == "accounts-daemon"@
    ||| k == "rtkit-daemon"@
}

fn system_service(k: &str) -> (r: bool)
    ensures
        r == is_system_service(k@),
{
    same(k, "systemd")
        || same(k, "init")
        || same(k, "sshd")
        || same(k, "dbus-daemon")
        || same(k, "kwin")
        || same(k, "kwin_wayland")
        || same(k, "mutter")
        || same(k, "gnome-shell")
        || same(k, "plasmashell")
        || same(k, "sway")
        || same(k, "wayfire")
        || same(k, "xorg")
        || same(k, "xwayland")
        || same(k, "pipewire")
        || same(k, "wireplumber")
        || same(k, "pulseaudio")
        || same(k, "networkmanager")
        || same(k, "cupsd")
        || same(k, "polkitd")
        || same(k, "upowerd")
        || same(k, "xdg-desktop-portal")
        || same(k, "sddm")
        || same(k, "gdm")
        || same(k, "login")
        || same(k, "tailscaled")
        || same(k, "cloudflared")
        || same(k, "coredns")
        || same(k, "resolved")
        || same(k, "systemd-resolved")
        || same(k, "chronyd")
        || same(k, "ntpd")
        || same(k, "fwupd")
        || same(k, "udisksd")
        || same(k, "accounts-daemon")
        || same(k, "rtkit-daemon")
}

/// Whether the name is that of a file manager or terminal.
pub open spec fn is_desktop_component(k: Seq<char>) -> bool {
    ||| k == "dolphin"@
    ||| k == "nautilus"@
    ||| k == "thunar"@
    ||| k == "konsole"@
    ||| k == "gnome-terminal"@
    ||| k == "alacritty"@
    ||| k == "kitty"@
    ||| k == "wezterm"@
    ||| k == "foot"@
    ||| k == "yakuake"@
}

fn desktop_component(k: &str) -> (r: bool)
    ensures
        r == is_desktop_component(k@),
{
    same(k, "dolphin")
        || same(k, "nautilus")
        || same(k, "thunar")
        || same(k, "konsole")
        || same(k, "gnome-terminal")
        || same(k, "alacritty")
        || same(k, "kitty")
        || same(k, "wezterm")
        || same(k, "foot")
        || same(k, "yakuake")
}

/// Whether the name is that of a script interpreter.
pub open spec fn is_interpreter(k: Seq<char>) -> bool {
    ||| k == "python"@
    ||| k == "python3"@
    ||| k == "node"@
    ||| k == "deno"@
    ||| k == "ruby"@
    ||| k == "perl"@
}

fn interpreter(k: &str) -> (r: bool)
    ensures
        r == is_interpreter(k@),
{
    same(k, "python")
        || same(k, "python3")
        || same(k, "node")
        || same(k, "deno")
        || same(k, "ruby")
        || same(k, "perl")
}

/// Whether the name is that of a system service, by itself or by its prefix.
pub open spec fn is_plumbing(k: Seq<char>) -> bool {
    ||| is_system_service(k)
    ||| begins(k, "cosmic-"@)
    ||| begins(k, "plasma-"@)
    ||| begins(k, "gnome-"@)
    ||| begins(k, "xfce4-"@)
    ||| begins(k, "systemd-"@)
}

fn plumbing(k: &str) -> (r: bool)
    ensures
        r == is_plumbing(k@),
{
    system_service(k) || starts_with(k, "cosmic-") || starts_with(k, "plasma-") || starts_with(
        k,
        "gnome-",
    ) || starts_with(k, "xfce4-") || starts_with(k, "systemd-")
}

// ------------------------------------------------------------ classification

/// The name without whatever stands before its first letter or number.
pub open spec fn core_name(s: Seq<char>) -> Seq<char>
    decreases s.len(),
{
    if s.len() > 0 && !is_alnum(s[0]) {
        core_name(s.drop_first())
    } else {
        s
    }
}

fn bare_name(s: &str) -> (r: String)
    ensures
        r@ == core_name(s@),
{
    let v: Vec<char> = chars_of(s);
    let mut i: usize = 0;
    assert(v@.skip(0) =~= v@);
    while i < v.len() && !v[i].is_alphanumeric()
        invariant
            i <= v@.len(),
            v@ == s@,
            core_name(s@) == core_name(v@.skip(i as int)),
        decreases v@.len() - i,
    {
        assert(v@.skip(i as int).drop_first() =~= v@.skip(i + 1));
        i = i + 1;
    }
    let r: String = text_between(&v, i, v.len());
    assert(r@ =~= v@.skip(i as int));
    r
}

pub open spec fn names_rust_build(k: Seq<char>, cl: Seq<char>) -> bool {
    is_rust_tool(k) || (holds_text(cl, "cargo "@) && (k == "rustup"@ || k == "cargo"@))
}

pub open spec fn names_dev_server(k: Seq<char>, cl: Seq<char>) -> bool {
    k == "vite"@ || (k == "npm"@ && (holds_text(cl, " dev"@) || holds_text(cl, " start"@)))
}

pub open spec fn names_browser(k: Seq<char>) -> bool {
    is_browser_name(k) || holds_text(k, "chrom"@)
}

pub open spec fn names_llm(k: Seq<char>, cl: Seq<char>) -> bool {
    ||| is_llm_server(k)
    ||| holds_text(cl, "llama"@)
    ||| (k == "python"@ || k == "python3"@) && (holds_text(cl, "vllm"@) || holds_text(
        cl,
        "transformers"@,
    ))
}

/// What a build tool other than the Rust toolchain is doing.
pub open spec fn build_task(k: Seq<char>) -> Seq<char> {
    if k == "go"@ {
        "Build Go workspace"@
    } else if is_jvm_tool(k) {
        "Build JVM project"@
    } else if is_js_manager(k) {
        "JS toolchain task"@
    } else if is_js_bundler(k) {
        "JS bundle / typecheck"@
    } else {
        "Compile project"@
    }
}

/// The intent of a build tool other than the Rust toolchain.
pub open spec fn build_intent(k: Seq<char>, cl: Seq<char>) -> IntentView {
    if names_dev_server(k, cl) {
        IntentView {
            can_interrupt: true,
            interactive: true,
            ..base_intent(Category::Build, "JS dev server"@)
        }
    } else {
        IntentView {
            can_interrupt: true,
            can_migrate: true,
            remote_friendly: true,
            ..base_intent(Category::Build, build_task(k))
        }
    }
}

/// The intent of a script.
pub open spec fn script_intent(cl: Seq<char>, tty: bool) -> IntentView {
    if holds_text(cl, "jupyter"@) {
        IntentView {
            never_suspend: true,
            interactive: tty,
            ..base_intent(Category::App, "Jupyter server"@)
        }
    } else if holds_text(cl, "train"@) || holds_text(cl, "torch"@) {
        IntentView {
            gpu: true,
            can_migrate: true,
            remote_friendly: true,
            interactive: tty,
            ..base_intent(Category::App, "ML training"@)
        }
    } else {
        IntentView { interactive: tty, ..base_intent(Category::App, "Script"@) }
    }
}

/// The intent of a process whose bare name is `k` and whose lower-cased
/// command line is `cl`: the first group of the catalogue that it falls in.
pub open spec fn intent_of(k: Seq<char>, cl: Seq<char>, tty: bool) -> IntentView {
    if names_rust_build(k, cl) {
        IntentView {
            can_interrupt: true,
            can_migrate: true,
            remote_friendly: true,
            detail: "survives interruption; incremental artifacts persist"@,
            ..base_intent(Category::Build, "Build Rust workspace"@)
        }
    } else if is_build_tool(k) {
        build_intent(k, cl)
    } else if names_browser(k) {
        IntentView {
            interactive: true,
            detail: "safe to suspend when idle; tabs restore on resume"@,
            ..base_intent(Category::Browser, "Web browsing"@)
        }
    } else if is_encoder(k) {
        IntentView {
            can_interrupt: true,
            can_migrate: true,
            remote_friendly: true,
            gpu: holds_text(cl, "nvenc"@) || holds_text(cl, "vaapi"@) || holds_text(cl, "qsv"@),
            detail: "restartable; strong remote/GPU candidate"@,
            ..base_intent(Category::Encode, "Media encode / transcode"@)
        }
    } else if names_llm(k, cl) {
        IntentView {
            gpu: true,
            never_suspend: true,
            detail: "reserve VRAM; suspension breaks in-flight requests"@,
            ..base_intent(Category::Llm, "LLM inference"@)
        }
    } else if is_remote_session(k) {
        IntentView {
            interactive: true,
            never_suspend: true,
            detail: "never suspend: live session"@,
            ..base_intent(Category::Shell, "Interactive remote session"@)
        }
    } else if is_shell(k) {
        IntentView {
            interactive: tty,
            never_suspend: tty,
            ..base_intent(Category::Shell, "Interactive shell"@)
        }
    } else if is_container_runtime(k) {
        IntentView {
            never_suspend: true,
            detail: "runtime: freezing breaks containers"@,
            ..base_intent(Category::Container, "Container runtime"@)
        }
    } else if is_copier(k) {
        IntentView {
            can_interrupt: true,
            can_migrate: k == "rsync"@ || k == "rclone"@,
            detail: "throttleable; restartable"@,
            ..base_intent(Category::Backup, "Backup / bulk copy"@)
        }
    } else if is_downloader(k) {
        IntentView {
            can_interrupt: true,
            detail: "pausable; resumable"@,
            ..base_intent(Category::Download, "Download"@)
        }
    } else if is_database(k) {
        IntentView {
            never_suspend: true,
            detail: "service: never suspend"@,
            ..base_intent(Category::Database, "Database server"@)
        }
    } else if is_editor(k) {
        IntentView {
            interactive: true,
            never_suspend: tty && is_terminal_editor(k),
            detail: "user state lives here"@,
            ..base_intent(Category::Editor, "Editing session"@)
        }
    } else if is_package_tool(k) {
        IntentView {
            never_suspend: true,
            detail: "interrupting mid-transaction can corrupt package state"@,
            ..base_intent(Category::App, "Package operation"@)
        }
    } else if is_plumbing(k) {
        IntentView {
            never_suspend: true,
            can_suspend: false,
            ..base_intent(Category::System, "System service"@)
        }
    } else if is_desktop_component(k) {
        IntentView {
            interactive: true,
            never_suspend: true,
            ..base_intent(Category::Desktop, "Desktop component"@)
        }
    } else if is_interpreter(k) {
        script_intent(cl, tty)
    } else {
        IntentView { interactive: tty, ..base_intent(Category::Unknown, "Application"@) }
    }
}

/// The intent of a process by its executable name and command line.
pub open spec fn classified(key: Seq<char>, cmd: Seq<char>, tty: bool) -> IntentView {
    intent_of(core_name(key), lower_of(cmd), tty)
}

fn build_tool_intent(k: &str, cl: &str) -> (r: Intent)
    ensures
        r@ == build_intent(k@, cl@),
{
    let task: &str = if same(k, "go") {
        "Build Go workspace"
    } else if jvm_tool(k) {
        "Build JVM project"
    } else if js_manager(k) {
        "JS toolchain task"
    } else if js_bundler(k) {
        "JS bundle / typecheck"
    } else {
        "Compile project"
    };
    let mut i: Intent = Intent::base(Category::Build, task);
    i.can_interrupt = true;
    i.can_migrate = true;
    i.remote_friendly = true;
    if same(k, "vite") || (same(k, "npm") && (contains(cl, " dev") || contains(cl, " start"))) {
        i.task = owned("JS dev server");
        i.interactive = true;
        i.can_migrate = false;
        i.remote_friendly = false;
    }
    i
}

fn script(cl: &str, tty: bool) -> (r: Intent)
    ensures
        r@ == script_intent(cl@, tty),
{
    let mut i: Intent = Intent::base(Category::App, "Script");
    if contains(cl, "jupyter") {
        i.task = owned("Jupyter server");
        i.never_suspend = true;
    } else if contains(cl, "train") || contains(cl, "torch") {
        i.task = owned("ML training");
        i.gpu = true;
        i.can_migrate = true;
        i.remote_friendly = true;
    }
    i.interactive = tty;
    i
}

pub fn classify_cmd(key: &str, cmd: &str, tty: bool) -> (r: Intent)
    ensures
        r@ == classified(key@, cmd@, tty),
{
    let name: String = bare_name(key);
    let k: &str = name.as_str();
    let low: String = lower(cmd);
    let cl: &str = low.as_str();

    if rust_tool(k) || (contains(cl, "cargo ") && (same(k, "rustup") || same(k, "cargo"))) {
        let mut i: Intent = Intent::base(Category::Build, "Build Rust workspace");
        i.can_interrupt = true;
        i.can_migrate = true;
        i.remote_friendly = true;
        i.detail = owned("survives interruption; incremental artifacts persist");
        return i;
    }
    if build_tool(k) {
        return build_tool_intent(k, cl);
    }
    if browser_name(k) || contains(k, "chrom") {
        let mut i: Intent = Intent::base(Category::Browser, "Web browsing");
        i.interactive = true;
        i.detail = owned("safe to suspend when idle; tabs restore on resume");
        return i;
    }
    if encoder(k) {
        let mut i: Intent = Intent::base(Category::Encode, "Media encode / transcode");
        i.can_interrupt = true;
        i.can_migrate = true;
        i.remote_friendly = true;
        i.gpu = contains(cl, "nvenc") || contains(cl, "vaapi") || contains(cl, "qsv");
        i.detail = owned("restartable; strong remote/GPU candidate");
        return i;
    }
    if llm_server(k) || contains(cl, "llama") || ((same(k, "python") || same(k, "python3")) && (
    contains(cl, "vllm") || contains(cl, "transformers"))) {
        let mut i: Intent = Intent::base(Category::Llm, "LLM inference");
        i.gpu = true;
        i.never_suspend = true;
        i.detail = owned("reserve VRAM; suspension breaks in-flight requests");
        return i;
    }
    if remote_session(k) {
        let mut i: Intent = Intent::base(Category::Shell, "Interactive remote session");
        i.interactive = true;
        i.never_suspend = true;
        i.detail = owned("never suspend: live session");
        return i;
    }
    if shell(k) {
        let mut i: Intent = Intent::base(Category::Shell, "Interactive shell");
        i.interactive = tty;
        i.never_suspend = tty;
        return i;
    }
    if container_runtime(k) {
        let mut i: Intent = Intent::base(Category::Container, "Container runtime");
        i.never_suspend = true;
        i.detail = owned("runtime: freezing breaks containers");
        return i;
    }
    if copier(k) {
        let mut i: Intent = Intent::base(Category::Backup, "Backup / bulk copy");
        i.can_interrupt = true;
        i.can_migrate = same(k, "rsync") || same(k, "rclone");
        i.detail = owned("throttleable; restartable");
        return i;
    }
    if downloader(k) {
        let mut i: Intent = Intent::base(Category::Download, "Download");
        i.can_interrupt = true;
        i.detail = owned("pausable; resumable");
        return i;
    }
    if database(k) {
        let mut i: Intent = Intent::base(Category::Database, "Database server");
        i.never_suspend = true;
        i.detail = owned("service: never suspend");
        return i;
    }
    if editor(k) {
        let mut i: Intent = Intent::base(Category::Editor, "Editing session");
        i.interactive = true;
        i.never_suspend = tty && terminal_editor(k);
        i.detail = owned("user state lives here");
        return i;
    }
    if package_tool(k) {
        let mut i: Intent = Intent::base(Category::App, "Package operation");
        i.never_suspend = true;
        i.detail = owned("interrupting mid-transaction can corrupt package state");
        return i;
    }
    if plumbing(k) {
        let mut i: Intent = Intent::base(Category::System, "System service");
        i.never_suspend = true;
        i.can_suspend = false;
        return i;
    }
    if desktop_component(k) {
        // terminals hold shells
        let mut i: Intent = Intent::base(Category::Desktop, "Desktop component");
        i.interactive = true;
        i.never_suspend = true;
        return i;
    }
    if interpreter(k) {
        return script(cl, tty);
    }
    let mut i: Intent = Intent::base(Category::Unknown, "Application");
    i.interactive = tty;
    i
}

/// Classify an app by its key, representative command line and terminal.
pub fn classify(app: &App) -> (r: Intent)
    ensures
        r@ == classified(app.key@, app.cmdline@, app.tty),
{
    classify_cmd(app.key.as_str(), app.cmdline.as_str(), app.tty)
}

/// The key that a bare command line is classified under: the lower-cased
/// file name of its first word, or nothing where it has none.
pub open spec fn command_key(cmdline: Seq<char>) -> Seq<char> {
    if words_of(cmdline).len() == 0 {
        Seq::empty()
    } else {
        match base_name_of(words_of(cmdline)[0]) {
            Some(n) => lower_of(n),
            None => Seq::empty(),
        }
    }
}

/// Classify an arbitrary command line, taken to own a terminal.
pub fn classify_command(cmdline: &str) -> (r: Intent)
    ensures
        r@ == classified(command_key(cmdline@), cmdline@, true),
{
    let w: Vec<String> = words(cmdline);
    let key: String = if w.len() == 0 {
        String::new()
    } else {
        assert(texts(w@)[0] == w@[0]@);
        match base_name(w[0].as_str()) {
            Some(n) => lower(n.as_str()),
            None => String::new(),
        }
    };
    assert(texts(w@).len() == w@.len());
    assert(key@ =~= command_key(cmdline@));
    classify_cmd(key.as_str(), cmdline, true)
}

// ------------------------------------------------------------ intents by key

/// The position of the first intent that is listed under a key.
pub open spec fn intent_index(intents: Seq<(String, Intent)>, key: Seq<char>) -> Option<int>
    decreases intents.len(),
{
    if intents.len() == 0 {
        None
    } else {
        match intent_index(intents.drop_last(), key) {
            Some(i) => Some(i),
            None => if intents.last().0@ == key {
                Some(intents.len() - 1)
            } else {
                None
            },
        }
    }
}

/// The first intent that is listed under a key.
pub open spec fn intent_for(intents: Seq<(String, Intent)>, key: Seq<char>) -> Option<IntentView> {
    match intent_index(intents, key) {
        Some(i) => Some(intents[i].1@),
        None => None,
    }
}

pub proof fn lemma_intent_index(intents: Seq<(String, Intent)>, key: Seq<char>)
    ensures
        intent_index(intents, key) matches Some(i) ==> 0 <= i < intents.len() && intents[i].0@
            == key && forall|j: int| 0 <= j < i ==> (#[trigger] intents[j]).0@ != key,
        intent_index(intents, key) is None ==> forall|j: int|
            0 <= j < intents.len() ==> (#[trigger] intents[j]).0@ != key,
    decreases intents.len(),
{
    if intents.len() > 0 {
        lemma_intent_index(intents.drop_last(), key);
        assert forall|j: int| 0 <= j < intents.len() - 1 implies intents.drop_last()[j]
            == #[trigger] intents[j] by {}
    }
}

/// The first intent that is listed under a key.
pub fn find_intent<'a>(intents: &'a Vec<(String, Intent)>, key: &str) -> (r: Option<&'a Intent>)
    ensures
        r is Some <==> intent_for(intents@, key@) is Some,
        r matches Some(i) ==> intent_for(intents@, key@) == Some(i@),
{
    let mut i: usize = 0;
    while i < intents.len()
        invariant
            i <= intents.len(),
            forall|j: int| 0 <= j < i ==> (#[trigger] intents@[j]).0@ != key@,
        decreases intents.len() - i,
    {
        if same(intents[i].0.as_str(), key) {
            proof {
                lemma_intent_index(intents@, key@);
            }
            return Some(&intents[i].1);
        }
        i = i + 1;
    }
    proof {
        lemma_intent_index(intents@, key@);
    }
    None
}

// ------------------------------------------------------------ suspend confidence

/// The truncated difference of two naturals.
pub open spec fn less(a: nat, b: nat) -> nat {
    if a >= b {
        (a - b) as nat
    } else {
        0
    }
}

/// How safe it is to suspend the app, from 0 to 98: half, then moved by its
/// load, its sound, its idle time, its being a browser and its terminal.
pub open spec fn confidence(app: App, intent: IntentView, idle_secs: nat) -> nat {
    if intent.never_suspend || !intent.can_suspend {
        0
    } else {
        let by_load = if app.cpu_pct < UNIT {
            70
        } else if app.cpu_pct > 20 * UNIT {
            20
        } else {
            50nat
        };
        let by_sound = if app.has_audio {
            less(by_load, 40)
        } else {
            by_load
        };
        let by_idle = if idle_secs > 600 {
            by_sound + 15
        } else {
            by_sound
        };
        let by_kind = if intent.category == Category::Browser {
            by_idle + 10
        } else {
            by_idle
        };
        let by_tty = if app.tty {
            less(by_kind, 25)
        } else {
            by_kind
        };
        if by_tty > 98 {
            98
        } else {
            by_tty
        }
    }
}

/// Suspend-safety verdict with a 0..100 confidence, for display.
pub fn suspend_confidence(app: &App, intent: &Intent, idle_secs: u64) -> (r: u8)
    ensures
        r == confidence(*app, intent@, idle_secs as nat),
        r <= 98,
{
    if intent.never_suspend || !intent.can_suspend {
        return 0;
    }
    let mut c: u32 = 50;
    if app.cpu_pct < UNIT {
        c = c + 20;
    } else if app.cpu_pct > 20 * UNIT {
        c = c - 30;
    }
    if app.has_audio {
        c = if c >= 40 { c - 40 } else { 0 };
    }
    if idle_secs > 600 {
        c = c + 15;
    }
    if intent.category == Category::Browser {
        c = c + 10;
    }
    if app.tty {
        c = if c >= 25 { c - 25 } else { 0 };
    }
    if c > 98 {
        98
    } else {
        c as u8
    }
}

// ------------------------------------------------------------ laws

/// The names whose work is never frozen: remote sessions, container
/// runtimes, databases and package operations.
pub open spec fn is_protected(k: Seq<char>) -> bool {
    is_remote_session(k) || is_container_runtime(k) || is_database(k) || is_package_tool(k)
}

/// A name that holds the text "chrom" has a `c` with an `h` and later an `m`
/// behind it.
proof fn lemma_chrom(k: Seq<char>)
    requires
        holds_text(k, "chrom"@),
    ensures
        exists|i: int|
            0 <= i && i + 5 <= k.len() && #[trigger] k[i] == 'c' && k[i + 1] == 'h' && k[i + 4]
                == 'm',
{
    reveal_strlit("chrom");
    lemma_found_from(k, "chrom"@, 0);
    let i = found(k, "chrom"@)->0;
    assert(k.subrange(i, i + 5)[0] == 'c');
    assert(k.subrange(i, i + 5)[1] == 'h');
    assert(k.subrange(i, i + 5)[4] == 'm');
    assert(k[i] == 'c' && k[i + 1] == 'h' && k[i + 4] == 'm');
}

/// No protected name and no editor is that of a tool of another group.
proof fn lemma_protected_is_apart(k: Seq<char>)
    requires
        is_protected(k) || is_editor(k),
    ensures
        !is_rust_tool(k),
        !is_build_tool(k),
        !names_browser(k),
        !is_encoder(k),
        !is_shell(k),
        !is_copier(k),
        !is_downloader(k),
        k != "rustup"@,
        k != "cargo"@,
{
    reveal_strlit("cargo");
    reveal_strlit("rustc");
    reveal_strlit("sccache");
    reveal_strlit("make");
    reveal_strlit("ninja");
    reveal_strlit("cmake");
    reveal_strlit("gcc");
    reveal_strlit("g++");
    reveal_strlit("clang");
    reveal_strlit("cc");
    reveal_strlit("go");
    reveal_strlit("javac");
    reveal_strlit("mvn");
    reveal_strlit("gradle");
    reveal_strlit("pnpm");
    reveal_strlit("npm");
    reveal_strlit("yarn");
    reveal_strlit("tsc");
    reveal_strlit("webpack");
    reveal_strlit("vite");
    reveal_strlit("bun");
    reveal_strlit("firefox");
    reveal_strlit("chromium");
    reveal_strlit("chrome");
    reveal_strlit("google-chrome");
    reveal_strlit("brave");
    reveal_strlit("brave-browser");
    reveal_strlit("vivaldi");
    reveal_strlit("opera");
    reveal_strlit("librewolf");
    reveal_strlit("zen");
    reveal_strlit("zen-browser");
    reveal_strlit("ffmpeg");
    reveal_strlit("handbrake");
    reveal_strlit("handbrakecli");
    reveal_strlit("x264");
    reveal_strlit("x265");
    reveal_strlit("avifenc");
    reveal_strlit("cwebp");
    reveal_strlit("convert");
    reveal_strlit("magick");
    reveal_strlit("ollama");
    reveal_strlit("llama-server");
    reveal_strlit("llama.cpp");
    reveal_strlit("vllm");
    reveal_strlit("text-generation-webui");
    reveal_strlit("koboldcpp");
    reveal_strlit("ssh");
    reveal_strlit("mosh");
    reveal_strlit("telnet");
    reveal_strlit("bash");
    reveal_strlit("zsh");
    reveal_strlit("fish");
    reveal_strlit("sh");
    reveal_strlit("tmux");
    reveal_strlit("screen");
    reveal_strlit("nu");
    reveal_strlit("xonsh");
    reveal_strlit("docker");
    reveal_strlit("dockerd");
    reveal_strlit("containerd");
    reveal_strlit("podman");
    reveal_strlit("buildkitd");
    reveal_strlit("runc");
    reveal_strlit("kubelet");
    reveal_strlit("rsync");
    reveal_strlit("restic");
    reveal_strlit("borg");
    reveal_strlit("rclone");
    reveal_strlit("duplicity");
    reveal_strlit("tar");
    reveal_strlit("cp");
    reveal_strlit("mv");
    reveal_strlit("dd");
    reveal_strlit("curl");
    reveal_strlit("wget");
    reveal_strlit("aria2c");
    reveal_strlit("yt-dlp");
    reveal_strlit("torrent");
    reveal_strlit("transmission");
    reveal_strlit("postgres");
    reveal_strlit("postmaster");
    reveal_strlit("mysqld");
    reveal_strlit("mariadbd");
    reveal_strlit("redis-server");
    reveal_strlit("mongod");
    reveal_strlit("clickhouse-server");
    reveal_strlit("code");
    reveal_strlit("codium");
    reveal_strlit("nvim");
    reveal_strlit("vim");
    reveal_strlit("emacs");
    reveal_strlit("sublime_text");
    reveal_strlit("zed");
    reveal_strlit("helix");
    reveal_strlit("hx");
    reveal_strlit("kate");
    reveal_strlit("gedit");
    reveal_strlit("apt");
    reveal_strlit("apt-get");
    reveal_strlit("dpkg");
    reveal_strlit("dnf");
    reveal_strlit("yum");
    reveal_strlit("pacman");
    reveal_strlit("zypper");
    reveal_strlit("nix");
    reveal_strlit("snap");
    reveal_strlit("flatpak");
    reveal_strlit("rustup");
    let look = (k.len(), k[0], k[1], k[2], k[3], k[4], k[5]);
    if holds_text(k, "chrom"@) {
        lemma_chrom(k);
    }
}

/// Protected work is never suspended: whatever its command line and its
/// terminal, a process under a protected name has an intent that forbids
/// suspension, and no confidence that suspending it is safe.
pub proof fn protected_work_is_never_suspended(
    key: Seq<char>,
    cmd: Seq<char>,
    tty: bool,
    app: App,
    idle_secs: nat,
)
    requires
        is_protected(core_name(key)),
    ensures
        classified(key, cmd, tty).never_suspend,
        confidence(app, classified(key, cmd, tty), idle_secs) == 0,
{
    let k = core_name(key);
    let look = (k.len(), k[0], k[1], k[2]);
    lemma_protected_is_apart(k);
    reveal_strlit("code");
    reveal_strlit("codium");
    reveal_strlit("nvim");
    reveal_strlit("vim");
    reveal_strlit("emacs");
    reveal_strlit("sublime_text");
    reveal_strlit("zed");
    reveal_strlit("helix");
    reveal_strlit("hx");
    reveal_strlit("kate");
    reveal_strlit("gedit");
    reveal_strlit("apt");
    reveal_strlit("apt-get");
    reveal_strlit("dpkg");
    reveal_strlit("dnf");
    reveal_strlit("yum");
    reveal_strlit("pacman");
    reveal_strlit("zypper");
    reveal_strlit("nix");
    reveal_strlit("snap");
    reveal_strlit("flatpak");
}

/// A database, an editor, a remote session, a container runtime and a package
/// operation stay where they are: their intents never allow a migration.
pub proof fn anchored_work_never_migrates(key: Seq<char>, cmd: Seq<char>, tty: bool)
    requires
        is_protected(core_name(key)) || is_editor(core_name(key)),
    ensures
        !classified(key, cmd, tty).can_migrate,
{
    lemma_protected_is_apart(core_name(key));
}

/// Whatever may be frozen has an intent that allows it: the confidence is
/// positive only for an intent that can be suspended and is not protected.
pub proof fn confidence_respects_the_intent(app: App, intent: IntentView, idle_secs: nat)
    ensures
        confidence(app, intent, idle_secs) <= 98,
        confidence(app, intent, idle_secs) > 0 ==> intent.can_suspend && !intent.never_suspend,
{
}

/// What is recognised as a browser may be suspended.
pub proof fn browsers_may_be_suspended(key: Seq<char>, cmd: Seq<char>, tty: bool)
    ensures
        classified(key, cmd, tty).category == Category::Browser ==> classified(
            key,
            cmd,
            tty,
        ).can_suspend && !classified(key, cmd, tty).never_suspend,
{
}

// ------------------------------------------------------------ laws of the catalogue

/// Whether a text has neither letters nor numbers, so that it counts for nothing
/// before a name.
pub open spec fn unlettered(s: Seq<char>) -> bool {
    forall|i: int| 0 <= i < s.len() ==> !is_alnum(#[trigger] s[i])
}

proof fn lemma_core_name(lead: Seq<char>, name: Seq<char>)
    requires
        unlettered(lead),
        name.len() > 0,
        is_alnum(name[0]),
    ensures
        core_name(lead + name) == name,
    decreases lead.len(),
{
    let all = lead + name;
    if lead.len() == 0 {
        assert(all =~= name);
    } else {
        assert(all[0] == lead[0]);
        assert(all.drop_first() =~= lead.drop_first() + name);
        assert forall|i: int| 0 <= i < lead.drop_first().len() implies !is_alnum(
            #[trigger] lead.drop_first()[i],
        ) by {
            assert(lead.drop_first()[i] == lead[i + 1]);
        }
        lemma_core_name(lead.drop_first(), name);
    }
}

proof fn lemma_begins(k: Seq<char>, p: Seq<char>)
    requires
        begins(k, p),
        p.len() >= 2,
    ensures
        k.len() >= 2,
        k[0] == p[0],
        k[1] == p[1],
{
    assert(k.take(p.len() as int)[0] == p[0]);
    assert(k.take(p.len() as int)[1] == p[1]);
}

/// A name of the catalogue stands in one group alone: in none of those that are
/// looked at before its own.
#[verifier::rlimit(100)]
#[verifier::spinoff_prover]
proof fn lemma_names_apart(k: Seq<char>)
    ensures
        is_rust_tool(k) ==> k.len() > 0 && is_alnum(k[0]) && k != "python"@ && k != "python3"@,
        is_build_tool(k) ==> !is_rust_tool(k) && k.len() > 0 && is_alnum(k[0]) && k != "rustup"@
            && k != "python"@ && k != "python3"@,
        is_browser_name(k) ==> !is_rust_tool(k) && !is_build_tool(k) && k.len() > 0
            && is_alnum(k[0]) && k != "rustup"@ && k != "python"@ && k != "python3"@,
        is_encoder(k) ==> !is_rust_tool(k) && !is_build_tool(k) && !names_browser(k)
            && k.len() > 0 && is_alnum(k[0]) && k != "rustup"@ && k != "python"@
            && k != "python3"@,
        is_llm_server(k) ==> !is_rust_tool(k) && !is_build_tool(k) && !names_browser(k)
            && !is_encoder(k) && k.len() > 0 && is_alnum(k[0]) && k != "rustup"@ && k != "python"@
            && k != "python3"@,
        is_remote_session(k) ==> !is_rust_tool(k) && !is_build_tool(k) && !names_browser(k)
            && !is_encoder(k) && !is_llm_server(k) && k.len() > 0 && is_alnum(k[0])
            && k != "rustup"@ && k != "python"@ && k != "python3"@,
        is_shell(k) ==> !is_rust_tool(k) && !is_build_tool(k) && !names_browser(k)
            && !is_encoder(k) && !is_llm_server(k) && !is_remote_session(k) && k.len() > 0
            && is_alnum(k[0]) && k != "rustup"@ && k != "python"@ && k != "python3"@,
        is_container_runtime(k) ==> !is_rust_tool(k) && !is_build_tool(k) && !names_browser(k)
            && !is_encoder(k) && !is_llm_server(k) && !is_remote_session(k) && !is_shell(k)
            && k.len() > 0 && is_alnum(k[0]) && k != "rustup"@ && k != "python"@
            && k != "python3"@,
        is_copier(k) ==> !is_rust_tool(k) && !is_build_tool(k) && !names_browser(k)
            && !is_encoder(k) && !is_llm_server(k) && !is_remote_session(k) && !is_shell(k)
            && !is_container_runtime(k) && k.len() > 0 && is_alnum(k[0]) && k != "rustup"@
            && k != "python"@ && k != "python3"@,
        is_downloader(k) ==> !is_rust_tool(k) && !is_build_tool(k) && !names_browser(k)
            && !is_encoder(k) && !is_llm_server(k) && !is_remote_session(k) && !is_shell(k)
            && !is_container_runtime(k) && !is_copier(k) && k.len() > 0 && is_alnum(k[0])
            && k != "rustup"@ && k != "python"@ && k != "python3"@,
        is_database(k) ==> !is_rust_tool(k) && !is_build_tool(k) && !names_browser(k)
            && !is_encoder(k) && !is_llm_server(k) && !is_remote_session(k) && !is_shell(k)
            && !is_container_runtime(k) && !is_copier(k) && !is_downloader(k) && k.len() > 0
            && is_alnum(k[0]) && k != "rustup"@ && k != "python"@ && k != "python3"@,
        is_editor(k) ==> !is_rust_tool(k) && !is_build_tool(k) && !names_browser(k)
            && !is_encoder(k) && !is_llm_server(k) && !is_remote_session(k) && !is_shell(k)
            && !is_container_runtime(k) && !is_copier(k) && !is_downloader(k) && !is_database(k)
            && k.len() > 0 && is_alnum(k[0]) && k != "rustup"@ && k != "python"@
            && k != "python3"@,
        is_package_tool(k) ==> !is_rust_tool(k) && !is_build_tool(k) && !names_browser(k)
            && !is_encoder(k) && !is_llm_server(k) && !is_remote_session(k) && !is_shell(k)
            && !is_container_runtime(k) && !is_copier(k) && !is_downloader(k) && !is_database(k)
            && !is_editor(k) && k.len() > 0 && is_alnum(k[0]) && k != "rustup"@ && k != "python"@
            && k != "python3"@,
        is_system_service(k) ==> !is_rust_tool(k) && !is_build_tool(k) && !names_browser(k)
            && !is_encoder(k) && !is_llm_server(k) && !is_remote_session(k) && !is_shell(k)
            && !is_container_runtime(k) && !is_copier(k) && !is_downloader(k) && !is_database(k)
            && !is_editor(k) && !is_package_tool(k) && k.len() > 0 && is_alnum(k[0])
            && k != "rustup"@ && k != "python"@ && k != "python3"@,
        is_desktop_component(k) && k != "gnome-terminal"@ ==> !is_rust_tool(k)
            && !is_build_tool(k) && !names_browser(k) && !is_encoder(k) && !is_llm_server(k)
            && !is_remote_session(k) && !is_shell(k) && !is_container_runtime(k) && !is_copier(k)
            && !is_downloader(k) && !is_database(k) && !is_editor(k) && !is_package_tool(k)
            && !is_plumbing(k) && k.len() > 0 && is_alnum(k[0]) && k != "rustup"@
            && k != "python"@ && k != "python3"@,
        is_interpreter(k) ==> !is_rust_tool(k) && !is_build_tool(k) && !names_browser(k)
            && !is_encoder(k) && !is_llm_server(k) && !is_remote_session(k) && !is_shell(k)
            && !is_container_runtime(k) && !is_copier(k) && !is_downloader(k) && !is_database(k)
            && !is_editor(k) && !is_package_tool(k) && !is_plumbing(k) && !is_desktop_component(k)
            && k.len() > 0 && is_alnum(k[0]) && k != "rustup"@,
        k == "gnome-terminal"@ ==> is_plumbing(k) && k.len() > 0 && is_alnum(k[0])
            && !is_rust_tool(k)
            && !is_build_tool(k) && !names_browser(k) && !is_encoder(k) && !is_llm_server(k)
            && !is_remote_session(k) && !is_shell(k) && !is_container_runtime(k) && !is_copier(k)
            && !is_downloader(k) && !is_database(k) && !is_editor(k) && !is_package_tool(k) && k
            != "rustup"@ && k != "python"@ && k != "python3"@,
        k == "rustup"@ ==> k.len() > 0 && is_alnum(k[0]),
{
    reveal_strlit("cargo");
    reveal_strlit("rustc");
    reveal_strlit("sccache");
    reveal_strlit("make");
    reveal_strlit("ninja");
    reveal_strlit("cmake");
    reveal_strlit("gcc");
    reveal_strlit("g++");
    reveal_strlit("clang");
    reveal_strlit("cc");
    reveal_strlit("go");
    reveal_strlit("javac");
    reveal_strlit("mvn");
    reveal_strlit("gradle");
    reveal_strlit("pnpm");
    reveal_strlit("npm");
    reveal_strlit("yarn");
    reveal_strlit("tsc");
    reveal_strlit("webpack");
    reveal_strlit("vite");
    reveal_strlit("bun");
    reveal_strlit("firefox");
    reveal_strlit("chromium");
    reveal_strlit("chrome");
    reveal_strlit("google-chrome");
    reveal_strlit("brave");
    reveal_strlit("brave-browser");
    reveal_strlit("vivaldi");
    reveal_strlit("opera");
    reveal_strlit("librewolf");
    reveal_strlit("zen");
    reveal_strlit("zen-browser");
    reveal_strlit("ffmpeg");
    reveal_strlit("handbrake");
    reveal_strlit("handbrakecli");
    reveal_strlit("x264");
    reveal_strlit("x265");
    reveal_strlit("avifenc");
    reveal_strlit("cwebp");
    reveal_strlit("convert");
    reveal_strlit("magick");
    reveal_strlit("ollama");
    reveal_strlit("llama-server");
    reveal_strlit("llama.cpp");
    reveal_strlit("vllm");
    reveal_strlit("text-generation-webui");
    reveal_strlit("koboldcpp");
    reveal_strlit("ssh");
    reveal_strlit("mosh");
    reveal_strlit("telnet");
    reveal_strlit("bash");
    reveal_strlit("zsh");
    reveal_strlit("fish");
    reveal_strlit("sh");
    reveal_strlit("tmux");
    reveal_strlit("screen");
    reveal_strlit("nu");
    reveal_strlit("xonsh");
    reveal_strlit("docker");
    reveal_strlit("dockerd");
    reveal_strlit("containerd");
    reveal_strlit("podman");
    reveal_strlit("buildkitd");
    reveal_strlit("runc");
    reveal_strlit("kubelet");
    reveal_strlit("rsync");
    reveal_strlit("restic");
    reveal_strlit("borg");
    reveal_strlit("rclone");
    reveal_strlit("duplicity");
    reveal_strlit("tar");
    reveal_strlit("cp");
    reveal_strlit("mv");
    reveal_strlit("dd");
    reveal_strlit("curl");
    reveal_strlit("wget");
    reveal_strlit("aria2c");
    reveal_strlit("yt-dlp");
    reveal_strlit("torrent");
    reveal_strlit("transmission");
    reveal_strlit("postgres");
    reveal_strlit("postmaster");
    reveal_strlit("mysqld");
    reveal_strlit("mariadbd");
    reveal_strlit("redis-server");
    reveal_strlit("mongod");
    reveal_strlit("clickhouse-server");
    reveal_strlit("code");
    reveal_strlit("codium");
    reveal_strlit("nvim");
    reveal_strlit("vim");
    reveal_strlit("emacs");
    reveal_strlit("sublime_text");
    reveal_strlit("zed");
    reveal_strlit("helix");
    reveal_strlit("hx");
    reveal_strlit("kate");
    reveal_strlit("gedit");
    reveal_strlit("apt");
    reveal_strlit("apt-get");
    reveal_strlit("dpkg");
    reveal_strlit("dnf");
    reveal_strlit("yum");
    reveal_strlit("pacman");
    reveal_strlit("zypper");
    reveal_strlit("nix");
    reveal_strlit("snap");
    reveal_strlit("flatpak");
    reveal_strlit("systemd");
    reveal_strlit("init");
    reveal_strlit("sshd");
    reveal_strlit("dbus-daemon");
    reveal_strlit("kwin");
    reveal_strlit("kwin_wayland");
    reveal_strlit("mutter");
    reveal_strlit("gnome-shell");
    reveal_strlit("plasmashell");
    reveal_strlit("sway");
    reveal_strlit("wayfire");
    reveal_strlit("xorg");
    reveal_strlit("xwayland");
    reveal_strlit("pipewire");
    reveal_strlit("wireplumber");
    reveal_strlit("pulseaudio");
    reveal_strlit("networkmanager");
    reveal_strlit("cupsd");
    reveal_strlit("polkitd");
    reveal_strlit("upowerd");
    reveal_strlit("xdg-desktop-portal");
    reveal_strlit("sddm");
    reveal_strlit("gdm");
    reveal_strlit("login");
    reveal_strlit("tailscaled");
    reveal_strlit("cloudflared");
    reveal_strlit("coredns");
    reveal_strlit("resolved");
    reveal_strlit("systemd-resolved");
    reveal_strlit("chronyd");
    reveal_strlit("ntpd");
    reveal_strlit("fwupd");
    reveal_strlit("udisksd");
    reveal_strlit("accounts-daemon");
    reveal_strlit("rtkit-daemon");
    reveal_strlit("dolphin");
    reveal_strlit("nautilus");
    reveal_strlit("thunar");
    reveal_strlit("konsole");
    reveal_strlit("gnome-terminal");
    reveal_strlit("alacritty");
    reveal_strlit("kitty");
    reveal_strlit("wezterm");
    reveal_strlit("foot");
    reveal_strlit("yakuake");
    reveal_strlit("python");
    reveal_strlit("python3");
    reveal_strlit("node");
    reveal_strlit("deno");
    reveal_strlit("ruby");
    reveal_strlit("perl");
    reveal_strlit("rustup");
    reveal_strlit("cosmic-");
    reveal_strlit("plasma-");
    reveal_strlit("gnome-");
    reveal_strlit("xfce4-");
    reveal_strlit("systemd-");
    let look = (k.len(), k[0], k[1], k[2], k[3], k[4], k[5], k[6], k[7]);
    if holds_text(k, "chrom"@) {
        lemma_chrom(k);
    }
    if begins(k, "cosmic-"@) {
        lemma_begins(k, "cosmic-"@);
    }
    if begins(k, "plasma-"@) {
        lemma_begins(k, "plasma-"@);
    }
    if begins(k, "gnome-"@) {
        lemma_begins(k, "gnome-"@);
    }
    if begins(k, "xfce4-"@) {
        lemma_begins(k, "xfce4-"@);
    }
    if begins(k, "systemd-"@) {
        lemma_begins(k, "systemd-"@);
    }
    if k == "gnome-terminal"@ {
        assert(k.take(6) =~= "gnome-"@);
    }
}

/// The Rust toolchain builds, and its work can be interrupted and moved.
pub proof fn rust_tools_build(
    lead: Seq<char>,
    name: Seq<char>,
    cmd: Seq<char>,
    tty: bool,
)
    requires
        unlettered(lead),
        name == "cargo"@ || name == "rustc"@ || name == "sccache"@,
    ensures
        ({
            let i = classified(lead + name, cmd, tty);
            &&& i.category == Category::Build
            &&& i.task == "Build Rust workspace"@
            &&& i.can_suspend && i.can_interrupt && i.can_migrate && i.remote_friendly
            &&& !i.never_suspend && !i.interactive && !i.gpu
        }),
{
    lemma_names_apart(name);
    lemma_core_name(lead, name);
}

/// Compilers, build systems and JavaScript tools build. Their work can be
/// interrupted and moved, but for a development server, which someone uses.
pub proof fn build_tools_build(
    lead: Seq<char>,
    name: Seq<char>,
    cmd: Seq<char>,
    tty: bool,
)
    requires
        unlettered(lead),
        name == "make"@ || name == "ninja"@ || name == "cmake"@ || name == "gcc"@
            || name == "g++"@ || name == "clang"@ || name == "cc"@ || name == "go"@
            || name == "javac"@ || name == "mvn"@ || name == "gradle"@ || name == "pnpm"@
            || name == "npm"@ || name == "yarn"@ || name == "tsc"@ || name == "webpack"@
            || name == "vite"@ || name == "bun"@,
    ensures
        ({
            let i = classified(lead + name, cmd, tty);
            &&& i.category == Category::Build
            &&& i.can_suspend && i.can_interrupt && !i.never_suspend && !i.gpu
            &&& ({
                let serves = name == "vite"@ || name == "npm"@ && (mentions(
                    lower_of(cmd),
                    " dev"@,
                ) || mentions(lower_of(cmd), " start"@));
                &&& i.interactive == serves
                &&& i.can_migrate == !serves
                &&& i.remote_friendly == !serves
                &&& serves ==> i.task == "JS dev server"@
                &&& !serves ==> i.task == (if name == "go"@ {
                    "Build Go workspace"@
                } else if name == "javac"@ || name == "mvn"@ || name == "gradle"@ {
                    "Build JVM project"@
                } else if name == "npm"@ || name == "yarn"@ || name == "pnpm"@ || name == "bun"@ {
                    "JS toolchain task"@
                } else if name == "webpack"@ || name == "tsc"@ {
                    "JS bundle / typecheck"@
                } else {
                    "Compile project"@
                })
            })
        }),
{
    lemma_names_apart(name);
    lemma_core_name(lead, name);
    lemma_mentions(lower_of(cmd), " dev"@);
    lemma_mentions(lower_of(cmd), " start"@);
}

/// Browsers may be suspended, and someone uses them.
pub proof fn browsers_browse(
    lead: Seq<char>,
    name: Seq<char>,
    cmd: Seq<char>,
    tty: bool,
)
    requires
        unlettered(lead),
        name == "firefox"@ || name == "chromium"@ || name == "chrome"@
            || name == "google-chrome"@ || name == "brave"@ || name == "brave-browser"@
            || name == "vivaldi"@ || name == "opera"@ || name == "librewolf"@ || name == "zen"@
            || name == "zen-browser"@,
    ensures
        ({
            let i = classified(lead + name, cmd, tty);
            &&& i.category == Category::Browser
            &&& i.task == "Web browsing"@
            &&& i.interactive && i.can_suspend && !i.never_suspend
            &&& !i.can_interrupt && !i.can_migrate && !i.remote_friendly && !i.gpu
        }),
{
    lemma_names_apart(name);
    lemma_core_name(lead, name);
}

/// Encoders can be interrupted and moved, and use the GPU where their command
/// line names one of its encoders.
pub proof fn encoders_encode(
    lead: Seq<char>,
    name: Seq<char>,
    cmd: Seq<char>,
    tty: bool,
)
    requires
        unlettered(lead),
        name == "ffmpeg"@ || name == "handbrake"@ || name == "handbrakecli"@ || name == "x264"@
            || name == "x265"@ || name == "avifenc"@ || name == "cwebp"@ || name == "convert"@
            || name == "magick"@,
    ensures
        ({
            let i = classified(lead + name, cmd, tty);
            &&& i.category == Category::Encode
            &&& i.task == "Media encode / transcode"@
            &&& i.can_suspend && i.can_interrupt && i.can_migrate && i.remote_friendly
            &&& !i.never_suspend && !i.interactive
            &&& i.gpu == (mentions(lower_of(cmd), "nvenc"@) || mentions(lower_of(cmd), "vaapi"@) || mentions(
                lower_of(cmd),
                "qsv"@,
            ))
        }),
{
    lemma_names_apart(name);
    lemma_core_name(lead, name);
    lemma_mentions(lower_of(cmd), "nvenc"@);
    lemma_mentions(lower_of(cmd), "vaapi"@);
    lemma_mentions(lower_of(cmd), "qsv"@);
}

/// Servers of language models are never suspended.
pub proof fn model_servers_infer(
    lead: Seq<char>,
    name: Seq<char>,
    cmd: Seq<char>,
    tty: bool,
)
    requires
        unlettered(lead),
        name == "ollama"@ || name == "llama-server"@ || name == "llama.cpp"@ || name == "vllm"@
            || name == "text-generation-webui"@ || name == "koboldcpp"@,
    ensures
        ({
            let i = classified(lead + name, cmd, tty);
            &&& i.category == Category::Llm
            &&& i.task == "LLM inference"@
            &&& i.never_suspend && i.gpu && i.can_suspend
            &&& !i.can_interrupt && !i.can_migrate && !i.remote_friendly && !i.interactive
        }),
{
    lemma_names_apart(name);
    lemma_core_name(lead, name);
}

/// Remote sessions are never suspended.
pub proof fn remote_sessions_are_live(
    lead: Seq<char>,
    name: Seq<char>,
    cmd: Seq<char>,
    tty: bool,
)
    requires
        unlettered(lead),
        name == "ssh"@ || name == "mosh"@ || name == "telnet"@,
        !mentions(lower_of(cmd), "llama"@),
    ensures
        ({
            let i = classified(lead + name, cmd, tty);
            &&& i.category == Category::Shell
            &&& i.task == "Interactive remote session"@
            &&& i.never_suspend && i.interactive && i.can_suspend
            &&& !i.can_interrupt && !i.can_migrate && !i.remote_friendly && !i.gpu
        }),
{
    lemma_names_apart(name);
    lemma_core_name(lead, name);
    lemma_mentions(lower_of(cmd), "llama"@);
}

/// Shells and multiplexers are never suspended while they have a terminal.
pub proof fn shells_on_a_terminal_stay(
    lead: Seq<char>,
    name: Seq<char>,
    cmd: Seq<char>,
    tty: bool,
)
    requires
        unlettered(lead),
        name == "bash"@ || name == "zsh"@ || name == "fish"@ || name == "sh"@ || name == "tmux"@
            || name == "screen"@ || name == "nu"@ || name == "xonsh"@,
        !mentions(lower_of(cmd), "llama"@),
    ensures
        ({
            let i = classified(lead + name, cmd, tty);
            &&& i.category == Category::Shell
            &&& i.task == "Interactive shell"@
            &&& i.never_suspend == tty && i.interactive == tty && i.can_suspend
            &&& !i.can_interrupt && !i.can_migrate && !i.remote_friendly && !i.gpu
        }),
{
    lemma_names_apart(name);
    lemma_core_name(lead, name);
    lemma_mentions(lower_of(cmd), "llama"@);
}

/// Container runtimes are never suspended.
pub proof fn container_runtimes_stay(
    lead: Seq<char>,
    name: Seq<char>,
    cmd: Seq<char>,
    tty: bool,
)
    requires
        unlettered(lead),
        name == "docker"@ || name == "dockerd"@ || name == "containerd"@ || name == "podman"@
            || name == "buildkitd"@ || name == "runc"@ || name == "kubelet"@,
        !mentions(lower_of(cmd), "llama"@),
    ensures
        ({
            let i = classified(lead + name, cmd, tty);
            &&& i.category == Category::Container
            &&& i.task == "Container runtime"@
            &&& i.never_suspend && i.can_suspend
            &&& !i.can_interrupt && !i.can_migrate && !i.remote_friendly && !i.interactive && !i.gpu
        }),
{
    lemma_names_apart(name);
    lemma_core_name(lead, name);
    lemma_mentions(lower_of(cmd), "llama"@);
}

/// Backups and copies can be interrupted, and those over the network moved.
pub proof fn copies_can_be_interrupted(
    lead: Seq<char>,
    name: Seq<char>,
    cmd: Seq<char>,
    tty: bool,
)
    requires
        unlettered(lead),
        name == "rsync"@ || name == "restic"@ || name == "borg"@ || name == "rclone"@
            || name == "duplicity"@ || name == "tar"@ || name == "cp"@ || name == "mv"@
            || name == "dd"@,
        !mentions(lower_of(cmd), "llama"@),
    ensures
        ({
            let i = classified(lead + name, cmd, tty);
            &&& i.category == Category::Backup
            &&& i.task == "Backup / bulk copy"@
            &&& i.can_suspend && i.can_interrupt && !i.never_suspend
            &&& i.can_migrate == (name == "rsync"@ || name == "rclone"@)
            &&& !i.remote_friendly && !i.interactive && !i.gpu
        }),
{
    lemma_names_apart(name);
    lemma_core_name(lead, name);
    lemma_mentions(lower_of(cmd), "llama"@);
}

/// Downloads can be interrupted and stay where they are.
pub proof fn downloads_can_be_interrupted(
    lead: Seq<char>,
    name: Seq<char>,
    cmd: Seq<char>,
    tty: bool,
)
    requires
        unlettered(lead),
        name == "curl"@ || name == "wget"@ || name == "aria2c"@ || name == "yt-dlp"@
            || name == "torrent"@ || name == "transmission"@,
        !mentions(lower_of(cmd), "llama"@),
    ensures
        ({
            let i = classified(lead + name, cmd, tty);
            &&& i.category == Category::Download
            &&& i.task == "Download"@
            &&& i.can_suspend && i.can_interrupt && !i.never_suspend
            &&& !i.can_migrate && !i.remote_friendly && !i.interactive && !i.gpu
        }),
{
    lemma_names_apart(name);
    lemma_core_name(lead, name);
    lemma_mentions(lower_of(cmd), "llama"@);
}

/// Database servers are never suspended, whatever their command line and their
/// terminal.
pub proof fn databases_are_never_suspended(
    lead: Seq<char>,
    name: Seq<char>,
    cmd: Seq<char>,
    tty: bool,
)
    requires
        unlettered(lead),
        name == "postgres"@ || name == "postmaster"@ || name == "mysqld"@ || name == "mariadbd"@
            || name == "redis-server"@ || name == "mongod"@ || name == "clickhouse-server"@,
        !mentions(lower_of(cmd), "llama"@),
    ensures
        ({
            let i = classified(lead + name, cmd, tty);
            &&& i.category == Category::Database
            &&& i.task == "Database server"@
            &&& i.never_suspend && i.can_suspend
            &&& !i.can_interrupt && !i.can_migrate && !i.remote_friendly && !i.interactive && !i.gpu
        }),
{
    lemma_names_apart(name);
    lemma_core_name(lead, name);
    lemma_mentions(lower_of(cmd), "llama"@);
}

/// Editors are used, and those that live in a terminal are never suspended
/// while they have one.
pub proof fn editors_hold_what_is_typed(
    lead: Seq<char>,
    name: Seq<char>,
    cmd: Seq<char>,
    tty: bool,
)
    requires
        unlettered(lead),
        name == "code"@ || name == "codium"@ || name == "nvim"@ || name == "vim"@
            || name == "emacs"@ || name == "sublime_text"@ || name == "zed"@ || name == "helix"@
            || name == "hx"@ || name == "kate"@ || name == "gedit"@,
        !mentions(lower_of(cmd), "llama"@),
    ensures
        ({
            let i = classified(lead + name, cmd, tty);
            &&& i.category == Category::Editor
            &&& i.task == "Editing session"@
            &&& i.interactive && i.can_suspend
            &&& i.never_suspend == (tty && (name == "nvim"@ || name == "vim"@ || name == "emacs"@ || name
                == "hx"@ || name == "helix"@))
            &&& !i.can_interrupt && !i.can_migrate && !i.remote_friendly && !i.gpu
        }),
{
    lemma_names_apart(name);
    lemma_core_name(lead, name);
    lemma_mentions(lower_of(cmd), "llama"@);
}

/// Package operations are never suspended.
pub proof fn package_operations_are_never_suspended(
    lead: Seq<char>,
    name: Seq<char>,
    cmd: Seq<char>,
    tty: bool,
)
    requires
        unlettered(lead),
        name == "apt"@ || name == "apt-get"@ || name == "dpkg"@ || name == "dnf"@
            || name == "yum"@ || name == "pacman"@ || name == "zypper"@ || name == "nix"@
            || name == "snap"@ || name == "flatpak"@,
        !mentions(lower_of(cmd), "llama"@),
    ensures
        ({
            let i = classified(lead + name, cmd, tty);
            &&& i.category == Category::App
            &&& i.task == "Package operation"@
            &&& i.never_suspend && i.can_suspend
            &&& !i.can_interrupt && !i.can_migrate && !i.remote_friendly && !i.interactive && !i.gpu
        }),
{
    lemma_names_apart(name);
    lemma_core_name(lead, name);
    lemma_mentions(lower_of(cmd), "llama"@);
}

/// System services are never suspended, and are not fit to be.
pub proof fn system_services_are_never_suspended(
    lead: Seq<char>,
    name: Seq<char>,
    cmd: Seq<char>,
    tty: bool,
)
    requires
        unlettered(lead),
        name == "systemd"@ || name == "init"@ || name == "sshd"@ || name == "dbus-daemon"@
            || name == "kwin"@ || name == "kwin_wayland"@ || name == "mutter"@
            || name == "gnome-shell"@ || name == "plasmashell"@ || name == "sway"@
            || name == "wayfire"@ || name == "xorg"@ || name == "xwayland"@
            || name == "pipewire"@ || name == "wireplumber"@ || name == "pulseaudio"@
            || name == "networkmanager"@ || name == "cupsd"@ || name == "polkitd"@
            || name == "upowerd"@ || name == "xdg-desktop-portal"@ || name == "sddm"@
            || name == "gdm"@ || name == "login"@ || name == "tailscaled"@
            || name == "cloudflared"@ || name == "coredns"@ || name == "resolved"@
            || name == "systemd-resolved"@ || name == "chronyd"@ || name == "ntpd"@
            || name == "fwupd"@ || name == "udisksd"@ || name == "accounts-daemon"@
            || name == "rtkit-daemon"@ || name == "gnome-terminal"@,
        !mentions(lower_of(cmd), "llama"@),
    ensures
        ({
            let i = classified(lead + name, cmd, tty);
            &&& i.category == Category::System
            &&& i.task == "System service"@
            &&& i.never_suspend && !i.can_suspend
            &&& !i.can_interrupt && !i.can_migrate && !i.remote_friendly && !i.interactive && !i.gpu
        }),
{
    lemma_names_apart(name);
    lemma_core_name(lead, name);
    lemma_mentions(lower_of(cmd), "llama"@);
}

/// File managers and terminals are never suspended.
pub proof fn desktop_components_are_never_suspended(
    lead: Seq<char>,
    name: Seq<char>,
    cmd: Seq<char>,
    tty: bool,
)
    requires
        unlettered(lead),
        name == "dolphin"@ || name == "nautilus"@ || name == "thunar"@ || name == "konsole"@
            || name == "alacritty"@ || name == "kitty"@ || name == "wezterm"@ || name == "foot"@
            || name == "yakuake"@,
        !mentions(lower_of(cmd), "llama"@),
    ensures
        ({
            let i = classified(lead + name, cmd, tty);
            &&& i.category == Category::Desktop
            &&& i.task == "Desktop component"@
            &&& i.never_suspend && i.interactive && i.can_suspend
            &&& !i.can_interrupt && !i.can_migrate && !i.remote_friendly && !i.gpu
        }),
{
    reveal_strlit("dolphin");
    reveal_strlit("nautilus");
    reveal_strlit("thunar");
    reveal_strlit("konsole");
    reveal_strlit("gnome-terminal");
    reveal_strlit("alacritty");
    reveal_strlit("kitty");
    reveal_strlit("wezterm");
    reveal_strlit("foot");
    reveal_strlit("yakuake");
    let look = name[0];
    lemma_names_apart(name);
    lemma_core_name(lead, name);
    lemma_mentions(lower_of(cmd), "llama"@);
}

/// Scripts are told apart by their command line: notebooks are never suspended,
/// training can be moved and uses the GPU, and of the rest nothing is known.
pub proof fn scripts_are_told_by_their_command(
    lead: Seq<char>,
    name: Seq<char>,
    cmd: Seq<char>,
    tty: bool,
)
    requires
        unlettered(lead),
        name == "python"@ || name == "python3"@ || name == "node"@ || name == "deno"@
            || name == "ruby"@ || name == "perl"@,
        !mentions(lower_of(cmd), "llama"@),
        name == "python"@ || name == "python3"@ ==> !mentions(lower_of(cmd), "vllm"@) && !mentions(
            lower_of(cmd),
            "transformers"@,
        ),
    ensures
        ({
            let i = classified(lead + name, cmd, tty);
            &&& i.interactive == tty && i.can_suspend && !i.can_interrupt
            &&& i.category == Category::App
            &&& ({
                let notebook = mentions(lower_of(cmd), "jupyter"@);
                let trains = mentions(lower_of(cmd), "train"@) || mentions(
                    lower_of(cmd),
                    "torch"@,
                );
                &&& i.never_suspend == notebook
                &&& i.gpu == (trains && !notebook)
                &&& i.can_migrate == (trains && !notebook)
                &&& i.remote_friendly == (trains && !notebook)
                &&& i.task == (if notebook {
                    "Jupyter server"@
                } else if trains {
                    "ML training"@
                } else {
                    "Script"@
                })
            })
        }),
{
    lemma_names_apart(name);
    lemma_core_name(lead, name);
    lemma_mentions(lower_of(cmd), "llama"@);
    lemma_mentions(lower_of(cmd), "vllm"@);
    lemma_mentions(lower_of(cmd), "transformers"@);
    lemma_mentions(lower_of(cmd), "jupyter"@);
    lemma_mentions(lower_of(cmd), "train"@);
    lemma_mentions(lower_of(cmd), "torch"@);
}

/// What mentions a llama, and Python that runs a model server, infers: it is
/// never suspended, unless its name is that of a build tool, a browser or an
/// encoder.
pub proof fn inference_is_told_by_its_command(key: Seq<char>, cmd: Seq<char>, tty: bool)
    requires
        mentions(lower_of(cmd), "llama"@) || (core_name(key) == "python"@ || core_name(key)
            == "python3"@) && (mentions(lower_of(cmd), "vllm"@) || mentions(
            lower_of(cmd),
            "transformers"@,
        )),
    ensures
        ({
            let i = classified(key, cmd, tty);
            &&& i.category == Category::Llm || i.category == Category::Build || i.category
                == Category::Browser || i.category == Category::Encode
            &&& i.category == Category::Llm ==> i.never_suspend && i.gpu && i.task
                == "LLM inference"@
        }),
{
    lemma_mentions(lower_of(cmd), "llama"@);
    lemma_mentions(lower_of(cmd), "vllm"@);
    lemma_mentions(lower_of(cmd), "transformers"@);
}

/// Whatever has "chrom" in its name is a browser, unless it is a build tool.
pub proof fn names_with_chrom_are_browsers(key: Seq<char>, cmd: Seq<char>, tty: bool)
    requires
        mentions(core_name(key), "chrom"@),
        classified(key, cmd, tty).category != Category::Build,
    ensures
        classified(key, cmd, tty).category == Category::Browser,
{
    lemma_mentions(core_name(key), "chrom"@);
}

/// Services whose names begin like those of a desktop or of systemd are never
/// suspended.
pub proof fn desktop_services_are_never_suspended(
    lead: Seq<char>,
    head: Seq<char>,
    tail: Seq<char>,
    cmd: Seq<char>,
    tty: bool,
)
    requires
        unlettered(lead),
        head == "cosmic-"@ || head == "plasma-"@ || head == "gnome-"@ || head == "xfce4-"@ || head
            == "systemd-"@,
        !mentions(head + tail, "chrom"@),
        !mentions(lower_of(cmd), "llama"@),
    ensures
        ({
            let i = classified(lead + (head + tail), cmd, tty);
            &&& i.category == Category::System
            &&& i.never_suspend && !i.can_suspend
        }),
{
    let k = head + tail;
    reveal_strlit("cosmic-");
    reveal_strlit("plasma-");
    reveal_strlit("gnome-");
    reveal_strlit("xfce4-");
    reveal_strlit("systemd-");
    assert(k.take(head.len() as int) =~= head);
    assert(begins(k, head));
    assert(k[0] == head[0] && k[1] == head[1] && k[2] == head[2]);
    lemma_mentions(lower_of(cmd), "llama"@);
    lemma_mentions(k, "chrom"@);
    lemma_core_name(lead, k);
    lemma_prefix_apart(k);
}

/// Of a name outside the catalogue nothing is known: it may be suspended.
pub proof fn other_names_are_applications(
    lead: Seq<char>,
    name: Seq<char>,
    cmd: Seq<char>,
    tty: bool,
)
    requires
        unlettered(lead),
        name.len() > 0,
        is_alnum(name[0]),
        !mentions(lower_of(cmd), "llama"@),
        !mentions(name, "chrom"@),
        name != "rustup"@ || !mentions(lower_of(cmd), "cargo "@),
        name != "cargo"@ && name != "rustc"@ && name != "sccache"@,
        name != "make"@ && name != "ninja"@ && name != "cmake"@ && name != "gcc"@
            && name != "g++"@ && name != "clang"@ && name != "cc"@ && name != "go"@
            && name != "javac"@ && name != "mvn"@ && name != "gradle"@ && name != "pnpm"@
            && name != "npm"@ && name != "yarn"@ && name != "tsc"@ && name != "webpack"@
            && name != "vite"@ && name != "bun"@,
        name != "firefox"@ && name != "chromium"@ && name != "chrome"@
            && name != "google-chrome"@ && name != "brave"@ && name != "brave-browser"@
            && name != "vivaldi"@ && name != "opera"@ && name != "librewolf"@ && name != "zen"@
            && name != "zen-browser"@,
        name != "ffmpeg"@ && name != "handbrake"@ && name != "handbrakecli"@ && name != "x264"@
            && name != "x265"@ && name != "avifenc"@ && name != "cwebp"@ && name != "convert"@
            && name != "magick"@,
        name != "ollama"@ && name != "llama-server"@ && name != "llama.cpp"@ && name != "vllm"@
            && name != "text-generation-webui"@ && name != "koboldcpp"@,
        name != "ssh"@ && name != "mosh"@ && name != "telnet"@,
        name != "bash"@ && name != "zsh"@ && name != "fish"@ && name != "sh"@ && name != "tmux"@
            && name != "screen"@ && name != "nu"@ && name != "xonsh"@,
        name != "docker"@ && name != "dockerd"@ && name != "containerd"@ && name != "podman"@
            && name != "buildkitd"@ && name != "runc"@ && name != "kubelet"@,
        name != "rsync"@ && name != "restic"@ && name != "borg"@ && name != "rclone"@
            && name != "duplicity"@ && name != "tar"@ && name != "cp"@ && name != "mv"@
            && name != "dd"@,
        name != "curl"@ && name != "wget"@ && name != "aria2c"@ && name != "yt-dlp"@
            && name != "torrent"@ && name != "transmission"@,
        name != "postgres"@ && name != "postmaster"@ && name != "mysqld"@ && name != "mariadbd"@
            && name != "redis-server"@ && name != "mongod"@ && name != "clickhouse-server"@,
        name != "code"@ && name != "codium"@ && name != "nvim"@ && name != "vim"@
            && name != "emacs"@ && name != "sublime_text"@ && name != "zed"@ && name != "helix"@
            && name != "hx"@ && name != "kate"@ && name != "gedit"@,
        name != "apt"@ && name != "apt-get"@ && name != "dpkg"@ && name != "dnf"@
            && name != "yum"@ && name != "pacman"@ && name != "zypper"@ && name != "nix"@
            && name != "snap"@ && name != "flatpak"@,
        name != "systemd"@ && name != "init"@ && name != "sshd"@ && name != "dbus-daemon"@
            && name != "kwin"@ && name != "kwin_wayland"@ && name != "mutter"@
            && name != "gnome-shell"@ && name != "plasmashell"@ && name != "sway"@
            && name != "wayfire"@ && name != "xorg"@ && name != "xwayland"@
            && name != "pipewire"@ && name != "wireplumber"@ && name != "pulseaudio"@
            && name != "networkmanager"@ && name != "cupsd"@ && name != "polkitd"@
            && name != "upowerd"@ && name != "xdg-desktop-portal"@ && name != "sddm"@
            && name != "gdm"@ && name != "login"@ && name != "tailscaled"@
            && name != "cloudflared"@ && name != "coredns"@ && name != "resolved"@
            && name != "systemd-resolved"@ && name != "chronyd"@ && name != "ntpd"@
            && name != "fwupd"@ && name != "udisksd"@ && name != "accounts-daemon"@
            && name != "rtkit-daemon"@,
        name != "dolphin"@ && name != "nautilus"@ && name != "thunar"@ && name != "konsole"@
            && name != "gnome-terminal"@ && name != "alacritty"@ && name != "kitty"@
            && name != "wezterm"@ && name != "foot"@ && name != "yakuake"@,
        name != "python"@ && name != "python3"@ && name != "node"@ && name != "deno"@
            && name != "ruby"@ && name != "perl"@,
        !"cosmic-"@.is_prefix_of(name),
        !"plasma-"@.is_prefix_of(name),
        !"gnome-"@.is_prefix_of(name),
        !"xfce4-"@.is_prefix_of(name),
        !"systemd-"@.is_prefix_of(name),
    ensures
        ({
            let i = classified(lead + name, cmd, tty);
            &&& i.category == Category::Unknown
            &&& i.task == "Application"@
            &&& i.interactive == tty && i.can_suspend
            &&& !i.never_suspend && !i.can_interrupt && !i.can_migrate && !i.remote_friendly && !i.gpu
        }),
{
    lemma_core_name(lead, name);
    lemma_mentions(lower_of(cmd), "llama"@);
    lemma_mentions(lower_of(cmd), "cargo "@);
    lemma_mentions(name, "chrom"@);
    assert(begins(name, "cosmic-"@) ==> "cosmic-"@.is_prefix_of(name));
    assert(begins(name, "plasma-"@) ==> "plasma-"@.is_prefix_of(name));
    assert(begins(name, "gnome-"@) ==> "gnome-"@.is_prefix_of(name));
    assert(begins(name, "xfce4-"@) ==> "xfce4-"@.is_prefix_of(name));
    assert(begins(name, "systemd-"@) ==> "systemd-"@.is_prefix_of(name));
}

/// `cargo` by way of `rustup` builds like `cargo`.
pub proof fn rustup_runs_cargo(lead: Seq<char>, cmd: Seq<char>, tty: bool)
    requires
        unlettered(lead),
        mentions(lower_of(cmd), "cargo "@),
    ensures
        classified(lead + "rustup"@, cmd, tty).category == Category::Build,
        classified(lead + "rustup"@, cmd, tty).can_migrate,
{
    lemma_names_apart("rustup"@);
    lemma_core_name(lead, "rustup"@);
    lemma_mentions(lower_of(cmd), "cargo "@);
}

/// The intent of an app is the first that is listed under its key.
pub proof fn intents_are_found_by_key(intents: Seq<(String, Intent)>, key: Seq<char>)
    ensures
        intent_for(intents, key) is Some <==> exists|i: int|
            0 <= i < intents.len() && (#[trigger] intents[i]).0@ == key,
        forall|i: int|
            0 <= i < intents.len() && (#[trigger] intents[i]).0@ == key && (forall|j: int|
                0 <= j < i ==> (#[trigger] intents[j]).0@ != key) ==> intent_for(intents, key)
                == Some(intents[i].1@),
{
    lemma_intent_index(intents, key);
    assert forall|i: int|
        0 <= i < intents.len() && (#[trigger] intents[i]).0@ == key && (forall|j: int|
            0 <= j < i ==> (#[trigger] intents[j]).0@ != key) implies intent_for(intents, key)
        == Some(intents[i].1@) by {
        let f = intent_index(intents, key)->0;
        if f < i {
            assert(intents[f].0@ != key);
        }
        if i < f {
            assert(intents[i].0@ != key);
        }
    }
}

/// How sure it is that an app may be suspended: an idle app without sound,
/// terminal or long rest is at 70 percent. Load above 20 percent of a core takes
/// 50 of them and any load from 1 percent on takes 20; ten idle minutes add 15
/// and a browser 10; sound takes 40 and a terminal 25. It is never below nothing
/// nor above 98.
pub proof fn confidence_is_moved_by_what_an_app_does(app: App, intent: IntentView, idle_secs: nat)
    requires
        intent.can_suspend,
        !intent.never_suspend,
    ensures
        ({
            let load: int = if app.cpu_pct < 1_000_000_000 {
                70
            } else if app.cpu_pct > 20_000_000_000 {
                20
            } else {
                50
            };
            let quiet: int = if !app.has_audio {
                load
            } else if load == 20 {
                0
            } else {
                load - 40
            };
            let sum = quiet + (if idle_secs > 600 {
                15int
            } else {
                0
            }) + (if intent.category == Category::Browser {
                10int
            } else {
                0
            }) - (if app.tty {
                25int
            } else {
                0
            });
            confidence(app, intent, idle_secs) as int == (if sum < 0 {
                0
            } else if sum > 98 {
                98
            } else {
                sum
            })
        }),
{
}

proof fn lemma_prefix_apart(k: Seq<char>)
    requires
        k.len() >= 3,
        k[0] == 'c' && k[1] == 'o' && k[2] == 's' || k[0] == 'p' && k[1] == 'l' && k[2] == 'a' || k[0] == 'g'
            && k[1] == 'n' && k[2] == 'o' || k[0] == 'x' && k[1] == 'f' && k[2] == 'c' || k[0] == 's'
            && k[1] == 'y' && k[2] == 's',
    ensures
        !is_rust_tool(k),
        !is_build_tool(k),
        !is_browser_name(k),
        !is_encoder(k),
        !is_llm_server(k),
        !is_remote_session(k),
        !is_shell(k),
        !is_container_runtime(k),
        !is_copier(k),
        !is_downloader(k),
        !is_database(k),
        !is_editor(k),
        !is_package_tool(k),
        k != "rustup"@ && k != "python"@ && k != "python3"@,
{
    reveal_strlit("cargo");
    reveal_strlit("rustc");
    reveal_strlit("sccache");
    reveal_strlit("make");
    reveal_strlit("ninja");
    reveal_strlit("cmake");
    reveal_strlit("gcc");
    reveal_strlit("g++");
    reveal_strlit("clang");
    reveal_strlit("cc");
    reveal_strlit("go");
    reveal_strlit("javac");
    reveal_strlit("mvn");
    reveal_strlit("gradle");
    reveal_strlit("pnpm");
    reveal_strlit("npm");
    reveal_strlit("yarn");
    reveal_strlit("tsc");
    reveal_strlit("webpack");
    reveal_strlit("vite");
    reveal_strlit("bun");
    reveal_strlit("firefox");
    reveal_strlit("chromium");
    reveal_strlit("chrome");
    reveal_strlit("google-chrome");
    reveal_strlit("brave");
    reveal_strlit("brave-browser");
    reveal_strlit("vivaldi");
    reveal_strlit("opera");
    reveal_strlit("librewolf");
    reveal_strlit("zen");
    reveal_strlit("zen-browser");
    reveal_strlit("ffmpeg");
    reveal_strlit("handbrake");
    reveal_strlit("handbrakecli");
    reveal_strlit("x264");
    reveal_strlit("x265");
    reveal_strlit("avifenc");
    reveal_strlit("cwebp");
    reveal_strlit("convert");
    reveal_strlit("magick");
    reveal_strlit("ollama");
    reveal_strlit("llama-server");
    reveal_strlit("llama.cpp");
    reveal_strlit("vllm");
    reveal_strlit("text-generation-webui");
    reveal_strlit("koboldcpp");
    reveal_strlit("ssh");
    reveal_strlit("mosh");
    reveal_strlit("telnet");
    reveal_strlit("bash");
    reveal_strlit("zsh");
    reveal_strlit("fish");
    reveal_strlit("sh");
    reveal_strlit("tmux");
    reveal_strlit("screen");
    reveal_strlit("nu");
    reveal_strlit("xonsh");
    reveal_strlit("docker");
    reveal_strlit("dockerd");
    reveal_strlit("containerd");
    reveal_strlit("podman");
    reveal_strlit("buildkitd");
    reveal_strlit("runc");
    reveal_strlit("kubelet");
    reveal_strlit("rsync");
    reveal_strlit("restic");
    reveal_strlit("borg");
    reveal_strlit("rclone");
    reveal_strlit("duplicity");
    reveal_strlit("tar");
    reveal_strlit("cp");
    reveal_strlit("mv");
    reveal_strlit("dd");
    reveal_strlit("curl");
    reveal_strlit("wget");
    reveal_strlit("aria2c");
    reveal_strlit("yt-dlp");
    reveal_strlit("torrent");
    reveal_strlit("transmission");
    reveal_strlit("postgres");
    reveal_strlit("postmaster");
    reveal_strlit("mysqld");
    reveal_strlit("mariadbd");
    reveal_strlit("redis-server");
    reveal_strlit("mongod");
    reveal_strlit("clickhouse-server");
    reveal_strlit("code");
    reveal_strlit("codium");
    reveal_strlit("nvim");
    reveal_strlit("vim");
    reveal_strlit("emacs");
    reveal_strlit("sublime_text");
    reveal_strlit("zed");
    reveal_strlit("helix");
    reveal_strlit("hx");
    reveal_strlit("kate");
    reveal_strlit("gedit");
    reveal_strlit("apt");
    reveal_strlit("apt-get");
    reveal_strlit("dpkg");
    reveal_strlit("dnf");
    reveal_strlit("yum");
    reveal_strlit("pacman");
    reveal_strlit("zypper");
    reveal_strlit("nix");
    reveal_strlit("snap");
    reveal_strlit("flatpak");
    reveal_strlit("rustup");
    reveal_strlit("python");
    reveal_strlit("python3");
}

/// A command is known by the file name of its first word, in small letters.
pub proof fn commands_are_known_by_their_name(dir: Seq<char>, name: Seq<char>, rest: Seq<char>)
    requires
        name.len() > 0,
        name != "."@,
        name != ".."@,
        forall|i: int| 0 <= i < name.len() ==> #[trigger] name[i] != '/' && !is_space(name[i]),
        forall|i: int| 0 <= i < dir.len() ==> !is_space(#[trigger] dir[i]),
    ensures
        command_key(dir + seq!['/'] + name + seq![' '] + rest) == lower_of(name),
        command_key(name + seq![' '] + rest) == lower_of(name),
        command_key(name) == lower_of(name),
{
    let path = dir + seq!['/'] + name;
    assert forall|i: int| 0 <= i < path.len() implies !is_space(#[trigger] path[i]) by {
        if i < dir.len() {
            assert(path[i] == dir[i]);
        } else if i > dir.len() {
            assert(path[i] == name[i - dir.len() - 1]);
        }
    }
    words_part_at_white_space(path, ' ', rest);
    words_part_at_white_space(name, ' ', rest);
    the_last_name_is_the_base(dir, name);
    assert((seq![path] + words_of(rest))[0] == path);
    assert((seq![name] + words_of(rest))[0] == name);
}

} // verus!
