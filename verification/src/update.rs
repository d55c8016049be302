//! Self-update: the latest release, or a build from source, step by step.
//!
//! It installs to `~/.local/bin`, or to `/usr/local/bin` for the system.

use vstd::prelude::*;

use crate::display::{painted, Theme};
use crate::fixed::{decimal, numeral_reads_back, numerals_are_digits, parse_u32, parsed};
use crate::groq::{extract_field, field_value};
use crate::path::{components, lies_under, path_starts_with};
use crate::scan::{
    after_prefix, begins, characters_are_stripped_from_the_ends, contains, holds_text, lines,
    lines_of, pieces, pieces_of, pieces_of_one, pieces_part_at_the_separator, strip_end,
    strip_prefix, strip_start, stripped_end, stripped_start, trim, trimmed,
    trimming_takes_only_white_space,
};
use crate::text::{
    cat2, cat3, cat4, cat5, cat7, is_space, joined_path, opt_text, owned, path_join, push_text, same,
    texts,
};

verus! {

pub const DEFAULT_REPO: &'static str = "elci-group/pv";

pub const ASSET_NAME: &'static str = "pv-linux-x86_64";

pub const VERSION: &'static str = "0.4.5";

#[derive(Debug, Clone)]
pub struct Options {
    pub source: bool,
    pub system: bool,
    pub force: bool,
    pub check: bool,
    pub repo: String,
}

// ------------------------------------------------------------ versions

/// The version of this library.
pub fn current_version() -> (r: &'static str)
    ensures
        r@ == VERSION@,
{
    VERSION
}

/// The number at a place of a dotted text, or zero where there is none.
pub open spec fn part_of(parts: Seq<Seq<char>>, i: int) -> nat {
    if i < parts.len() {
        match parsed(trimmed(parts[i]), 10, u32::MAX as nat) {
            Some(n) => n,
            None => 0,
        }
    } else {
        0
    }
}

/// The version that a text denotes: three numbers with dots between them, `v`
/// before them or not, each zero where it is missing.
pub open spec fn version_of(s: Seq<char>) -> (nat, nat, nat) {
    let parts = pieces_of(stripped_start(trimmed(s), 'v'), '.');
    (part_of(parts, 0), part_of(parts, 1), part_of(parts, 2))
}

fn part(parts: &Vec<String>, i: usize) -> (r: u32)
    ensures
        r == part_of(texts(parts@), i as int),
{
    assert(texts(parts@).len() == parts@.len());
    if i < parts.len() {
        assert(texts(parts@)[i as int] == parts@[i as int]@);
        match parse_u32(trim(parts[i].as_str()).as_str()) {
            Some(n) => n,
            None => 0,
        }
    } else {
        0
    }
}

pub fn parse_ver(s: &str) -> (r: (u32, u32, u32))
    ensures
        (r.0 as nat, r.1 as nat, r.2 as nat) == version_of(s@),
{
    let parts: Vec<String> = pieces(strip_start(trim(s).as_str(), 'v').as_str(), '.');
    (part(&parts, 0), part(&parts, 1), part(&parts, 2))
}

/// Whether a version comes after another.
pub open spec fn after(a: (nat, nat, nat), b: (nat, nat, nat)) -> bool {
    a.0 > b.0 || (a.0 == b.0 && (a.1 > b.1 || (a.1 == b.1 && a.2 > b.2)))
}

/// Whether a version text denotes a later version than another.
pub open spec fn newer(latest: Seq<char>, current: Seq<char>) -> bool {
    after(version_of(latest), version_of(current))
}

/// Whether `latest` is strictly newer than `current`.
pub fn is_newer(latest: &str, current: &str) -> (r: bool)
    ensures
        r == newer(latest@, current@),
{
    let (a, b, c) = parse_ver(latest);
    let (x, y, z) = parse_ver(current);
    a > x || (a == x && (b > y || (b == y && c > z)))
}

// ------------------------------------------------------------ remote facts

pub open spec fn fetch_args(url: Seq<char>) -> Seq<Seq<char>> {
    seq!["-fsSL"@, "-H"@, "User-Agent: pv-updater"@, url]
}

fn curl(url: &str) -> (r: Vec<String>)
    ensures
        texts(r@) == fetch_args(url@),
{
    let mut out: Vec<String> = Vec::new();
    push_text(&mut out, owned("-fsSL"));
    push_text(&mut out, owned("-H"));
    push_text(&mut out, owned("User-Agent: pv-updater"));
    push_text(&mut out, owned(url));
    assert(texts(out@) =~= fetch_args(url@));
    out
}

/// Where the latest release of a repository is described.
pub open spec fn release_url(repo: Seq<char>) -> Seq<char> {
    "https://api.github.com/repos/"@ + repo + "/releases/latest"@
}

/// Where the manifest of a repository's main branch lies.
pub open spec fn manifest_url(repo: Seq<char>) -> Seq<char> {
    "https://raw.githubusercontent.com/"@ + repo + "/main/Cargo.toml"@
}

/// What is known of the latest release: an error, that there is none, or its
/// tag and where its binary is.
pub ghost enum Release {
    Unknown(Seq<char>),
    Absent,
    At { tag: Seq<char>, url: Seq<char> },
}

/// What the answer of the release service means.
pub open spec fn release_in(reply: Result<Seq<char>, Seq<char>>) -> Release {
    match reply {
        Err(e) => if holds_text(e, "404"@) || holds_text(e, "Not Found"@) {
            Release::Absent
        } else {
            Release::Unknown(e)
        },
        Ok(body) => if holds_text(body, "\"Not Found\""@) {
            Release::Absent
        } else {
            match field_value(body, "tag_name"@) {
                None => Release::Unknown("release JSON had no tag_name"@),
                Some(tag) => match field_value(body, "browser_download_url"@) {
                    None => Release::Unknown("release has no downloadable assets"@),
                    Some(url) => Release::At { tag, url },
                },
            }
        },
    }
}

pub open spec fn reply_view(r: Result<String, String>) -> Result<Seq<char>, Seq<char>> {
    match r {
        Ok(s) => Ok(s@),
        Err(e) => Err(e@),
    }
}

/// The latest release by the answer of the release service: its tag and the
/// address of its binary. Nothing where the repository has no releases yet.
pub fn latest_release(reply: &Result<String, String>) -> (r: Result<
    Option<(String, String)>,
    String,
>)
    ensures
        match release_in(reply_view(*reply)) {
            Release::Unknown(e) => r matches Err(m) && m@ == e,
            Release::Absent => r matches Ok(None),
            Release::At { tag, url } => r matches Ok(Some((a, b))) && a@ == tag && b@ == url,
        },
{
    match reply {
        Err(e) => {
            if contains(e.as_str(), "404") || contains(e.as_str(), "Not Found") {
                return Ok(None);
            }
            Err(e.clone())
        },
        Ok(body) => {
            if contains(body.as_str(), "\"Not Found\"") {
                return Ok(None);
            }
            match extract_field(body.as_str(), "tag_name") {
                None => Err(owned("release JSON had no tag_name")),
                Some(tag) => match extract_field(body.as_str(), "browser_download_url") {
                    None => Err(owned("release has no downloadable assets")),
                    Some(url) => Ok(Some((tag, url))),
                },
            }
        },
    }
}

/// The version that a line of a manifest states.
pub open spec fn line_version(line: Seq<char>) -> Option<Seq<char>> {
    match after_prefix(line, "version"@) {
        None => None,
        Some(v) => match after_prefix(trimmed(v), "="@) {
            None => None,
            Some(q) => Some(stripped_end(stripped_start(trimmed(q), '"'), '"')),
        },
    }
}

/// The version of the first line that states one.
pub open spec fn manifest_version(list: Seq<Seq<char>>) -> Option<Seq<char>>
    decreases list.len(),
{
    if list.len() == 0 {
        None
    } else {
        match line_version(list[0]) {
            Some(v) => Some(v),
            None => manifest_version(list.drop_first()),
        }
    }
}

fn version_in(line: &str) -> (r: Option<String>)
    ensures
        opt_text(r) == line_version(line@),
{
    match strip_prefix(line, "version") {
        None => None,
        Some(v) => match strip_prefix(trim(v.as_str()).as_str(), "=") {
            None => None,
            Some(q) => {
                let s: String = strip_start(trim(q.as_str()).as_str(), '"');
                Some(strip_end(s.as_str(), '"'))
            },
        },
    }
}

/// What the manifest of the main branch says of the version.
pub open spec fn source_in(reply: Result<Seq<char>, Seq<char>>) -> Result<Seq<char>, Seq<char>> {
    match reply {
        Err(e) => Err(e),
        Ok(body) => match manifest_version(lines_of(body)) {
            Some(v) => Ok(v),
            None => Err("no version in remote Cargo.toml"@),
        },
    }
}

/// The version in the main branch's manifest, by what came back for it.
pub fn remote_source_version(reply: &Result<String, String>) -> (r: Result<String, String>)
    ensures
        reply_view(r) == source_in(reply_view(*reply)),
{
    match reply {
        Err(e) => Err(e.clone()),
        Ok(body) => {
            let all: Vec<String> = lines(body.as_str());
            let ghost list = texts(all@);
            let ghost want = manifest_version(list);
            let mut i: usize = 0;
            assert(list.skip(0) =~= list);
            while i < all.len()
                invariant
                    i <= all.len(),
                    list == texts(all@),
                    list == lines_of(body@),
                    want == manifest_version(list),
                    want == manifest_version(list.skip(i as int)),
                    reply_view(*reply) == Ok::<Seq<char>, Seq<char>>(body@),
                decreases all.len() - i,
            {
                assert(list.skip(i as int)[0] == all@[i as int]@);
                if let Some(v) = version_in(all[i].as_str()) {
                    return Ok(v);
                }
                assert(list.skip(i as int).drop_first() =~= list.skip(i as int + 1));
                i = i + 1;
            }
            assert(list.skip(i as int) =~= Seq::empty());
            Err(owned("no version in remote Cargo.toml"))
        },
    }
}

// ------------------------------------------------------------ where to install

/// Where to install, given where the running program lies: system-wide where
/// that is asked for or so already, and for the user otherwise.
pub open spec fn target_dir(
    system: bool,
    exe: Option<Seq<char>>,
    home: Option<Seq<char>>,
) -> Seq<char> {
    if system || (exe is Some && lies_under(exe->0, "/usr/local/bin"@)) {
        "/usr/local/bin"@
    } else {
        joined_path(
            match home {
                Some(h) => h,
                None => "/tmp"@,
            },
            ".local/bin"@,
        )
    }
}

pub fn install_dir(system: bool, exe: &Option<String>, home: &Option<String>) -> (r: String)
    ensures
        r@ == target_dir(system, opt_text(*exe), opt_text(*home)),
{
    if system {
        return owned("/usr/local/bin");
    }
    if let Some(e) = exe {
        if path_starts_with(e.as_str(), "/usr/local/bin") {
            return owned("/usr/local/bin");
        }
    }
    match home {
        Some(h) => path_join(h.as_str(), ".local/bin"),
        None => path_join("/tmp", ".local/bin"),
    }
}

/// Whether a directory stands in the search path.
pub open spec fn in_path(path: Option<Seq<char>>, dir: Seq<char>) -> bool {
    match path {
        Some(p) => pieces_of(p, ':').contains(dir),
        None => false,
    }
}

fn on_search_path(path: &Option<String>, dir: &str) -> (r: bool)
    ensures
        r == in_path(opt_text(*path), dir@),
{
    match path {
        None => false,
        Some(p) => {
            let all: Vec<String> = pieces(p.as_str(), ':');
            let ghost list = texts(all@);
            let mut i: usize = 0;
            while i < all.len()
                invariant
                    i <= all.len(),
                    list == texts(all@),
                    list == pieces_of(p@, ':'),
                    opt_text(*path) == Some(p@),
                    forall|j: int| 0 <= j < i ==> #[trigger] list[j] != dir@,
                decreases all.len() - i,
            {
                assert(list[i as int] == all@[i as int]@);
                if same(all[i].as_str(), dir) {
                    return true;
                }
                i = i + 1;
            }
            assert(list.len() == all@.len());
            false
        },
    }
}

/// The note for a directory that is not on the search path.
pub open spec fn hint_text(t: Theme, dir: Seq<char>) -> Seq<char> {
    painted(
        t,
        "33"@,
        "note: "@ + dir + " is not on your PATH — add it or run `"@ + joined_path(dir, "pv"@)
            + "/pv`"@,
    )
}

// ------------------------------------------------------------ an update, step by step

/// A word to the user.
pub enum Note {
    /// A line on standard output.
    Out(String),
    /// Part of a line on standard output.
    Part(String),
    /// A line on standard error.
    Warn(String),
}

/// What an update does next.
pub enum Act {
    /// Run curl for a text.
    Fetch { args: Vec<String> },
    /// Make a directory, and run curl for a file in it.
    Download { dir: String, args: Vec<String> },
    /// See whether a directory exists.
    Look { dir: String },
    MakeDir { dir: String },
    /// See whether a file can be made in a directory.
    TestWrite { dir: String },
    /// Copy a file, and let everyone execute the copy.
    Copy { from: String, to: String },
    Rename { from: String, to: String },
    Sudo { args: Vec<String> },
    /// See whether a tool can be run.
    Check { tool: String },
    Clone { args: Vec<String> },
    /// Build in a directory, and see whether a file is there then.
    Build { dir: String, binary: String },
    Exit { code: i32 },
}

/// How the last act went.
pub enum Event {
    /// As hoped, with what came back.
    Success(String),
    /// Not so, with the error or the status.
    Failure(String),
    /// The tool could not be run.
    Unstarted(String),
}

/// Where a new binary comes from.
pub enum Origin {
    Release { tag: String },
    Source,
}

/// How far an update has come.
pub enum Stage {
    AskRelease,
    Downloading { tag: String },
    Looking { origin: Origin },
    Making { origin: Origin },
    Testing { origin: Origin },
    Copying { origin: Origin },
    Renaming { origin: Origin },
    Elevating { origin: Origin },
    AskSource,
    FindGit,
    FindCargo,
    Cloning,
    Building,
    Over,
}

/// A turn: the temporary directory is removed where that is asked for, then
/// the notes are given, then the act is done.
pub struct Turn {
    pub clean: bool,
    pub notes: Vec<Note>,
    pub act: Act,
}

pub ghost enum NoteView {
    Out(Seq<char>),
    Part(Seq<char>),
    Warn(Seq<char>),
}

pub ghost enum ActView {
    Fetch { args: Seq<Seq<char>> },
    Download { dir: Seq<char>, args: Seq<Seq<char>> },
    Look { dir: Seq<char> },
    MakeDir { dir: Seq<char> },
    TestWrite { dir: Seq<char> },
    Copy { from: Seq<char>, to: Seq<char> },
    Rename { from: Seq<char>, to: Seq<char> },
    Sudo { args: Seq<Seq<char>> },
    Check { tool: Seq<char> },
    Clone { args: Seq<Seq<char>> },
    Build { dir: Seq<char>, binary: Seq<char> },
    Exit { code: i32 },
}

pub ghost enum EventView {
    Success(Seq<char>),
    Failure(Seq<char>),
    Unstarted(Seq<char>),
}

pub ghost enum OriginView {
    Release { tag: Seq<char> },
    Source,
}

pub ghost enum StageView {
    AskRelease,
    Downloading { tag: Seq<char> },
    Looking { origin: OriginView },
    Making { origin: OriginView },
    Testing { origin: OriginView },
    Copying { origin: OriginView },
    Renaming { origin: OriginView },
    Elevating { origin: OriginView },
    AskSource,
    FindGit,
    FindCargo,
    Cloning,
    Building,
    Over,
}

#[verifier::ext_equal]
pub struct TurnView {
    pub clean: bool,
    pub notes: Seq<NoteView>,
    pub act: ActView,
}

impl View for Note {
    type V = NoteView;

    open spec fn view(&self) -> NoteView {
        match self {
            Note::Out(s) => NoteView::Out(s@),
            Note::Part(s) => NoteView::Part(s@),
            Note::Warn(s) => NoteView::Warn(s@),
        }
    }
}

impl View for Act {
    type V = ActView;

    open spec fn view(&self) -> ActView {
        match self {
            Act::Fetch { args } => ActView::Fetch { args: texts(args@) },
            Act::Download { dir, args } => ActView::Download { dir: dir@, args: texts(args@) },
            Act::Look { dir } => ActView::Look { dir: dir@ },
            Act::MakeDir { dir } => ActView::MakeDir { dir: dir@ },
            Act::TestWrite { dir } => ActView::TestWrite { dir: dir@ },
            Act::Copy { from, to } => ActView::Copy { from: from@, to: to@ },
            Act::Rename { from, to } => ActView::Rename { from: from@, to: to@ },
            Act::Sudo { args } => ActView::Sudo { args: texts(args@) },
            Act::Check { tool } => ActView::Check { tool: tool@ },
            Act::Clone { args } => ActView::Clone { args: texts(args@) },
            Act::Build { dir, binary } => ActView::Build { dir: dir@, binary: binary@ },
            Act::Exit { code } => ActView::Exit { code: *code },
        }
    }
}

impl View for Event {
    type V = EventView;

    open spec fn view(&self) -> EventView {
        match self {
            Event::Success(s) => EventView::Success(s@),
            Event::Failure(s) => EventView::Failure(s@),
            Event::Unstarted(s) => EventView::Unstarted(s@),
        }
    }
}

impl View for Origin {
    type V = OriginView;

    open spec fn view(&self) -> OriginView {
        match self {
            Origin::Release { tag } => OriginView::Release { tag: tag@ },
            Origin::Source => OriginView::Source,
        }
    }
}

impl View for Stage {
    type V = StageView;

    open spec fn view(&self) -> StageView {
        match self {
            Stage::AskRelease => StageView::AskRelease,
            Stage::Downloading { tag } => StageView::Downloading { tag: tag@ },
            Stage::Looking { origin } => StageView::Looking { origin: origin@ },
            Stage::Making { origin } => StageView::Making { origin: origin@ },
            Stage::Testing { origin } => StageView::Testing { origin: origin@ },
            Stage::Copying { origin } => StageView::Copying { origin: origin@ },
            Stage::Renaming { origin } => StageView::Renaming { origin: origin@ },
            Stage::Elevating { origin } => StageView::Elevating { origin: origin@ },
            Stage::AskSource => StageView::AskSource,
            Stage::FindGit => StageView::FindGit,
            Stage::FindCargo => StageView::FindCargo,
            Stage::Cloning => StageView::Cloning,
            Stage::Building => StageView::Building,
            Stage::Over => StageView::Over,
        }
    }
}

pub open spec fn note_views(v: Seq<Note>) -> Seq<NoteView> {
    v.map_values(|n: Note| n@)
}

impl View for Turn {
    type V = TurnView;

    open spec fn view(&self) -> TurnView {
        TurnView { clean: self.clean, notes: note_views(self.notes@), act: self.act@ }
    }
}

/// What an update works with, besides the options.
pub struct Place {
    pub theme: Theme,
    /// Where to install.
    pub dir: String,
    /// The temporary directory.
    pub tmp: String,
    /// The search path.
    pub path: Option<String>,
}

/// An update under way.
pub struct Update {
    pub options: Options,
    pub place: Place,
    pub stage: Stage,
}

/// What an update works with.
#[verifier::ext_equal]
pub struct Given {
    pub source: bool,
    pub system: bool,
    pub force: bool,
    pub check: bool,
    pub repo: Seq<char>,
    pub theme: Theme,
    pub dir: Seq<char>,
    pub tmp: Seq<char>,
    pub path: Option<Seq<char>>,
}

pub open spec fn given(o: Options, p: Place) -> Given {
    Given {
        source: o.source,
        system: o.system,
        force: o.force,
        check: o.check,
        repo: o.repo@,
        theme: p.theme,
        dir: p.dir@,
        tmp: p.tmp@,
        path: opt_text(p.path),
    }
}

pub open spec fn ends(notes: Seq<NoteView>, code: i32) -> (StageView, TurnView) {
    (StageView::Over, TurnView { clean: false, notes, act: ActView::Exit { code } })
}

/// The end of an update that has left things in the temporary directory.
pub open spec fn ends_clean(notes: Seq<NoteView>, code: i32) -> (StageView, TurnView) {
    (StageView::Over, TurnView { clean: true, notes, act: ActView::Exit { code } })
}

pub open spec fn goes(stage: StageView, notes: Seq<NoteView>, act: ActView) -> (
    StageView,
    TurnView,
) {
    (stage, TurnView { clean: false, notes, act })
}

/// What came back for a text.
pub open spec fn as_reply(ev: EventView) -> Result<Seq<char>, Seq<char>> {
    match ev {
        EventView::Success(s) => Ok(s),
        EventView::Failure(s) => Err(s),
        EventView::Unstarted(s) => Err(s),
    }
}

pub open spec fn asks_source(g: Given, notes: Seq<NoteView>) -> (StageView, TurnView) {
    goes(StageView::AskSource, notes, ActView::Fetch { args: fetch_args(manifest_url(g.repo)) })
}

pub open spec fn latest_line(g: Given, version: Seq<char>, of: Seq<char>) -> NoteView {
    NoteView::Out(painted(g.theme, "2"@, "latest:"@) + " "@ + version + of)
}

pub open spec fn up_to_date(g: Given) -> NoteView {
    NoteView::Out(painted(g.theme, "32"@, "✓ already up to date"@))
}

pub open spec fn available(version: Seq<char>) -> NoteView {
    NoteView::Out("update available: "@ + VERSION@ + " → "@ + version)
}

/// The binary that is to be installed.
pub open spec fn binary_of(g: Given, origin: OriginView) -> Seq<char> {
    match origin {
        OriginView::Release { .. } => joined_path(g.tmp, "pv"@),
        OriginView::Source => joined_path(g.tmp, "target/release/pv"@),
    }
}

/// Where the binary is installed.
pub open spec fn dest_of(g: Given) -> Seq<char> {
    joined_path(g.dir, "pv"@)
}

pub open spec fn staged_of(g: Given) -> Seq<char> {
    joined_path(g.dir, ".pv-new"@)
}

/// The end of an update whose binary was not installed.
pub open spec fn fails(origin: OriginView, e: Seq<char>) -> (StageView, TurnView) {
    match origin {
        OriginView::Release { .. } => ends_clean(seq![NoteView::Warn("\n[pv] "@ + e)], 1),
        OriginView::Source => ends_clean(seq![NoteView::Warn("[pv] "@ + e)], 1),
    }
}

/// The end of an update whose binary was installed.
pub open spec fn succeeds(g: Given, origin: OriginView) -> (StageView, TurnView) {
    let line = match origin {
        OriginView::Release { tag } => "\n"@ + painted(g.theme, "32"@, "✓ updated"@) + " "@
            + VERSION@ + " → "@ + tag + " → "@ + dest_of(g),
        OriginView::Source => painted(g.theme, "32"@, "✓"@) + " built and installed → "@
            + dest_of(g),
    };
    if in_path(g.path, g.dir) {
        ends_clean(seq![NoteView::Out(line)], 0)
    } else {
        ends_clean(seq![NoteView::Out(line), NoteView::Out(hint_text(g.theme, g.dir))], 0)
    }
}

pub open spec fn download_line(g: Given, url: Seq<char>) -> Seq<Seq<char>> {
    seq![
        "-fSL"@,
        "-H"@,
        "User-Agent: pv-updater"@,
        "-o"@,
        joined_path(g.tmp, "pv"@),
        url,
    ]
}

pub open spec fn sudo_line(g: Given, origin: OriginView) -> Seq<Seq<char>> {
    seq!["install"@, "-m"@, "755"@, binary_of(g, origin), dest_of(g)]
}

pub open spec fn clone_line(g: Given) -> Seq<Seq<char>> {
    seq![
        "clone"@,
        "--depth"@,
        "1"@,
        "https://github.com/"@ + g.repo + ".git"@,
        g.tmp,
    ]
}

/// The first turn of an update.
pub open spec fn update_begin(g: Given) -> (StageView, TurnView) {
    let notes = seq![
        NoteView::Out(painted(g.theme, "2"@, "current:"@) + " "@ + VERSION@),
    ];
    if g.source {
        asks_source(g, notes)
    } else {
        goes(
            StageView::AskRelease,
            notes,
            ActView::Fetch { args: fetch_args(release_url(g.repo)) },
        )
    }
}

pub open spec fn after_release(g: Given, ev: EventView) -> (StageView, TurnView) {
    match release_in(as_reply(ev)) {
        Release::Unknown(e) => asks_source(
            g,
            seq![
                NoteView::Warn(
                    "[pv] release check failed: "@ + e + " — trying source build"@,
                ),
            ],
        ),
        Release::Absent => asks_source(
            g,
            seq![
                NoteView::Out(
                    painted(
                        g.theme,
                        "2"@,
                        "no GitHub releases yet — building from source"@,
                    ),
                ),
            ],
        ),
        Release::At { tag, url } => {
            let latest = latest_line(g, tag, " (release asset)"@);
            if !g.force && !newer(tag, VERSION@) {
                ends(seq![latest, up_to_date(g)], 0)
            } else if g.check {
                ends(seq![latest, available(tag)], 0)
            } else {
                goes(
                    StageView::Downloading { tag },
                    seq![latest, NoteView::Part(painted(g.theme, "2"@, "downloading… "@))],
                    ActView::Download { dir: g.tmp, args: download_line(g, url) },
                )
            }
        },
    }
}

pub open spec fn after_source(g: Given, ev: EventView) -> (StageView, TurnView) {
    match source_in(as_reply(ev)) {
        Err(e) => ends(seq![NoteView::Warn("[pv] cannot read remote version: "@ + e)], 1),
        Ok(v) => {
            let latest = latest_line(g, v, " (git main)"@);
            if !g.force && !newer(v, VERSION@) {
                ends(seq![latest, up_to_date(g)], 0)
            } else if g.check {
                ends(seq![latest, available(v)], 0)
            } else {
                goes(StageView::FindGit, seq![latest], ActView::Check { tool: "git"@ })
            }
        },
    }
}

pub open spec fn tool_needed(tool: Seq<char>) -> (StageView, TurnView) {
    ends(
        seq![NoteView::Warn("[pv] `"@ + tool + "` is required for --source builds"@)],
        1,
    )
}

/// What comes next in an update, by how the last act went.
pub open spec fn update_next(g: Given, stage: StageView, ev: EventView) -> (StageView, TurnView) {
    match stage {
        StageView::AskRelease => after_release(g, ev),
        StageView::Downloading { tag } => match ev {
            EventView::Success(_) => goes(
                StageView::Looking { origin: OriginView::Release { tag } },
                Seq::empty(),
                ActView::Look { dir: g.dir },
            ),
            EventView::Failure(st) => fails(
                OriginView::Release { tag },
                "download failed ("@ + st + ")"@,
            ),
            EventView::Unstarted(e) => fails(OriginView::Release { tag }, "curl: "@ + e),
        },
        StageView::Looking { origin } => if ev is Success || g.system {
            goes(
                StageView::Testing { origin },
                Seq::empty(),
                ActView::TestWrite { dir: g.dir },
            )
        } else {
            goes(StageView::Making { origin }, Seq::empty(), ActView::MakeDir { dir: g.dir })
        },
        StageView::Making { origin } => match as_reply(ev) {
            Ok(_) => goes(
                StageView::Testing { origin },
                Seq::empty(),
                ActView::TestWrite { dir: g.dir },
            ),
            Err(e) => fails(origin, "create "@ + g.dir + ": "@ + e),
        },
        StageView::Testing { origin } => if ev is Success {
            goes(
                StageView::Copying { origin },
                Seq::empty(),
                ActView::Copy { from: binary_of(g, origin), to: staged_of(g) },
            )
        } else {
            goes(
                StageView::Elevating { origin },
                Seq::empty(),
                ActView::Sudo { args: sudo_line(g, origin) },
            )
        },
        StageView::Copying { origin } => match as_reply(ev) {
            Ok(_) => goes(
                StageView::Renaming { origin },
                Seq::empty(),
                ActView::Rename { from: staged_of(g), to: dest_of(g) },
            ),
            Err(e) => fails(origin, "copy: "@ + e),
        },
        StageView::Renaming { origin } => match as_reply(ev) {
            Ok(_) => succeeds(g, origin),
            Err(e) => fails(origin, "install to "@ + dest_of(g) + ": "@ + e),
        },
        StageView::Elevating { origin } => match ev {
            EventView::Success(_) => succeeds(g, origin),
            EventView::Failure(st) => fails(origin, "sudo install failed ("@ + st + ")"@),
            EventView::Unstarted(e) => fails(origin, "sudo: "@ + e),
        },
        StageView::AskSource => after_source(g, ev),
        StageView::FindGit => if ev is Success {
            goes(StageView::FindCargo, Seq::empty(), ActView::Check { tool: "cargo"@ })
        } else {
            tool_needed("git"@)
        },
        StageView::FindCargo => if ev is Success {
            (
                StageView::Cloning,
                TurnView {
                    clean: true,
                    notes: seq![
                        NoteView::Out(
                            painted(g.theme, "2"@, "»"@) + " cloning "@ + g.repo + "…"@,
                        ),
                    ],
                    act: ActView::Clone { args: clone_line(g) },
                },
            )
        } else {
            tool_needed("cargo"@)
        },
        StageView::Cloning => if ev is Success {
            goes(
                StageView::Building,
                seq![NoteView::Out(painted(g.theme, "2"@, "»"@) + " building release…"@)],
                ActView::Build { dir: g.tmp, binary: binary_of(g, OriginView::Source) },
            )
        } else {
            ends_clean(seq![NoteView::Warn("[pv] clone failed"@)], 1)
        },
        StageView::Building => if ev is Success {
            goes(
                StageView::Looking { origin: OriginView::Source },
                Seq::empty(),
                ActView::Look { dir: g.dir },
            )
        } else {
            ends_clean(seq![NoteView::Warn("[pv] build failed"@)], 1)
        },
        StageView::Over => ends(Seq::empty(), 1),
    }
}


// ------------------------------------------------------------ the steps

fn say(out: &mut Vec<Note>, n: Note)
    ensures
        note_views(final(out)@) == note_views(old(out)@).push(n@),
{
    let ghost before = note_views(out@);
    out.push(n);
    assert(note_views(out@) =~= before.push(n@));
}

fn one_note(n: Note) -> (r: Vec<Note>)
    ensures
        note_views(r@) == seq![n@],
{
    let mut out: Vec<Note> = Vec::new();
    say(&mut out, n);
    assert(note_views(out@) =~= seq![n@]);
    out
}

fn two_notes(a: Note, b: Note) -> (r: Vec<Note>)
    ensures
        note_views(r@) == seq![a@, b@],
{
    let mut out: Vec<Note> = one_note(a);
    say(&mut out, b);
    assert(note_views(out@) =~= seq![a@, b@]);
    out
}

fn no_notes() -> (r: Vec<Note>)
    ensures
        note_views(r@) == Seq::<NoteView>::empty(),
{
    let out: Vec<Note> = Vec::new();
    assert(note_views(out@) =~= Seq::<NoteView>::empty());
    out
}

fn end(notes: Vec<Note>, code: i32) -> (r: (Stage, Turn))
    ensures
        (r.0@, r.1@) == ends(note_views(notes@), code),
{
    (Stage::Over, Turn { clean: false, notes, act: Act::Exit { code } })
}

fn end_clean(notes: Vec<Note>, code: i32) -> (r: (Stage, Turn))
    ensures
        (r.0@, r.1@) == ends_clean(note_views(notes@), code),
{
    (Stage::Over, Turn { clean: true, notes, act: Act::Exit { code } })
}

fn go(stage: Stage, notes: Vec<Note>, act: Act) -> (r: (Stage, Turn))
    ensures
        (r.0@, r.1@) == goes(stage@, note_views(notes@), act@),
{
    (stage, Turn { clean: false, notes, act })
}

fn reply_of(ev: &Event) -> (r: Result<String, String>)
    ensures
        reply_view(r) == as_reply(ev@),
{
    match ev {
        Event::Success(s) => Ok(s.clone()),
        Event::Failure(s) => Err(s.clone()),
        Event::Unstarted(s) => Err(s.clone()),
    }
}

fn succeeded(ev: &Event) -> (r: bool)
    ensures
        r == (ev@ is Success),
{
    match ev {
        Event::Success(_) => true,
        _ => false,
    }
}

fn fail(origin: &Origin, e: &str) -> (r: (Stage, Turn))
    ensures
        (r.0@, r.1@) == fails(origin@, e@),
{
    match origin {
        Origin::Release { .. } => end_clean(one_note(Note::Warn(cat2("\n[pv] ", e))), 1),
        Origin::Source => end_clean(one_note(Note::Warn(cat2("[pv] ", e))), 1),
    }
}

fn need_tool(tool: &str) -> (r: (Stage, Turn))
    ensures
        (r.0@, r.1@) == tool_needed(tool@),
{
    end(one_note(Note::Warn(cat3("[pv] `", tool, "` is required for --source builds"))), 1)
}

/// The note for a directory that is not on the search path.
pub fn path_hint(t: &Theme, dir: &str, path: &Option<String>) -> (r: Option<String>)
    ensures
        opt_text(r) == (if in_path(opt_text(*path), dir@) {
            None
        } else {
            Some(hint_text(*t, dir@))
        }),
{
    if on_search_path(path, dir) {
        return None;
    }
    Some(
        t.yellow(
            cat5(
                "note: ",
                dir,
                " is not on your PATH — add it or run `",
                path_join(dir, "pv").as_str(),
                "/pv`",
            ).as_str(),
        ),
    )
}

fn ask_source(o: &Options, p: &Place, notes: Vec<Note>) -> (r: (Stage, Turn))
    ensures
        (r.0@, r.1@) == asks_source(given(*o, *p), note_views(notes@)),
{
    let url: String = cat3(
        "https://raw.githubusercontent.com/",
        o.repo.as_str(),
        "/main/Cargo.toml",
    );
    go(Stage::AskSource, notes, Act::Fetch { args: curl(url.as_str()) })
}

fn latest_note(o: &Options, p: &Place, version: &str, of: &str) -> (r: Note)
    ensures
        r@ == latest_line(given(*o, *p), version@, of@),
{
    Note::Out(cat4(p.theme.dim("latest:").as_str(), " ", version, of))
}

fn current_note(o: &Options, p: &Place) -> (r: Note)
    ensures
        r@ == up_to_date(given(*o, *p)),
{
    Note::Out(p.theme.green("✓ already up to date"))
}

fn available_note(version: &str) -> (r: Note)
    ensures
        r@ == available(version@),
{
    Note::Out(cat4("update available: ", VERSION, " → ", version))
}

/// Begin an update.
pub fn run(options: Options, place: Place) -> (r: (Update, Turn))
    ensures
        (r.0.stage@, r.1@) == update_begin(given(options, place)),
        r.0.options == options,
        r.0.place == place,
{
    let ghost g = given(options, place);
    let notes: Vec<Note> = one_note(
        Note::Out(cat3(place.theme.dim("current:").as_str(), " ", current_version())),
    );
    let (stage, turn): (Stage, Turn) = if options.source {
        ask_source(&options, &place, notes)
    } else {
        let url: String = cat3(
            "https://api.github.com/repos/",
            options.repo.as_str(),
            "/releases/latest",
        );
        go(Stage::AskRelease, notes, Act::Fetch { args: curl(url.as_str()) })
    };
    assert((stage@, turn@) == update_begin(g));
    (Update { options, place, stage }, turn)
}

fn download_args(o: &Options, p: &Place, url: &str) -> (r: Vec<String>)
    ensures
        texts(r@) == download_line(given(*o, *p), url@),
{
    let mut args: Vec<String> = Vec::new();
    push_text(&mut args, owned("-fSL"));
    push_text(&mut args, owned("-H"));
    push_text(&mut args, owned("User-Agent: pv-updater"));
    push_text(&mut args, owned("-o"));
    push_text(&mut args, path_join(p.tmp.as_str(), "pv"));
    push_text(&mut args, owned(url));
    assert(texts(args@) =~= download_line(given(*o, *p), url@));
    args
}

fn step_release(o: &Options, p: &Place, ev: &Event) -> (r: (Stage, Turn))
    ensures
        (r.0@, r.1@) == after_release(given(*o, *p), ev@),
{
    match latest_release(&reply_of(ev)) {
        Err(e) => ask_source(
            o,
            p,
            one_note(
                Note::Warn(
                    cat3(
                        "[pv] release check failed: ",
                        e.as_str(),
                        " — trying source build",
                    ),
                ),
            ),
        ),
        Ok(None) => ask_source(
            o,
            p,
            one_note(
                Note::Out(
                    p.theme.dim("no GitHub releases yet — building from source"),
                ),
            ),
        ),
        Ok(Some((tag, url))) => {
            let latest: Note = latest_note(o, p, tag.as_str(), " (release asset)");
            if !o.force && !is_newer(tag.as_str(), current_version()) {
                end(two_notes(latest, current_note(o, p)), 0)
            } else if o.check {
                end(two_notes(latest, available_note(tag.as_str())), 0)
            } else {
                let args: Vec<String> = download_args(o, p, url.as_str());
                go(
                    Stage::Downloading { tag },
                    two_notes(latest, Note::Part(p.theme.dim("downloading… "))),
                    Act::Download { dir: p.tmp.clone(), args },
                )
            }
        },
    }
}

fn step_source(o: &Options, p: &Place, ev: &Event) -> (r: (Stage, Turn))
    ensures
        (r.0@, r.1@) == after_source(given(*o, *p), ev@),
{
    match remote_source_version(&reply_of(ev)) {
        Err(e) => end(
            one_note(Note::Warn(cat2("[pv] cannot read remote version: ", e.as_str()))),
            1,
        ),
        Ok(v) => {
            let latest: Note = latest_note(o, p, v.as_str(), " (git main)");
            if !o.force && !is_newer(v.as_str(), current_version()) {
                end(two_notes(latest, current_note(o, p)), 0)
            } else if o.check {
                end(two_notes(latest, available_note(v.as_str())), 0)
            } else {
                go(Stage::FindGit, one_note(latest), Act::Check { tool: owned("git") })
            }
        },
    }
}

fn binary(o: &Options, p: &Place, origin: &Origin) -> (r: String)
    ensures
        r@ == binary_of(given(*o, *p), origin@),
{
    match origin {
        Origin::Release { .. } => path_join(p.tmp.as_str(), "pv"),
        Origin::Source => path_join(p.tmp.as_str(), "target/release/pv"),
    }
}

fn succeed(o: &Options, p: &Place, origin: &Origin) -> (r: (Stage, Turn))
    ensures
        (r.0@, r.1@) == succeeds(given(*o, *p), origin@),
{
    let t: &Theme = &p.theme;
    let dest: String = path_join(p.dir.as_str(), "pv");
    let line: String = match origin {
        Origin::Release { tag } => cat2(
            cat7(
                "\n",
                t.green("✓ updated").as_str(),
                " ",
                current_version(),
                " → ",
                tag.as_str(),
                " → ",
            ).as_str(),
            dest.as_str(),
        ),
        Origin::Source => cat3(
            t.green("✓").as_str(),
            " built and installed → ",
            dest.as_str(),
        ),
    };
    match path_hint(t, p.dir.as_str(), &p.path) {
        None => end_clean(one_note(Note::Out(line)), 0),
        Some(h) => end_clean(two_notes(Note::Out(line), Note::Out(h)), 0),
    }
}

/// The turns that put a binary in its place.
fn step_install(o: &Options, p: &Place, stage: Stage, ev: &Event) -> (r: (Stage, Turn))
    requires
        stage is Looking || stage is Making || stage is Testing || stage is Copying
            || stage is Renaming || stage is Elevating,
    ensures
        (r.0@, r.1@) == update_next(given(*o, *p), stage@, ev@),
{
    let ghost g = given(*o, *p);
    let done: bool = succeeded(ev);
    match stage {
        Stage::Looking { origin } => if done || o.system {
            go(Stage::Testing { origin }, no_notes(), Act::TestWrite { dir: p.dir.clone() })
        } else {
            go(Stage::Making { origin }, no_notes(), Act::MakeDir { dir: p.dir.clone() })
        },
        Stage::Making { origin } => match reply_of(ev) {
            Ok(_) => go(
                Stage::Testing { origin },
                no_notes(),
                Act::TestWrite { dir: p.dir.clone() },
            ),
            Err(e) => fail(
                &origin,
                cat4("create ", p.dir.as_str(), ": ", e.as_str()).as_str(),
            ),
        },
        Stage::Testing { origin } => {
            let from: String = binary(o, p, &origin);
            if done {
                go(
                    Stage::Copying { origin },
                    no_notes(),
                    Act::Copy { from, to: path_join(p.dir.as_str(), ".pv-new") },
                )
            } else {
                let mut args: Vec<String> = Vec::new();
                push_text(&mut args, owned("install"));
                push_text(&mut args, owned("-m"));
                push_text(&mut args, owned("755"));
                push_text(&mut args, from);
                push_text(&mut args, path_join(p.dir.as_str(), "pv"));
                assert(texts(args@) =~= sudo_line(g, origin@));
                go(Stage::Elevating { origin }, no_notes(), Act::Sudo { args })
            }
        },
        Stage::Copying { origin } => match reply_of(ev) {
            Ok(_) => go(
                Stage::Renaming { origin },
                no_notes(),
                Act::Rename {
                    from: path_join(p.dir.as_str(), ".pv-new"),
                    to: path_join(p.dir.as_str(), "pv"),
                },
            ),
            Err(e) => fail(&origin, cat2("copy: ", e.as_str()).as_str()),
        },
        Stage::Renaming { origin } => match reply_of(ev) {
            Ok(_) => succeed(o, p, &origin),
            Err(e) => fail(
                &origin,
                cat4(
                    "install to ",
                    path_join(p.dir.as_str(), "pv").as_str(),
                    ": ",
                    e.as_str(),
                ).as_str(),
            ),
        },
        Stage::Elevating { origin } => match ev {
            Event::Success(_) => succeed(o, p, &origin),
            Event::Failure(st) => fail(
                &origin,
                cat3("sudo install failed (", st.as_str(), ")").as_str(),
            ),
            Event::Unstarted(e) => fail(&origin, cat2("sudo: ", e.as_str()).as_str()),
        },
        _ => end(no_notes(), 1),
    }
}

/// The turns that build from source.
fn step_build(o: &Options, p: &Place, stage: Stage, ev: &Event) -> (r: (Stage, Turn))
    requires
        stage is FindGit || stage is FindCargo || stage is Cloning || stage is Building,
    ensures
        (r.0@, r.1@) == update_next(given(*o, *p), stage@, ev@),
{
    let ghost g = given(*o, *p);
    let done: bool = succeeded(ev);
    match stage {
        Stage::FindGit => if done {
            go(Stage::FindCargo, no_notes(), Act::Check { tool: owned("cargo") })
        } else {
            need_tool("git")
        },
        Stage::FindCargo => if done {
            let mut args: Vec<String> = Vec::new();
            push_text(&mut args, owned("clone"));
            push_text(&mut args, owned("--depth"));
            push_text(&mut args, owned("1"));
            push_text(&mut args, cat3("https://github.com/", o.repo.as_str(), ".git"));
            push_text(&mut args, p.tmp.clone());
            assert(texts(args@) =~= clone_line(g));
            (
                Stage::Cloning,
                Turn {
                    clean: true,
                    notes: one_note(
                        Note::Out(
                            cat4(
                                p.theme.dim("»").as_str(),
                                " cloning ",
                                o.repo.as_str(),
                                "…",
                            ),
                        ),
                    ),
                    act: Act::Clone { args },
                },
            )
        } else {
            need_tool("cargo")
        },
        Stage::Cloning => if done {
            let origin: Origin = Origin::Source;
            assert(origin@ == OriginView::Source);
            let made: String = binary(o, p, &origin);
            go(
                Stage::Building,
                one_note(Note::Out(cat2(p.theme.dim("»").as_str(), " building release…"))),
                Act::Build { dir: p.tmp.clone(), binary: made },
            )
        } else {
            end_clean(one_note(Note::Warn(owned("[pv] clone failed"))), 1)
        },
        Stage::Building => if done {
            go(
                Stage::Looking { origin: Origin::Source },
                no_notes(),
                Act::Look { dir: p.dir.clone() },
            )
        } else {
            end_clean(one_note(Note::Warn(owned("[pv] build failed"))), 1)
        },
        _ => end(no_notes(), 1),
    }
}

fn step_download(o: &Options, p: &Place, tag: String, ev: &Event) -> (r: (Stage, Turn))
    ensures
        (r.0@, r.1@) == update_next(
            given(*o, *p),
            (StageView::Downloading { tag: tag@ }),
            ev@,
        ),
{
    let origin: Origin = Origin::Release { tag };
    match ev {
        Event::Success(_) => go(
            Stage::Looking { origin },
            no_notes(),
            Act::Look { dir: p.dir.clone() },
        ),
        Event::Failure(st) => fail(
            &origin,
            cat3("download failed (", st.as_str(), ")").as_str(),
        ),
        Event::Unstarted(e) => fail(&origin, cat2("curl: ", e.as_str()).as_str()),
    }
}

impl Update {
    /// The next turn, by how the last act went.
    pub fn next(self, ev: &Event) -> (r: (Update, Turn))
        ensures
            (r.0.stage@, r.1@) == update_next(
                given(self.options, self.place),
                self.stage@,
                ev@,
            ),
            r.0.options == self.options,
            r.0.place == self.place,
    {
        let options: Options = self.options;
        let place: Place = self.place;
        let (stage, turn): (Stage, Turn) = match self.stage {
            Stage::AskRelease => step_release(&options, &place, ev),
            Stage::AskSource => step_source(&options, &place, ev),
            Stage::Downloading { tag } => step_download(&options, &place, tag, ev),
            Stage::Over => end(no_notes(), 1),
            Stage::FindGit => step_build(&options, &place, Stage::FindGit, ev),
            Stage::FindCargo => step_build(&options, &place, Stage::FindCargo, ev),
            Stage::Cloning => step_build(&options, &place, Stage::Cloning, ev),
            Stage::Building => step_build(&options, &place, Stage::Building, ev),
            other => step_install(&options, &place, other, ev),
        };
        (Update { options, place, stage }, turn)
    }
}

// ------------------------------------------------------------ laws

/// Being newer is strict, and passes along: no version is newer than itself,
/// no two are newer than each other, and of two that differ one is newer.
pub proof fn newer_is_a_strict_order(a: Seq<char>, b: Seq<char>, c: Seq<char>)
    ensures
        !newer(a, a),
        newer(a, b) ==> !newer(b, a),
        newer(a, b) && newer(b, c) ==> newer(a, c),
        version_of(a) != version_of(b) ==> newer(a, b) || newer(b, a),
{
}

/// A mere check changes nothing on the machine: whatever the services answer,
/// it ends or asks for another text.
pub proof fn a_check_only_asks(g: Given, ev: EventView)
    requires
        g.check,
    ensures
        update_begin(g).1.act is Fetch,
        update_begin(g).0 is AskRelease || update_begin(g).0 is AskSource,
        ({
            let (stage, turn) = update_next(g, StageView::AskRelease, ev);
            turn.act is Exit || (turn.act is Fetch && stage is AskSource)
        }),
        update_next(g, StageView::AskSource, ev).1.act is Exit,
{
}

/// Without force nothing is fetched to be installed unless it is newer than
/// what runs.
pub proof fn only_newer_versions_are_installed(g: Given, ev: EventView)
    requires
        !g.force,
    ensures
        ({
            let (stage, turn) = update_next(g, StageView::AskRelease, ev);
            turn.act is Download ==> (release_in(as_reply(ev)) matches Release::At { tag, .. }
                && newer(tag, VERSION@))
        }),
        ({
            let (stage, turn) = update_next(g, StageView::AskSource, ev);
            turn.act is Check ==> (source_in(as_reply(ev)) matches Ok(v) && newer(v, VERSION@))
        }),
{
}

/// An update ends with success only once the binary has been put in place, or
/// where nothing was to be done.
pub proof fn success_means_installed(g: Given, stage: StageView, ev: EventView)
    requires
        update_next(g, stage, ev).1.act == (ActView::Exit { code: 0 }),
    ensures
        stage is AskRelease || stage is AskSource || (ev is Success && (stage is Renaming
            || stage is Elevating)),
{
}

/// The binary is swapped whole: what is copied goes beside the installed one,
/// which changes only by a rename of a copy that is complete.
pub proof fn the_binary_is_swapped_whole(g: Given, stage: StageView, ev: EventView)
    ensures
        staged_of(g) != dest_of(g),
        update_next(g, stage, ev).1.act matches ActView::Copy { to, .. } ==> to == staged_of(g),
        update_next(g, stage, ev).1.act matches ActView::Rename { from, to } ==> from
            == staged_of(g) && to == dest_of(g) && stage is Copying && ev is Success,
{
    reveal_strlit("pv");
    reveal_strlit(".pv-new");
    reveal_strlit("/");
    assert(staged_of(g).len() == dest_of(g).len() + 5);
}

// ------------------------------------------------------------ laws of a whole run

/// The acts of an update that were answered, how far it has come, and the act
/// that waits for an answer.
pub open spec fn update_run(g: Given, evs: Seq<EventView>) -> (
    Seq<(ActView, EventView)>,
    StageView,
    ActView,
)
    decreases evs.len(),
{
    if evs.len() == 0 {
        (Seq::empty(), update_begin(g).0, update_begin(g).1.act)
    } else {
        let (steps, stage, act) = update_run(g, evs.drop_last());
        let (next, turn) = update_next(g, stage, evs.last());
        (steps.push((act, evs.last())), next, turn.act)
    }
}

/// Whether an act was answered with success.
pub open spec fn went_well(steps: Seq<(ActView, EventView)>, act: ActView) -> bool {
    exists|i: int| 0 <= i < steps.len() && (#[trigger] steps[i]).0 == act && steps[i].1 is Success
}

/// Whether only texts were asked for.
pub open spec fn only_fetched(steps: Seq<(ActView, EventView)>) -> bool {
    forall|i: int| 0 <= i < steps.len() ==> (#[trigger] steps[i]).0 is Fetch
}

/// Whether a release was downloaded: its description was fetched from the
/// repository, it is newer than what runs or was asked for by force, and the file
/// that it names lies in the temporary directory.
pub open spec fn release_fetched(g: Given, steps: Seq<(ActView, EventView)>) -> bool {
    let told = release_in(as_reply(steps[0].1));
    told is At && release_taken(g, steps, told->tag, told->url)
}

/// Whether the release with a tag was downloaded from an address.
pub open spec fn release_taken(
    g: Given,
    steps: Seq<(ActView, EventView)>,
    tag: Seq<char>,
    url: Seq<char>,
) -> bool {
    &&& steps.len() > 0
    &&& !g.source && !g.check
    &&& steps[0].0 == (ActView::Fetch {
        args: seq![
            "-fsSL"@,
            "-H"@,
            "User-Agent: pv-updater"@,
            "https://api.github.com/repos/"@ + g.repo + "/releases/latest"@,
        ],
    })
    &&& release_in(as_reply(steps[0].1)) == (Release::At { tag, url })
    &&& g.force || after(version_of(tag), version_of(VERSION@))
    &&& went_well(
        steps,
        ActView::Download {
            dir: g.tmp,
            args: seq![
                "-fSL"@,
                "-H"@,
                "User-Agent: pv-updater"@,
                "-o"@,
                joined_path(g.tmp, "pv"@),
                url,
            ],
        },
    )
}

/// Whether the program was built: both tools were there, the repository was
/// cloned into the temporary directory and built there, and its version is newer
/// than what runs or was asked for by force.
pub open spec fn source_built(g: Given, steps: Seq<(ActView, EventView)>) -> bool {
    &&& !g.check
    &&& source_wanted(g, steps)
    &&& went_well(steps, ActView::Check { tool: "git"@ })
    &&& went_well(steps, ActView::Check { tool: "cargo"@ })
    &&& went_well(
        steps,
        ActView::Clone {
            args: seq![
                "clone"@,
                "--depth"@,
                "1"@,
                "https://github.com/"@ + g.repo + ".git"@,
                g.tmp,
            ],
        },
    )
    &&& went_well(
        steps,
        ActView::Build { dir: g.tmp, binary: joined_path(g.tmp, "target/release/pv"@) },
    )
}

/// Whether the manifest of the main branch was read and states a version that is
/// newer than what runs, or any version by force.
pub open spec fn source_wanted(g: Given, steps: Seq<(ActView, EventView)>) -> bool {
    exists|i: int|
        0 <= i < steps.len() && (#[trigger] steps[i]).0 == (ActView::Fetch {
            args: seq![
                "-fsSL"@,
                "-H"@,
                "User-Agent: pv-updater"@,
                "https://raw.githubusercontent.com/"@ + g.repo + "/main/Cargo.toml"@,
            ],
        }) && (source_in(as_reply(steps[i].1)) matches Ok(v) && (g.force || after(
            version_of(v),
            version_of(VERSION@),
        )))
}

/// Whether a binary was put in place: copied beside the old one and renamed, or
/// installed by the administrator.
pub open spec fn put_in_place(
    g: Given,
    steps: Seq<(ActView, EventView)>,
    binary: Seq<char>,
) -> bool {
    ||| steps.len() >= 2 && steps[steps.len() - 2].0 == (ActView::Copy {
        from: binary,
        to: joined_path(g.dir, ".pv-new"@),
    }) && steps[steps.len() - 2].1 is Success && steps.last().0 == (ActView::Rename {
        from: joined_path(g.dir, ".pv-new"@),
        to: joined_path(g.dir, "pv"@),
    }) && steps.last().1 is Success
    ||| steps.len() >= 1 && steps.last().0 == (ActView::Sudo {
        args: seq!["install"@, "-m"@, "755"@, binary, joined_path(g.dir, "pv"@)],
    }) && steps.last().1 is Success
}

#[verifier::opaque]
spec fn wanted(g: Given, steps: Seq<(ActView, EventView)>) -> bool {
    source_wanted(g, steps)
}

#[verifier::opaque]
spec fn origin_ready(g: Given, steps: Seq<(ActView, EventView)>, origin: OriginView) -> bool {
    match origin {
        OriginView::Release { tag } => release_taken(
            g,
            steps,
            tag,
            release_in(as_reply(steps[0].1))->url,
        ),
        OriginView::Source => source_built(g, steps),
    }
}

spec fn source_fetch(g: Given) -> ActView {
    ActView::Fetch {
        args: seq![
            "-fsSL"@,
            "-H"@,
            "User-Agent: pv-updater"@,
            "https://raw.githubusercontent.com/"@ + g.repo + "/main/Cargo.toml"@,
        ],
    }
}

spec fn update_inv(
    g: Given,
    steps: Seq<(ActView, EventView)>,
    stage: StageView,
    act: ActView,
) -> bool {
    match stage {
        StageView::AskRelease => !g.source && steps.len() == 0 && act == (ActView::Fetch {
            args: seq![
                "-fsSL"@,
                "-H"@,
                "User-Agent: pv-updater"@,
                "https://api.github.com/repos/"@ + g.repo + "/releases/latest"@,
            ],
        }),
        StageView::AskSource => only_fetched(steps) && act == source_fetch(g),
        StageView::Downloading { tag } => {
            &&& steps.len() == 1
            &&& !g.source && !g.check
            &&& steps[0].0 == (ActView::Fetch {
                args: seq![
                    "-fsSL"@,
                    "-H"@,
                    "User-Agent: pv-updater"@,
                    "https://api.github.com/repos/"@ + g.repo + "/releases/latest"@,
                ],
            })
            &&& release_in(as_reply(steps[0].1)) matches Release::At { tag: t, url } && t == tag
                && act == (ActView::Download {
                dir: g.tmp,
                args: seq![
                    "-fSL"@,
                    "-H"@,
                    "User-Agent: pv-updater"@,
                    "-o"@,
                    joined_path(g.tmp, "pv"@),
                    url,
                ],
            })
            &&& g.force || after(version_of(tag), version_of(VERSION@))
        },
        StageView::Looking { origin } => origin_ready(g, steps, origin) && act is Look,
        StageView::Making { origin } => origin_ready(g, steps, origin) && act is MakeDir,
        StageView::Testing { origin } => origin_ready(g, steps, origin) && act is TestWrite,
        StageView::Copying { origin } => origin_ready(g, steps, origin) && act == (ActView::Copy {
            from: binary_of(g, origin),
            to: joined_path(g.dir, ".pv-new"@),
        }),
        StageView::Renaming { origin } => origin_ready(g, steps, origin) && steps.len() > 0
            && steps.last().0 == (ActView::Copy {
            from: binary_of(g, origin),
            to: joined_path(g.dir, ".pv-new"@),
        }) && steps.last().1 is Success && act == (ActView::Rename {
            from: joined_path(g.dir, ".pv-new"@),
            to: joined_path(g.dir, "pv"@),
        }),
        StageView::Elevating { origin } => origin_ready(g, steps, origin) && act == (ActView::Sudo {
            args: seq![
                "install"@,
                "-m"@,
                "755"@,
                binary_of(g, origin),
                joined_path(g.dir, "pv"@),
            ],
        }),
        StageView::FindGit => !g.check && wanted(g, steps) && act == (ActView::Check {
            tool: "git"@,
        }),
        StageView::FindCargo => !g.check && wanted(g, steps) && went_well(
            steps,
            ActView::Check { tool: "git"@ },
        ) && act == (ActView::Check { tool: "cargo"@ }),
        StageView::Cloning => !g.check && wanted(g, steps) && went_well(
            steps,
            ActView::Check { tool: "git"@ },
        ) && went_well(steps, ActView::Check { tool: "cargo"@ }) && act == (ActView::Clone {
            args: seq![
                "clone"@,
                "--depth"@,
                "1"@,
                "https://github.com/"@ + g.repo + ".git"@,
                g.tmp,
            ],
        }),
        StageView::Building => !g.check && wanted(g, steps) && went_well(
            steps,
            ActView::Check { tool: "git"@ },
        ) && went_well(steps, ActView::Check { tool: "cargo"@ }) && went_well(
            steps,
            ActView::Clone {
                args: seq![
                    "clone"@,
                    "--depth"@,
                    "1"@,
                    "https://github.com/"@ + g.repo + ".git"@,
                    g.tmp,
                ],
            },
        ) && act == (ActView::Build {
            dir: g.tmp,
            binary: joined_path(g.tmp, "target/release/pv"@),
        }),
        StageView::Over => act is Exit && (act->code == 0 ==> only_fetched(steps)
            || installed_well(g, steps)),
    }
}

spec fn installed_well(g: Given, steps: Seq<(ActView, EventView)>) -> bool {
    ||| release_fetched(g, steps) && put_in_place(g, steps, joined_path(g.tmp, "pv"@))
    ||| source_built(g, steps) && put_in_place(g, steps, joined_path(g.tmp, "target/release/pv"@))
}

proof fn lemma_went_well(g: Given, steps: Seq<(ActView, EventView)>, x: (ActView, EventView))
    ensures
        forall|a: ActView| went_well(steps, a) ==> #[trigger] went_well(steps.push(x), a),
        x.1 is Success ==> went_well(steps.push(x), x.0),
        source_wanted(g, steps) ==> source_wanted(g, steps.push(x)),
{
    let next = steps.push(x);
    assert(next[steps.len() as int] == x);
    assert forall|a: ActView| went_well(steps, a) implies #[trigger] went_well(next, a) by {
        let i = choose|i: int|
            0 <= i < steps.len() && (#[trigger] steps[i]).0 == a && steps[i].1 is Success;
        assert(next[i] == steps[i]);
    }
    if source_wanted(g, steps) {
        let i = choose|i: int|
            0 <= i < steps.len() && (#[trigger] steps[i]).0 == source_fetch(g) && (source_in(
                as_reply(steps[i].1),
            ) matches Ok(v) && (g.force || after(version_of(v), version_of(VERSION@))));
        assert(next[i] == steps[i]);
    }
}

proof fn lemma_origin_kept(
    g: Given,
    steps: Seq<(ActView, EventView)>,
    x: (ActView, EventView),
    origin: OriginView,
)
    requires
        origin_ready(g, steps, origin),
    ensures
        origin_ready(g, steps.push(x), origin),
{
    reveal(origin_ready);
    lemma_went_well(g, steps, x);
    if origin is Release {
        assert(steps.push(x)[0] == steps[0]);
    }
}

proof fn lemma_downloaded(
    g: Given,
    steps: Seq<(ActView, EventView)>,
    tag: Seq<char>,
    act: ActView,
    ev: EventView,
)
    requires
        update_inv(g, steps, StageView::Downloading { tag }, act),
        ev is Success,
    ensures
        origin_ready(g, steps.push((act, ev)), OriginView::Release { tag }),
{
    let next = steps.push((act, ev));
    let url = release_in(as_reply(steps[0].1))->url;
    reveal(origin_ready);
    assert(next[0] == steps[0]);
    assert(next[1] == (act, ev));
    assert(went_well(next, act));
    assert(release_taken(g, next, tag, url));
}

proof fn lemma_placed(
    g: Given,
    steps: Seq<(ActView, EventView)>,
    origin: OriginView,
)
    requires
        origin_ready(g, steps, origin),
        put_in_place(g, steps, binary_of(g, origin)),
    ensures
        installed_well(g, steps),
{
    reveal(origin_ready);
}

proof fn lemma_ask_step(
    g: Given,
    steps: Seq<(ActView, EventView)>,
    stage: StageView,
    act: ActView,
    ev: EventView,
)
    requires
        update_inv(g, steps, stage, act),
        stage is AskRelease || stage is AskSource,
    ensures
        update_inv(
            g,
            steps.push((act, ev)),
            update_next(g, stage, ev).0,
            update_next(g, stage, ev).1.act,
        ),
{
    let x = (act, ev);
    let next = steps.push(x);
    let n = steps.len() as int;
    assert(next[n] == x);
    if n > 0 {
        assert(next[0] == steps[0]);
    }
    assert(only_fetched(next)) by {
        assert forall|i: int| 0 <= i < next.len() implies (#[trigger] next[i]).0 is Fetch by {
            if i < n {
                assert(next[i] == steps[i]);
            }
        }
    }
    if stage is AskSource && update_next(g, stage, ev).0 is FindGit {
        assert(next[n].0 == source_fetch(g));
        assert(source_wanted(g, next));
        reveal(wanted);
    }
}

proof fn lemma_wanted_kept(g: Given, steps: Seq<(ActView, EventView)>, x: (ActView, EventView))
    ensures
        wanted(g, steps) ==> wanted(g, steps.push(x)),
        forall|a: ActView| went_well(steps, a) ==> #[trigger] went_well(steps.push(x), a),
        x.1 is Success ==> went_well(steps.push(x), x.0),
{
    reveal(wanted);
    lemma_went_well(g, steps, x);
}

proof fn lemma_built(g: Given, steps: Seq<(ActView, EventView)>)
    requires
        !g.check,
        wanted(g, steps),
        went_well(steps, ActView::Check { tool: "git"@ }),
        went_well(steps, ActView::Check { tool: "cargo"@ }),
        went_well(
            steps,
            ActView::Clone {
                args: seq![
                    "clone"@,
                    "--depth"@,
                    "1"@,
                    "https://github.com/"@ + g.repo + ".git"@,
                    g.tmp,
                ],
            },
        ),
        went_well(
            steps,
            ActView::Build { dir: g.tmp, binary: joined_path(g.tmp, "target/release/pv"@) },
        ),
    ensures
        origin_ready(g, steps, OriginView::Source),
{
    reveal(wanted);
    reveal(origin_ready);
}

proof fn lemma_build_step(
    g: Given,
    steps: Seq<(ActView, EventView)>,
    stage: StageView,
    act: ActView,
    ev: EventView,
)
    requires
        update_inv(g, steps, stage, act),
        stage is FindGit || stage is FindCargo || stage is Cloning || stage is Building,
    ensures
        update_inv(
            g,
            steps.push((act, ev)),
            update_next(g, stage, ev).0,
            update_next(g, stage, ev).1.act,
        ),
{
    let x = (act, ev);
    let next = steps.push(x);
    let n = steps.len() as int;
    assert(next[n] == x);
    lemma_wanted_kept(g, steps, x);
    if stage is Building && ev is Success {
        lemma_built(g, next);
    }
}

proof fn lemma_install_step(
    g: Given,
    steps: Seq<(ActView, EventView)>,
    stage: StageView,
    act: ActView,
    ev: EventView,
)
    requires
        update_inv(g, steps, stage, act),
        stage is Looking || stage is Making || stage is Testing || stage is Copying,
    ensures
        update_inv(
            g,
            steps.push((act, ev)),
            update_next(g, stage, ev).0,
            update_next(g, stage, ev).1.act,
        ),
{
    let next = steps.push((act, ev));
    let origin = match stage {
        StageView::Looking { origin } => origin,
        StageView::Making { origin } => origin,
        StageView::Testing { origin } => origin,
        StageView::Copying { origin } => origin,
        _ => OriginView::Source,
    };
    lemma_origin_kept(g, steps, (act, ev), origin);
    assert(next.last() == (act, ev));
}

proof fn lemma_last_step(
    g: Given,
    steps: Seq<(ActView, EventView)>,
    stage: StageView,
    act: ActView,
    ev: EventView,
)
    requires
        update_inv(g, steps, stage, act),
        stage is Renaming || stage is Elevating,
    ensures
        update_inv(
            g,
            steps.push((act, ev)),
            update_next(g, stage, ev).0,
            update_next(g, stage, ev).1.act,
        ),
{
    let x = (act, ev);
    let next = steps.push(x);
    let n = steps.len() as int;
    assert(next[n] == x);
    let origin = if stage is Renaming {
        stage->Renaming_origin
    } else {
        stage->Elevating_origin
    };
    lemma_origin_kept(g, steps, x, origin);
    if ev is Success {
        if n > 0 {
            assert(next[next.len() - 2] == steps.last());
        }
        assert(put_in_place(g, next, binary_of(g, origin)));
        lemma_placed(g, next, origin);
    }
}

proof fn lemma_update_step(
    g: Given,
    steps: Seq<(ActView, EventView)>,
    stage: StageView,
    act: ActView,
    ev: EventView,
)
    requires
        update_inv(g, steps, stage, act),
    ensures
        update_inv(
            g,
            steps.push((act, ev)),
            update_next(g, stage, ev).0,
            update_next(g, stage, ev).1.act,
        ),
{
    match stage {
        StageView::AskRelease | StageView::AskSource => lemma_ask_step(g, steps, stage, act, ev),
        StageView::Downloading { tag } => {
            if ev is Success {
                lemma_downloaded(g, steps, tag, act, ev);
            }
        },
        StageView::Renaming { .. } | StageView::Elevating { .. } => lemma_last_step(
            g,
            steps,
            stage,
            act,
            ev,
        ),
        StageView::FindGit | StageView::FindCargo | StageView::Cloning | StageView::Building =>
        lemma_build_step(g, steps, stage, act, ev),
        StageView::Over => {},
        _ => lemma_install_step(g, steps, stage, act, ev),
    }
}

proof fn lemma_update_run(g: Given, evs: Seq<EventView>)
    ensures
        ({
            let (steps, stage, act) = update_run(g, evs);
            steps.len() == evs.len() && update_inv(g, steps, stage, act)
        }),
    decreases evs.len(),
{
    if evs.len() > 0 {
        lemma_update_run(g, evs.drop_last());
        let (steps, stage, act) = update_run(g, evs.drop_last());
        lemma_update_step(g, steps, stage, act, evs.last());
    }
}

/// An update that succeeds has either only asked for versions, or has put in
/// place the binary that it downloaded or built: the one of the release that the
/// repository describes, or of its main branch, and newer than what runs unless
/// by force.
pub proof fn an_update_installs_what_it_fetched(g: Given, evs: Seq<EventView>)
    requires
        update_run(g, evs).2 == (ActView::Exit { code: 0 }),
    ensures
        ({
            let steps = update_run(g, evs).0;
            ||| only_fetched(steps)
            ||| release_fetched(g, steps) && put_in_place(g, steps, joined_path(g.tmp, "pv"@))
            ||| source_built(g, steps) && put_in_place(
                g,
                steps,
                joined_path(g.tmp, "target/release/pv"@),
            )
        }),
{
    lemma_update_run(g, evs);
}

/// A newer release is downloaded from where it is said to lie, unless this is only
/// a check; one that is not newer is left, unless by force; and without a release
/// the main branch is asked.
pub proof fn newer_releases_are_fetched(g: Given, ev: EventView)
    ensures
        ({
            let turn = update_next(g, StageView::AskRelease, ev).1;
            match release_in(as_reply(ev)) {
                Release::At { tag, url } => if !g.check && (g.force || newer(tag, VERSION@)) {
                    turn.act is Download && turn.act->Download_args.last() == url
                } else {
                    turn.act == (ActView::Exit { code: 0 })
                },
                _ => turn.act == (ActView::Fetch {
                    args: seq![
                        "-fsSL"@,
                        "-H"@,
                        "User-Agent: pv-updater"@,
                        "https://raw.githubusercontent.com/"@ + g.repo + "/main/Cargo.toml"@,
                    ],
                }),
            }
        }),
{
    match release_in(as_reply(ev)) {
        Release::At { tag, url } => {
            assert(download_line(g, url).last() == url);
        },
        _ => {},
    }
}

/// A newer main branch is built, unless this is only a check; one that is not
/// newer is left, unless by force; and one whose version cannot be read fails the
/// update.
pub proof fn a_newer_main_branch_is_built(g: Given, ev: EventView)
    ensures
        ({
            let turn = update_next(g, StageView::AskSource, ev).1;
            match source_in(as_reply(ev)) {
                Ok(v) => if !g.check && (g.force || newer(v, VERSION@)) {
                    turn.act == (ActView::Check { tool: "git"@ })
                } else {
                    turn.act == (ActView::Exit { code: 0 })
                },
                Err(e) => turn.act == (ActView::Exit { code: 1 }),
            }
        }),
{
}

/// What fails on the way ends the update with failure, and what was left in the
/// temporary directory is cleared away.
pub proof fn failures_end_an_update(g: Given, stage: StageView, ev: EventView)
    requires
        !(ev is Success),
        stage is Downloading || stage is Making || stage is Copying || stage is Renaming || stage
            is Elevating || stage is FindGit || stage is FindCargo || stage is Cloning || stage
            is Building,
    ensures
        update_next(g, stage, ev).1.act == (ActView::Exit { code: 1 }),
        !(stage is FindGit) && !(stage is FindCargo) ==> update_next(g, stage, ev).1.clean,
{
}

/// A version comes after another where its first number that differs is greater.
pub proof fn versions_compare_by_their_first_difference(a: Seq<char>, b: Seq<char>)
    ensures
        ({
            let ((a0, a1, a2), (b0, b1, b2)) = (version_of(a), version_of(b));
            newer(a, b) <==> if a0 != b0 {
                a0 > b0
            } else if a1 != b1 {
                a1 > b1
            } else {
                a2 > b2
            }
        }),
{
}

/// An update goes to `/usr/local/bin` where it is for the system or the program
/// lies there already, and otherwise to `.local/bin` below the home directory.
pub proof fn updates_go_where_the_program_lies(
    exe: Option<Seq<char>>,
    home: Option<Seq<char>>,
)
    ensures
        target_dir(true, exe, home) == "/usr/local/bin"@,
        exe is Some && components("/usr/local/bin"@).is_prefix_of(components(exe->0))
            ==> target_dir(false, exe, home) == "/usr/local/bin"@,
        !(exe is Some && components("/usr/local/bin"@).is_prefix_of(components(exe->0)))
            ==> target_dir(false, exe, home) == joined_path(
            if home is Some {
                home->0
            } else {
                "/tmp"@
            },
            ".local/bin"@,
        ),
{
}

proof fn lemma_trim_digits(s: Seq<char>)
    requires
        s.len() > 0,
        !is_space(s[0]),
        !is_space(s.last()),
    ensures
        trimmed(s) == s,
{
}

/// A version is read as the three numbers that it is written with, a `v` before
/// them or not.
pub proof fn versions_read_back(x: nat, y: nat, z: nat)
    requires
        x <= u32::MAX,
        y <= u32::MAX,
        z <= u32::MAX,
    ensures
        version_of(decimal(x) + "."@ + decimal(y) + "."@ + decimal(z)) == (x, y, z),
        version_of("v"@ + (decimal(x) + "."@ + decimal(y) + "."@ + decimal(z))) == (x, y, z),
{
    reveal_strlit(".");
    reveal_strlit("v");
    let (a, b, c) = (decimal(x), decimal(y), decimal(z));
    numerals_are_digits(x);
    numerals_are_digits(y);
    numerals_are_digits(z);
    numeral_reads_back(x, u32::MAX as nat);
    numeral_reads_back(y, u32::MAX as nat);
    numeral_reads_back(z, u32::MAX as nat);
    let s = a + "."@ + b + "."@ + c;
    let w = "v"@ + s;
    assert(s[0] == a[0]);
    assert(s.last() == c.last());
    assert(w[0] == 'v');
    assert(w.last() == c.last());
    assert(s =~= a + seq!['.'] + (b + seq!['.'] + c));
    lemma_trim_digits(s);
    lemma_trim_digits(w);
    lemma_trim_digits(a);
    lemma_trim_digits(b);
    lemma_trim_digits(c);
    assert(stripped_start(s, 'v') == s);
    assert(w.drop_first() =~= s);
    assert(stripped_start(w, 'v') == stripped_start(s, 'v'));
    pieces_part_at_the_separator(a, b + seq!['.'] + c, '.');
    pieces_part_at_the_separator(b, c, '.');
    pieces_of_one(c, '.');
    let parts = pieces_of(s, '.');
    assert(parts =~= seq![a, b, c]);
}

/// A manifest states its version between quotes behind the word, and the
/// first line that does counts.
pub proof fn manifests_state_their_version(list: Seq<Seq<char>>, at: int, v: Seq<char>)
    requires
        0 <= at < list.len(),
        list[at] == "version = \""@ + v + "\""@,
        v.len() > 0,
        v[0] != '"',
        v.last() != '"',
        forall|i: int| 0 <= i < at ==> !begins(#[trigger] list[i], "version"@),
    ensures
        manifest_version(list) == Some(v),
    decreases at,
{
    if at > 0 {
        let rest = list.drop_first();
        assert(!begins(list[0], "version"@));
        assert forall|i: int| 0 <= i < at - 1 implies !begins(#[trigger] rest[i], "version"@) by {
            assert(rest[i] == list[i + 1]);
        }
        manifests_state_their_version(rest, at - 1, v);
    } else {
        lemma_line_version(v);
    }
}

proof fn lemma_line_version(v: Seq<char>)
    requires
        v.len() > 0,
        v[0] != '"',
        v.last() != '"',
    ensures
        line_version("version = \""@ + v + "\""@) == Some(v),
{
    reveal_strlit("version = \"");
    reveal_strlit("version");
    reveal_strlit("\"");
    reveal_strlit("=");
    let line = "version = \""@ + v + "\""@;
    let quoted = seq!['"'] + v + seq!['"'];
    let stated = seq!['=', ' '] + quoted;
    assert(line.take(7) =~= "version"@);
    let behind = line.skip(7);
    assert(behind =~= seq![' '] + stated + Seq::empty());
    assert(!is_space(stated[0]));
    assert(stated.last() == '"');
    trimming_takes_only_white_space(seq![' '], stated, Seq::empty());
    assert(stated.take(1) =~= "="@);
    let value = stated.skip(1);
    assert(value =~= seq![' '] + quoted + Seq::empty());
    assert(quoted[0] == '"' && quoted.last() == '"');
    trimming_takes_only_white_space(seq![' '], quoted, Seq::empty());
    assert(quoted =~= seq!['"'] + v.push('"'));
    assert(v.push('"')[0] == v[0]);
    characters_are_stripped_from_the_ends(v.push('"'), '"');
    characters_are_stripped_from_the_ends(v, '"');
}

/// A directory is on the search path where it stands there between colons.
pub proof fn directories_are_looked_up_on_the_path(before: Seq<char>, dir: Seq<char>)
    requires
        forall|i: int| 0 <= i < before.len() ==> #[trigger] before[i] != ':',
        forall|i: int| 0 <= i < dir.len() ==> #[trigger] dir[i] != ':',
    ensures
        in_path(Some(before + seq![':'] + dir), dir),
        in_path(Some(before), dir) <==> before == dir,
        !in_path(None, dir),
{
    pieces_part_at_the_separator(before, dir, ':');
    pieces_of_one(dir, ':');
    pieces_of_one(before, ':');
    let both = seq![before] + seq![dir];
    assert(both[1] == dir);
    assert(seq![before][0] == before);
}

} // verus!
