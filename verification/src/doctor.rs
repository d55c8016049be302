//! The preflight: which outside tools and settings are there, and which
//! features go dark where one is not.

use vstd::prelude::*;

use crate::display::{cell_text, painted, section_text, Theme};
use crate::fixed::{dec64, decimal};
use crate::scan::{begins, pieces, pieces_of};
use crate::text::{
    cat2, cat3, cat5, cat7, joined_path, opt_text, owned, path_join, push_all, push_text, same, texts,
};

verus! {

/// A tool that is looked for.
pub struct Probe {
    pub tool: &'static str,
    pub required: bool,
    pub used_for: &'static str,
}

#[verifier::ext_equal]
pub struct ProbeView {
    pub tool: Seq<char>,
    pub required: bool,
    pub used_for: Seq<char>,
}

impl View for Probe {
    type V = ProbeView;

    open spec fn view(&self) -> ProbeView {
        ProbeView { tool: self.tool@, required: self.required, used_for: self.used_for@ }
    }
}

pub open spec fn probe_views(v: Seq<Probe>) -> Seq<ProbeView> {
    v.map_values(|p: Probe| p@)
}

pub open spec fn required(tool: Seq<char>, used_for: Seq<char>) -> ProbeView {
    ProbeView { tool, required: true, used_for }
}

pub open spec fn optional(tool: Seq<char>, used_for: Seq<char>) -> ProbeView {
    ProbeView { tool, required: false, used_for }
}

/// The tools that are looked for.
pub open spec fn probe_table() -> Seq<ProbeView> {
    seq![
        required("curl"@, "Groq inference, pv update"@),
        required("sha256sum"@, "update checksum verification"@),
        optional("ssh"@, "pv migrate, pv run --remote"@),
        optional("rsync"@, "pv migrate file copy"@),
        optional("git"@, "pv update --source"@),
        optional("cargo"@, "pv update --source"@),
        optional("notify-send"@, "desktop valve notifications"@),
        optional("getconf"@, "precise CPU tick rate"@),
        optional("renice"@, "policy throttle actions"@),
        optional("ionice"@, "policy throttle actions"@),
        optional("stty"@, "pv live terminal size"@),
    ]
}

fn push_probe(out: &mut Vec<Probe>, tool: &'static str, required: bool, used_for: &'static str)
    ensures
        probe_views(final(out)@) == probe_views(old(out)@).push(
            (ProbeView { tool: tool@, required, used_for: used_for@ }),
        ),
{
    let ghost before = probe_views(out@);
    let p: Probe = Probe { tool, required, used_for };
    out.push(p);
    assert(probe_views(out@) =~= before.push(p@));
}

pub fn probes() -> (r: Vec<Probe>)
    ensures
        probe_views(r@) == probe_table(),
{
    let mut out: Vec<Probe> = Vec::new();
    push_probe(&mut out, "curl", true, "Groq inference, pv update");
    push_probe(&mut out, "sha256sum", true, "update checksum verification");
    push_probe(&mut out, "ssh", false, "pv migrate, pv run --remote");
    push_probe(&mut out, "rsync", false, "pv migrate file copy");
    push_probe(&mut out, "git", false, "pv update --source");
    push_probe(&mut out, "cargo", false, "pv update --source");
    push_probe(&mut out, "notify-send", false, "desktop valve notifications");
    push_probe(&mut out, "getconf", false, "precise CPU tick rate");
    push_probe(&mut out, "renice", false, "policy throttle actions");
    push_probe(&mut out, "ionice", false, "policy throttle actions");
    push_probe(&mut out, "stty", false, "pv live terminal size");
    assert(probe_views(out@) =~= probe_table());
    out
}

// ------------------------------------------------------------ looking for a tool

/// Where a tool may lie: in each directory of the search path.
pub open spec fn places(dirs: Seq<Seq<char>>, tool: Seq<char>) -> Seq<Seq<char>> {
    dirs.map_values(|d: Seq<char>| joined_path(d, tool))
}

/// The files that a tool may be, in order: none where there is no search path.
pub fn candidates(tool: &str, path: &Option<String>) -> (r: Vec<String>)
    ensures
        texts(r@) == (match opt_text(*path) {
            Some(p) => places(pieces_of(p, ':'), tool@),
            None => Seq::empty(),
        }),
{
    let mut out: Vec<String> = Vec::new();
    match path {
        None => {
            assert(texts(out@) =~= Seq::empty());
            out
        },
        Some(p) => {
            let dirs: Vec<String> = pieces(p.as_str(), ':');
            let ghost all = texts(dirs@);
            let mut i: usize = 0;
            assert(texts(out@) =~= places(all.take(0), tool@));
            while i < dirs.len()
                invariant
                    i <= dirs.len(),
                    all == texts(dirs@),
                    texts(out@) == places(all.take(i as int), tool@),
                decreases dirs.len() - i,
            {
                let ghost before = texts(out@);
                push_text(&mut out, path_join(dirs[i].as_str(), tool));
                proof {
                    assert(all[i as int] == dirs@[i as int]@);
                    assert(texts(out@) =~= places(all.take(i as int + 1), tool@));
                }
                i = i + 1;
            }
            assert(all.take(i as int) =~= all);
            out
        },
    }
}

/// What lies at a place: whether it is a regular file, and its mode.
#[derive(Debug, Clone, Copy)]
pub struct FileKind {
    pub is_file: bool,
    pub mode: u32,
}

/// Whether something is a regular file that someone may execute.
pub open spec fn executable(f: Option<FileKind>) -> bool {
    match f {
        Some(k) => k.is_file && k.mode & 0o111 != 0,
        None => false,
    }
}

/// Whether a tool resolves to an executable regular file, by what lies at the
/// places where it may be.
pub fn on_path(found: &Vec<Option<FileKind>>) -> (r: bool)
    ensures
        r == exists|i: int| 0 <= i < found@.len() && executable(#[trigger] found@[i]),
{
    let mut i: usize = 0;
    while i < found.len()
        invariant
            i <= found.len(),
            forall|j: int| 0 <= j < i ==> !executable(#[trigger] found@[j]),
        decreases found.len() - i,
    {
        if let Some(k) = found[i] {
            if k.is_file && k.mode & 0o111 != 0 {
                assert(executable(found@[i as int]));
                return true;
            }
        }
        i = i + 1;
    }
    false
}

// ------------------------------------------------------------ the report

/// What was found.
pub struct Findings {
    /// The tools that are there.
    pub tools: Vec<String>,
    pub cgroup: bool,
    pub groq_key: bool,
    pub hosts: bool,
    pub policies: bool,
}

/// The tools that are there.
pub open spec fn ready(f: Findings, tool: Seq<char>) -> bool {
    texts(f.tools@).contains(tool)
}

/// How many of the tools are missing, of those required or of the others.
pub open spec fn missing(list: Seq<ProbeView>, f: Findings, needed: bool) -> nat
    decreases list.len(),
{
    if list.len() == 0 {
        0
    } else {
        let p = list.last();
        missing(list.drop_last(), f, needed) + (if !ready(f, p.tool) && p.required == needed {
            1nat
        } else {
            0
        })
    }
}

/// The line of a tool.
pub open spec fn probe_line(t: Theme, f: Findings, p: ProbeView) -> Seq<char> {
    let status = if ready(f, p.tool) {
        painted(t, "32"@, cell_text("ready"@, 10))
    } else if p.required {
        painted(t, "31"@, cell_text("required"@, 10))
    } else {
        painted(t, "33"@, cell_text("missing"@, 10))
    };
    let need = if p.required {
        "core"@
    } else {
        "opt "@
    };
    " "@ + cell_text(p.tool, 12) + "  "@ + status + "  "@ + painted(t, "2"@, cell_text(need, 4))
        + "  "@ + painted(t, "2"@, p.used_for)
}

pub open spec fn probe_lines(t: Theme, f: Findings, list: Seq<ProbeView>) -> Seq<Seq<char>> {
    list.map_values(|p: ProbeView| probe_line(t, f, p))
}

/// The line of a setting: its name, its status in a colour, what it is for.
pub open spec fn item_line(
    t: Theme,
    name: Seq<char>,
    code: Seq<char>,
    status: Seq<char>,
    what: Seq<char>,
) -> Seq<char> {
    " "@ + cell_text(name, 12) + "  "@ + painted(t, code, cell_text(status, 12)) + "  "@ + painted(
        t,
        "2"@,
        what,
    )
}

pub open spec fn setting_line(
    t: Theme,
    name: Seq<char>,
    there: bool,
    code: Seq<char>,
    absent: Seq<char>,
    what: Seq<char>,
) -> Seq<char> {
    if there {
        item_line(t, name, "32"@, "ready"@, what)
    } else {
        item_line(t, name, code, absent, what)
    }
}

/// The verdict, by how many tools are missing.
pub open spec fn verdict(t: Theme, core_missing: nat, other_missing: nat) -> Seq<char> {
    if core_missing > 0 {
        painted(
            t,
            "31"@,
            decimal(core_missing)
                + " required tool(s) missing — inference and update will fail"@,
        )
    } else if other_missing > 0 {
        painted(
            t,
            "33"@,
            "core ready; "@ + decimal(other_missing)
                + " optional tool(s) missing (features above degrade gracefully)"@,
        )
    } else {
        painted(t, "32"@, "all systems nominal — valve seated"@)
    }
}

pub open spec fn tool_head(t: Theme) -> Seq<Seq<char>> {
    seq![
        section_text(t, "pv doctor — environment preflight"@),
        " "@ + painted(t, "1"@, cell_text("TOOL"@, 12)) + "  "@ + painted(
            t,
            "1"@,
            cell_text("STATUS"@, 10),
        ) + "  "@ + painted(t, "1"@, cell_text("TIER"@, 4)) + "  PURPOSE"@,
    ]
}

pub open spec fn settings(t: Theme, f: Findings) -> Seq<Seq<char>> {
    seq![
        ""@,
        section_text(t, "kernel capabilities"@),
        setting_line(
            t,
            "cgroup v2"@,
            f.cgroup,
            "33"@,
            "unavailable"@,
            "atomic process-tree freeze/thaw"@,
        ),
        ""@,
        section_text(t, "configuration"@),
        " "@ + painted(t, "1"@, cell_text("ITEM"@, 12)) + "  "@ + painted(
            t,
            "1"@,
            cell_text("STATUS"@, 12),
        ) + "  PURPOSE"@,
        setting_line(
            t,
            "groq key"@,
            f.groq_key,
            "33"@,
            "not set"@,
            "inference ($GROQ_API_KEY or ~/.config/pv/groq_api_key)"@,
        ),
        setting_line(t, "hosts.toml"@, f.hosts, "2"@, "not created"@, "pv migrate targets"@),
        setting_line(
            t,
            "policies.toml"@,
            f.policies,
            "2"@,
            "not created"@,
            "custom pressure policies"@,
        ),
        ""@,
    ]
}

/// The whole report.
pub open spec fn report_lines(t: Theme, f: Findings) -> Seq<Seq<char>> {
    (tool_head(t) + probe_lines(t, f, probe_table()) + settings(t, f)).push(
        verdict(t, missing(probe_table(), f, true), missing(probe_table(), f, false)),
    )
}

fn has_tool(f: &Findings, tool: &str) -> (r: bool)
    ensures
        r == ready(*f, tool@),
{
    let ghost all = texts(f.tools@);
    let mut i: usize = 0;
    while i < f.tools.len()
        invariant
            i <= f.tools.len(),
            all == texts(f.tools@),
            forall|j: int| 0 <= j < i ==> #[trigger] all[j] != tool@,
        decreases f.tools.len() - i,
    {
        assert(all[i as int] == f.tools@[i as int]@);
        if same(f.tools[i].as_str(), tool) {
            return true;
        }
        i = i + 1;
    }
    assert(all.len() == f.tools@.len());
    false
}

fn line_of(t: &Theme, p: &Probe, there: bool, f: &Findings) -> (r: String)
    requires
        there == ready(*f, p.tool@),
    ensures
        r@ == probe_line(*t, *f, p@),
{
    let status: String = if there {
        t.green(t.cell("ready", 10).as_str())
    } else if p.required {
        t.red(t.cell("required", 10).as_str())
    } else {
        t.yellow(t.cell("missing", 10).as_str())
    };
    let need: &str = if p.required {
        "core"
    } else {
        "opt "
    };
    cat2(
        cat7(
            " ",
            t.cell(p.tool, 12).as_str(),
            "  ",
            status.as_str(),
            "  ",
            t.dim(t.cell(need, 4).as_str()).as_str(),
            "  ",
        ).as_str(),
        t.dim(p.used_for).as_str(),
    )
}

fn item(t: &Theme, name: &str, code: &str, status: &str, what: &str) -> (r: String)
    ensures
        r@ == item_line(*t, name@, code@, status@, what@),
{
    let s: String = t.paint(code, t.cell(status, 12).as_str());
    cat2(
        cat5(" ", t.cell(name, 12).as_str(), "  ", s.as_str(), "  ").as_str(),
        t.dim(what).as_str(),
    )
}

fn setting(t: &Theme, name: &str, there: bool, code: &str, absent: &str, what: &str) -> (r: String)
    ensures
        r@ == setting_line(*t, name@, there, code@, absent@, what@),
{
    if there {
        item(t, name, "32", "ready", what)
    } else {
        item(t, name, code, absent, what)
    }
}

fn setting_part(t: &Theme, f: &Findings) -> (r: Vec<String>)
    ensures
        texts(r@) == settings(*t, *f),
{
    let mut out: Vec<String> = Vec::new();
    push_text(&mut out, owned(""));
    push_text(&mut out, t.section("kernel capabilities"));
    push_text(
        &mut out,
        setting(t, "cgroup v2", f.cgroup, "33", "unavailable", "atomic process-tree freeze/thaw"),
    );
    push_text(&mut out, owned(""));
    push_text(&mut out, t.section("configuration"));
    let item_head: String = t.table_header(t.cell("ITEM", 12).as_str());
    let status_head: String = t.table_header(t.cell("STATUS", 12).as_str());
    push_text(
        &mut out,
        cat5(" ", item_head.as_str(), "  ", status_head.as_str(), "  PURPOSE"),
    );
    push_text(
        &mut out,
        setting(
            t,
            "groq key",
            f.groq_key,
            "33",
            "not set",
            "inference ($GROQ_API_KEY or ~/.config/pv/groq_api_key)",
        ),
    );
    push_text(
        &mut out,
        setting(t, "hosts.toml", f.hosts, "2", "not created", "pv migrate targets"),
    );
    push_text(
        &mut out,
        setting(t, "policies.toml", f.policies, "2", "not created", "custom pressure policies"),
    );
    push_text(&mut out, owned(""));
    assert(texts(out@) =~= settings(*t, *f));
    out
}

fn say_verdict(t: &Theme, core_missing: u64, other_missing: u64) -> (r: String)
    ensures
        r@ == verdict(*t, core_missing as nat, other_missing as nat),
{
    if core_missing > 0 {
        t.red(
            cat2(
                dec64(core_missing).as_str(),
                " required tool(s) missing — inference and update will fail",
            ).as_str(),
        )
    } else if other_missing > 0 {
        t.yellow(
            cat3(
                "core ready; ",
                dec64(other_missing).as_str(),
                " optional tool(s) missing (features above degrade gracefully)",
            ).as_str(),
        )
    } else {
        t.green("all systems nominal — valve seated")
    }
}

/// The report and the exit code: failure only where a required tool is
/// missing.
pub fn run(t: &Theme, f: &Findings) -> (r: (Vec<String>, i32))
    ensures
        texts(r.0@) == report_lines(*t, *f),
        r.1 == (if missing(probe_table(), *f, true) > 0 {
            1int
        } else {
            0
        }),
{
    let list: Vec<Probe> = probes();
    let ghost table = probe_table();
    assert(list@.len() == table.len());
    let mut out: Vec<String> = Vec::new();
    push_text(&mut out, t.section("pv doctor — environment preflight"));
    let tool_title: String = t.table_header(t.cell("TOOL", 12).as_str());
    let status_title: String = t.table_header(t.cell("STATUS", 10).as_str());
    let tier_title: String = t.table_header(t.cell("TIER", 4).as_str());
    push_text(
        &mut out,
        cat7(
            " ",
            tool_title.as_str(),
            "  ",
            status_title.as_str(),
            "  ",
            tier_title.as_str(),
            "  PURPOSE",
        ),
    );
    assert(texts(out@) =~= tool_head(*t));
    let mut core_missing: u64 = 0;
    let mut other_missing: u64 = 0;
    let mut i: usize = 0;
    assert(texts(out@) =~= tool_head(*t) + probe_lines(*t, *f, table.take(0)));
    while i < list.len()
        invariant
            i <= list.len(),
            list@.len() == 11,
            table == probe_views(list@),
            core_missing == missing(table.take(i as int), *f, true),
            other_missing == missing(table.take(i as int), *f, false),
            core_missing + other_missing <= i,
            texts(out@) == tool_head(*t) + probe_lines(*t, *f, table.take(i as int)),
        decreases list.len() - i,
    {
        let ghost before = texts(out@);
        proof {
            assert(table.take(i as int + 1).drop_last() =~= table.take(i as int));
            assert(table.take(i as int + 1).last() == list@[i as int]@);
        }
        let there: bool = has_tool(f, list[i].tool);
        if !there {
            if list[i].required {
                core_missing = core_missing + 1;
            } else {
                other_missing = other_missing + 1;
            }
        }
        push_text(&mut out, line_of(t, &list[i], there, f));
        assert(texts(out@) =~= tool_head(*t) + probe_lines(*t, *f, table.take(i as int + 1)));
        i = i + 1;
    }
    assert(table.take(i as int) =~= table);
    push_all(&mut out, &setting_part(t, f));
    push_text(&mut out, say_verdict(t, core_missing, other_missing));
    let code: i32 = if core_missing > 0 {
        1
    } else {
        0
    };
    (out, code)
}

/// The preflight fails exactly where a required tool is missing, however many
/// optional ones are.
pub proof fn only_required_tools_fail_the_preflight(f: Findings)
    ensures
        missing(probe_table(), f, true) == 0 <==> ready(f, "curl"@) && ready(f, "sha256sum"@),
{
    reveal_with_fuel(missing, 12);
    let t = probe_table();
    assert(t.take(2) =~= seq![t[0], t[1]]);
    lemma_missing(t, f, 2);
    assert(t.take(2).drop_last() =~= seq![t[0]]);
    assert(t.take(2).drop_last().drop_last() =~= Seq::empty());
}

proof fn lemma_missing(t: Seq<ProbeView>, f: Findings, i: int)
    requires
        0 <= i <= t.len(),
        forall|j: int| i <= j < t.len() ==> !(#[trigger] t[j]).required,
    ensures
        missing(t, f, true) == missing(t.take(i), f, true),
    decreases t.len(),
{
    if t.len() > i {
        lemma_missing(t.drop_last(), f, i);
        assert(t.drop_last().take(i) =~= t.take(i));
    } else {
        assert(t.take(i) =~= t);
    }
}

/// Whether the table holds a tool, as a required one or not.
pub open spec fn looked_for(tool: Seq<char>, core: bool) -> bool {
    exists|i: int|
        0 <= i < probe_table().len() && (#[trigger] probe_table()[i]).tool == tool
            && probe_table()[i].required == core
}

/// Fetching and checking what was fetched must be possible; moving work,
/// building, notifying, throttling and measuring may be.
pub proof fn tools_are_looked_for()
    ensures
        looked_for("curl"@, true) && looked_for("sha256sum"@, true),
        looked_for("ssh"@, false) && looked_for("rsync"@, false),
        looked_for("git"@, false) && looked_for("cargo"@, false),
        looked_for("notify-send"@, false) && looked_for("getconf"@, false),
        looked_for("renice"@, false) && looked_for("ionice"@, false),
        looked_for("stty"@, false),
        probe_table().len() == 11,
{
    let t = probe_table();
    assert(t[0].tool == "curl"@ && t[1].tool == "sha256sum"@);
    assert(t[2].tool == "ssh"@ && t[3].tool == "rsync"@);
    assert(t[4].tool == "git"@ && t[5].tool == "cargo"@);
    assert(t[6].tool == "notify-send"@ && t[7].tool == "getconf"@);
    assert(t[8].tool == "renice"@ && t[9].tool == "ionice"@);
    assert(t[10].tool == "stty"@);
}

/// A tool that is not there adds one to what is missing of its tier.
pub proof fn missing_tools_are_counted(list: Seq<ProbeView>, f: Findings, p: ProbeView, needed: bool)
    ensures
        missing(Seq::empty(), f, needed) == 0,
        texts(f.tools@).contains(p.tool) ==> missing(list.push(p), f, needed) == missing(
            list,
            f,
            needed,
        ),
        p.required != needed ==> missing(list.push(p), f, needed) == missing(list, f, needed),
        !texts(f.tools@).contains(p.tool) && p.required == needed ==> missing(
            list.push(p),
            f,
            needed,
        ) == missing(list, f, needed) + 1,
{
    assert(list.push(p).drop_last() =~= list);
}

/// A file is executable where its owner, its group or anyone else may run it,
/// and nothing but a file is.
pub proof fn files_that_someone_may_run_are_executable(mode: u32, is_file: bool)
    ensures
        executable(Some(FileKind { is_file, mode })) <==> is_file && (mode & 0o100 != 0 || mode
            & 0o010 != 0 || mode & 0o001 != 0),
        !executable(None),
{
    assert(mode & 0o111 != 0 <==> (mode & 0o100 != 0 || mode & 0o010 != 0 || mode & 0o001 != 0))
        by (bit_vector);
}

/// A tool is looked for in every directory of the search path.
pub proof fn every_directory_is_searched(dirs: Seq<Seq<char>>, tool: Seq<char>, i: int)
    requires
        0 <= i < dirs.len(),
        dirs[i].len() > 0,
        dirs[i].last() != '/',
        tool.len() > 0,
        tool[0] != '/',
    ensures
        places(dirs, tool).len() == dirs.len(),
        places(dirs, tool)[i] == dirs[i] + "/"@ + tool,
{
}

/// The line of a tool says that it is ready, that it is required, or that it
/// is missing.
pub proof fn tools_are_told_by_their_tier(f: Findings, p: ProbeView)
    ensures
        ({
            let line = probe_line(Theme { enabled: false }, f, p);
            let head = " "@ + cell_text(p.tool, 12) + "  "@;
            let there = texts(f.tools@).contains(p.tool);
            &&& there ==> begins(line, head + cell_text("ready"@, 10))
            &&& !there && p.required ==> begins(line, head + cell_text("required"@, 10))
            &&& !there && !p.required ==> begins(line, head + cell_text("missing"@, 10))
        }),
{
    let line = probe_line(Theme { enabled: false }, f, p);
    let head = " "@ + cell_text(p.tool, 12) + "  "@;
    let a = head + cell_text("ready"@, 10);
    let b = head + cell_text("required"@, 10);
    let c = head + cell_text("missing"@, 10);
    if texts(f.tools@).contains(p.tool) {
        assert(line.take(a.len() as int) =~= a);
    } else if p.required {
        assert(line.take(b.len() as int) =~= b);
    } else {
        assert(line.take(c.len() as int) =~= c);
    }
}

/// The verdict counts the required tools that are missing, the optional ones
/// where no required one is, and is content where none is.
pub proof fn verdicts_tell_what_is_missing(core: nat, other: nat)
    ensures
        ({
            let said = verdict(Theme { enabled: false }, core, other);
            &&& core > 0 ==> begins(said, decimal(core) + " required tool(s) missing"@)
            &&& core == 0 && other > 0 ==> begins(
                said,
                "core ready; "@ + decimal(other) + " optional tool(s) missing"@,
            )
            &&& core == 0 && other == 0 ==> said == "all systems nominal — valve seated"@
        }),
{
    let said = verdict(Theme { enabled: false }, core, other);
    reveal_strlit(" required tool(s) missing");
    reveal_strlit(" required tool(s) missing — inference and update will fail");
    reveal_strlit(" optional tool(s) missing");
    reveal_strlit(" optional tool(s) missing (features above degrade gracefully)");
    let a = decimal(core) + " required tool(s) missing"@;
    let b = "core ready; "@ + decimal(other) + " optional tool(s) missing"@;
    if core > 0 {
        assert(said.take(a.len() as int) =~= a);
    } else if other > 0 {
        assert(said.take(b.len() as int) =~= b);
    }
}

/// The report has a line for each tool, in order, and ends with the verdict.
pub proof fn reports_have_a_line_for_each_tool(t: Theme, f: Findings, i: int)
    requires
        0 <= i < probe_table().len(),
    ensures
        ({
            let lines = report_lines(t, f);
            &&& lines[2 + i] == probe_line(t, f, probe_table()[i])
            &&& lines.last() == verdict(
                t,
                missing(probe_table(), f, true),
                missing(probe_table(), f, false),
            )
        }),
{
}

/// A setting is ready where it is there, and told to be absent otherwise.
pub proof fn settings_are_told_by_whether_they_are_there(
    t: Theme,
    name: Seq<char>,
    code: Seq<char>,
    absent: Seq<char>,
    what: Seq<char>,
)
    ensures
        setting_line(t, name, true, code, absent, what) == item_line(
            t,
            name,
            "32"@,
            "ready"@,
            what,
        ),
        setting_line(t, name, false, code, absent, what) == item_line(t, name, code, absent, what),
{
}

/// The settings tell of the freezer, the key, the hosts and the policies.
pub proof fn settings_tell_of_what_was_found(f: Findings)
    ensures
        ({
            let t = Theme { enabled: false };
            let s = settings(t, f);
            let ready = |name: Seq<char>| " "@ + cell_text(name, 12) + "  "@ + cell_text("ready"@, 12);
            &&& f.cgroup ==> begins(s[2], ready("cgroup v2"@))
            &&& f.groq_key ==> begins(s[6], ready("groq key"@))
            &&& f.hosts ==> begins(s[7], ready("hosts.toml"@))
            &&& f.policies ==> begins(s[8], ready("policies.toml"@))
            &&& !f.cgroup ==> begins(
                s[2],
                " "@ + cell_text("cgroup v2"@, 12) + "  "@ + cell_text("unavailable"@, 12),
            )
            &&& !f.groq_key ==> begins(
                s[6],
                " "@ + cell_text("groq key"@, 12) + "  "@ + cell_text("not set"@, 12),
            )
            &&& !f.hosts ==> begins(
                s[7],
                " "@ + cell_text("hosts.toml"@, 12) + "  "@ + cell_text("not created"@, 12),
            )
            &&& !f.policies ==> begins(
                s[8],
                " "@ + cell_text("policies.toml"@, 12) + "  "@ + cell_text("not created"@, 12),
            )
        }),
{
    let t = Theme { enabled: false };
    lemma_item("cgroup v2"@, "32"@, "ready"@, "atomic process-tree freeze/thaw"@);
    lemma_item("cgroup v2"@, "33"@, "unavailable"@, "atomic process-tree freeze/thaw"@);
    let key = "inference ($GROQ_API_KEY or ~/.config/pv/groq_api_key)"@;
    lemma_item("groq key"@, "32"@, "ready"@, key);
    lemma_item("groq key"@, "33"@, "not set"@, key);
    lemma_item("hosts.toml"@, "32"@, "ready"@, "pv migrate targets"@);
    lemma_item("hosts.toml"@, "2"@, "not created"@, "pv migrate targets"@);
    lemma_item("policies.toml"@, "32"@, "ready"@, "custom pressure policies"@);
    lemma_item("policies.toml"@, "2"@, "not created"@, "custom pressure policies"@);
}

proof fn lemma_item(name: Seq<char>, code: Seq<char>, status: Seq<char>, what: Seq<char>)
    ensures
        begins(
            item_line(Theme { enabled: false }, name, code, status, what),
            " "@ + cell_text(name, 12) + "  "@ + cell_text(status, 12),
        ),
{
    let line = item_line(Theme { enabled: false }, name, code, status, what);
    let p = " "@ + cell_text(name, 12) + "  "@ + cell_text(status, 12);
    assert(line.take(p.len() as int) =~= p);
}

} // verus!
