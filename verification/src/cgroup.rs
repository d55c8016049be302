//! cgroup v2 freezer backend for atomic process-tree suspend and resume.
//!
//! When the kernel and the active delegation allow it, moving an app's whole
//! process tree into a transient cgroup and writing `cgroup.freeze` is much
//! safer than stopping each process:
//!   - the freeze is atomic for the group;
//!   - communication between children keeps working while they are frozen;
//!   - signals can later go to the whole group through `cgroup.kill`.
//!
//! The functions say which file to write and what a file's text means.

use vstd::prelude::*;

use crate::fixed::{dec64, decimal, numeral_reads_back, parse_u32, parsed};
use crate::scan::{
    after_prefix, begins, lines, lines_of, mentions, strip_prefix, strip_start, stripped_start, trim, trimmed,
};
use crate::text::{
    cat2, cat4, cat6, chars_of, is_ascii_alnum, joined_path, opt_text, owned, pad_left,
    padded_left, path_join, same, texts,
};

verus! {

pub const CGROUP_ROOT: &'static str = "/sys/fs/cgroup";

/// A transient cgroup that owns a set of processes and can freeze and thaw
/// them.
pub struct Freezer {
    pub path: String,
}

/// A text to write to a file.
pub struct FileWrite {
    pub path: String,
    pub data: String,
}

/// Errors that can occur when managing a cgroup freezer, with the system's
/// own words where it gave some.
pub enum Error {
    Unavailable,
    OwnCgroup(String),
    Create(String, String),
    AddPid(u32, String, String),
    Freeze(String, String),
    Thaw(String, String),
    Kill(String, String),
    NoCgroupKill,
    Destroy(String, String),
}

pub open spec fn error_text(e: Error) -> Seq<char> {
    match e {
        Error::Unavailable => "cgroup v2 freezer not available or not delegated"@,
        Error::OwnCgroup(m) => "cannot read own cgroup: "@ + m@,
        Error::Create(p, m) => "cannot create cgroup "@ + p@ + ": "@ + m@,
        Error::AddPid(pid, p, m) => "cannot move pid "@ + decimal(pid as nat) + " into cgroup "@
            + p@ + ": "@ + m@,
        Error::Freeze(p, m) => "cannot freeze cgroup "@ + p@ + ": "@ + m@,
        Error::Thaw(p, m) => "cannot thaw cgroup "@ + p@ + ": "@ + m@,
        Error::Kill(p, m) => "cannot kill cgroup "@ + p@ + ": "@ + m@,
        Error::NoCgroupKill => "kernel lacks cgroup.kill (need 5.14+)"@,
        Error::Destroy(p, m) => "cannot remove cgroup "@ + p@ + ": "@ + m@,
    }
}

impl Error {
    /// The error in words.
    pub fn message(&self) -> (r: String)
        ensures
            r@ == error_text(*self),
    {
        match self {
            Error::Unavailable => owned("cgroup v2 freezer not available or not delegated"),
            Error::OwnCgroup(m) => cat2("cannot read own cgroup: ", m.as_str()),
            Error::Create(p, m) => cat4("cannot create cgroup ", p.as_str(), ": ", m.as_str()),
            Error::AddPid(pid, p, m) => cat6(
                "cannot move pid ",
                dec64(*pid as u64).as_str(),
                " into cgroup ",
                p.as_str(),
                ": ",
                m.as_str(),
            ),
            Error::Freeze(p, m) => cat4("cannot freeze cgroup ", p.as_str(), ": ", m.as_str()),
            Error::Thaw(p, m) => cat4("cannot thaw cgroup ", p.as_str(), ": ", m.as_str()),
            Error::Kill(p, m) => cat4("cannot kill cgroup ", p.as_str(), ": ", m.as_str()),
            Error::NoCgroupKill => owned("kernel lacks cgroup.kill (need 5.14+)"),
            Error::Destroy(p, m) => cat4("cannot remove cgroup ", p.as_str(), ": ", m.as_str()),
        }
    }
}

// ------------------------------------------------------------ names

/// A character that may stand in a name.
pub open spec fn name_char(c: char) -> char {
    if is_ascii_alnum(c) || c == '_' || c == '-' || c == '.' {
        c
    } else {
        '-'
    }
}

/// The first characters of a name, each made harmless.
pub open spec fn harmless(s: Seq<char>, n: nat) -> Seq<char> {
    let head = if s.len() > n {
        s.take(n as int)
    } else {
        s
    };
    head.map_values(|c: char| name_char(c))
}

fn safe_char(c: char) -> (r: char)
    ensures
        r == name_char(c),
{
    if ('a' <= c && c <= 'z') || ('A' <= c && c <= 'Z') || ('0' <= c && c <= '9') || c == '_' || c
        == '-' || c == '.' {
        c
    } else {
        '-'
    }
}

/// The first `n` characters of a text, each made harmless.
pub fn make_harmless(s: &str, n: usize) -> (r: String)
    ensures
        r@ == harmless(s@, n as nat),
{
    let v: Vec<char> = chars_of(s);
    let ghost want = harmless(s@, n as nat);
    let mut out: String = String::new();
    let mut i: usize = 0;
    while i < v.len() && i < n
        invariant
            i <= v@.len(),
            i <= n,
            v@ == s@,
            want == harmless(s@, n as nat),
            out@ == want.take(i as int),
        decreases v@.len() - i,
    {
        out.push(safe_char(v[i]));
        i = i + 1;
        assert(out@ =~= want.take(i as int));
    }
    assert(out@ =~= want);
    out
}

/// The name of the cgroup that a process makes for an app.
pub open spec fn cgroup_name(key: Seq<char>, pid: nat) -> Seq<char> {
    let base = harmless(key, 40);
    "pv-"@ + (if base.len() == 0 {
        "pv"@
    } else {
        base
    }) + "-"@ + decimal(pid)
}

pub fn unique_cgroup_name(key: &str, pid: u32) -> (r: String)
    ensures
        r@ == cgroup_name(key@, pid as nat),
{
    let base: String = make_harmless(key, 40);
    let name: String = if base.as_str().unicode_len() == 0 {
        owned("pv")
    } else {
        base
    };
    cat4("pv-", name.as_str(), "-", dec64(pid as u64).as_str())
}

// ------------------------------------------------------------ the own cgroup

/// The path in the first line of `/proc/self/cgroup` that belongs to the
/// unified hierarchy.
pub open spec fn unified_path(list: Seq<Seq<char>>) -> Option<Seq<char>>
    decreases list.len(),
{
    if list.len() == 0 {
        None
    } else if begins(list[0], "0::"@) {
        let rel = stripped_start(after_prefix(list[0], "0::"@)->0, '/');
        if rel.len() == 0 {
            Some(CGROUP_ROOT@)
        } else {
            Some(joined_path(CGROUP_ROOT@, rel))
        }
    } else {
        unified_path(list.drop_first())
    }
}

/// The directory of the current process's cgroup, from the text of
/// `/proc/self/cgroup` or the words of the error in reading it.
pub open spec fn own_path(text: Result<Seq<char>, Seq<char>>) -> Option<Seq<char>> {
    match text {
        Ok(t) => unified_path(lines_of(t)),
        Err(_) => None,
    }
}

pub open spec fn result_text(r: Result<String, String>) -> Result<Seq<char>, Seq<char>> {
    match r {
        Ok(s) => Ok(s@),
        Err(e) => Err(e@),
    }
}

pub fn own_cgroup_path(text: &Result<String, String>) -> (r: Result<String, Error>)
    ensures
        match r {
            Ok(p) => own_path(result_text(*text)) == Some(p@),
            Err(e) => own_path(result_text(*text)) is None && (e matches Error::OwnCgroup(m)
                && m@ == (match *text {
                Ok(_) => "no v2 cgroup line found"@,
                Err(x) => x@,
            })),
        },
{
    match text {
        Err(e) => Err(Error::OwnCgroup(e.clone())),
        Ok(t) => {
            let list: Vec<String> = lines(t.as_str());
            let ghost all = texts(list@);
            let mut i: usize = 0;
            assert(all.skip(0) =~= all);
            while i < list.len()
                invariant
                    i <= list.len(),
                    all == texts(list@),
                    *text == Ok::<String, String>(*t),
                    all == lines_of(t@),
                    unified_path(all) == unified_path(all.skip(i as int)),
                decreases list.len() - i,
            {
                proof {
                    assert(all.skip(i as int).drop_first() =~= all.skip(i as int + 1));
                    assert(all.skip(i as int)[0] == list@[i as int]@);
                }
                if let Some(rest) = strip_prefix(list[i].as_str(), "0::") {
                    let rel: String = strip_start(rest.as_str(), '/');
                    return if rel.as_str().unicode_len() == 0 {
                        Ok(owned(CGROUP_ROOT))
                    } else {
                        Ok(path_join(CGROUP_ROOT, rel.as_str()))
                    };
                }
                i = i + 1;
            }
            Err(Error::OwnCgroup(owned("no v2 cgroup line found")))
        },
    }
}

/// The directory of a process's cgroup, from the text of its `cgroup` file in
/// `/proc`: none where there is no such text or it names none.
pub fn group_of(text: &Option<String>) -> (r: Option<String>)
    ensures
        opt_text(r) == (match opt_text(*text) {
            Some(t) => unified_path(lines_of(t)),
            None => None,
        }),
{
    match text {
        Some(t) => match own_cgroup_path(&Ok(t.clone())) {
            Ok(p) => Some(p),
            Err(_) => None,
        },
        None => None,
    }
}

/// Whether a usable cgroup v2 hierarchy is in sight: the root has its events
/// file, and the current process has a cgroup in it.
pub fn available(root_events: bool, own: bool, text: &Result<String, String>) -> (r: bool)
    ensures
        r == (root_events && own && own_path(result_text(*text)) is Some),
{
    root_events && own && own_cgroup_path(text).is_ok()
}

/// What to write so that a new cgroup has the freezer controller: its parent is
/// told to hand it on, where there is a parent with a control file.
pub fn enable_freezer(parent: &Option<String>, has_control: bool) -> (r: Option<FileWrite>)
    ensures
        r is Some <==> *parent is Some && has_control,
        r matches Some(w) ==> w.path@ == joined_path(
            opt_text(*parent)->0,
            "cgroup.subtree_control"@,
        ) && w.data@ == "+freezer"@,
{
    match parent {
        Some(p) if has_control => Some(
            FileWrite {
                path: path_join(p.as_str(), "cgroup.subtree_control"),
                data: owned("+freezer"),
            },
        ),
        _ => None,
    }
}

// ------------------------------------------------------------ the freezer

impl Freezer {
    /// The cgroup that a process may make for an app: a child of its own.
    pub fn new(
        key: &str,
        pid: u32,
        root_events: bool,
        own: bool,
        text: &Result<String, String>,
    ) -> (r: Result<Freezer, Error>)
        ensures
            r is Ok <==> root_events && own && own_path(result_text(*text)) is Some,
            r matches Ok(f) ==> f.path@ == joined_path(
                own_path(result_text(*text))->0,
                cgroup_name(key@, pid as nat),
            ),
            r matches Err(e) ==> e is Unavailable,
    {
        if !(root_events && own) {
            return Err(Error::Unavailable);
        }
        match own_cgroup_path(text) {
            Ok(parent) => Ok(
                Freezer {
                    path: path_join(parent.as_str(), unique_cgroup_name(key, pid).as_str()),
                },
            ),
            Err(_) => Err(Error::Unavailable),
        }
    }

    /// An existing cgroup, by whether it has a freeze file.
    pub fn open(path: &str, has_freeze: bool) -> (r: Result<Freezer, Error>)
        ensures
            r is Ok <==> has_freeze,
            r matches Ok(f) ==> f.path@ == path@,
            r matches Err(e) ==> e is Unavailable,
    {
        if has_freeze {
            Ok(Freezer { path: owned(path) })
        } else {
            Err(Error::Unavailable)
        }
    }

    /// Path of the cgroup directory.
    pub fn path(&self) -> (r: &String)
        ensures
            *r == self.path,
    {
        &self.path
    }

    fn file(&self, name: &str, data: String) -> (r: FileWrite)
        ensures
            r.path@ == joined_path(self.path@, name@),
            r.data == data,
    {
        FileWrite { path: path_join(self.path.as_str(), name), data }
    }

    /// The error of a cgroup whose directory could not be made.
    pub fn create_failed(&self, why: &str) -> (r: Error)
        ensures
            r matches Error::Create(p, m) && p@ == self.path@ && m@ == why@,
    {
        Error::Create(self.path.clone(), owned(why))
    }

    /// What to write to move a process into this cgroup. Its identity must be
    /// known before.
    pub fn add_pid(&self, pid: u32) -> (r: FileWrite)
        ensures
            r.path@ == joined_path(self.path@, "cgroup.procs"@),
            r.data@ == decimal(pid as nat),
    {
        self.file("cgroup.procs", dec64(pid as u64))
    }

    /// The error of a process that could not be moved into this cgroup.
    pub fn add_failed(&self, pid: u32, why: &str) -> (r: Error)
        ensures
            r matches Error::AddPid(n, p, m) && n == pid && p@ == self.path@ && m@ == why@,
    {
        Error::AddPid(pid, self.path.clone(), owned(why))
    }

    /// What to write to freeze every process in the cgroup. Where the write
    /// fails, [`Freezer::freeze_failed`] is the error, and where it does not,
    /// [`Freezer::settled`] says what comes of it.
    pub fn freeze(&self) -> (r: FileWrite)
        ensures
            r.path@ == joined_path(self.path@, "cgroup.freeze"@),
            r.data@ == "1"@,
    {
        self.file("cgroup.freeze", owned("1"))
    }

    /// The error of a cgroup that was not frozen.
    pub fn freeze_failed(&self, why: &str) -> (r: Error)
        ensures
            r matches Error::Freeze(p, m) && p@ == self.path@ && m@ == why@,
    {
        Error::Freeze(self.path.clone(), owned(why))
    }

    /// What to write to thaw every process in the cgroup. Where the write
    /// fails, [`Freezer::thaw_failed`] is the error, and where it does not,
    /// [`Freezer::settled`] says what comes of it.
    pub fn thaw(&self) -> (r: FileWrite)
        ensures
            r.path@ == joined_path(self.path@, "cgroup.freeze"@),
            r.data@ == "0"@,
    {
        self.file("cgroup.freeze", owned("0"))
    }

    /// The error of a cgroup that was not thawed.
    pub fn thaw_failed(&self, why: &str) -> (r: Error)
        ensures
            r matches Error::Thaw(p, m) && p@ == self.path@ && m@ == why@,
    {
        Error::Thaw(self.path.clone(), owned(why))
    }

    /// What came of a write to the freeze file, by the text of the events file
    /// where it was readable and the milliseconds waited since: nothing yet,
    /// the wanted state, or an error once the time is up.
    pub fn settled(
        &self,
        want: bool,
        events: &Option<String>,
        waited_ms: u64,
        timeout_ms: u64,
    ) -> (r: Option<Result<(), Error>>)
        ensures
            r matches Some(Ok(())) <==> reports(opt_text(*events), want),
            r is None <==> !reports(opt_text(*events), want) && waited_ms < timeout_ms,
            r matches Some(Err(e)) ==> (if want {
                e matches Error::Freeze(p, m) && p@ == self.path@ && m@ == late_text(
                    want,
                    timeout_ms as nat,
                )
            } else {
                e matches Error::Thaw(p, m) && p@ == self.path@ && m@ == late_text(
                    want,
                    timeout_ms as nat,
                )
            }),
    {
        match wait_frozen(want, events, waited_ms, timeout_ms) {
            Wait::Reached => Some(Ok(())),
            Wait::Again => None,
            Wait::TimedOut => {
                let why: String = timeout_text(want, timeout_ms);
                Some(
                    Err(
                        if want {
                            self.freeze_failed(why.as_str())
                        } else {
                            self.thaw_failed(why.as_str())
                        },
                    ),
                )
            },
        }
    }

    /// What to write to kill every process in the cgroup, where the kernel
    /// can do so.
    pub fn kill_all(&self, has_kill: bool) -> (r: Result<FileWrite, Error>)
        ensures
            r is Ok <==> has_kill,
            r matches Ok(w) ==> w.path@ == joined_path(self.path@, "cgroup.kill"@) && w.data@
                == "1"@,
            r matches Err(e) ==> e is NoCgroupKill,
    {
        if has_kill {
            Ok(self.file("cgroup.kill", owned("1")))
        } else {
            Err(Error::NoCgroupKill)
        }
    }

    /// The error of a cgroup whose processes were not killed.
    pub fn kill_failed(&self, why: &str) -> (r: Error)
        ensures
            r matches Error::Kill(p, m) && p@ == self.path@ && m@ == why@,
    {
        Error::Kill(self.path.clone(), owned(why))
    }

    /// The processes that the text of `cgroup.procs` lists.
    pub fn members(text: &str) -> (r: Vec<u32>)
        ensures
            r@ == pids_listed(lines_of(text@)),
    {
        let list: Vec<String> = lines(text);
        let ghost all = texts(list@);
        let mut out: Vec<u32> = Vec::new();
        let mut i: usize = 0;
        while i < list.len()
            invariant
                i <= list.len(),
                all == texts(list@),
                out@ == pids_listed(all.take(i as int)),
            decreases list.len() - i,
        {
            proof {
                assert(all.take(i as int + 1).drop_last() =~= all.take(i as int));
                assert(all.take(i as int + 1).last() == list@[i as int]@);
            }
            if let Some(n) = parse_u32(trim(list[i].as_str()).as_str()) {
                out.push(n);
            }
            i = i + 1;
        }
        assert(all.take(i as int) =~= all);
        out
    }

    /// The error of a cgroup that was not removed.
    pub fn destroy_failed(&self, why: &str) -> (r: Error)
        ensures
            r matches Error::Destroy(p, m) && p@ == self.path@ && m@ == why@,
    {
        Error::Destroy(self.path.clone(), owned(why))
    }

    /// What to write to return processes to the parent cgroup.
    pub fn destroy(&self, parent: &Option<String>, pids: &Vec<u32>) -> (r: Result<
        Vec<FileWrite>,
        Error,
    >)
        ensures
            r is Ok <==> *parent is Some,
            r matches Ok(list) ==> list@.len() == pids@.len() && forall|i: int|
                0 <= i < pids@.len() ==> (#[trigger] list@[i]).path@ == joined_path(
                    opt_text(*parent)->0,
                    "cgroup.procs"@,
                ) && list@[i].data@ == decimal(pids@[i] as nat),
            r matches Err(e) ==> e matches Error::Destroy(p, m) && p@ == self.path@ && m@
                == "no parent"@,
    {
        match parent {
            None => Err(self.destroy_failed("no parent")),
            Some(dir) => {
                let mut out: Vec<FileWrite> = Vec::new();
                let mut i: usize = 0;
                while i < pids.len()
                    invariant
                        i <= pids.len(),
                        out@.len() == i,
                        *parent == Some(*dir),
                        forall|j: int|
                            0 <= j < i ==> (#[trigger] out@[j]).path@ == joined_path(
                                dir@,
                                "cgroup.procs"@,
                            ) && out@[j].data@ == decimal(pids@[j] as nat),
                    decreases pids.len() - i,
                {
                    out.push(
                        FileWrite {
                            path: path_join(dir.as_str(), "cgroup.procs"),
                            data: dec64(pids[i] as u64),
                        },
                    );
                    i = i + 1;
                }
                Ok(out)
            },
        }
    }
}

/// The processes that lines name, in order.
pub open spec fn pids_listed(list: Seq<Seq<char>>) -> Seq<u32>
    decreases list.len(),
{
    if list.len() == 0 {
        Seq::empty()
    } else {
        let before = pids_listed(list.drop_last());
        match parsed(trimmed(list.last()), 10, u32::MAX as nat) {
            Some(n) => before.push(n as u32),
            None => before,
        }
    }
}

// ------------------------------------------------------------ waiting

/// The freeze state that the lines of `cgroup.events` report.
pub open spec fn frozen_in(list: Seq<Seq<char>>) -> Option<Seq<char>>
    decreases list.len(),
{
    if list.len() == 0 {
        None
    } else {
        match after_prefix(list[0], "frozen "@) {
            Some(v) => Some(v),
            None => frozen_in(list.drop_first()),
        }
    }
}

pub fn read_frozen(text: &str) -> (r: Option<String>)
    ensures
        opt_text(r) == frozen_in(lines_of(text@)),
{
    let list: Vec<String> = lines(text);
    let ghost all = texts(list@);
    let mut i: usize = 0;
    assert(all.skip(0) =~= all);
    while i < list.len()
        invariant
            i <= list.len(),
            all == texts(list@),
            all == lines_of(text@),
            frozen_in(all) == frozen_in(all.skip(i as int)),
        decreases list.len() - i,
    {
        proof {
            assert(all.skip(i as int).drop_first() =~= all.skip(i as int + 1));
            assert(all.skip(i as int)[0] == list@[i as int]@);
        }
        if let Some(v) = strip_prefix(list[i].as_str(), "frozen ") {
            return Some(v);
        }
        i = i + 1;
    }
    None
}

/// Whether to go on waiting for a freeze state.
#[derive(Debug, Clone, Copy, PartialEq, Eq, Structural)]
pub enum Wait {
    Reached,
    TimedOut,
    Again,
}

/// A freeze state as the kernel writes it.
pub open spec fn state_digit(frozen: bool) -> Seq<char> {
    if frozen {
        "1"@
    } else {
        "0"@
    }
}

/// Whether the text of an events file reports a freeze state.
pub open spec fn reports(events: Option<Seq<char>>, want: bool) -> bool {
    events matches Some(t) && frozen_in(lines_of(t)) == Some(state_digit(want))
}

/// A time in milliseconds, in seconds where there is one, without trailing
/// zeros.
pub open spec fn lapse_text(ms: nat) -> Seq<char> {
    let part = ms % 1000;
    if ms == 0 {
        "0ns"@
    } else if ms < 1000 {
        decimal(ms) + "ms"@
    } else if part == 0 {
        decimal(ms / 1000) + "s"@
    } else {
        decimal(ms / 1000) + "."@ + (if part % 100 == 0 {
            decimal(part / 100)
        } else if part % 10 == 0 {
            padded_left(decimal(part / 10), 2, '0')
        } else {
            padded_left(decimal(part), 3, '0')
        }) + "s"@
    }
}

/// What is said of a freeze state that was not reached in time.
pub open spec fn late_text(want: bool, timeout_ms: nat) -> Seq<char> {
    "cgroup freeze state did not reach frozen="@ + state_digit(want) + " in "@ + lapse_text(
        timeout_ms,
    )
}

fn lapse(ms: u64) -> (r: String)
    ensures
        r@ == lapse_text(ms as nat),
{
    let part: u64 = ms % 1000;
    if ms == 0 {
        owned("0ns")
    } else if ms < 1000 {
        cat2(dec64(ms).as_str(), "ms")
    } else if part == 0 {
        cat2(dec64(ms / 1000).as_str(), "s")
    } else {
        let digits: String = if part % 100 == 0 {
            dec64(part / 100)
        } else if part % 10 == 0 {
            pad_left(dec64(part / 10).as_str(), 2, '0')
        } else {
            pad_left(dec64(part).as_str(), 3, '0')
        };
        cat4(dec64(ms / 1000).as_str(), ".", digits.as_str(), "s")
    }
}

/// The words for a freeze state that was not reached in time.
pub fn timeout_text(want: bool, timeout_ms: u64) -> (r: String)
    ensures
        r@ == late_text(want, timeout_ms as nat),
{
    cat4(
        "cgroup freeze state did not reach frozen=",
        if want {
            "1"
        } else {
            "0"
        },
        " in ",
        lapse(timeout_ms).as_str(),
    )
}

/// Whether the wanted freeze state is reached, by the text of the events file
/// where it was readable and the milliseconds waited.
pub fn wait_frozen(want: bool, events: &Option<String>, waited_ms: u64, timeout_ms: u64) -> (r:
    Wait)
    ensures
        r == (if reports(opt_text(*events), want) {
            Wait::Reached
        } else if waited_ms >= timeout_ms {
            Wait::TimedOut
        } else {
            Wait::Again
        }),
{
    if let Some(t) = events {
        if let Some(cur) = read_frozen(t.as_str()) {
            if same(
                cur.as_str(),
                if want {
                    "1"
                } else {
                    "0"
                },
            ) {
                return Wait::Reached;
            }
        }
    }
    if waited_ms >= timeout_ms {
        Wait::TimedOut
    } else {
        Wait::Again
    }
}

// ------------------------------------------------------------ laws

/// The name of a cgroup is a single path component: it holds letters, digits
/// and `.`, `_`, `-` alone.
pub proof fn cgroup_names_are_safe(key: Seq<char>, n: nat, i: int)
    requires
        0 <= i < harmless(key, n).len(),
    ensures
        harmless(key, n).len() <= n,
        ({
            let c = harmless(key, n)[i];
            is_ascii_alnum(c) || c == '_' || c == '-' || c == '.'
        }),
{
}

/// The own cgroup is the path of the first line of the unified hierarchy,
/// below the root of the cgroups.
pub proof fn own_cgroup_lies_below_the_root(list: Seq<Seq<char>>, at: int, rel: Seq<char>)
    requires
        0 <= at < list.len(),
        list[at] == "0::/"@ + rel,
        forall|i: int| 0 <= i < at ==> !begins(#[trigger] list[i], "0::"@),
        rel.len() > 0 ==> rel[0] != '/',
    ensures
        rel.len() > 0 ==> unified_path(list) == Some("/sys/fs/cgroup/"@ + rel),
        rel.len() == 0 ==> unified_path(list) == Some("/sys/fs/cgroup"@),
    decreases at,
{
    if at > 0 {
        assert(!begins(list[0], "0::"@));
        let rest = list.drop_first();
        assert forall|i: int| 0 <= i < at - 1 implies !begins(#[trigger] rest[i], "0::"@) by {
            assert(rest[i] == list[i + 1]);
        }
        own_cgroup_lies_below_the_root(rest, at - 1, rel);
    } else {
        reveal_strlit("0::/");
        reveal_strlit("0::");
        reveal_strlit("/sys/fs/cgroup");
        reveal_strlit("/sys/fs/cgroup/");
        reveal_strlit("/");
        let line = list[0];
        assert(line.take(3) =~= "0::"@);
        let path = line.skip(3);
        assert(path =~= seq!['/'] + rel);
        assert(path.drop_first() =~= rel);
        assert(stripped_start(rel, '/') == rel);
        assert(stripped_start(path, '/') == rel);
        assert("/sys/fs/cgroup"@ + "/"@ + rel =~= "/sys/fs/cgroup/"@ + rel);
    }
}

/// Without a line of the unified hierarchy there is no cgroup.
pub proof fn other_hierarchies_have_no_cgroup(list: Seq<Seq<char>>)
    requires
        forall|i: int| 0 <= i < list.len() ==> !begins(#[trigger] list[i], "0::"@),
    ensures
        unified_path(list) is None,
    decreases list.len(),
{
    if list.len() > 0 {
        assert(!begins(list[0], "0::"@));
        let rest = list.drop_first();
        assert forall|i: int| 0 <= i < rest.len() implies !begins(#[trigger] rest[i], "0::"@) by {
            assert(rest[i] == list[i + 1]);
        }
        other_hierarchies_have_no_cgroup(rest);
    }
}

/// A cgroup is named after its app and the process that made it: the first
/// forty characters of the key, those that are not plain as hyphens.
pub proof fn cgroups_are_named_after_their_app(key: Seq<char>, pid: nat, i: int)
    requires
        key.len() > 0,
        0 <= i < key.len(),
        i < 40,
    ensures
        ({
            let n = if key.len() < 40 { key.len() } else { 40 };
            let name = cgroup_name(key, pid);
            let c = key[i];
            &&& name.take(3) == "pv-"@
            &&& name.skip(3 + n as int) == "-"@ + decimal(pid)
            &&& name[3 + i] == if ('a' <= c <= 'z') || ('A' <= c <= 'Z') || ('0' <= c <= '9') || c
                == '_' || c == '.' {
                c
            } else {
                '-'
            }
        }),
{
    let n = if key.len() < 40 {
        key.len()
    } else {
        40
    };
    let base = harmless(key, 40);
    let name = cgroup_name(key, pid);
    reveal_strlit("pv-");
    reveal_strlit("-");
    assert(base.len() == n);
    assert(name =~= "pv-"@ + base + "-"@ + decimal(pid));
    assert(name.take(3) =~= "pv-"@);
    assert(name.skip(3 + n as int) =~= "-"@ + decimal(pid));
    assert(name[3 + i] == base[i]);
    assert(base[i] == name_char(key[i]));
}

/// Each line of `cgroup.procs` names one member, in order.
pub proof fn members_are_named_by_line(list: Seq<Seq<char>>, line: Seq<char>, pid: u32)
    ensures
        trimmed(line) == decimal(pid as nat) ==> pids_listed(list.push(line)) == pids_listed(
            list,
        ).push(pid),
        trimmed(line).len() == 0 ==> pids_listed(list.push(line)) == pids_listed(list),
        pids_listed(Seq::empty()) == Seq::<u32>::empty(),
{
    assert(list.push(line).drop_last() =~= list);
    numeral_reads_back(pid as nat, u32::MAX as nat);
}

/// The freeze state is what the first line on it says, wherever it stands.
pub proof fn the_freeze_state_is_read_by_name(list: Seq<Seq<char>>, at: int, value: Seq<char>)
    requires
        0 <= at < list.len(),
        list[at] == "frozen "@ + value,
        forall|i: int| 0 <= i < at ==> !begins(#[trigger] list[i], "frozen "@),
    ensures
        frozen_in(list) == Some(value),
    decreases at,
{
    if at > 0 {
        assert(!begins(list[0], "frozen "@));
        let rest = list.drop_first();
        assert forall|i: int| 0 <= i < at - 1 implies !begins(#[trigger] rest[i], "frozen "@) by {
            assert(rest[i] == list[i + 1]);
        }
        the_freeze_state_is_read_by_name(rest, at - 1, value);
    } else {
        let p = "frozen "@;
        assert(list[0].take(p.len() as int) =~= p);
        assert(list[0].skip(p.len() as int) =~= value);
    }
}

/// A group is frozen exactly where its state is one, and thawed exactly where
/// it is zero.
pub proof fn frozen_is_one(t: Seq<char>)
    ensures
        reports(Some(t), true) <==> frozen_in(lines_of(t)) == Some("1"@),
        reports(Some(t), false) <==> frozen_in(lines_of(t)) == Some("0"@),
        !reports(None, true) && !reports(None, false),
{
}

/// A time out is told in seconds with what is left of one, and in
/// milliseconds where it is shorter.
pub proof fn time_outs_are_told_in_seconds(secs: nat, tenths: nat, ms: nat)
    requires
        secs > 0,
        0 < tenths < 10,
        0 < ms < 1000,
    ensures
        lapse_text(secs * 1000) == decimal(secs) + "s"@,
        lapse_text(secs * 1000 + tenths * 100) == decimal(secs) + "."@ + decimal(tenths) + "s"@,
        lapse_text(ms) == decimal(ms) + "ms"@,
{
    let whole = secs * 1000;
    let more = secs * 1000 + tenths * 100;
    assert(whole % 1000 == 0 && whole / 1000 == secs);
    assert(more % 1000 == tenths * 100 && more / 1000 == secs);
    assert((tenths * 100) % 100 == 0 && (tenths * 100) / 100 == tenths);
}

proof fn lemma_error_names(a: Seq<char>, p: Seq<char>, b: Seq<char>, m: Seq<char>)
    ensures
        mentions(a + p + b + m, p),
        mentions(a + p + b + m, m),
{
    let s = a + p + b + m;
    assert(s.subrange(a.len() as int, a.len() as int + p.len()) =~= p);
    let at = a.len() as int + p.len() + b.len();
    assert(s.subrange(at, at + m.len()) =~= m);
}

/// An error says what could not be done, where, and why.
pub proof fn errors_say_what_failed_where_and_why(e: Error)
    ensures
        e matches Error::Create(p, m) ==> begins(error_text(e), "cannot create cgroup "@)
            && mentions(error_text(e), p@) && mentions(error_text(e), m@),
        e matches Error::Freeze(p, m) ==> begins(error_text(e), "cannot freeze cgroup "@)
            && mentions(error_text(e), p@) && mentions(error_text(e), m@),
        e matches Error::Thaw(p, m) ==> begins(error_text(e), "cannot thaw cgroup "@) && mentions(
            error_text(e),
            p@,
        ) && mentions(error_text(e), m@),
        e matches Error::Kill(p, m) ==> begins(error_text(e), "cannot kill cgroup "@) && mentions(
            error_text(e),
            p@,
        ) && mentions(error_text(e), m@),
        e matches Error::Destroy(p, m) ==> begins(error_text(e), "cannot remove cgroup "@)
            && mentions(error_text(e), p@) && mentions(error_text(e), m@),
        e matches Error::AddPid(pid, p, m) ==> begins(
            error_text(e),
            "cannot move pid "@ + decimal(pid as nat) + " into cgroup "@,
        ) && mentions(error_text(e), p@) && mentions(error_text(e), m@),
{
    match e {
        Error::Create(p, m) => {
            lemma_error_names("cannot create cgroup "@, p@, ": "@, m@);
            lemma_error_begins("cannot create cgroup "@, p@ + ": "@ + m@, error_text(e));
        },
        Error::Freeze(p, m) => {
            lemma_error_names("cannot freeze cgroup "@, p@, ": "@, m@);
            lemma_error_begins("cannot freeze cgroup "@, p@ + ": "@ + m@, error_text(e));
        },
        Error::Thaw(p, m) => {
            lemma_error_names("cannot thaw cgroup "@, p@, ": "@, m@);
            lemma_error_begins("cannot thaw cgroup "@, p@ + ": "@ + m@, error_text(e));
        },
        Error::Kill(p, m) => {
            lemma_error_names("cannot kill cgroup "@, p@, ": "@, m@);
            lemma_error_begins("cannot kill cgroup "@, p@ + ": "@ + m@, error_text(e));
        },
        Error::Destroy(p, m) => {
            lemma_error_names("cannot remove cgroup "@, p@, ": "@, m@);
            lemma_error_begins("cannot remove cgroup "@, p@ + ": "@ + m@, error_text(e));
        },
        Error::AddPid(pid, p, m) => {
            let lead = "cannot move pid "@ + decimal(pid as nat) + " into cgroup "@;
            lemma_error_names(lead, p@, ": "@, m@);
            lemma_error_begins(lead, p@ + ": "@ + m@, error_text(e));
        },
        _ => {},
    }
}

proof fn lemma_error_begins(a: Seq<char>, b: Seq<char>, s: Seq<char>)
    requires
        s =~= a + b,
    ensures
        begins(s, a),
{
    assert(s.take(a.len() as int) =~= a);
}

/// A group that did not settle in time is told with the state that was
/// wanted.
pub proof fn late_groups_are_told_with_their_state(timeout_ms: nat)
    ensures
        begins(late_text(true, timeout_ms), "cgroup freeze state did not reach frozen=1 in "@),
        begins(late_text(false, timeout_ms), "cgroup freeze state did not reach frozen=0 in "@),
{
    reveal_strlit("cgroup freeze state did not reach frozen=");
    reveal_strlit("cgroup freeze state did not reach frozen=1 in ");
    reveal_strlit("cgroup freeze state did not reach frozen=0 in ");
    reveal_strlit("1");
    reveal_strlit("0");
    reveal_strlit(" in ");
    let a = "cgroup freeze state did not reach frozen=1 in "@;
    let b = "cgroup freeze state did not reach frozen=0 in "@;
    assert(late_text(true, timeout_ms).take(a.len() as int) =~= a);
    assert(late_text(false, timeout_ms).take(b.len() as int) =~= b);
}

/// What is left of a second is told without zeros at its end, in two digits
/// or in three.
pub proof fn time_outs_are_told_without_trailing_zeros(secs: nat, hundredths: nat, thousandths: nat)
    requires
        secs > 0,
        hundredths < 100,
        hundredths % 10 != 0,
        thousandths < 1000,
        thousandths % 10 != 0,
    ensures
        lapse_text(secs * 1000 + hundredths * 10) == decimal(secs) + "."@ + padded_left(
            decimal(hundredths),
            2,
            '0',
        ) + "s"@,
        lapse_text(secs * 1000 + thousandths) == decimal(secs) + "."@ + padded_left(
            decimal(thousandths),
            3,
            '0',
        ) + "s"@,
{
    let a = secs * 1000 + hundredths * 10;
    let b = secs * 1000 + thousandths;
    assert(a % 1000 == hundredths * 10 && a / 1000 == secs);
    assert((hundredths * 10) % 100 != 0 && (hundredths * 10) % 10 == 0);
    assert((hundredths * 10) / 10 == hundredths);
    assert(b % 1000 == thousandths && b / 1000 == secs);
    assert(thousandths % 100 != 0);
}

} // verus!
