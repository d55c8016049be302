//! Graceful suspension: negotiate, freeze, remember, and resume.
//!
//! A process tree is frozen with a cgroup where the kernel allows it: that is
//! atomic and keeps the tree's own communication intact. Where any step of it
//! fails, every process is stopped by a signal instead. Which step comes next
//! is decided here; a caller performs the steps and reports how they went.

use vstd::prelude::*;

use crate::fixed::{decimal, numeral_reads_back, parse_u64, parsed};
use crate::procfs::{is_ascii_char, last_of, lemma_last_of, rseek, xdg, xdg_dir};
use crate::scan::{words, words_of};
use crate::text::{
    cat2, cat3, chars_of, copy_pids, joined_path, opt_text, owned, path_join, same, text_between,
    texts,
};

verus! {

// ------------------------------------------------------------ records

/// A process id's identity: its start time, in ticks after boot.
#[derive(Debug, Clone, Copy, PartialEq, Eq, Structural)]
pub struct PidStart {
    pub pid: u32,
    pub start: u64,
}

pub struct SuspendedApp {
    pub key: String,
    pub display: String,
    pub pids: Vec<u32>,
    pub rss_kb: u64,
    /// Seconds since the epoch.
    pub suspended_at: u64,
    pub task: String,
    /// When each process started, where it was known.
    pub starts: Vec<PidStart>,
    /// The cgroup that holds the frozen processes, or none where they were
    /// stopped by signals.
    pub cgroup: Option<String>,
}

#[verifier::ext_equal]
pub struct RecordView {
    pub key: Seq<char>,
    pub display: Seq<char>,
    pub pids: Seq<u32>,
    pub rss_kb: u64,
    pub suspended_at: u64,
    pub task: Seq<char>,
    pub starts: Seq<PidStart>,
    pub cgroup: Option<Seq<char>>,
}

impl View for SuspendedApp {
    type V = RecordView;

    open spec fn view(&self) -> RecordView {
        RecordView {
            key: self.key@,
            display: self.display@,
            pids: self.pids@,
            rss_kb: self.rss_kb,
            suspended_at: self.suspended_at,
            task: self.task@,
            starts: self.starts@,
            cgroup: opt_text(self.cgroup),
        }
    }
}

/// What a list of records says.
pub open spec fn records(v: Seq<SuspendedApp>) -> Seq<RecordView> {
    v.map_values(|s: SuspendedApp| s@)
}

fn copy_starts(v: &Vec<PidStart>) -> (r: Vec<PidStart>)
    ensures
        r@ == v@,
{
    let mut out: Vec<PidStart> = Vec::new();
    let mut i: usize = 0;
    while i < v.len()
        invariant
            i <= v.len(),
            out@ == v@.take(i as int),
        decreases v.len() - i,
    {
        out.push(v[i]);
        i = i + 1;
        assert(out@ =~= v@.take(i as int));
    }
    assert(out@ =~= v@);
    out
}

impl SuspendedApp {
    /// A record that says the same.
    pub fn copy(&self) -> (r: Self)
        ensures
            r@ == self@,
    {
        SuspendedApp {
            key: self.key.clone(),
            display: self.display.clone(),
            pids: copy_pids(&self.pids),
            rss_kb: self.rss_kb,
            suspended_at: self.suspended_at,
            task: self.task.clone(),
            starts: copy_starts(&self.starts),
            cgroup: match &self.cgroup {
                Some(p) => Some(p.clone()),
                None => None,
            },
        }
    }
}

/// Where the records are kept, by the data and home directories.
pub fn state_file(data_home: &Option<String>, home: &Option<String>) -> (r: String)
    ensures
        r@ == joined_path(
            joined_path(
                xdg_dir(opt_text(*data_home), opt_text(*home), ".local/share"@),
                "pv"@,
            ),
            "suspended.toml"@,
        ),
{
    path_join(
        path_join(xdg(data_home, home, ".local/share").as_str(), "pv").as_str(),
        "suspended.toml",
    )
}

/// The records without those under a key.
pub open spec fn without_key(list: Seq<RecordView>, key: Seq<char>) -> Seq<RecordView>
    decreases list.len(),
{
    if list.len() == 0 {
        Seq::empty()
    } else {
        let before = without_key(list.drop_last(), key);
        if list.last().key == key {
            before
        } else {
            before.push(list.last())
        }
    }
}

fn drop_record(list: &Vec<SuspendedApp>, key: &str) -> (r: Vec<SuspendedApp>)
    ensures
        records(r@) == without_key(records(list@), key@),
{
    let ghost all = records(list@);
    let mut out: Vec<SuspendedApp> = Vec::new();
    let mut i: usize = 0;
    assert(records(out@) =~= without_key(all.take(0), key@));
    while i < list.len()
        invariant
            i <= list.len(),
            all == records(list@),
            records(out@) == without_key(all.take(i as int), key@),
        decreases list.len() - i,
    {
        let ghost before = records(out@);
        proof {
            assert(all.take(i as int + 1).drop_last() =~= all.take(i as int));
            assert(all.take(i as int + 1).last() == list@[i as int]@);
        }
        if !same(list[i].key.as_str(), key) {
            let s: SuspendedApp = list[i].copy();
            out.push(s);
            assert(records(out@) =~= before.push(s@));
        }
        i = i + 1;
    }
    assert(all.take(i as int) =~= all);
    out
}

/// The records with one more, which replaces any under its key.
pub fn record(list: &Vec<SuspendedApp>, entry: &SuspendedApp) -> (r: Vec<SuspendedApp>)
    ensures
        records(r@) == without_key(records(list@), entry@.key).push(entry@),
{
    let mut out: Vec<SuspendedApp> = drop_record(list, entry.key.as_str());
    let ghost before = records(out@);
    let s: SuspendedApp = entry.copy();
    out.push(s);
    assert(records(out@) =~= before.push(s@));
    out
}

/// The position of the first record under a key.
pub open spec fn record_index(list: Seq<RecordView>, key: Seq<char>) -> Option<int>
    decreases list.len(),
{
    if list.len() == 0 {
        None
    } else {
        match record_index(list.drop_last(), key) {
            Some(i) => Some(i),
            None => if list.last().key == key {
                Some(list.len() - 1)
            } else {
                None
            },
        }
    }
}

proof fn lemma_record_index(list: Seq<RecordView>, key: Seq<char>)
    ensures
        record_index(list, key) matches Some(i) ==> 0 <= i < list.len() && list[i].key == key
            && forall|j: int| 0 <= j < i ==> (#[trigger] list[j]).key != key,
        record_index(list, key) is None ==> forall|j: int|
            0 <= j < list.len() ==> (#[trigger] list[j]).key != key,
    decreases list.len(),
{
    if list.len() > 0 {
        lemma_record_index(list.drop_last(), key);
        assert forall|j: int| 0 <= j < list.len() - 1 implies list.drop_last()[j]
            == #[trigger] list[j] by {}
    }
}

fn find_record(list: &Vec<SuspendedApp>, key: &str) -> (r: Option<usize>)
    ensures
        match r {
            Some(i) => i < list@.len() && record_index(records(list@), key@) == Some(i as int),
            None => record_index(records(list@), key@) is None,
        },
{
    let ghost all = records(list@);
    let mut i: usize = 0;
    while i < list.len()
        invariant
            i <= list.len(),
            all == records(list@),
            forall|j: int| 0 <= j < i ==> (#[trigger] all[j]).key != key@,
        decreases list.len() - i,
    {
        assert(all[i as int] == list@[i as int]@);
        if same(list[i].key.as_str(), key) {
            proof {
                lemma_record_index(all, key@);
            }
            return Some(i);
        }
        i = i + 1;
    }
    proof {
        lemma_record_index(all, key@);
    }
    None
}

/// Whether a record still has a process.
pub open spec fn still_alive(s: RecordView, alive: Seq<u32>) -> bool {
    some_alive(s.pids, alive)
}

pub open spec fn some_alive(pids: Seq<u32>, alive: Seq<u32>) -> bool {
    exists|i: int| 0 <= i < pids.len() && alive.contains(#[trigger] pids[i])
}

/// The records that still have a process.
pub open spec fn kept(list: Seq<RecordView>, alive: Seq<u32>) -> Seq<RecordView>
    decreases list.len(),
{
    if list.len() == 0 {
        Seq::empty()
    } else {
        let before = kept(list.drop_last(), alive);
        if still_alive(list.last(), alive) {
            before.push(list.last())
        } else {
            before
        }
    }
}

fn is_among(list: &Vec<u32>, pid: u32) -> (r: bool)
    ensures
        r == list@.contains(pid),
{
    let mut i: usize = 0;
    while i < list.len()
        invariant
            i <= list.len(),
            forall|j: int| 0 <= j < i ==> list@[j] != pid,
        decreases list.len() - i,
    {
        if list[i] == pid {
            return true;
        }
        i = i + 1;
    }
    false
}

fn any_alive(pids: &Vec<u32>, alive: &Vec<u32>) -> (r: bool)
    ensures
        r == some_alive(pids@, alive@),
{
    let mut i: usize = 0;
    while i < pids.len()
        invariant
            i <= pids.len(),
            forall|j: int| 0 <= j < i ==> !alive@.contains(#[trigger] pids@[j]),
        decreases pids.len() - i,
    {
        if is_among(alive, pids[i]) {
            assert(alive@.contains(pids@[i as int]));
            return true;
        }
        i = i + 1;
    }
    false
}

/// Drop records whose processes have all vanished.
pub fn gc(list: &Vec<SuspendedApp>, alive: &Vec<u32>) -> (r: Vec<SuspendedApp>)
    ensures
        records(r@) == kept(records(list@), alive@),
{
    let ghost all = records(list@);
    let mut out: Vec<SuspendedApp> = Vec::new();
    let mut i: usize = 0;
    assert(records(out@) =~= kept(all.take(0), alive@));
    while i < list.len()
        invariant
            i <= list.len(),
            all == records(list@),
            records(out@) == kept(all.take(i as int), alive@),
        decreases list.len() - i,
    {
        let ghost before = records(out@);
        proof {
            assert(all.take(i as int + 1).drop_last() =~= all.take(i as int));
            assert(all.take(i as int + 1).last() == list@[i as int]@);
        }
        if any_alive(&list[i].pids, alive) {
            let s: SuspendedApp = list[i].copy();
            out.push(s);
            assert(records(out@) =~= before.push(s@));
        }
        i = i + 1;
    }
    assert(all.take(i as int) =~= all);
    out
}

// ------------------------------------------------------------ identity

/// Whether a `stat` line with a closing parenthesis has an ASCII character
/// behind the last.
pub open spec fn stat_has_tail(s: Seq<char>) -> bool {
    last_of(s, ')') matches Some(close) ==> close + 1 < s.len() && s[close + 1] as int <= 127
}

/// The start time in a `stat` line: the twentieth field behind the command
/// name, which ends at the last closing parenthesis.
pub open spec fn start_in(s: Seq<char>) -> Option<nat> {
    match last_of(s, ')') {
        None => None,
        Some(close) => {
            let f = words_of(s.skip(close + 2));
            if f.len() < 20 {
                None
            } else {
                parsed(f[19], 10, u64::MAX as nat)
            }
        },
    }
}

/// Whether a `stat` line can be read behind its last parenthesis.
pub fn has_tail(stat: &str) -> (r: bool)
    ensures
        r == stat_has_tail(stat@),
{
    let v: Vec<char> = chars_of(stat);
    let n: usize = v.len();
    match rseek(&v, ')') {
        None => true,
        Some(close) => close + 1 < n && is_ascii_char(v[close + 1]),
    }
}

/// The start time of a process by its `stat` line: none where there is none,
/// as for a process that is gone.
pub fn start_time(stat: &Option<String>) -> (r: Option<u64>)
    requires
        opt_text(*stat) matches Some(s) ==> stat_has_tail(s),
    ensures
        r is Some <==> (opt_text(*stat) matches Some(s) && start_in(s) is Some),
        r is Some ==> start_in(opt_text(*stat)->0) == Some(r->0 as nat),
{
    match stat {
        None => None,
        Some(s) => {
            let v: Vec<char> = chars_of(s.as_str());
            let n: usize = v.len();
            match rseek(&v, ')') {
                None => None,
                Some(close) => {
                    let tail: String = text_between(&v, close + 2, n);
                    assert(tail@ =~= s@.skip(close as int + 2));
                    let f: Vec<String> = words(tail.as_str());
                    assert(texts(f@).len() == f@.len());
                    if f.len() < 20 {
                        return None;
                    }
                    assert(texts(f@)[19] == f@[19]@);
                    parse_u64(f[19].as_str())
                },
            }
        },
    }
}

/// The start time that was recorded for a process.
pub open spec fn start_known(starts: Seq<PidStart>, pid: u32) -> Option<u64>
    decreases starts.len(),
{
    if starts.len() == 0 {
        None
    } else if starts[0].pid == pid {
        Some(starts[0].start)
    } else {
        start_known(starts.drop_first(), pid)
    }
}

pub fn known_start(starts: &Vec<PidStart>, pid: u32) -> (r: Option<u64>)
    ensures
        r == start_known(starts@, pid),
{
    let mut i: usize = 0;
    assert(starts@.skip(0) =~= starts@);
    while i < starts.len()
        invariant
            i <= starts.len(),
            start_known(starts@, pid) == start_known(starts@.skip(i as int), pid),
        decreases starts.len() - i,
    {
        assert(starts@.skip(i as int).drop_first() =~= starts@.skip(i as int + 1));
        if starts[i].pid == pid {
            return Some(starts[i].start);
        }
        i = i + 1;
    }
    None
}

/// Whether a process is still the one that was recorded: its start time is
/// the recorded one. Where none was recorded there is nothing to compare.
pub open spec fn same_process(known: Option<u64>, current: Option<u64>) -> bool {
    known is Some ==> current == known
}

pub fn signal_guarded(known: Option<u64>, current: Option<u64>) -> (r: bool)
    ensures
        r == same_process(known, current),
{
    match known {
        Some(k) => match current {
            Some(c) => c == k,
            None => false,
        },
        None => true,
    }
}

// ------------------------------------------------------------ steps

#[derive(Debug, Clone, Copy, PartialEq, Eq, Structural)]
pub enum Sig {
    Stop,
    Cont,
    Term,
}

/// A step to perform.
pub enum Act {
    /// Write the file system's buffers to disk.
    Sync,
    /// Make a cgroup for an app.
    Create { key: String },
    /// See whether a cgroup can be used.
    Open { path: String },
    /// Read the start time of a process.
    StartOf { pid: u32 },
    /// Read which cgroup a process is in.
    GroupOf { pid: u32 },
    /// Move a process into a cgroup.
    Move { path: String, pid: u32 },
    Freeze { path: String },
    Thaw { path: String },
    /// Return the members of a cgroup to its parent and remove it.
    Destroy { path: String },
    /// List the processes of a cgroup.
    Members { path: String },
    Signal { pid: u32, sig: Sig },
    /// Wait for processes to exit.
    Pause,
    /// Add a record to those on disk.
    Record { entry: SuspendedApp },
    /// Replace the records on disk.
    Save { list: Vec<SuspendedApp> },
    /// Nothing is left to do.
    Done { outcome: Outcome },
}

pub enum Outcome {
    Suspended { entry: SuspendedApp },
    Thawed { count: usize, rss_kb: u64 },
    Killed { count: usize },
    Failed { message: String },
}

/// How a step went.
pub enum Event {
    Fine,
    Failed { message: String },
    Created { path: String },
    Started { start: Option<u64> },
    Grouped { group: Option<String> },
    Signalled { sent: bool },
    Pids { pids: Vec<u32> },
}

pub ghost enum ActView {
    Sync,
    Create { key: Seq<char> },
    Open { path: Seq<char> },
    StartOf { pid: u32 },
    GroupOf { pid: u32 },
    Move { path: Seq<char>, pid: u32 },
    Freeze { path: Seq<char> },
    Thaw { path: Seq<char> },
    Destroy { path: Seq<char> },
    Members { path: Seq<char> },
    Signal { pid: u32, sig: Sig },
    Pause,
    Record { entry: RecordView },
    Save { list: Seq<RecordView> },
    Done { outcome: OutcomeView },
}

pub ghost enum OutcomeView {
    Suspended { entry: RecordView },
    Thawed { count: nat, rss_kb: u64 },
    Killed { count: nat },
    Failed { message: Seq<char> },
}

pub ghost enum EventView {
    Fine,
    Failed { message: Seq<char> },
    Created { path: Seq<char> },
    Started { start: Option<u64> },
    Grouped { group: Option<Seq<char>> },
    Signalled { sent: bool },
    Pids { pids: Seq<u32> },
}

impl View for Outcome {
    type V = OutcomeView;

    open spec fn view(&self) -> OutcomeView {
        match self {
            Outcome::Suspended { entry } => OutcomeView::Suspended { entry: entry@ },
            Outcome::Thawed { count, rss_kb } => OutcomeView::Thawed {
                count: *count as nat,
                rss_kb: *rss_kb,
            },
            Outcome::Killed { count } => OutcomeView::Killed { count: *count as nat },
            Outcome::Failed { message } => OutcomeView::Failed { message: message@ },
        }
    }
}

impl View for Act {
    type V = ActView;

    open spec fn view(&self) -> ActView {
        match self {
            Act::Sync => ActView::Sync,
            Act::Create { key } => ActView::Create { key: key@ },
            Act::Open { path } => ActView::Open { path: path@ },
            Act::StartOf { pid } => ActView::StartOf { pid: *pid },
            Act::GroupOf { pid } => ActView::GroupOf { pid: *pid },
            Act::Move { path, pid } => ActView::Move { path: path@, pid: *pid },
            Act::Freeze { path } => ActView::Freeze { path: path@ },
            Act::Thaw { path } => ActView::Thaw { path: path@ },
            Act::Destroy { path } => ActView::Destroy { path: path@ },
            Act::Members { path } => ActView::Members { path: path@ },
            Act::Signal { pid, sig } => ActView::Signal { pid: *pid, sig: *sig },
            Act::Pause => ActView::Pause,
            Act::Record { entry } => ActView::Record { entry: entry@ },
            Act::Save { list } => ActView::Save { list: records(list@) },
            Act::Done { outcome } => ActView::Done { outcome: outcome@ },
        }
    }
}

impl View for Event {
    type V = EventView;

    open spec fn view(&self) -> EventView {
        match self {
            Event::Fine => EventView::Fine,
            Event::Failed { message } => EventView::Failed { message: message@ },
            Event::Created { path } => EventView::Created { path: path@ },
            Event::Started { start } => EventView::Started { start: *start },
            Event::Grouped { group } => EventView::Grouped { group: opt_text(*group) },
            Event::Signalled { sent } => EventView::Signalled { sent: *sent },
            Event::Pids { pids } => EventView::Pids { pids: pids@ },
        }
    }
}

// ------------------------------------------------------------ signals in turn

/// A signal for a process, with the start time it should have.
#[derive(Clone, Copy)]
pub struct Task {
    pub pid: u32,
    pub sig: Sig,
    pub known: Option<u64>,
}

/// Signals to send one after another, and how many of one kind were sent.
pub struct SignalRun {
    pub tasks: Vec<Task>,
    pub at: usize,
    /// Whether the current task's process was found to be the right one.
    pub checked: bool,
    pub counted: Sig,
    pub sent: usize,
}

#[verifier::ext_equal]
pub struct SignalView {
    pub tasks: Seq<Task>,
    pub at: nat,
    pub checked: bool,
    pub counted: Sig,
    pub sent: nat,
}

impl View for SignalRun {
    type V = SignalView;

    open spec fn view(&self) -> SignalView {
        SignalView {
            tasks: self.tasks@,
            at: self.at as nat,
            checked: self.checked,
            counted: self.counted,
            sent: self.sent as nat,
        }
    }
}

/// The step that the signals are at: the identity of a process whose start
/// is known is looked up before it is signalled.
pub open spec fn signal_step(r: SignalView) -> Option<ActView> {
    if r.at >= r.tasks.len() {
        None
    } else {
        let t = r.tasks[r.at as int];
        if t.known is Some && !r.checked {
            Some(ActView::StartOf { pid: t.pid })
        } else {
            Some(ActView::Signal { pid: t.pid, sig: t.sig })
        }
    }
}

/// The signals after a step: a process that is not the one recorded is passed
/// over.
pub open spec fn signal_after(r: SignalView, ev: EventView) -> SignalView {
    if r.at >= r.tasks.len() {
        r
    } else {
        let t = r.tasks[r.at as int];
        let skip = SignalView { at: r.at + 1, checked: false, ..r };
        if t.known is Some && !r.checked {
            match ev {
                EventView::Started { start } if same_process(t.known, start) => SignalView {
                    checked: true,
                    ..r
                },
                _ => skip,
            }
        } else {
            match ev {
                EventView::Signalled { sent } if sent && t.sig == r.counted => SignalView {
                    sent: r.sent + 1,
                    ..skip
                },
                _ => skip,
            }
        }
    }
}

impl SignalRun {
    pub open spec fn wf(&self) -> bool {
        self.at <= self.tasks@.len() && self.sent <= self.at
    }

    fn step(&self) -> (r: Option<Act>)
        requires
            self.wf(),
        ensures
            (match r {
                Some(a) => Some(a@),
                None => None,
            }) == signal_step(self@),
    {
        if self.at >= self.tasks.len() {
            return None;
        }
        let t: Task = self.tasks[self.at];
        if t.known.is_some() && !self.checked {
            Some(Act::StartOf { pid: t.pid })
        } else {
            Some(Act::Signal { pid: t.pid, sig: t.sig })
        }
    }

    fn after(&mut self, ev: &Event)
        requires
            old(self).wf(),
        ensures
            final(self).wf(),
            final(self)@ == signal_after(old(self)@, ev@),
    {
        if self.at >= self.tasks.len() {
            return ;
        }
        let t: Task = self.tasks[self.at];
        if t.known.is_some() && !self.checked {
            let fits: bool = match ev {
                Event::Started { start } => signal_guarded(t.known, *start),
                _ => false,
            };
            if fits {
                self.checked = true;
            } else {
                self.at = self.at + 1;
                self.checked = false;
            }
        } else {
            let hit: bool = match ev {
                Event::Signalled { sent } => *sent && t.sig == self.counted,
                _ => false,
            };
            if hit {
                self.sent = self.sent + 1;
            }
            self.at = self.at + 1;
            self.checked = false;
        }
    }
}

/// Thawing: each process is continued.
pub open spec fn thaw_tasks(pids: Seq<u32>, starts: Seq<PidStart>) -> Seq<Task> {
    pids.map_values(|p: u32| Task { pid: p, sig: Sig::Cont, known: start_known(starts, p) })
}

/// Killing: each process is continued, so that the next signal is delivered,
/// and terminated.
pub open spec fn kill_tasks(pids: Seq<u32>, starts: Seq<PidStart>) -> Seq<Task> {
    Seq::new(
        2 * pids.len(),
        |i: int|
            Task {
                pid: pids[i / 2],
                sig: if i % 2 == 0 {
                    Sig::Cont
                } else {
                    Sig::Term
                },
                known: start_known(starts, pids[i / 2]),
            },
    )
}

pub open spec fn signals(tasks: Seq<Task>, counted: Sig) -> SignalView {
    SignalView { tasks, at: 0, checked: false, counted, sent: 0 }
}

fn thaw(pids: &Vec<u32>, starts: &Vec<PidStart>) -> (r: SignalRun)
    ensures
        r.wf(),
        r@ == signals(thaw_tasks(pids@, starts@), Sig::Cont),
{
    let mut tasks: Vec<Task> = Vec::new();
    let mut i: usize = 0;
    while i < pids.len()
        invariant
            i <= pids.len(),
            tasks@ == thaw_tasks(pids@, starts@).take(i as int),
        decreases pids.len() - i,
    {
        tasks.push(
            Task { pid: pids[i], sig: Sig::Cont, known: known_start(starts, pids[i]) },
        );
        i = i + 1;
        assert(tasks@ =~= thaw_tasks(pids@, starts@).take(i as int));
    }
    assert(tasks@ =~= thaw_tasks(pids@, starts@));
    SignalRun { tasks, at: 0, checked: false, counted: Sig::Cont, sent: 0 }
}

fn signal_kill(pids: &Vec<u32>, starts: &Vec<PidStart>) -> (r: SignalRun)
    ensures
        r.wf(),
        r@ == signals(kill_tasks(pids@, starts@), Sig::Term),
{
    let mut tasks: Vec<Task> = Vec::new();
    let mut i: usize = 0;
    while i < pids.len()
        invariant
            i <= pids.len(),
            tasks@ == kill_tasks(pids@, starts@).take(2 * i as int),
        decreases pids.len() - i,
    {
        let known: Option<u64> = known_start(starts, pids[i]);
        tasks.push(Task { pid: pids[i], sig: Sig::Cont, known });
        tasks.push(Task { pid: pids[i], sig: Sig::Term, known });
        assert(tasks@ =~= kill_tasks(pids@, starts@).take(2 * i as int + 2));
        i = i + 1;
    }
    assert(tasks@ =~= kill_tasks(pids@, starts@));
    SignalRun { tasks, at: 0, checked: false, counted: Sig::Term, sent: 0 }
}

/// A process whose start time was recorded is signalled only right after it
/// was found to have that start time, so a recycled id is never signalled.
pub proof fn recycled_ids_are_never_signalled(r: SignalView, ev: EventView)
    requires
        signal_step(signal_after(r, ev)) is Some,
        signal_step(signal_after(r, ev))->0 is Signal,
    ensures
        ({
            let next = signal_after(r, ev);
            let t = next.tasks[next.at as int];
            &&& signal_step(next) == Some(ActView::Signal { pid: t.pid, sig: t.sig })
            &&& t.known is Some && r.at < r.tasks.len() ==> next.at == r.at && (ev matches
                EventView::Started { start } && start == t.known)
        }),
{
}

// ------------------------------------------------------------ suspending

/// What is to be suspended.
pub struct Request {
    pub key: String,
    pub display: String,
    pub pids: Vec<u32>,
    pub rss_kb: u64,
    pub task: String,
}

#[verifier::ext_equal]
pub struct RequestView {
    pub key: Seq<char>,
    pub display: Seq<char>,
    pub pids: Seq<u32>,
    pub rss_kb: u64,
    pub task: Seq<char>,
}

impl View for Request {
    type V = RequestView;

    open spec fn view(&self) -> RequestView {
        RequestView {
            key: self.key@,
            display: self.display@,
            pids: self.pids@,
            rss_kb: self.rss_kb,
            task: self.task@,
        }
    }
}

/// The cgroup that a process was in before it was moved.
pub struct Home {
    pub pid: u32,
    pub path: String,
}

#[verifier::ext_equal]
pub struct HomeView {
    pub pid: u32,
    pub path: Seq<char>,
}

impl View for Home {
    type V = HomeView;

    open spec fn view(&self) -> HomeView {
        HomeView { pid: self.pid, path: self.path@ }
    }
}

pub open spec fn home_views(v: Seq<Home>) -> Seq<HomeView> {
    v.map_values(|h: Home| h@)
}

/// How far a suspension has come. Wherever processes have been moved, `homes`
/// holds where each of them was.
pub enum Phase {
    Syncing,
    Creating,
    /// Learning when the process at `at` started, to move it.
    Meeting { path: String, at: usize, starts: Vec<PidStart>, homes: Vec<Home> },
    /// Learning which cgroup it is in.
    Placing { path: String, at: usize, starts: Vec<PidStart>, homes: Vec<Home> },
    Moving { path: String, at: usize, starts: Vec<PidStart>, homes: Vec<Home>, home: String },
    Freezing { path: String, starts: Vec<PidStart>, homes: Vec<Home> },
    /// Recording a frozen cgroup.
    Noting { entry: SuspendedApp, path: String, homes: Vec<Home> },
    /// Giving a cgroup up that could not be recorded.
    Reopening { path: String, homes: Vec<Home> },
    Rethawing { path: String, homes: Vec<Home> },
    /// Moving processes back to where they were, the last first.
    Returning { path: String, homes: Vec<Home> },
    /// Done with cgroups.
    Leaving,
    /// Learning when the process at `at` started, to stop it.
    Learning { at: usize, starts: Vec<PidStart> },
    Stopping { at: usize, starts: Vec<PidStart>, stopped: bool },
    /// Recording stopped processes.
    Writing { entry: SuspendedApp },
    /// Continuing processes that could not be recorded.
    Undoing { run: SignalRun, message: String },
    Over,
}

pub ghost enum PhaseView {
    Syncing,
    Creating,
    Meeting { path: Seq<char>, at: nat, starts: Seq<PidStart>, homes: Seq<HomeView> },
    Placing { path: Seq<char>, at: nat, starts: Seq<PidStart>, homes: Seq<HomeView> },
    Moving {
        path: Seq<char>,
        at: nat,
        starts: Seq<PidStart>,
        homes: Seq<HomeView>,
        home: Seq<char>,
    },
    Freezing { path: Seq<char>, starts: Seq<PidStart>, homes: Seq<HomeView> },
    Noting { entry: RecordView, path: Seq<char>, homes: Seq<HomeView> },
    Reopening { path: Seq<char>, homes: Seq<HomeView> },
    Rethawing { path: Seq<char>, homes: Seq<HomeView> },
    Returning { path: Seq<char>, homes: Seq<HomeView> },
    Leaving,
    Learning { at: nat, starts: Seq<PidStart> },
    Stopping { at: nat, starts: Seq<PidStart>, stopped: bool },
    Writing { entry: RecordView },
    Undoing { run: SignalView, message: Seq<char> },
    Over,
}

impl View for Phase {
    type V = PhaseView;

    open spec fn view(&self) -> PhaseView {
        match self {
            Phase::Syncing => PhaseView::Syncing,
            Phase::Creating => PhaseView::Creating,
            Phase::Meeting { path, at, starts, homes } => PhaseView::Meeting {
                path: path@,
                at: *at as nat,
                starts: starts@,
                homes: home_views(homes@),
            },
            Phase::Placing { path, at, starts, homes } => PhaseView::Placing {
                path: path@,
                at: *at as nat,
                starts: starts@,
                homes: home_views(homes@),
            },
            Phase::Moving { path, at, starts, homes, home } => PhaseView::Moving {
                path: path@,
                at: *at as nat,
                starts: starts@,
                homes: home_views(homes@),
                home: home@,
            },
            Phase::Freezing { path, starts, homes } => PhaseView::Freezing {
                path: path@,
                starts: starts@,
                homes: home_views(homes@),
            },
            Phase::Noting { entry, path, homes } => PhaseView::Noting {
                entry: entry@,
                path: path@,
                homes: home_views(homes@),
            },
            Phase::Reopening { path, homes } => PhaseView::Reopening {
                path: path@,
                homes: home_views(homes@),
            },
            Phase::Rethawing { path, homes } => PhaseView::Rethawing {
                path: path@,
                homes: home_views(homes@),
            },
            Phase::Returning { path, homes } => PhaseView::Returning {
                path: path@,
                homes: home_views(homes@),
            },
            Phase::Leaving => PhaseView::Leaving,
            Phase::Learning { at, starts } => PhaseView::Learning {
                at: *at as nat,
                starts: starts@,
            },
            Phase::Stopping { at, starts, stopped } => PhaseView::Stopping {
                at: *at as nat,
                starts: starts@,
                stopped: *stopped,
            },
            Phase::Writing { entry } => PhaseView::Writing { entry: entry@ },
            Phase::Undoing { run, message } => PhaseView::Undoing { run: run@, message: message@ },
            Phase::Over => PhaseView::Over,
        }
    }
}

impl Phase {
    /// Whether the positions are within the list of processes.
    pub open spec fn wf(&self, n: nat) -> bool {
        match self {
            Phase::Meeting { at, .. } => *at < n,
            Phase::Placing { at, .. } => *at < n,
            Phase::Moving { at, .. } => *at < n,
            Phase::Learning { at, .. } => *at < n,
            Phase::Stopping { at, .. } => *at < n,
            Phase::Undoing { run, .. } => run.wf(),
            Phase::Returning { homes, .. } => homes@.len() > 0,
            _ => true,
        }
    }
}

pub open spec fn entry_of(
    req: RequestView,
    starts: Seq<PidStart>,
    cgroup: Option<Seq<char>>,
    now: u64,
) -> RecordView {
    RecordView {
        key: req.key,
        display: req.display,
        pids: req.pids,
        rss_kb: req.rss_kb,
        suspended_at: now,
        task: req.task,
        starts,
        cgroup,
    }
}

pub open spec fn noted(starts: Seq<PidStart>, pid: u32, ev: EventView) -> Seq<PidStart> {
    match ev {
        EventView::Started { start: Some(start) } => starts.push(PidStart { pid, start }),
        _ => starts,
    }
}

/// Stopping by signals begins with the start times.
pub open spec fn by_signals(req: RequestView) -> (PhaseView, ActView) {
    (
        PhaseView::Learning { at: 0, starts: Seq::empty() },
        ActView::StartOf { pid: req.pids[0] },
    )
}

pub open spec fn failed(message: Seq<char>) -> (PhaseView, ActView) {
    (PhaseView::Over, ActView::Done { outcome: OutcomeView::Failed { message } })
}

/// What comes while stopped processes are continued again.
pub open spec fn undoing(run: SignalView, message: Seq<char>) -> (PhaseView, ActView) {
    match signal_step(run) {
        Some(a) => (PhaseView::Undoing { run, message }, a),
        None => failed(message),
    }
}

pub open spec fn message_of(ev: EventView) -> Seq<char> {
    match ev {
        EventView::Failed { message } => message,
        _ => Seq::empty(),
    }
}

/// What comes while a cgroup is given up: each process that was moved goes back
/// to where it was, the last first, and then the cgroup is removed.
pub open spec fn giving_up(path: Seq<char>, homes: Seq<HomeView>) -> (PhaseView, ActView) {
    if homes.len() == 0 {
        (PhaseView::Leaving, ActView::Destroy { path })
    } else {
        (
            PhaseView::Returning { path, homes },
            ActView::Move { path: homes.last().path, pid: homes.last().pid },
        )
    }
}

/// What comes next in a suspension, by how the last step went.
pub open spec fn suspension(
    req: RequestView,
    phase: PhaseView,
    ev: EventView,
    now: u64,
) -> (PhaseView, ActView) {
    match phase {
        PhaseView::Syncing => (PhaseView::Creating, ActView::Create { key: req.key }),
        PhaseView::Creating => match ev {
            EventView::Created { path } => (
                PhaseView::Meeting { path, at: 0, starts: Seq::empty(), homes: Seq::empty() },
                ActView::StartOf { pid: req.pids[0] },
            ),
            _ => by_signals(req),
        },
        PhaseView::Meeting { path, at, starts, homes } => (
            PhaseView::Placing { path, at, starts: noted(starts, req.pids[at as int], ev), homes },
            ActView::GroupOf { pid: req.pids[at as int] },
        ),
        PhaseView::Placing { path, at, starts, homes } => match ev {
            EventView::Grouped { group: Some(home) } => (
                PhaseView::Moving { path, at, starts, homes, home },
                ActView::Move { path, pid: req.pids[at as int] },
            ),
            _ => giving_up(path, homes),
        },
        PhaseView::Moving { path, at, starts, homes, home } => if ev !is Fine {
            giving_up(path, homes)
        } else {
            let more = homes.push(HomeView { pid: req.pids[at as int], path: home });
            if at + 1 < req.pids.len() {
                (
                    PhaseView::Meeting { path, at: at + 1, starts, homes: more },
                    ActView::StartOf { pid: req.pids[at as int + 1] },
                )
            } else {
                (PhaseView::Freezing { path, starts, homes: more }, ActView::Freeze { path })
            }
        },
        PhaseView::Freezing { path, starts, homes } => if ev !is Fine {
            giving_up(path, homes)
        } else {
            let entry = entry_of(req, starts, Some(path), now);
            (PhaseView::Noting { entry, path, homes }, ActView::Record { entry })
        },
        PhaseView::Noting { entry, path, homes } => if ev is Fine {
            (PhaseView::Over, ActView::Done { outcome: OutcomeView::Suspended { entry } })
        } else {
            (PhaseView::Reopening { path, homes }, ActView::Open { path })
        },
        PhaseView::Reopening { path, homes } => if ev is Fine {
            (PhaseView::Rethawing { path, homes }, ActView::Thaw { path })
        } else {
            giving_up(path, homes)
        },
        PhaseView::Rethawing { path, homes } => giving_up(path, homes),
        PhaseView::Returning { path, homes } => giving_up(path, homes.drop_last()),
        PhaseView::Leaving => by_signals(req),
        PhaseView::Learning { at, starts } => {
            let more = noted(starts, req.pids[at as int], ev);
            if at + 1 < req.pids.len() {
                (
                    PhaseView::Learning { at: at + 1, starts: more },
                    ActView::StartOf { pid: req.pids[at as int + 1] },
                )
            } else {
                (
                    PhaseView::Stopping { at: 0, starts: more, stopped: false },
                    ActView::Signal { pid: req.pids[0], sig: Sig::Stop },
                )
            }
        },
        PhaseView::Stopping { at, starts, stopped } => {
            let any = stopped || (ev matches EventView::Signalled { sent } && sent);
            if at + 1 < req.pids.len() {
                (
                    PhaseView::Stopping { at: at + 1, starts, stopped: any },
                    ActView::Signal { pid: req.pids[at as int + 1], sig: Sig::Stop },
                )
            } else if !any {
                failed("failed to stop any process (permission?)"@)
            } else {
                let entry = entry_of(req, starts, None, now);
                (PhaseView::Writing { entry }, ActView::Record { entry })
            }
        },
        PhaseView::Writing { entry } => if ev is Fine {
            (PhaseView::Over, ActView::Done { outcome: OutcomeView::Suspended { entry } })
        } else {
            undoing(
                signals(thaw_tasks(entry.pids, entry.starts), Sig::Cont),
                "cannot record suspension: "@ + message_of(ev),
            )
        },
        PhaseView::Undoing { run, message } => undoing(signal_after(run, ev), message),
        PhaseView::Over => failed("nothing left to do"@),
    }
}

pub struct SuspendRun {
    pub request: Request,
    pub phase: Phase,
}

fn note_start(starts: Vec<PidStart>, pid: u32, ev: &Event) -> (r: Vec<PidStart>)
    ensures
        r@ == noted(starts@, pid, ev@),
{
    let mut out: Vec<PidStart> = starts;
    match ev {
        Event::Started { start } => {
            if let Some(s) = start {
                out.push(PidStart { pid, start: *s });
            }
        },
        _ => {},
    }
    out
}

fn is_fine(ev: &Event) -> (r: bool)
    ensures
        r == (ev@ is Fine),
{
    match ev {
        Event::Fine => true,
        _ => false,
    }
}

fn error_of(ev: &Event) -> (r: String)
    ensures
        r@ == message_of(ev@),
{
    match ev {
        Event::Failed { message } => message.clone(),
        _ => String::new(),
    }
}

fn fail(message: String) -> (r: (Phase, Act))
    ensures
        (r.0@, r.1@) == failed(message@),
        r.0.wf(0),
{
    (Phase::Over, Act::Done { outcome: Outcome::Failed { message } })
}

fn give_up(path: String, homes: Vec<Home>) -> (r: (Phase, Act))
    ensures
        (r.0@, r.1@) == giving_up(path@, home_views(homes@)),
        forall|n: nat| r.0.wf(n),
{
    let n: usize = homes.len();
    assert(home_views(homes@).len() == homes@.len());
    if n == 0 {
        return (Phase::Leaving, Act::Destroy { path });
    }
    assert(home_views(homes@).last() == homes@[n - 1]@);
    let back: Act = Act::Move { path: homes[n - 1].path.clone(), pid: homes[n - 1].pid };
    (Phase::Returning { path, homes }, back)
}

fn undo(run: SignalRun, message: String) -> (r: (Phase, Act))
    requires
        run.wf(),
    ensures
        (r.0@, r.1@) == undoing(run@, message@),
        forall|n: nat| r.0.wf(n),
{
    match run.step() {
        Some(a) => (Phase::Undoing { run, message }, a),
        None => fail(message),
    }
}

impl SuspendRun {
    pub open spec fn wf(&self) -> bool {
        self.request.pids@.len() > 0 && self.phase.wf(self.request.pids@.len())
    }

    fn signal_path(&self) -> (r: (Phase, Act))
        requires
            self.request.pids@.len() > 0,
        ensures
            (r.0@, r.1@) == by_signals(self.request@),
            r.0.wf(self.request.pids@.len()),
    {
        let none: Vec<PidStart> = Vec::new();
        (
            Phase::Learning { at: 0, starts: none },
            Act::StartOf { pid: self.request.pids[0] },
        )
    }

    fn entry(&self, starts: &Vec<PidStart>, cgroup: Option<String>, now: u64) -> (r: SuspendedApp)
        ensures
            r@ == entry_of(self.request@, starts@, opt_text(cgroup), now),
    {
        SuspendedApp {
            key: self.request.key.clone(),
            display: self.request.display.clone(),
            pids: copy_pids(&self.request.pids),
            rss_kb: self.request.rss_kb,
            suspended_at: now,
            task: self.request.task.clone(),
            starts: copy_starts(starts),
            cgroup,
        }
    }

    /// The next step, by how the last one went.
    pub fn next(self, ev: &Event, now: u64) -> (r: (SuspendRun, Act))
        requires
            self.wf(),
        ensures
            r.0.wf(),
            r.0.request == self.request,
            (r.0.phase@, r.1@) == suspension(self.request@, self.phase@, ev@, now),
    {
        let n: usize = self.request.pids.len();
        let run: SuspendRun = SuspendRun { request: self.request, phase: Phase::Over };
        let (phase, act): (Phase, Act) = match self.phase {
            Phase::Syncing => (Phase::Creating, Act::Create { key: run.request.key.clone() }),
            Phase::Creating => match ev {
                Event::Created { path } => {
                    let none: Vec<PidStart> = Vec::new();
                    let homes: Vec<Home> = Vec::new();
                    assert(home_views(homes@) =~= Seq::empty());
                    (
                        Phase::Meeting { path: path.clone(), at: 0, starts: none, homes },
                        Act::StartOf { pid: run.request.pids[0] },
                    )
                },
                _ => run.signal_path(),
            },
            Phase::Meeting { path, at, starts, homes } => {
                let pid: u32 = run.request.pids[at];
                let more: Vec<PidStart> = note_start(starts, pid, ev);
                (Phase::Placing { path, at, starts: more, homes }, Act::GroupOf { pid })
            },
            Phase::Placing { path, at, starts, homes } => match ev {
                Event::Grouped { group: Some(home) } => (
                    Phase::Moving { path: path.clone(), at, starts, homes, home: home.clone() },
                    Act::Move { path, pid: run.request.pids[at] },
                ),
                _ => give_up(path, homes),
            },
            Phase::Moving { path, at, starts, homes, home } => if !is_fine(ev) {
                give_up(path, homes)
            } else {
                let ghost before = home_views(homes@);
                let h: Home = Home { pid: run.request.pids[at], path: home };
                let mut more: Vec<Home> = homes;
                more.push(h);
                assert(home_views(more@) =~= before.push(h@));
                if at + 1 < n {
                    (
                        Phase::Meeting { path, at: at + 1, starts, homes: more },
                        Act::StartOf { pid: run.request.pids[at + 1] },
                    )
                } else {
                    (
                        Phase::Freezing { path: path.clone(), starts, homes: more },
                        Act::Freeze { path },
                    )
                }
            },
            Phase::Freezing { path, starts, homes } => if !is_fine(ev) {
                give_up(path, homes)
            } else {
                let entry: SuspendedApp = run.entry(&starts, Some(path.clone()), now);
                (Phase::Noting { entry: entry.copy(), path, homes }, Act::Record { entry })
            },
            Phase::Noting { entry, path, homes } => if is_fine(ev) {
                (Phase::Over, Act::Done { outcome: Outcome::Suspended { entry } })
            } else {
                (Phase::Reopening { path: path.clone(), homes }, Act::Open { path })
            },
            Phase::Reopening { path, homes } => if is_fine(ev) {
                (Phase::Rethawing { path: path.clone(), homes }, Act::Thaw { path })
            } else {
                give_up(path, homes)
            },
            Phase::Rethawing { path, homes } => give_up(path, homes),
            Phase::Returning { path, homes } => {
                let ghost before = home_views(homes@);
                let mut left: Vec<Home> = homes;
                let _ = left.pop();
                assert(home_views(left@) =~= before.drop_last());
                give_up(path, left)
            },
            Phase::Leaving => run.signal_path(),
            Phase::Learning { at, starts } => {
                let more: Vec<PidStart> = note_start(starts, run.request.pids[at], ev);
                if at + 1 < n {
                    (
                        Phase::Learning { at: at + 1, starts: more },
                        Act::StartOf { pid: run.request.pids[at + 1] },
                    )
                } else {
                    (
                        Phase::Stopping { at: 0, starts: more, stopped: false },
                        Act::Signal { pid: run.request.pids[0], sig: Sig::Stop },
                    )
                }
            },
            Phase::Stopping { at, starts, stopped } => {
                let hit: bool = match ev {
                    Event::Signalled { sent } => *sent,
                    _ => false,
                };
                let any: bool = stopped || hit;
                if at + 1 < n {
                    (
                        Phase::Stopping { at: at + 1, starts, stopped: any },
                        Act::Signal { pid: run.request.pids[at + 1], sig: Sig::Stop },
                    )
                } else if !any {
                    fail(owned("failed to stop any process (permission?)"))
                } else {
                    let entry: SuspendedApp = run.entry(&starts, None, now);
                    (Phase::Writing { entry: entry.copy() }, Act::Record { entry })
                }
            },
            Phase::Writing { entry } => if is_fine(ev) {
                (Phase::Over, Act::Done { outcome: Outcome::Suspended { entry } })
            } else {
                undo(
                    thaw(&entry.pids, &entry.starts),
                    cat2("cannot record suspension: ", error_of(ev).as_str()),
                )
            },
            Phase::Undoing { run: signals, message } => {
                let mut s: SignalRun = signals;
                s.after(ev);
                undo(s, message)
            },
            Phase::Over => fail(owned("nothing left to do")),
        };
        (SuspendRun { request: run.request, phase }, act)
    }
}

/// Begin to suspend an app: buffers are written first, so that a process that
/// is frozen in the middle of a write leaves as little behind as possible.
pub fn suspend(
    key: &str,
    display: &str,
    pids: &Vec<u32>,
    rss_kb: u64,
    task: &str,
) -> (r: Result<(SuspendRun, Act), String>)
    ensures
        r is Ok <==> pids@.len() > 0,
        r matches Ok((run, act)) ==> run.wf() && run.phase@ is Syncing && act@ is Sync
            && run.request@ == (RequestView {
            key: key@,
            display: display@,
            pids: pids@,
            rss_kb,
            task: task@,
        }),
        r matches Err(e) ==> e@ == "no processes matched"@,
{
    if pids.len() == 0 {
        return Err(owned("no processes matched"));
    }
    let request: Request = Request {
        key: owned(key),
        display: owned(display),
        pids: copy_pids(pids),
        rss_kb,
        task: owned(task),
    };
    Ok((SuspendRun { request, phase: Phase::Syncing }, Act::Sync))
}

/// A suspension succeeds only once it is recorded, and with what was recorded.
pub proof fn success_means_recorded(
    req: RequestView,
    phase: PhaseView,
    ev: EventView,
    now: u64,
)
    ensures
        suspension(req, phase, ev, now).1 matches ActView::Done {
            outcome: OutcomeView::Suspended { entry },
        } ==> ev is Fine && (phase == (PhaseView::Writing { entry }) || (phase matches
            PhaseView::Noting { entry: kept_entry, .. } && kept_entry == entry)),
{
}

/// Whatever could not be recorded is not left frozen: a cgroup is thawed
/// where it can still be opened, before its processes go back to where they
/// were, and stopped processes are continued.
pub proof fn unrecorded_work_is_let_go(req: RequestView, phase: PhaseView, ev: EventView, now: u64)
    requires
        ev is Failed,
    ensures
        phase matches PhaseView::Noting { entry, path, homes } ==> suspension(req, phase, ev, now)
            == (PhaseView::Reopening { path, homes }, ActView::Open { path }) && suspension(
            req,
            PhaseView::Reopening { path, homes },
            EventView::Fine,
            now,
        ) == (PhaseView::Rethawing { path, homes }, ActView::Thaw { path }),
        phase matches PhaseView::Writing { entry } ==> suspension(req, phase, ev, now) == undoing(
            signals(thaw_tasks(entry.pids, entry.starts), Sig::Cont),
            "cannot record suspension: "@ + ev->message,
        ),
{
}

// ------------------------------------------------------------ giving back

/// Which cgroup each process is in, after a step and how it went.
pub open spec fn regrouped(
    groups: Map<u32, Seq<char>>,
    act: ActView,
    ev: EventView,
) -> Map<u32, Seq<char>> {
    match act {
        ActView::Move { path, pid } => if ev is Fine {
            groups.insert(pid, path)
        } else {
            groups
        },
        _ => groups,
    }
}

/// Whether the cgroup that is reported for a process is the one it is in.
pub open spec fn told_truly(groups: Map<u32, Seq<char>>, act: ActView, ev: EventView) -> bool {
    act matches ActView::GroupOf { pid } ==> (ev matches EventView::Grouped { group: Some(p) }
        ==> groups.contains_pair(pid, p))
}

/// Which cgroup each process is in once all have gone back, the last first.
pub open spec fn given_back(groups: Map<u32, Seq<char>>, homes: Seq<HomeView>) -> Map<
    u32,
    Seq<char>,
>
    decreases homes.len(),
{
    if homes.len() == 0 {
        groups
    } else {
        given_back(
            groups.insert(homes.last().pid, homes.last().path),
            homes.drop_last(),
        )
    }
}

/// The processes that were moved, with where they were.
pub open spec fn homes_of(phase: PhaseView) -> Seq<HomeView> {
    match phase {
        PhaseView::Meeting { homes, .. } => homes,
        PhaseView::Placing { homes, .. } => homes,
        PhaseView::Moving { homes, .. } => homes,
        PhaseView::Freezing { homes, .. } => homes,
        PhaseView::Noting { homes, .. } => homes,
        PhaseView::Reopening { homes, .. } => homes,
        PhaseView::Rethawing { homes, .. } => homes,
        PhaseView::Returning { homes, .. } => homes,
        _ => Seq::empty(),
    }
}

/// Whether a step is the one that a phase waits for.
pub open spec fn awaited(req: RequestView, phase: PhaseView, act: ActView) -> bool {
    match phase {
        PhaseView::Placing { at, .. } => at < req.pids.len() && act == (ActView::GroupOf {
            pid: req.pids[at as int],
        }),
        PhaseView::Moving { path, at, .. } => at < req.pids.len() && act == (ActView::Move {
            path,
            pid: req.pids[at as int],
        }),
        PhaseView::Meeting { at, .. } => at < req.pids.len() && act !is Move,
        PhaseView::Returning { homes, .. } => homes.len() > 0 && act == (ActView::Move {
            path: homes.last().path,
            pid: homes.last().pid,
        }),
        _ => act !is Move,
    }
}

/// Whether a suspension can still undo its moves: going back leads to the
/// cgroups that the processes were in at first.
pub open spec fn undoable(
    req: RequestView,
    phase: PhaseView,
    groups: Map<u32, Seq<char>>,
    first: Map<u32, Seq<char>>,
) -> bool {
    &&& given_back(groups, homes_of(phase)) == first
    &&& phase matches PhaseView::Moving { at, home, .. } ==> groups.contains_pair(
        req.pids[at as int],
        home,
    )
}

/// Whether a step says that a suspension has succeeded.
pub open spec fn succeeded(act: ActView) -> bool {
    act matches ActView::Done { outcome } && outcome is Suspended
}

/// A suspension that fails gives its processes back. Through every step the
/// moves can be undone, so that when the cgroup is removed after a failure,
/// when the processes are stopped by signals instead, and when the suspension
/// ends without success, each process is in the cgroup that it was in at
/// first. This holds where the kernel names the cgroup of a process truly
/// and refuses no process its way back.
pub proof fn failed_groups_are_given_back(
    req: RequestView,
    phase: PhaseView,
    act: ActView,
    ev: EventView,
    now: u64,
    groups: Map<u32, Seq<char>>,
    first: Map<u32, Seq<char>>,
)
    requires
        req.pids.len() > 0,
        phase !is Over,
        awaited(req, phase, act),
        undoable(req, phase, groups, first),
        told_truly(groups, act, ev),
        phase is Returning ==> ev is Fine,
    ensures
        ({
            let (next, step) = suspension(req, phase, ev, now);
            let after = regrouped(groups, act, ev);
            &&& awaited(req, next, step)
            &&& !succeeded(step) ==> undoable(req, next, after, first)
            &&& next is Leaving ==> step is Destroy && after == first
            &&& next is Learning ==> after == first
            &&& step is Done && !succeeded(step) ==> after == first
        }),
{
    let (next, step) = suspension(req, phase, ev, now);
    let after = regrouped(groups, act, ev);
    match phase {
        PhaseView::Moving { path, at, starts, homes, home } => {
            if ev is Fine {
                let pid = req.pids[at as int];
                let more = homes.push(HomeView { pid, path: home });
                assert(more.drop_last() =~= homes);
                assert(after.insert(pid, home) =~= groups);
                assert(more.last() == (HomeView { pid, path: home }));
                assert(given_back(after, more) == given_back(groups, homes));
                assert(homes_of(next) == more);
            } else {
                assert(after == groups);
                if homes.len() == 0 {
                    assert(homes =~= Seq::empty());
                }
                assert(homes_of(next) == homes);
                assert(homes_of(phase) == homes);
            }
            assert(given_back(after, homes_of(next)) == given_back(groups, homes_of(phase)));
        },
        PhaseView::Returning { path, homes } => {
            assert(given_back(after, homes.drop_last()) == first);
            if homes.len() == 1 {
                assert(homes.drop_last() =~= Seq::empty());
            }
            assert(homes_of(next) == homes.drop_last());
        },
        PhaseView::Placing { homes, .. } => {
            if homes.len() == 0 {
                assert(homes =~= Seq::empty());
            }
            assert(homes_of(next) == homes);
        },
        PhaseView::Undoing { run, message } => {
            assert(signal_step(signal_after(run, ev)) matches Some(a) ==> a !is Move);
        },
        PhaseView::Writing { entry } => {
            let run = signals(thaw_tasks(entry.pids, entry.starts), Sig::Cont);
            assert(signal_step(run) matches Some(a) ==> a !is Move);
        },
        _ => {
            let homes = homes_of(phase);
            if homes.len() == 0 {
                assert(homes =~= Seq::empty());
            }
            assert(after == groups);
            assert(!succeeded(step) ==> homes_of(next) == homes);
        },
    }
}

/// A suspension begins with nothing to undo.
pub proof fn nothing_has_moved_at_first(req: RequestView, groups: Map<u32, Seq<char>>)
    ensures
        awaited(req, PhaseView::Syncing, ActView::Sync),
        undoable(req, PhaseView::Syncing, groups, groups),
{
}

// ------------------------------------------------------------ resuming, killing

/// What is done to a suspended app.
#[derive(Debug, Clone, Copy, PartialEq, Eq, Structural)]
pub enum Release {
    Resume,
    Kill,
}

/// How far a release has come.
pub enum Stage {
    Opening { path: String },
    Listing { path: String },
    Thawing { path: String, members: Vec<u32> },
    /// Terminating the members of a cgroup.
    Ending { path: String, run: SignalRun },
    Waiting { path: String, count: usize },
    Closing { count: usize },
    /// Signalling the recorded processes.
    Sending { run: SignalRun },
    Storing { count: usize },
    Finished,
}

pub ghost enum StageView {
    Opening { path: Seq<char> },
    Listing { path: Seq<char> },
    Thawing { path: Seq<char>, members: Seq<u32> },
    Ending { path: Seq<char>, run: SignalView },
    Waiting { path: Seq<char>, count: nat },
    Closing { count: nat },
    Sending { run: SignalView },
    Storing { count: nat },
    Finished,
}

impl View for Stage {
    type V = StageView;

    open spec fn view(&self) -> StageView {
        match self {
            Stage::Opening { path } => StageView::Opening { path: path@ },
            Stage::Listing { path } => StageView::Listing { path: path@ },
            Stage::Thawing { path, members } => StageView::Thawing {
                path: path@,
                members: members@,
            },
            Stage::Ending { path, run } => StageView::Ending { path: path@, run: run@ },
            Stage::Waiting { path, count } => StageView::Waiting {
                path: path@,
                count: *count as nat,
            },
            Stage::Closing { count } => StageView::Closing { count: *count as nat },
            Stage::Sending { run } => StageView::Sending { run: run@ },
            Stage::Storing { count } => StageView::Storing { count: *count as nat },
            Stage::Finished => StageView::Finished,
        }
    }
}

impl Stage {
    pub open spec fn wf(&self) -> bool {
        match self {
            Stage::Ending { run, .. } => run.wf(),
            Stage::Sending { run } => run.wf(),
            _ => true,
        }
    }
}

pub open spec fn release_tasks(
    how: Release,
    pids: Seq<u32>,
    starts: Seq<PidStart>,
) -> SignalView {
    match how {
        Release::Resume => signals(thaw_tasks(pids, starts), Sig::Cont),
        Release::Kill => signals(kill_tasks(pids, starts), Sig::Term),
    }
}

/// The records without the app are saved last.
pub open spec fn storing(rest: Seq<RecordView>, count: nat) -> (StageView, ActView) {
    (StageView::Storing { count }, ActView::Save { list: rest })
}

pub open spec fn sending(rest: Seq<RecordView>, run: SignalView) -> (StageView, ActView) {
    match signal_step(run) {
        Some(a) => (StageView::Sending { run }, a),
        None => storing(rest, run.sent),
    }
}

pub open spec fn ending(path: Seq<char>, run: SignalView) -> (StageView, ActView) {
    match signal_step(run) {
        Some(a) => (StageView::Ending { path, run }, a),
        None => (StageView::Waiting { path, count: run.sent }, ActView::Pause),
    }
}

/// What comes next in a release, by how the last step went. Where the cgroup
/// fails, the recorded processes are signalled one by one.
pub open spec fn releasing(
    how: Release,
    entry: RecordView,
    rest: Seq<RecordView>,
    stage: StageView,
    ev: EventView,
) -> (StageView, ActView) {
    let one_by_one = sending(rest, release_tasks(how, entry.pids, entry.starts));
    match stage {
        StageView::Opening { path } => if ev is Fine {
            (StageView::Listing { path }, ActView::Members { path })
        } else {
            one_by_one
        },
        StageView::Listing { path } => {
            let members = match ev {
                EventView::Pids { pids } => pids,
                _ => Seq::empty(),
            };
            (StageView::Thawing { path, members }, ActView::Thaw { path })
        },
        StageView::Thawing { path, members } => match how {
            Release::Resume => if ev is Fine {
                (StageView::Closing { count: members.len() }, ActView::Destroy { path })
            } else {
                one_by_one
            },
            Release::Kill => ending(path, release_tasks(how, members, entry.starts)),
        },
        StageView::Ending { path, run } => ending(path, signal_after(run, ev)),
        StageView::Waiting { path, count } => (
            StageView::Closing { count },
            ActView::Destroy { path },
        ),
        StageView::Closing { count } => if how == Release::Resume && ev !is Fine {
            one_by_one
        } else {
            storing(rest, count)
        },
        StageView::Sending { run } => sending(rest, signal_after(run, ev)),
        StageView::Storing { count } => (
            StageView::Finished,
            ActView::Done {
                outcome: if ev !is Fine {
                    OutcomeView::Failed { message: message_of(ev) }
                } else {
                    match how {
                        Release::Resume => OutcomeView::Thawed { count, rss_kb: entry.rss_kb },
                        Release::Kill => OutcomeView::Killed { count },
                    }
                },
            },
        ),
        StageView::Finished => (
            StageView::Finished,
            ActView::Done {
                outcome: OutcomeView::Failed { message: "nothing left to do"@ },
            },
        ),
    }
}

pub struct ReleaseRun {
    pub how: Release,
    pub entry: SuspendedApp,
    /// The other records.
    pub rest: Vec<SuspendedApp>,
    pub stage: Stage,
}

fn copy_records(list: &Vec<SuspendedApp>) -> (r: Vec<SuspendedApp>)
    ensures
        records(r@) == records(list@),
{
    let mut out: Vec<SuspendedApp> = Vec::new();
    let mut i: usize = 0;
    while i < list.len()
        invariant
            i <= list.len(),
            out@.len() == i,
            forall|j: int| 0 <= j < i ==> (#[trigger] out@[j])@ == list@[j]@,
        decreases list.len() - i,
    {
        out.push(list[i].copy());
        i = i + 1;
    }
    assert(records(out@) =~= records(list@));
    out
}

impl ReleaseRun {
    pub open spec fn wf(&self) -> bool {
        self.stage.wf()
    }

    fn store(&self, count: usize) -> (r: (Stage, Act))
        ensures
            (r.0@, r.1@) == storing(records(self.rest@), count as nat),
            r.0.wf(),
    {
        (Stage::Storing { count }, Act::Save { list: copy_records(&self.rest) })
    }

    fn send(&self, run: SignalRun) -> (r: (Stage, Act))
        requires
            run.wf(),
        ensures
            (r.0@, r.1@) == sending(records(self.rest@), run@),
            r.0.wf(),
    {
        match run.step() {
            Some(a) => (Stage::Sending { run }, a),
            None => self.store(run.sent),
        }
    }

    fn end(&self, path: String, run: SignalRun) -> (r: (Stage, Act))
        requires
            run.wf(),
        ensures
            (r.0@, r.1@) == ending(path@, run@),
            r.0.wf(),
    {
        match run.step() {
            Some(a) => (Stage::Ending { path, run }, a),
            None => (Stage::Waiting { path, count: run.sent }, Act::Pause),
        }
    }

    fn tasks(&self, pids: &Vec<u32>) -> (r: SignalRun)
        ensures
            r.wf(),
            r@ == release_tasks(self.how, pids@, self.entry@.starts),
    {
        match self.how {
            Release::Resume => thaw(pids, &self.entry.starts),
            Release::Kill => signal_kill(pids, &self.entry.starts),
        }
    }

    fn by_one(&self) -> (r: (Stage, Act))
        ensures
            (r.0@, r.1@) == sending(
                records(self.rest@),
                release_tasks(self.how, self.entry@.pids, self.entry@.starts),
            ),
            r.0.wf(),
    {
        self.send(self.tasks(&self.entry.pids))
    }

    /// The next step, by how the last one went.
    pub fn next(self, ev: &Event) -> (r: (ReleaseRun, Act))
        requires
            self.wf(),
        ensures
            r.0.wf(),
            r.0.how == self.how,
            r.0.entry == self.entry,
            r.0.rest == self.rest,
            (r.0.stage@, r.1@) == releasing(
                self.how,
                self.entry@,
                records(self.rest@),
                self.stage@,
                ev@,
            ),
    {
        let run: ReleaseRun = ReleaseRun {
            how: self.how,
            entry: self.entry,
            rest: self.rest,
            stage: Stage::Finished,
        };
        let (stage, act): (Stage, Act) = match self.stage {
            Stage::Opening { path } => if is_fine(ev) {
                (Stage::Listing { path: path.clone() }, Act::Members { path })
            } else {
                run.by_one()
            },
            Stage::Listing { path } => {
                let members: Vec<u32> = match ev {
                    Event::Pids { pids } => copy_pids(pids),
                    _ => Vec::new(),
                };
                (Stage::Thawing { path: path.clone(), members }, Act::Thaw { path })
            },
            Stage::Thawing { path, members } => match run.how {
                Release::Resume => if is_fine(ev) {
                    (Stage::Closing { count: members.len() }, Act::Destroy { path })
                } else {
                    run.by_one()
                },
                Release::Kill => run.end(path, run.tasks(&members)),
            },
            Stage::Ending { path, run: signals } => {
                let mut s: SignalRun = signals;
                s.after(ev);
                run.end(path, s)
            },
            Stage::Waiting { path, count } => (Stage::Closing { count }, Act::Destroy { path }),
            Stage::Closing { count } => if run.how == Release::Resume && !is_fine(ev) {
                run.by_one()
            } else {
                run.store(count)
            },
            Stage::Sending { run: signals } => {
                let mut s: SignalRun = signals;
                s.after(ev);
                run.send(s)
            },
            Stage::Storing { count } => (
                Stage::Finished,
                Act::Done {
                    outcome: if !is_fine(ev) {
                        Outcome::Failed { message: error_of(ev) }
                    } else {
                        match run.how {
                            Release::Resume => Outcome::Thawed { count, rss_kb: run.entry.rss_kb },
                            Release::Kill => Outcome::Killed { count },
                        }
                    },
                },
            ),
            Stage::Finished => (
                Stage::Finished,
                Act::Done { outcome: Outcome::Failed { message: owned("nothing left to do") } },
            ),
        };
        (ReleaseRun { how: run.how, entry: run.entry, rest: run.rest, stage }, act)
    }
}

/// The first step of a release.
pub open spec fn release_begin(
    how: Release,
    entry: RecordView,
    rest: Seq<RecordView>,
) -> (StageView, ActView) {
    match entry.cgroup {
        Some(path) => (StageView::Opening { path }, ActView::Open { path }),
        None => sending(rest, release_tasks(how, entry.pids, entry.starts)),
    }
}

pub open spec fn not_suspended(key: Seq<char>) -> Seq<char> {
    "'"@ + key + "' is not suspended"@
}

fn release(how: Release, all: Vec<SuspendedApp>, key: &str) -> (r: Result<
    (ReleaseRun, Act),
    String,
>)
    ensures
        r is Ok <==> record_index(records(all@), key@) is Some,
        r matches Ok((run, act)) ==> ({
            let at = record_index(records(all@), key@)->0;
            &&& run.wf()
            &&& run.how == how
            &&& run.entry@ == records(all@)[at]
            &&& records(run.rest@) == records(all@).remove(at)
            &&& (run.stage@, act@) == release_begin(how, run.entry@, records(run.rest@))
        }),
        r matches Err(e) ==> e@ == not_suspended(key@),
{
    match find_record(&all, key) {
        Some(at) => {
            let mut rest: Vec<SuspendedApp> = all;
            let ghost before = records(rest@);
            let entry: SuspendedApp = rest.remove(at);
            assert(records(rest@) =~= before.remove(at as int));
            let run: ReleaseRun = ReleaseRun { how, entry, rest, stage: Stage::Finished };
            let (stage, act): (Stage, Act) = match &run.entry.cgroup {
                Some(path) => (Stage::Opening { path: path.clone() }, Act::Open {
                    path: path.clone(),
                }),
                None => run.by_one(),
            };
            Ok((ReleaseRun { how: run.how, entry: run.entry, rest: run.rest, stage }, act))
        },
        None => Err(cat3("'", key, "' is not suspended")),
    }
}

/// Begin to thaw a suspended app.
pub fn resume(all: Vec<SuspendedApp>, key: &str) -> (r: Result<(ReleaseRun, Act), String>)
    ensures
        r is Ok <==> record_index(records(all@), key@) is Some,
        r matches Ok((run, act)) ==> ({
            let at = record_index(records(all@), key@)->0;
            &&& run.wf()
            &&& run.how == Release::Resume
            &&& run.entry@ == records(all@)[at]
            &&& records(run.rest@) == records(all@).remove(at)
            &&& (run.stage@, act@) == release_begin(
                Release::Resume,
                run.entry@,
                records(run.rest@),
            )
        }),
        r matches Err(e) ==> e@ == not_suspended(key@),
{
    release(Release::Resume, all, key)
}

/// Begin to kill a suspended app.
pub fn kill_suspended(all: Vec<SuspendedApp>, key: &str) -> (r: Result<(ReleaseRun, Act), String>)
    ensures
        r is Ok <==> record_index(records(all@), key@) is Some,
        r matches Ok((run, act)) ==> ({
            let at = record_index(records(all@), key@)->0;
            &&& run.wf()
            &&& run.how == Release::Kill
            &&& run.entry@ == records(all@)[at]
            &&& records(run.rest@) == records(all@).remove(at)
            &&& (run.stage@, act@) == release_begin(Release::Kill, run.entry@, records(run.rest@))
        }),
        r matches Err(e) ==> e@ == not_suspended(key@),
{
    release(Release::Kill, all, key)
}

// ------------------------------------------------------------ laws of the records

/// No two records under one key.
pub open spec fn keys_apart(list: Seq<RecordView>) -> bool {
    forall|i: int, j: int|
        0 <= i < j < list.len() ==> (#[trigger] list[i]).key != (#[trigger] list[j]).key
}

proof fn lemma_without_key(list: Seq<RecordView>, key: Seq<char>)
    requires
        keys_apart(list),
    ensures
        keys_apart(without_key(list, key)),
        forall|i: int|
            0 <= i < without_key(list, key).len() ==> (#[trigger] without_key(list, key)[i]).key
                != key && list.contains(without_key(list, key)[i]),
    decreases list.len(),
{
    if list.len() > 0 {
        let rest = list.drop_last();
        let before = without_key(rest, key);
        let all = without_key(list, key);
        assert forall|i: int, j: int| 0 <= i < j < rest.len() implies (#[trigger] rest[i]).key != (
        #[trigger] rest[j]).key by {
            assert(list[i].key != list[j].key);
        }
        lemma_without_key(rest, key);
        assert forall|i: int| 0 <= i < all.len() implies (#[trigger] all[i]).key != key
            && list.contains(all[i]) by {
            if i < before.len() {
                assert(all[i] == before[i]);
                let k = choose|k: int| 0 <= k < rest.len() && rest[k] == before[i];
                assert(list[k] == before[i]);
            } else {
                assert(list[list.len() - 1] == all[i]);
            }
        }
        assert forall|i: int, j: int| 0 <= i < j < all.len() implies (#[trigger] all[i]).key != (
        #[trigger] all[j]).key by {
            assert(all[i] == before[i]);
            if j < before.len() {
                assert(all[j] == before[j]);
            } else {
                let k = choose|k: int| 0 <= k < rest.len() && rest[k] == before[i];
                assert(list[k].key != list[list.len() - 1].key);
            }
        }
    }
}

/// An app is recorded once: recording it anew replaces the old record, and
/// releasing it leaves none under its key.
pub proof fn one_record_per_app(list: Seq<RecordView>, entry: RecordView)
    requires
        keys_apart(list),
    ensures
        ({
            let next = without_key(list, entry.key).push(entry);
            &&& keys_apart(next)
            &&& record_index(next, entry.key) == Some(next.len() - 1)
            &&& record_index(next.remove(next.len() - 1), entry.key) is None
        }),
{
    let before = without_key(list, entry.key);
    let next = before.push(entry);
    lemma_without_key(list, entry.key);
    assert(next.drop_last() =~= before);
    assert(next.remove(next.len() - 1) =~= before);
    lemma_record_index(before, entry.key);
    if record_index(before, entry.key) is Some {
        let i = record_index(before, entry.key)->0;
        assert(before[i].key != entry.key);
    }
}

proof fn lemma_key_gone(list: Seq<RecordView>, key: Seq<char>)
    ensures
        record_index(without_key(list, key), key) is None,
    decreases list.len(),
{
    if list.len() > 0 {
        lemma_key_gone(list.drop_last(), key);
        let before = without_key(list.drop_last(), key);
        assert(before.push(list.last()).drop_last() =~= before);
    }
}

proof fn lemma_key_absent(list: Seq<RecordView>, key: Seq<char>)
    requires
        record_index(list, key) is None,
    ensures
        without_key(list, key) == list,
    decreases list.len(),
{
    if list.len() > 0 {
        lemma_key_absent(list.drop_last(), key);
        assert(list =~= list.drop_last().push(list.last()));
    }
}

/// Releasing undoes recording: an app that is recorded can be found under its
/// key as it was recorded, and once it is released the records are those of
/// the other apps as they were before, with none under that key. Where the app
/// was not recorded before, they are what they were.
pub proof fn releasing_undoes_recording(list: Seq<RecordView>, entry: RecordView)
    ensures
        ({
            let next = without_key(list, entry.key).push(entry);
            let at = next.len() - 1;
            &&& record_index(next, entry.key) == Some(at)
            &&& next[at] == entry
            &&& next.remove(at) == without_key(list, entry.key)
            &&& record_index(next.remove(at), entry.key) is None
            &&& record_index(list, entry.key) is None ==> next.remove(at) == list
        }),
{
    let before = without_key(list, entry.key);
    let next = before.push(entry);
    assert(next.drop_last() =~= before);
    assert(next.remove(next.len() - 1) =~= before);
    lemma_key_gone(list, entry.key);
    if record_index(list, entry.key) is None {
        lemma_key_absent(list, entry.key);
    }
}

// ------------------------------------------------------------ laws of whole runs

/// Whether a signal for a process was asked for.
pub open spec fn asked(steps: Seq<(ActView, EventView)>, pid: u32, sig: Sig) -> bool {
    exists|i: int| 0 <= i < steps.len() && (#[trigger] steps[i]).0 == (ActView::Signal { pid, sig })
}

/// Whether a process was looked at and found not to be the one with the start
/// time that was recorded for it.
pub open spec fn spared(
    steps: Seq<(ActView, EventView)>,
    starts: Seq<PidStart>,
    pid: u32,
) -> bool {
    exists|i: int, k: int|
        0 <= i < steps.len() && 0 <= k < starts.len() && (#[trigger] steps[i]).0 == (
        ActView::StartOf { pid }) && (#[trigger] starts[k]).pid == pid && steps[i].1 != (
        EventView::Started { start: Some(starts[k].start) })
}

/// How many signals of a kind were answered as sent.
pub open spec fn sent_count(steps: Seq<(ActView, EventView)>, sig: Sig) -> nat
    decreases steps.len(),
{
    if steps.len() == 0 {
        0
    } else {
        let (act, ev) = steps.last();
        sent_count(steps.drop_last(), sig) + (if act is Signal && act->sig == sig && ev == (
        EventView::Signalled { sent: true }) {
            1nat
        } else {
            0
        })
    }
}

/// Whether a process whose start was recorded was found to have that start
/// right before the step at `i`.
pub open spec fn checked_before(
    steps: Seq<(ActView, EventView)>,
    starts: Seq<PidStart>,
    i: int,
    pid: u32,
) -> bool {
    (exists|k: int| 0 <= k < starts.len() && (#[trigger] starts[k]).pid == pid) ==> i > 0
        && exists|k: int|
        0 <= k < starts.len() && (#[trigger] starts[k]).pid == pid && steps[i - 1] == (
            ActView::StartOf { pid },
            EventView::Started { start: Some(starts[k].start) },
        )
}

/// Whether only the given processes were signalled, each only where it was
/// still the one recorded, and terminated only where `kill` says so.
pub open spec fn signals_within(
    steps: Seq<(ActView, EventView)>,
    pids: Seq<u32>,
    starts: Seq<PidStart>,
    kill: bool,
) -> bool {
    forall|i: int|
        0 <= i < steps.len() && (#[trigger] steps[i]).0 is Signal ==> pids.contains(
            steps[i].0->Signal_pid,
        ) && (steps[i].0->sig == Sig::Cont || kill && steps[i].0->sig == Sig::Term)
            && checked_before(steps, starts, i, steps[i].0->Signal_pid)
}

/// Whether no signal was asked for.
pub open spec fn no_signals(steps: Seq<(ActView, EventView)>) -> bool {
    forall|i: int| 0 <= i < steps.len() ==> !((#[trigger] steps[i]).0 is Signal)
}

proof fn lemma_more_steps(
    steps: Seq<(ActView, EventView)>,
    x: (ActView, EventView),
    starts: Seq<PidStart>,
)
    ensures
        forall|pid: u32, sig: Sig| asked(steps, pid, sig) ==> #[trigger] asked(steps.push(x), pid, sig),
        forall|pid: u32|
            spared(steps, starts, pid) ==> #[trigger] spared(steps.push(x), starts, pid),
        forall|sig: Sig|
            !(x.0 is Signal) ==> #[trigger] sent_count(steps.push(x), sig) == sent_count(steps, sig),
{
    let next = steps.push(x);
    assert(next.drop_last() =~= steps);
    assert forall|pid: u32, sig: Sig| asked(steps, pid, sig) implies #[trigger] asked(
        next,
        pid,
        sig,
    ) by {
        let i = choose|i: int|
            0 <= i < steps.len() && (#[trigger] steps[i]).0 == (ActView::Signal { pid, sig });
        assert(next[i] == steps[i]);
    }
    assert forall|pid: u32| spared(steps, starts, pid) implies #[trigger] spared(
        next,
        starts,
        pid,
    ) by {
        let (i, k) = choose|i: int, k: int|
            0 <= i < steps.len() && 0 <= k < starts.len() && (#[trigger] steps[i]).0 == (
            ActView::StartOf { pid }) && (#[trigger] starts[k]).pid == pid && steps[i].1 != (
            EventView::Started { start: Some(starts[k].start) });
        assert(next[i] == steps[i]);
        assert(starts[k].pid == pid);
    }
}

proof fn lemma_start_known(starts: Seq<PidStart>, pid: u32)
    ensures
        start_known(starts, pid) matches Some(s) ==> exists|k: int|
            0 <= k < starts.len() && (#[trigger] starts[k]).pid == pid && starts[k].start == s,
        start_known(starts, pid) is None ==> forall|k: int|
            0 <= k < starts.len() ==> (#[trigger] starts[k]).pid != pid,
    decreases starts.len(),
{
    if starts.len() > 0 {
        let rest = starts.drop_first();
        lemma_start_known(rest, pid);
        assert forall|k: int| 1 <= k < starts.len() implies rest[k - 1] == #[trigger] starts[k] by {}
        if starts[0].pid == pid {
            assert(starts[0].start == start_known(starts, pid)->0);
        } else if start_known(rest, pid) is Some {
            let k = choose|k: int|
                0 <= k < rest.len() && (#[trigger] rest[k]).pid == pid && rest[k].start
                    == start_known(rest, pid)->0;
            assert(starts[k + 1].pid == pid);
        }
    }
}

spec fn task_done(steps: Seq<(ActView, EventView)>, starts: Seq<PidStart>, t: Task) -> bool {
    asked(steps, t.pid, t.sig) || spared(steps, starts, t.pid)
}

spec fn tasks_fit(tasks: Seq<Task>, pids: Seq<u32>, starts: Seq<PidStart>, kill: bool) -> bool {
    forall|j: int|
        0 <= j < tasks.len() ==> pids.contains((#[trigger] tasks[j]).pid) && tasks[j].known
            == start_known(starts, tasks[j].pid) && (tasks[j].sig == Sig::Cont || kill
            && tasks[j].sig == Sig::Term)
}

spec fn run_inv(
    steps: Seq<(ActView, EventView)>,
    run: SignalView,
    starts: Seq<PidStart>,
) -> bool {
    &&& run.at <= run.tasks.len()
    &&& run.sent == sent_count(steps, run.counted)
    &&& forall|j: int| 0 <= j < run.at ==> task_done(steps, starts, #[trigger] run.tasks[j])
    &&& run.at < run.tasks.len() && run.checked ==> run.tasks[run.at as int].known is Some
        && steps.len() > 0 && steps.last() == (
        ActView::StartOf { pid: run.tasks[run.at as int].pid },
        EventView::Started { start: run.tasks[run.at as int].known },
    )
}

proof fn lemma_run_step(
    steps: Seq<(ActView, EventView)>,
    run: SignalView,
    pids: Seq<u32>,
    starts: Seq<PidStart>,
    kill: bool,
    ev: EventView,
)
    requires
        run_inv(steps, run, starts),
        tasks_fit(run.tasks, pids, starts, kill),
        run.at < run.tasks.len(),
    ensures
        ({
            let next = steps.push((signal_step(run)->0, ev));
            let after = signal_after(run, ev);
            &&& run_inv(next, after, starts)
            &&& after.tasks == run.tasks
            &&& after.counted == run.counted
            &&& signals_within(steps, pids, starts, kill) ==> signals_within(
                next,
                pids,
                starts,
                kill,
            )
        }),
{
    let x = (signal_step(run)->0, ev);
    let next = steps.push(x);
    let after = signal_after(run, ev);
    let t = run.tasks[run.at as int];
    lemma_more_steps(steps, x, starts);
    lemma_start_known(starts, t.pid);
    assert(next.drop_last() =~= steps);
    assert(next[steps.len() as int] == x);
    if after.at == run.at + 1 {
        assert(task_done(next, starts, t)) by {
            if t.known is Some && !run.checked {
                let k = choose|k: int|
                    0 <= k < starts.len() && (#[trigger] starts[k]).pid == t.pid && starts[k].start
                        == t.known->0;
                assert(starts[k].pid == t.pid);
                assert(next[steps.len() as int].1 != (EventView::Started {
                    start: Some(starts[k].start),
                }));
                assert(spared(next, starts, t.pid));
            } else {
                assert(next[steps.len() as int].0 == (ActView::Signal { pid: t.pid, sig: t.sig }));
            }
        }
    }
    assert forall|j: int| 0 <= j < after.at implies task_done(
        next,
        starts,
        #[trigger] after.tasks[j],
    ) by {
        if j < run.at {
            assert(task_done(steps, starts, run.tasks[j]));
        }
    }
    if signals_within(steps, pids, starts, kill) {
        assert forall|i: int| 0 <= i < next.len() && (#[trigger] next[i]).0 is Signal implies
            pids.contains(next[i].0->Signal_pid) && (next[i].0->sig == Sig::Cont || kill
            && next[i].0->sig == Sig::Term) && checked_before(
            next,
            starts,
            i,
            next[i].0->Signal_pid,
        ) by {
            if i < steps.len() {
                assert(next[i] == steps[i]);
                if i > 0 {
                    assert(next[i - 1] == steps[i - 1]);
                }
                assert(checked_before(steps, starts, i, steps[i].0->Signal_pid));
            } else if t.known is Some {
                let k = choose|k: int|
                    0 <= k < starts.len() && (#[trigger] starts[k]).pid == t.pid && starts[k].start
                        == t.known->0;
                assert(next[i - 1] == steps.last());
                assert(starts[k].pid == t.pid);
            }
        }
    }
}

proof fn lemma_kept_within(
    steps: Seq<(ActView, EventView)>,
    x: (ActView, EventView),
    pids: Seq<u32>,
    starts: Seq<PidStart>,
    kill: bool,
)
    requires
        signals_within(steps, pids, starts, kill),
        !(x.0 is Signal),
    ensures
        signals_within(steps.push(x), pids, starts, kill),
{
    let next = steps.push(x);
    assert forall|i: int| 0 <= i < next.len() && (#[trigger] next[i]).0 is Signal implies
        pids.contains(next[i].0->Signal_pid) && (next[i].0->sig == Sig::Cont || kill
        && next[i].0->sig == Sig::Term) && checked_before(
        next,
        starts,
        i,
        next[i].0->Signal_pid,
    ) by {
        assert(next[i] == steps[i]);
        if i > 0 {
            assert(next[i - 1] == steps[i - 1]);
        }
        assert(checked_before(steps, starts, i, steps[i].0->Signal_pid));
    }
}

proof fn lemma_no_signals(steps: Seq<(ActView, EventView)>, sig: Sig)
    requires
        no_signals(steps),
    ensures
        sent_count(steps, sig) == 0,
    decreases steps.len(),
{
    if steps.len() > 0 {
        assert(!(steps[steps.len() - 1].0 is Signal));
        assert forall|i: int| 0 <= i < steps.drop_last().len() implies !((
        #[trigger] steps.drop_last()[i]).0 is Signal) by {
            assert(steps[i] == steps.drop_last()[i]);
        }
        lemma_no_signals(steps.drop_last(), sig);
    }
}

/// The steps of a release that were answered, how far it has come, and the
/// step that waits for an answer.
pub open spec fn release_run(
    how: Release,
    entry: RecordView,
    rest: Seq<RecordView>,
    evs: Seq<EventView>,
) -> (Seq<(ActView, EventView)>, StageView, ActView)
    decreases evs.len(),
{
    if evs.len() == 0 {
        let (stage, act) = release_begin(how, entry, rest);
        (Seq::empty(), stage, act)
    } else {
        let (steps, stage, act) = release_run(how, entry, rest, evs.drop_last());
        let (next, then) = releasing(how, entry, rest, stage, evs.last());
        (steps.push((act, evs.last())), next, then)
    }
}

/// The processes that a cgroup was said to hold.
pub open spec fn told_members(ev: EventView) -> Seq<u32> {
    match ev {
        EventView::Pids { pids } => pids,
        _ => Seq::empty(),
    }
}

/// Whether the cgroup of a record could be opened, and its members were asked
/// for before it was thawed.
pub open spec fn opened(entry: RecordView, steps: Seq<(ActView, EventView)>) -> bool {
    entry.cgroup matches Some(path) && steps.len() >= 2 && steps[0] == (
        ActView::Open { path },
        EventView::Fine,
    ) && steps[1].0 == (ActView::Members { path })
}

/// Whether a record has no cgroup, or one that could not be opened.
pub open spec fn not_opened(entry: RecordView, steps: Seq<(ActView, EventView)>) -> bool {
    entry.cgroup matches Some(path) ==> steps.len() >= 1 && steps[0].0 == (ActView::Open { path })
        && !(steps[0].1 is Fine)
}

/// The processes that are to be killed: those in the cgroup, or those recorded
/// where there is none.
pub open spec fn targets(entry: RecordView, steps: Seq<(ActView, EventView)>) -> Seq<u32> {
    if opened(entry, steps) {
        told_members(steps[1].1)
    } else {
        entry.pids
    }
}

spec fn all_done(
    steps: Seq<(ActView, EventView)>,
    starts: Seq<PidStart>,
    pids: Seq<u32>,
    sig: Sig,
) -> bool {
    forall|k: int|
        0 <= k < pids.len() ==> asked(steps, #[trigger] pids[k], sig) || spared(
            steps,
            starts,
            pids[k],
        )
}

/// Whether a cgroup was removed after a pause, and nothing signalled later.
pub open spec fn removed_after_a_pause(
    steps: Seq<(ActView, EventView)>,
    path: Seq<char>,
) -> bool {
    exists|d: int|
        0 < d < steps.len() && (#[trigger] steps[d]).0 == (ActView::Destroy { path }) && steps[d
            - 1].0 is Pause && forall|i: int|
            d < i < steps.len() ==> !((#[trigger] steps[i]).0 is Signal)
}

spec fn resumed_whole(
    entry: RecordView,
    steps: Seq<(ActView, EventView)>,
    count: nat,
) -> bool {
    &&& opened(entry, steps)
    &&& steps.len() >= 4
    &&& steps[2] == (ActView::Thaw { path: entry.cgroup->0 }, EventView::Fine)
    &&& steps[3] == (ActView::Destroy { path: entry.cgroup->0 }, EventView::Fine)
    &&& no_signals(steps)
    &&& count == told_members(steps[1].1).len()
}

spec fn release_concluded(
    how: Release,
    entry: RecordView,
    steps: Seq<(ActView, EventView)>,
    count: nat,
) -> bool {
    match how {
        Release::Kill => {
            let pids = targets(entry, steps);
            &&& opened(entry, steps) || not_opened(entry, steps)
            &&& all_done(steps, entry.starts, pids, Sig::Cont)
            &&& all_done(steps, entry.starts, pids, Sig::Term)
            &&& signals_within(steps, pids, entry.starts, true)
            &&& count == sent_count(steps, Sig::Term)
            &&& opened(entry, steps) ==> removed_after_a_pause(steps, entry.cgroup->0)
        },
        Release::Resume => {
            ||| resumed_whole(entry, steps, count)
            ||| {
                &&& all_done(steps, entry.starts, entry.pids, Sig::Cont)
                &&& signals_within(steps, entry.pids, entry.starts, false)
                &&& count == sent_count(steps, Sig::Cont)
            }
        },
    }
}

spec fn is_kill(how: Release) -> bool {
    how == Release::Kill
}

spec fn counted_sig(how: Release) -> Sig {
    match how {
        Release::Kill => Sig::Term,
        Release::Resume => Sig::Cont,
    }
}

spec fn release_inv(
    how: Release,
    entry: RecordView,
    rest: Seq<RecordView>,
    steps: Seq<(ActView, EventView)>,
    stage: StageView,
    act: ActView,
) -> bool {
    match stage {
        StageView::Opening { path } => steps.len() == 0 && entry.cgroup == Some(path) && act == (
        ActView::Open { path }),
        StageView::Listing { path } => steps.len() == 1 && entry.cgroup == Some(path) && steps[0]
            == (ActView::Open { path }, EventView::Fine) && act == (ActView::Members { path }),
        StageView::Thawing { path, members } => steps.len() == 2 && opened(entry, steps)
            && entry.cgroup == Some(path) && no_signals(steps) && members == told_members(
            steps[1].1,
        ) && act == (ActView::Thaw { path }),
        StageView::Ending { path, run } => {
            &&& is_kill(how)
            &&& opened(entry, steps)
            &&& entry.cgroup == Some(path)
            &&& run.counted == Sig::Term
            &&& run.tasks == kill_tasks(told_members(steps[1].1), entry.starts)
            &&& run_inv(steps, run, entry.starts)
            &&& signals_within(steps, told_members(steps[1].1), entry.starts, true)
            &&& signal_step(run) == Some(act)
        },
        StageView::Waiting { path, count } => {
            &&& is_kill(how)
            &&& entry.cgroup == Some(path)
            &&& opened(entry, steps)
            &&& all_done(steps, entry.starts, told_members(steps[1].1), Sig::Cont)
            &&& all_done(steps, entry.starts, told_members(steps[1].1), Sig::Term)
            &&& signals_within(steps, told_members(steps[1].1), entry.starts, true)
            &&& count == sent_count(steps, Sig::Term)
            &&& act is Pause
        },
        StageView::Closing { count } => {
            &&& opened(entry, steps)
            &&& act == (ActView::Destroy { path: entry.cgroup->0 })
            &&& match how {
                Release::Kill => {
                    &&& all_done(steps, entry.starts, told_members(steps[1].1), Sig::Cont)
                    &&& all_done(steps, entry.starts, told_members(steps[1].1), Sig::Term)
                    &&& signals_within(steps, told_members(steps[1].1), entry.starts, true)
                    &&& count == sent_count(steps, Sig::Term)
                    &&& steps.last().0 is Pause
                },
                Release::Resume => {
                    &&& steps.len() == 3
                    &&& steps[2] == (
                        ActView::Thaw { path: entry.cgroup->0 },
                        EventView::Fine,
                    )
                    &&& no_signals(steps)
                    &&& count == told_members(steps[1].1).len()
                },
            }
        },
        StageView::Sending { run } => {
            &&& is_kill(how) ==> not_opened(entry, steps)
            &&& run.counted == counted_sig(how)
            &&& run.tasks == release_tasks(how, entry.pids, entry.starts).tasks
            &&& run_inv(steps, run, entry.starts)
            &&& signals_within(steps, entry.pids, entry.starts, is_kill(how))
            &&& signal_step(run) == Some(act)
        },
        StageView::Storing { count } => {
            &&& act == (ActView::Save { list: rest })
            &&& release_concluded(how, entry, steps, count)
        },
        StageView::Finished => {
            &&& act is Done
            &&& !(act->outcome is Suspended)
            &&& act->outcome is Thawed ==> !is_kill(how) && steps.last() == (
                ActView::Save { list: rest },
                EventView::Fine,
            ) && act->outcome->rss_kb == entry.rss_kb && release_concluded(
                how,
                entry,
                steps,
                act->outcome->Thawed_count,
            )
            &&& act->outcome is Killed ==> is_kill(how) && steps.last() == (
                ActView::Save { list: rest },
                EventView::Fine,
            ) && release_concluded(how, entry, steps, act->outcome->Killed_count)
        },
    }
}

proof fn lemma_tasks_fit(how: Release, pids: Seq<u32>, starts: Seq<PidStart>)
    ensures
        tasks_fit(release_tasks(how, pids, starts).tasks, pids, starts, is_kill(how)),
{
    let tasks = release_tasks(how, pids, starts).tasks;
    assert forall|j: int| 0 <= j < tasks.len() implies pids.contains((#[trigger] tasks[j]).pid)
        && tasks[j].known == start_known(starts, tasks[j].pid) && (tasks[j].sig == Sig::Cont
        || is_kill(how) && tasks[j].sig == Sig::Term) by {
        if how == Release::Kill {
            assert(tasks[j].pid == pids[j / 2]);
        } else {
            assert(tasks[j].pid == pids[j]);
        }
    }
}

proof fn lemma_all_done(
    how: Release,
    pids: Seq<u32>,
    starts: Seq<PidStart>,
    steps: Seq<(ActView, EventView)>,
    run: SignalView,
)
    requires
        run.tasks == release_tasks(how, pids, starts).tasks,
        run_inv(steps, run, starts),
        run.at >= run.tasks.len(),
    ensures
        all_done(steps, starts, pids, Sig::Cont),
        is_kill(how) ==> all_done(steps, starts, pids, Sig::Term),
{
    assert forall|k: int| 0 <= k < pids.len() implies (asked(steps, #[trigger] pids[k], Sig::Cont)
        || spared(steps, starts, pids[k])) && (is_kill(how) ==> asked(steps, pids[k], Sig::Term)
        || spared(steps, starts, pids[k])) by {
        if how == Release::Kill {
            assert(task_done(steps, starts, run.tasks[2 * k]));
            assert(task_done(steps, starts, run.tasks[2 * k + 1]));
            assert(run.tasks[2 * k].pid == pids[k] && run.tasks[2 * k].sig == Sig::Cont);
            assert(run.tasks[2 * k + 1].pid == pids[k] && run.tasks[2 * k + 1].sig == Sig::Term);
        } else {
            assert(task_done(steps, starts, run.tasks[k]));
            assert(run.tasks[k].pid == pids[k]);
        }
    }
}

proof fn lemma_sending(
    how: Release,
    entry: RecordView,
    rest: Seq<RecordView>,
    steps: Seq<(ActView, EventView)>,
    run: SignalView,
)
    requires
        is_kill(how) ==> not_opened(entry, steps),
        run.counted == counted_sig(how),
        run.tasks == release_tasks(how, entry.pids, entry.starts).tasks,
        run_inv(steps, run, entry.starts),
        signals_within(steps, entry.pids, entry.starts, is_kill(how)),
    ensures
        release_inv(
            how,
            entry,
            rest,
            steps,
            sending(rest, run).0,
            sending(rest, run).1,
        ),
{
    if run.at >= run.tasks.len() {
        lemma_all_done(how, entry.pids, entry.starts, steps, run);
        if how == Release::Kill {
            assert(!opened(entry, steps));
            assert(targets(entry, steps) == entry.pids);
        }
        assert(release_concluded(how, entry, steps, run.sent));
    }
}

proof fn lemma_one_by_one(
    how: Release,
    entry: RecordView,
    rest: Seq<RecordView>,
    steps: Seq<(ActView, EventView)>,
)
    requires
        is_kill(how) ==> not_opened(entry, steps),
        no_signals(steps),
    ensures
        release_inv(
            how,
            entry,
            rest,
            steps,
            sending(rest, release_tasks(how, entry.pids, entry.starts)).0,
            sending(rest, release_tasks(how, entry.pids, entry.starts)).1,
        ),
{
    lemma_no_signals(steps, Sig::Cont);
    lemma_no_signals(steps, Sig::Term);
    lemma_sending(how, entry, rest, steps, release_tasks(how, entry.pids, entry.starts));
}

proof fn lemma_done_kept(
    steps: Seq<(ActView, EventView)>,
    x: (ActView, EventView),
    starts: Seq<PidStart>,
    pids: Seq<u32>,
    sig: Sig,
)
    requires
        all_done(steps, starts, pids, sig),
    ensures
        all_done(steps.push(x), starts, pids, sig),
{
    lemma_more_steps(steps, x, starts);
    assert forall|k: int| 0 <= k < pids.len() implies asked(steps.push(x), #[trigger] pids[k], sig)
        || spared(steps.push(x), starts, pids[k]) by {
        assert(asked(steps, pids[k], sig) || spared(steps, starts, pids[k]));
    }
}

proof fn lemma_concluded_kept(
    how: Release,
    entry: RecordView,
    steps: Seq<(ActView, EventView)>,
    x: (ActView, EventView),
    count: nat,
)
    requires
        release_concluded(how, entry, steps, count),
        !(x.0 is Signal),
    ensures
        release_concluded(how, entry, steps.push(x), count),
{
    let next = steps.push(x);
    lemma_more_steps(steps, x, entry.starts);
    assert forall|i: int| 0 <= i < steps.len() implies next[i] == #[trigger] steps[i] by {}
    match how {
        Release::Kill => {
            let pids = targets(entry, steps);
            if opened(entry, steps) {
                assert(opened(entry, next));
                let d = choose|d: int|
                    0 < d < steps.len() && (#[trigger] steps[d]).0 == (ActView::Destroy {
                        path: entry.cgroup->0,
                    }) && steps[d - 1].0 is Pause && forall|i: int|
                        d < i < steps.len() ==> !((#[trigger] steps[i]).0 is Signal);
                assert(next[d].0 == (ActView::Destroy { path: entry.cgroup->0 }));
                assert(next[d - 1] == steps[d - 1]);
                assert forall|i: int| d < i < next.len() implies !((#[trigger] next[i]).0 is Signal) by {
                    if i < steps.len() {
                        assert(next[i] == steps[i]);
                    }
                }
                assert(removed_after_a_pause(next, entry.cgroup->0));
            } else {
                assert(not_opened(entry, next));
                assert(!opened(entry, next));
            }
            assert(targets(entry, next) == pids);
            lemma_done_kept(steps, x, entry.starts, pids, Sig::Cont);
            lemma_done_kept(steps, x, entry.starts, pids, Sig::Term);
            lemma_kept_within(steps, x, pids, entry.starts, true);
        },
        Release::Resume => {
            if resumed_whole(entry, steps, count) {
                assert(next[0] == steps[0] && next[1] == steps[1] && next[2] == steps[2] && next[3]
                    == steps[3]);
                assert(no_signals(next));
                assert(resumed_whole(entry, next, count));
            } else {
                lemma_done_kept(steps, x, entry.starts, entry.pids, Sig::Cont);
                lemma_kept_within(steps, x, entry.pids, entry.starts, false);
            }
        },
    }
}

proof fn lemma_ending(
    entry: RecordView,
    rest: Seq<RecordView>,
    steps: Seq<(ActView, EventView)>,
    path: Seq<char>,
    run: SignalView,
)
    requires
        entry.cgroup == Some(path),
        opened(entry, steps),
        run.counted == Sig::Term,
        run.tasks == kill_tasks(told_members(steps[1].1), entry.starts),
        run_inv(steps, run, entry.starts),
        signals_within(steps, told_members(steps[1].1), entry.starts, true),
    ensures
        release_inv(
            Release::Kill,
            entry,
            rest,
            steps,
            ending(path, run).0,
            ending(path, run).1,
        ),
{
    if run.at >= run.tasks.len() {
        lemma_all_done(Release::Kill, told_members(steps[1].1), entry.starts, steps, run);
    }
}

proof fn lemma_release_step(
    how: Release,
    entry: RecordView,
    rest: Seq<RecordView>,
    steps: Seq<(ActView, EventView)>,
    stage: StageView,
    act: ActView,
    ev: EventView,
)
    requires
        release_inv(how, entry, rest, steps, stage, act),
    ensures
        release_inv(
            how,
            entry,
            rest,
            steps.push((act, ev)),
            releasing(how, entry, rest, stage, ev).0,
            releasing(how, entry, rest, stage, ev).1,
        ),
{
    let x = (act, ev);
    let next = steps.push(x);
    lemma_more_steps(steps, x, entry.starts);
    assert forall|i: int| 0 <= i < steps.len() implies next[i] == #[trigger] steps[i] by {}
    assert(next[steps.len() as int] == x);
    match stage {
        StageView::Opening { path } => {
            if !(ev is Fine) {
                lemma_one_by_one(how, entry, rest, next);
            }
        },
        StageView::Listing { path } => {},
        StageView::Thawing { path, members } => {
            assert(opened(entry, next));
            match how {
                Release::Resume => {
                    if !(ev is Fine) {
                        lemma_one_by_one(how, entry, rest, next);
                    }
                },
                Release::Kill => {
                    lemma_no_signals(next, Sig::Term);
                    lemma_ending(
                        entry,
                        rest,
                        next,
                        path,
                        release_tasks(how, members, entry.starts),
                    );
                },
            }
        },
        StageView::Ending { path, run } => {
            let pids = told_members(steps[1].1);
            lemma_tasks_fit(Release::Kill, pids, entry.starts);
            lemma_run_step(steps, run, pids, entry.starts, true, ev);
            lemma_ending(entry, rest, next, path, signal_after(run, ev));
        },
        StageView::Waiting { path, count } => {
            let pids = told_members(steps[1].1);
            lemma_done_kept(steps, x, entry.starts, pids, Sig::Cont);
            lemma_done_kept(steps, x, entry.starts, pids, Sig::Term);
            lemma_kept_within(steps, x, pids, entry.starts, true);
        },
        StageView::Closing { count } => {
            let pids = told_members(steps[1].1);
            assert(opened(entry, next));
            match how {
                Release::Kill => {
                    lemma_done_kept(steps, x, entry.starts, pids, Sig::Cont);
                    lemma_done_kept(steps, x, entry.starts, pids, Sig::Term);
                    lemma_kept_within(steps, x, pids, entry.starts, true);
                    let d = steps.len() as int;
                    assert(next[d].0 == (ActView::Destroy { path: entry.cgroup->0 }));
                    assert(next[d - 1].0 is Pause);
                    assert(removed_after_a_pause(next, entry.cgroup->0));
                },
                Release::Resume => {
                    if ev is Fine {
                        assert(resumed_whole(entry, next, count));
                    } else {
                        lemma_one_by_one(how, entry, rest, next);
                    }
                },
            }
        },
        StageView::Sending { run } => {
            lemma_tasks_fit(how, entry.pids, entry.starts);
            lemma_run_step(steps, run, entry.pids, entry.starts, is_kill(how), ev);
            lemma_sending(how, entry, rest, next, signal_after(run, ev));
        },
        StageView::Storing { count } => {
            lemma_concluded_kept(how, entry, steps, x, count);
        },
        StageView::Finished => {},
    }
}

proof fn lemma_release_run(
    how: Release,
    entry: RecordView,
    rest: Seq<RecordView>,
    evs: Seq<EventView>,
)
    ensures
        ({
            let (steps, stage, act) = release_run(how, entry, rest, evs);
            steps.len() == evs.len() && release_inv(how, entry, rest, steps, stage, act)
        }),
    decreases evs.len(),
{
    if evs.len() == 0 {
        if entry.cgroup is None {
            lemma_one_by_one(how, entry, rest, Seq::empty());
        }
    } else {
        lemma_release_run(how, entry, rest, evs.drop_last());
        let (steps, stage, act) = release_run(how, entry, rest, evs.drop_last());
        lemma_release_step(how, entry, rest, steps, stage, act, evs.last());
    }
}

/// A kill that succeeds has asked for every process of the app to be continued
/// and terminated: each member of its cgroup, or each recorded process where
/// there is no cgroup to open, but for those that were found to be others by
/// now. Nothing else is signalled. The count is that of the terminations that
/// were sent. The cgroup is removed after a pause, once all is sent, and the
/// other records are saved last.
pub proof fn a_kill_terminates_every_process(
    entry: RecordView,
    rest: Seq<RecordView>,
    evs: Seq<EventView>,
)
    requires
        release_run(Release::Kill, entry, rest, evs).2 is Done,
        !(release_run(Release::Kill, entry, rest, evs).2->outcome is Failed),
    ensures
        ({
            let (steps, _, act) = release_run(Release::Kill, entry, rest, evs);
            let pids = targets(entry, steps);
            &&& act->outcome == (OutcomeView::Killed { count: sent_count(steps, Sig::Term) })
            &&& opened(entry, steps) || not_opened(entry, steps)
            &&& forall|k: int|
                0 <= k < pids.len() ==> asked(steps, #[trigger] pids[k], Sig::Term) || spared(
                    steps,
                    entry.starts,
                    pids[k],
                )
            &&& forall|k: int|
                0 <= k < pids.len() ==> asked(steps, #[trigger] pids[k], Sig::Cont) || spared(
                    steps,
                    entry.starts,
                    pids[k],
                )
            &&& signals_within(steps, pids, entry.starts, true)
            &&& opened(entry, steps) ==> removed_after_a_pause(steps, entry.cgroup->0)
            &&& steps.last() == (ActView::Save { list: rest }, EventView::Fine)
        }),
{
    lemma_release_run(Release::Kill, entry, rest, evs);
}

/// A resume that succeeds has thawed the cgroup and removed it, and tells how
/// many members it had; or it has asked for every recorded process to be
/// continued, but for those that were found to be others by now, and tells how
/// many it reached. It terminates and stops nothing, and the other records are
/// saved last.
pub proof fn a_resume_lets_every_process_run(
    entry: RecordView,
    rest: Seq<RecordView>,
    evs: Seq<EventView>,
)
    requires
        release_run(Release::Resume, entry, rest, evs).2 is Done,
        !(release_run(Release::Resume, entry, rest, evs).2->outcome is Failed),
    ensures
        ({
            let (steps, _, act) = release_run(Release::Resume, entry, rest, evs);
            &&& act->outcome is Thawed
            &&& act->outcome->rss_kb == entry.rss_kb
            &&& signals_within(steps, entry.pids, entry.starts, false)
            &&& {
                ||| opened(entry, steps) && steps.len() >= 4 && steps[2] == (
                    ActView::Thaw { path: entry.cgroup->0 },
                    EventView::Fine,
                ) && steps[3] == (
                    ActView::Destroy { path: entry.cgroup->0 },
                    EventView::Fine,
                ) && act->outcome->Thawed_count == told_members(steps[1].1).len()
                ||| (forall|k: int|
                    0 <= k < entry.pids.len() ==> asked(
                        steps,
                        #[trigger] entry.pids[k],
                        Sig::Cont,
                    ) || spared(steps, entry.starts, entry.pids[k]))
                    && act->outcome->Thawed_count == sent_count(steps, Sig::Cont)
            }
            &&& steps.last() == (ActView::Save { list: rest }, EventView::Fine)
        }),
{
    lemma_release_run(Release::Resume, entry, rest, evs);
}

/// The steps of a suspension that were answered, how far it has come, and the
/// step that waits for an answer. Each answer comes with the time.
pub open spec fn suspend_run(req: RequestView, evs: Seq<(EventView, u64)>) -> (
    Seq<(ActView, EventView)>,
    PhaseView,
    ActView,
)
    decreases evs.len(),
{
    if evs.len() == 0 {
        (Seq::empty(), PhaseView::Syncing, ActView::Sync)
    } else {
        let (steps, phase, act) = suspend_run(req, evs.drop_last());
        let (ev, now) = evs.last();
        let (next, then) = suspension(req, phase, ev, now);
        (steps.push((act, ev)), next, then)
    }
}

/// Whether a step was answered as given.
pub open spec fn took(steps: Seq<(ActView, EventView)>, act: ActView, ev: EventView) -> bool {
    exists|i: int| 0 <= i < steps.len() && #[trigger] steps[i] == (act, ev)
}

/// Whether the start of a process was asked for and not told.
pub open spec fn start_untold(steps: Seq<(ActView, EventView)>, pid: u32) -> bool {
    exists|i: int|
        0 <= i < steps.len() && (#[trigger] steps[i]).0 == (ActView::StartOf { pid })
            && !(steps[i].1 matches EventView::Started { start } && start is Some)
}

/// Whether start times are those that were told: each was read for its
/// process, and a process among the first `n` without one has none to tell.
pub open spec fn starts_are_told(
    steps: Seq<(ActView, EventView)>,
    starts: Seq<PidStart>,
    pids: Seq<u32>,
    n: int,
) -> bool {
    &&& forall|k: int|
        0 <= k < starts.len() ==> took(
            steps,
            ActView::StartOf { pid: (#[trigger] starts[k]).pid },
            EventView::Started { start: Some(starts[k].start) },
        )
    &&& forall|j: int|
        0 <= j < n ==> start_untold(steps, #[trigger] pids[j]) || exists|k: int|
            0 <= k < starts.len() && (#[trigger] starts[k]).pid == pids[j]
}

/// Whether each of the first `n` processes was moved into a cgroup.
pub open spec fn moved_into(
    steps: Seq<(ActView, EventView)>,
    path: Seq<char>,
    pids: Seq<u32>,
    n: int,
) -> bool {
    forall|j: int|
        0 <= j < n ==> took(
            steps,
            ActView::Move { path, pid: #[trigger] pids[j] },
            EventView::Fine,
        )
}

/// Whether no process was told to do anything but to stop.
pub open spec fn only_stops(steps: Seq<(ActView, EventView)>) -> bool {
    forall|i: int|
        0 <= i < steps.len() && (#[trigger] steps[i]).0 is Signal ==> steps[i].0->sig == Sig::Stop
}

/// Whether a record says what was to be suspended.
pub open spec fn tells_request(entry: RecordView, req: RequestView) -> bool {
    &&& entry.key == req.key
    &&& entry.display == req.display
    &&& entry.pids == req.pids
    &&& entry.rss_kb == req.rss_kb
    &&& entry.task == req.task
}

spec fn frozen_in(
    req: RequestView,
    steps: Seq<(ActView, EventView)>,
    path: Seq<char>,
    starts: Seq<PidStart>,
) -> bool {
    &&& no_signals(steps)
    &&& took(steps, ActView::Create { key: req.key }, EventView::Created { path })
    &&& moved_into(steps, path, req.pids, req.pids.len() as int)
    &&& took(steps, ActView::Freeze { path }, EventView::Fine)
    &&& starts_are_told(steps, starts, req.pids, req.pids.len() as int)
}

spec fn stopped_all(
    req: RequestView,
    steps: Seq<(ActView, EventView)>,
    starts: Seq<PidStart>,
) -> bool {
    &&& only_stops(steps)
    &&& forall|j: int| 0 <= j < req.pids.len() ==> asked(steps, #[trigger] req.pids[j], Sig::Stop)
    &&& sent_count(steps, Sig::Stop) > 0
    &&& starts_are_told(steps, starts, req.pids, req.pids.len() as int)
}

spec fn let_go(
    req: RequestView,
    steps: Seq<(ActView, EventView)>,
    starts: Seq<PidStart>,
) -> bool {
    &&& starts_are_told(steps, starts, req.pids, req.pids.len() as int)
    &&& all_done(steps, starts, req.pids, Sig::Cont)
}

spec fn suspend_inv(
    req: RequestView,
    steps: Seq<(ActView, EventView)>,
    phase: PhaseView,
    act: ActView,
) -> bool {
    &&& phase !is Syncing ==> steps.len() > 0 && steps[0].0 is Sync
    &&& match phase {
        PhaseView::Syncing => steps.len() == 0 && act is Sync,
        PhaseView::Creating => no_signals(steps) && act == (ActView::Create { key: req.key }),
        PhaseView::Meeting { path, at, starts, homes } => {
            &&& no_signals(steps)
            &&& at < req.pids.len()
            &&& took(steps, ActView::Create { key: req.key }, EventView::Created { path })
            &&& moved_into(steps, path, req.pids, at as int)
            &&& starts_are_told(steps, starts, req.pids, at as int)
            &&& act == (ActView::StartOf { pid: req.pids[at as int] })
        },
        PhaseView::Placing { path, at, starts, homes } => {
            &&& no_signals(steps)
            &&& at < req.pids.len()
            &&& took(steps, ActView::Create { key: req.key }, EventView::Created { path })
            &&& moved_into(steps, path, req.pids, at as int)
            &&& starts_are_told(steps, starts, req.pids, at as int + 1)
            &&& act == (ActView::GroupOf { pid: req.pids[at as int] })
        },
        PhaseView::Moving { path, at, starts, homes, home } => {
            &&& no_signals(steps)
            &&& at < req.pids.len()
            &&& took(steps, ActView::Create { key: req.key }, EventView::Created { path })
            &&& moved_into(steps, path, req.pids, at as int)
            &&& starts_are_told(steps, starts, req.pids, at as int + 1)
            &&& act == (ActView::Move { path, pid: req.pids[at as int] })
        },
        PhaseView::Freezing { path, starts, homes } => {
            &&& no_signals(steps)
            &&& took(steps, ActView::Create { key: req.key }, EventView::Created { path })
            &&& moved_into(steps, path, req.pids, req.pids.len() as int)
            &&& starts_are_told(steps, starts, req.pids, req.pids.len() as int)
            &&& act == (ActView::Freeze { path })
        },
        PhaseView::Noting { entry, path, homes } => {
            &&& frozen_in(req, steps, path, entry.starts)
            &&& tells_request(entry, req)
            &&& entry.cgroup == Some(path)
            &&& act == (ActView::Record { entry })
        },
        PhaseView::Reopening { .. } => no_signals(steps) && act is Open,
        PhaseView::Rethawing { .. } => no_signals(steps) && act is Thaw,
        PhaseView::Returning { .. } => no_signals(steps) && act is Move,
        PhaseView::Leaving => no_signals(steps) && act is Destroy,
        PhaseView::Learning { at, starts } => {
            &&& no_signals(steps)
            &&& at < req.pids.len()
            &&& starts_are_told(steps, starts, req.pids, at as int)
            &&& act == (ActView::StartOf { pid: req.pids[at as int] })
        },
        PhaseView::Stopping { at, starts, stopped } => {
            &&& only_stops(steps)
            &&& at < req.pids.len()
            &&& starts_are_told(steps, starts, req.pids, req.pids.len() as int)
            &&& forall|j: int| 0 <= j < at ==> asked(steps, #[trigger] req.pids[j], Sig::Stop)
            &&& stopped <==> sent_count(steps, Sig::Stop) > 0
            &&& act == (ActView::Signal { pid: req.pids[at as int], sig: Sig::Stop })
        },
        PhaseView::Writing { entry } => {
            &&& stopped_all(req, steps, entry.starts)
            &&& tells_request(entry, req)
            &&& entry.cgroup is None
            &&& act == (ActView::Record { entry })
        },
        PhaseView::Undoing { run, message } => exists|starts: Seq<PidStart>|
            {
                &&& #[trigger] run_inv(steps, run, starts)
                &&& run.counted == Sig::Cont
                &&& run.tasks == thaw_tasks(req.pids, starts)
                &&& starts_are_told(steps, starts, req.pids, req.pids.len() as int)
                &&& signal_step(run) == Some(act)
            },
        PhaseView::Over => {
            &&& act is Done
            &&& act->outcome is Suspended || act->outcome is Failed
            &&& act->outcome is Suspended ==> suspended_well(req, steps, act->outcome->entry)
            &&& act->outcome is Failed && !(steps.last().0 is Done) ==> sent_count(
                steps,
                Sig::Stop,
            ) == 0 || exists|starts: Seq<PidStart>| #[trigger] let_go(req, steps, starts)
        },
    }
}

spec fn suspended_well(
    req: RequestView,
    steps: Seq<(ActView, EventView)>,
    entry: RecordView,
) -> bool {
    &&& tells_request(entry, req)
    &&& steps.last() == (ActView::Record { entry }, EventView::Fine)
    &&& match entry.cgroup {
        Some(path) => frozen_in(req, steps, path, entry.starts),
        None => stopped_all(req, steps, entry.starts),
    }
}

proof fn lemma_took_kept(
    steps: Seq<(ActView, EventView)>,
    x: (ActView, EventView),
    starts: Seq<PidStart>,
    pids: Seq<u32>,
    n: int,
    path: Seq<char>,
)
    ensures
        forall|a: ActView, e: EventView| took(steps, a, e) ==> #[trigger] took(steps.push(x), a, e),
        took(steps.push(x), x.0, x.1),
        starts_are_told(steps, starts, pids, n) ==> starts_are_told(
            steps.push(x),
            starts,
            pids,
            n,
        ),
        moved_into(steps, path, pids, n) ==> moved_into(steps.push(x), path, pids, n),
        !(x.0 is Signal) && no_signals(steps) ==> no_signals(steps.push(x)),
        !(x.0 is Signal) && only_stops(steps) ==> only_stops(steps.push(x)),
        no_signals(steps) ==> only_stops(steps),
{
    let next = steps.push(x);
    assert(next[steps.len() as int] == x);
    assert forall|a: ActView, e: EventView| took(steps, a, e) implies #[trigger] took(
        next,
        a,
        e,
    ) by {
        let i = choose|i: int| 0 <= i < steps.len() && #[trigger] steps[i] == (a, e);
        assert(next[i] == (a, e));
    }
    if starts_are_told(steps, starts, pids, n) {
        assert forall|j: int| 0 <= j < n implies start_untold(next, #[trigger] pids[j]) || exists|
            k: int,
        |
            0 <= k < starts.len() && (#[trigger] starts[k]).pid == pids[j] by {
            if start_untold(steps, pids[j]) {
                let i = choose|i: int|
                    0 <= i < steps.len() && (#[trigger] steps[i]).0 == (ActView::StartOf {
                        pid: pids[j],
                    }) && !(steps[i].1 matches EventView::Started { start } && start is Some);
                assert(next[i] == steps[i]);
            }
        }
    }
    if moved_into(steps, path, pids, n) {
        assert forall|j: int| 0 <= j < n implies took(
            next,
            ActView::Move { path, pid: #[trigger] pids[j] },
            EventView::Fine,
        ) by {
            assert(took(steps, ActView::Move { path, pid: pids[j] }, EventView::Fine));
        }
    }
    assert forall|i: int| 0 <= i < steps.len() implies next[i] == #[trigger] steps[i] by {}
}

proof fn lemma_noted(
    steps: Seq<(ActView, EventView)>,
    starts: Seq<PidStart>,
    pids: Seq<u32>,
    at: int,
    ev: EventView,
)
    requires
        0 <= at < pids.len(),
        starts_are_told(steps, starts, pids, at),
    ensures
        starts_are_told(
            steps.push((ActView::StartOf { pid: pids[at] }, ev)),
            noted(starts, pids[at], ev),
            pids,
            at + 1,
        ),
{
    let x = (ActView::StartOf { pid: pids[at] }, ev);
    let next = steps.push(x);
    let more = noted(starts, pids[at], ev);
    lemma_took_kept(steps, x, starts, pids, at, Seq::empty());
    assert(next[steps.len() as int] == x);
    assert forall|k: int| 0 <= k < more.len() implies took(
        next,
        ActView::StartOf { pid: (#[trigger] more[k]).pid },
        EventView::Started { start: Some(more[k].start) },
    ) by {
        if k < starts.len() {
            assert(more[k] == starts[k]);
        }
    }
    assert forall|j: int| 0 <= j < at + 1 implies start_untold(next, #[trigger] pids[j])
        || exists|k: int| 0 <= k < more.len() && (#[trigger] more[k]).pid == pids[j] by {
        if j < at {
            if !start_untold(next, pids[j]) {
                let k = choose|k: int| 0 <= k < starts.len() && (#[trigger] starts[k]).pid == pids[j];
                assert(more[k].pid == pids[j]);
            }
        } else if more.len() > starts.len() {
            assert(more[starts.len() as int].pid == pids[at]);
        } else {
            assert(!(ev matches EventView::Started { start } && start is Some));
        }
    }
}

proof fn lemma_suspend_step(
    req: RequestView,
    steps: Seq<(ActView, EventView)>,
    phase: PhaseView,
    act: ActView,
    ev: EventView,
    now: u64,
)
    requires
        req.pids.len() > 0,
        suspend_inv(req, steps, phase, act),
    ensures
        suspend_inv(
            req,
            steps.push((act, ev)),
            suspension(req, phase, ev, now).0,
            suspension(req, phase, ev, now).1,
        ),
{
    let x = (act, ev);
    let next = steps.push(x);
    let all = req.pids.len() as int;
    let (then, step) = suspension(req, phase, ev, now);
    assert(next.drop_last() =~= steps);
    assert(next[steps.len() as int] == x);
    assert forall|i: int| 0 <= i < steps.len() implies next[i] == #[trigger] steps[i] by {}
    match phase {
        PhaseView::Syncing => {},
        PhaseView::Creating => {
            lemma_took_kept(steps, x, Seq::empty(), req.pids, 0, Seq::empty());
        },
        PhaseView::Meeting { path, at, starts, homes } => {
            lemma_took_kept(steps, x, starts, req.pids, at as int, path);
            lemma_noted(steps, starts, req.pids, at as int, ev);
        },
        PhaseView::Placing { path, at, starts, homes } => {
            lemma_took_kept(steps, x, starts, req.pids, at as int + 1, path);
            lemma_took_kept(steps, x, starts, req.pids, at as int, path);
        },
        PhaseView::Moving { path, at, starts, homes, home } => {
            lemma_took_kept(steps, x, starts, req.pids, at as int + 1, path);
            lemma_took_kept(steps, x, starts, req.pids, at as int, path);
            if ev is Fine {
                assert(moved_into(next, path, req.pids, at as int + 1));
            }
        },
        PhaseView::Freezing { path, starts, homes } => {
            lemma_took_kept(steps, x, starts, req.pids, all, path);
        },
        PhaseView::Noting { entry, path, homes } => {
            lemma_took_kept(steps, x, entry.starts, req.pids, all, path);
        },
        PhaseView::Learning { at, starts } => {
            lemma_took_kept(steps, x, starts, req.pids, at as int, Seq::empty());
            lemma_noted(steps, starts, req.pids, at as int, ev);
            lemma_no_signals(next, Sig::Stop);
            lemma_took_kept(next, x, starts, req.pids, at as int, Seq::empty());
        },
        PhaseView::Stopping { at, starts, stopped } => {
            lemma_took_kept(steps, x, starts, req.pids, all, Seq::empty());
            lemma_more_steps(steps, x, starts);
            assert(only_stops(next));
            assert forall|j: int| 0 <= j < at + 1 implies asked(
                next,
                #[trigger] req.pids[j],
                Sig::Stop,
            ) by {
                if j < at {
                    assert(asked(steps, req.pids[j], Sig::Stop));
                } else {
                    assert(next[steps.len() as int].0 == (ActView::Signal {
                        pid: req.pids[j],
                        sig: Sig::Stop,
                    }));
                }
            }
        },
        PhaseView::Writing { entry } => {
            lemma_took_kept(steps, x, entry.starts, req.pids, all, Seq::empty());
            lemma_more_steps(steps, x, entry.starts);
            if ev is Fine {
                assert forall|j: int| 0 <= j < req.pids.len() implies asked(
                    next,
                    #[trigger] req.pids[j],
                    Sig::Stop,
                ) by {
                    assert(asked(steps, req.pids[j], Sig::Stop));
                }
                assert(suspended_well(req, next, entry));
            } else {
                let run = signals(thaw_tasks(entry.pids, entry.starts), Sig::Cont);
                lemma_no_conts(next);
                assert(run_inv(next, run, entry.starts));
            }
        },
        PhaseView::Undoing { run, message } => {
            let starts = choose|starts: Seq<PidStart>|
                {
                    &&& #[trigger] run_inv(steps, run, starts)
                    &&& run.counted == Sig::Cont
                    &&& run.tasks == thaw_tasks(req.pids, starts)
                    &&& starts_are_told(steps, starts, req.pids, all)
                    &&& signal_step(run) == Some(act)
                };
            lemma_took_kept(steps, x, starts, req.pids, all, Seq::empty());
            lemma_tasks_fit(Release::Resume, req.pids, starts);
            lemma_run_step(steps, run, req.pids, starts, false, ev);
            let after = signal_after(run, ev);
            assert(run_inv(next, after, starts));
            if after.at >= after.tasks.len() {
                lemma_all_done(Release::Resume, req.pids, starts, next, after);
                assert(let_go(req, next, starts));
            }
        },
        PhaseView::Over => {},
        _ => {
            lemma_took_kept(steps, x, Seq::empty(), req.pids, 0, Seq::empty());
        },
    }
}

proof fn lemma_no_conts(steps: Seq<(ActView, EventView)>)
    requires
        only_stops(steps),
    ensures
        sent_count(steps, Sig::Cont) == 0,
    decreases steps.len(),
{
    if steps.len() > 0 {
        let less = steps.drop_last();
        assert(steps[steps.len() - 1] == steps.last());
        assert forall|i: int| 0 <= i < less.len() && (#[trigger] less[i]).0 is Signal implies
            less[i].0->sig == Sig::Stop by {
            assert(steps[i] == less[i]);
        }
        lemma_no_conts(less);
    }
}

proof fn lemma_suspend_run(req: RequestView, evs: Seq<(EventView, u64)>)
    requires
        req.pids.len() > 0,
    ensures
        ({
            let (steps, phase, act) = suspend_run(req, evs);
            steps.len() == evs.len() && suspend_inv(req, steps, phase, act)
        }),
    decreases evs.len(),
{
    if evs.len() > 0 {
        lemma_suspend_run(req, evs.drop_last());
        let (steps, phase, act) = suspend_run(req, evs.drop_last());
        lemma_suspend_step(req, steps, phase, act, evs.last().0, evs.last().1);
    }
}

/// A suspension that succeeds has frozen or stopped every process: each was
/// moved into the app's own cgroup, which was frozen; or each was told to stop,
/// and one at least did. The buffers were written first. What is recorded last
/// names the app, its processes, its cgroup where it has one, and the start of
/// each process that could be told.
pub proof fn a_suspension_stops_every_process(req: RequestView, evs: Seq<(EventView, u64)>)
    requires
        req.pids.len() > 0,
        suspend_run(req, evs).2 is Done,
        suspend_run(req, evs).2->outcome is Suspended,
    ensures
        ({
            let (steps, _, act) = suspend_run(req, evs);
            let entry = act->outcome->entry;
            &&& tells_request(entry, req)
            &&& steps[0].0 is Sync
            &&& steps.last() == (ActView::Record { entry }, EventView::Fine)
            &&& starts_are_told(steps, entry.starts, req.pids, req.pids.len() as int)
            &&& only_stops(steps)
            &&& entry.cgroup matches Some(path) ==> no_signals(steps) && took(
                steps,
                ActView::Create { key: req.key },
                EventView::Created { path },
            ) && moved_into(steps, path, req.pids, req.pids.len() as int) && took(
                steps,
                ActView::Freeze { path },
                EventView::Fine,
            )
            &&& entry.cgroup is None ==> sent_count(steps, Sig::Stop) > 0 && forall|j: int|
                0 <= j < req.pids.len() ==> asked(steps, #[trigger] req.pids[j], Sig::Stop)
        }),
{
    lemma_suspend_run(req, evs);
    let (steps, _, act) = suspend_run(req, evs);
    if act->outcome->entry.cgroup is Some {
        assert forall|i: int| 0 <= i < steps.len() && (#[trigger] steps[i]).0 is Signal implies
            steps[i].0->sig == Sig::Stop by {}
    }
}

/// A suspension that fails leaves nothing stopped: where a process was, each of
/// them is asked to go on, but for those that were found to be others by now.
pub proof fn a_failed_suspension_stops_nothing(req: RequestView, evs: Seq<(EventView, u64)>) -> (
    starts: Seq<PidStart>)
    requires
        req.pids.len() > 0,
        evs.len() > 0,
        suspend_run(req, evs).2 is Done,
        suspend_run(req, evs).2->outcome is Failed,
        !(suspend_run(req, evs.drop_last()).2 is Done),
        sent_count(suspend_run(req, evs).0, Sig::Stop) > 0,
    ensures
        ({
            let steps = suspend_run(req, evs).0;
            &&& starts_are_told(steps, starts, req.pids, req.pids.len() as int)
            &&& forall|k: int|
                0 <= k < req.pids.len() ==> asked(steps, #[trigger] req.pids[k], Sig::Cont)
                    || spared(steps, starts, req.pids[k])
        }),
{
    lemma_suspend_run(req, evs);
    lemma_suspend_run(req, evs.drop_last());
    let (steps, phase, act) = suspend_run(req, evs);
    assert(steps.last().0 == suspend_run(req, evs.drop_last()).2);
    assert(phase is Over) by {
        assert(act is Done);
    }
    let starts = choose|starts: Seq<PidStart>| #[trigger] let_go(req, steps, starts);
    assert(let_go(req, steps, starts));
    starts
}

/// An app is released by the first record under its key.
pub proof fn records_are_found_by_key(list: Seq<RecordView>, key: Seq<char>)
    ensures
        record_index(list, key) is Some <==> exists|i: int|
            0 <= i < list.len() && (#[trigger] list[i]).key == key,
        record_index(list, key) matches Some(i) ==> 0 <= i < list.len() && list[i].key == key
            && forall|j: int| 0 <= j < i ==> (#[trigger] list[j]).key != key,
{
    lemma_record_index(list, key);
}

/// Recording an app keeps every record of another app, in its order, and no
/// other of its own.
pub proof fn recording_keeps_other_apps(list: Seq<RecordView>, key: Seq<char>) -> (at: Seq<int>)
    ensures
        at.len() == without_key(list, key).len(),
        forall|k: int|
            0 <= k < at.len() ==> 0 <= #[trigger] at[k] < list.len() && without_key(list, key)[k]
                == list[at[k]] && list[at[k]].key != key,
        forall|j: int, k: int| 0 <= j < k < at.len() ==> #[trigger] at[j] < #[trigger] at[k],
        forall|i: int|
            0 <= i < list.len() && (#[trigger] list[i]).key != key ==> at.contains(i),
    decreases list.len(),
{
    if list.len() == 0 {
        Seq::empty()
    } else {
        let less = list.drop_last();
        let n = list.len() - 1;
        let before = recording_keeps_other_apps(less, key);
        assert(forall|i: int| 0 <= i < n ==> less[i] == list[i]);
        let at = if list.last().key == key {
            before
        } else {
            before.push(n)
        };
        assert forall|i: int| 0 <= i < list.len() && (#[trigger] list[i]).key != key implies at.contains(
            i,
        ) by {
            if i < n {
                assert(less[i].key != key);
                let k = choose|k: int| 0 <= k < before.len() && before[k] == i;
                assert(at[k] == i);
            } else {
                assert(at[at.len() - 1] == i);
            }
        }
        at
    }
}

/// A record is kept exactly while one of its processes lives, in its order.
pub proof fn records_last_as_long_as_a_process(list: Seq<RecordView>, alive: Seq<u32>) -> (at: Seq<
    int,
>)
    ensures
        at.len() == kept(list, alive).len(),
        forall|k: int|
            0 <= k < at.len() ==> 0 <= #[trigger] at[k] < list.len() && kept(list, alive)[k]
                == list[at[k]] && exists|i: int|
                0 <= i < list[at[k]].pids.len() && alive.contains(#[trigger] list[at[k]].pids[i]),
        forall|j: int, k: int| 0 <= j < k < at.len() ==> #[trigger] at[j] < #[trigger] at[k],
        forall|i: int, p: int|
            0 <= i < list.len() && 0 <= p < list[i].pids.len() && alive.contains(
                #[trigger] list[i].pids[p],
            ) ==> at.contains(i),
    decreases list.len(),
{
    if list.len() == 0 {
        Seq::empty()
    } else {
        let less = list.drop_last();
        let n = list.len() - 1;
        let before = records_last_as_long_as_a_process(less, alive);
        assert(forall|i: int| 0 <= i < n ==> less[i] == list[i]);
        let at = if still_alive(list.last(), alive) {
            before.push(n)
        } else {
            before
        };
        assert forall|i: int, p: int|
            0 <= i < list.len() && 0 <= p < list[i].pids.len() && alive.contains(
                #[trigger] list[i].pids[p],
            ) implies at.contains(i) by {
            if i < n {
                assert(alive.contains(less[i].pids[p]));
                let k = choose|k: int| 0 <= k < before.len() && before[k] == i;
                assert(at[k] == i);
            } else {
                assert(still_alive(list.last(), alive));
                assert(at[at.len() - 1] == i);
            }
        }
        at
    }
}

/// The start of a process is the twentieth field behind its name, whatever
/// the name holds, and there is none where there are fewer fields.
pub proof fn starts_are_read_behind_the_name(head: Seq<char>, fields: Seq<char>, n: u64)
    requires
        !fields.contains(')'),
    ensures
        words_of(fields).len() >= 20 && words_of(fields)[19] == decimal(n as nat) ==> start_in(
            head + seq![')', ' '] + fields,
        ) == Some(n as nat),
        words_of(fields).len() < 20 ==> start_in(head + seq![')', ' '] + fields) is None,
        start_in(fields) is None,
{
    let s = head + seq![')', ' '] + fields;
    let tail = seq![' '] + fields;
    assert forall|i: int| 0 <= i < tail.len() implies tail[i] != ')' by {
        if i > 0 {
            assert(fields.contains(fields[i - 1]));
        }
    }
    assert(s =~= head.push(')') + tail);
    lemma_last_of(head, ')', tail);
    assert(s.skip(head.len() as int + 2) =~= fields);
    numeral_reads_back(n as nat, u64::MAX as nat);
    lemma_none_of(fields, ')');
}

proof fn lemma_none_of(s: Seq<char>, c: char)
    requires
        !s.contains(c),
    ensures
        last_of(s, c) is None,
    decreases s.len(),
{
    if s.len() > 0 {
        assert(s.contains(s[s.len() - 1]));
        assert forall|i: int| 0 <= i < s.drop_last().len() implies s.drop_last()[i] != c by {
            assert(s.contains(s[i]));
        }
        lemma_none_of(s.drop_last(), c);
    }
}

} // verus!
