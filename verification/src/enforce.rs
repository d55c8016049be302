//! Policy hits carried out one by one: each is shown, and where it is to be
//! applied it leads to a suspension or to lower priorities, process by process.

use vstd::prelude::*;

use crate::commands::{app_with_key, by_key, lemma_app_with_key, may_freeze, one, own_intent};
use crate::display::{painted, Theme};
use crate::fixed::{dec64, decimal};
use crate::intent::{classify, Intent};
use crate::policy::{hit_views, HitView, PolicyHit};
use crate::procfs::App;
use crate::scan::{trim, trimmed};
use crate::text::{
    cat2, cat3, cat4, cat5, cat6, lossy, lossy_of, opt_text, owned, push_text, same, texts,
};

verus! {

// ------------------------------------------------------------ hits

pub open spec fn hit_tag(t: Theme, action: Seq<char>) -> Seq<char> {
    if action == "suspend"@ {
        painted(t, "33"@, "suspend"@)
    } else if action == "throttle"@ {
        painted(t, "35"@, "throttle"@)
    } else {
        painted(t, "36"@, "notify"@)
    }
}

/// The line of a hit.
pub open spec fn hit_text(t: Theme, h: HitView) -> Seq<char> {
    "  ["@ + hit_tag(t, h.action) + "] "@ + h.message + " "@ + painted(
        t,
        "2"@,
        "("@ + h.rule + ")"@,
    )
}

fn hit_line(t: &Theme, h: &PolicyHit) -> (r: String)
    ensures
        r@ == hit_text(*t, h@),
{
    let tag: String = if same(h.action.as_str(), "suspend") {
        t.yellow("suspend")
    } else if same(h.action.as_str(), "throttle") {
        t.magenta("throttle")
    } else {
        t.cyan("notify")
    };
    let rule: String = cat3("(", h.rule.as_str(), ")");
    cat6(
        "  [",
        tag.as_str(),
        "] ",
        h.message.as_str(),
        " ",
        t.dim(rule.as_str()).as_str(),
    )
}

/// What is done about a hit.
pub enum HitAct {
    Nothing,
    /// Suspend the application at a place, which does a task.
    Suspend { app: usize, task: String },
    /// Leave protected work alone.
    Skip,
    /// Lower the priority of its processes.
    Throttle,
}

pub ghost enum HitActView {
    Nothing,
    Suspend { app: int, task: Seq<char> },
    Skip,
    Throttle,
}

impl View for HitAct {
    type V = HitActView;

    open spec fn view(&self) -> HitActView {
        match self {
            HitAct::Nothing => HitActView::Nothing,
            HitAct::Suspend { app, task } => HitActView::Suspend {
                app: *app as int,
                task: task@,
            },
            HitAct::Skip => HitActView::Skip,
            HitAct::Throttle => HitActView::Throttle,
        }
    }
}

/// What a hit comes to once it is applied.
pub open spec fn hit_act(h: HitView, apps: Seq<App>) -> HitActView {
    if h.action == "suspend"@ {
        match app_with_key(apps, h.app_key) {
            None => HitActView::Nothing,
            Some(k) => {
                let i = own_intent(apps[k]);
                if may_freeze(i) {
                    HitActView::Suspend { app: k, task: i.task }
                } else {
                    HitActView::Skip
                }
            },
        }
    } else if h.action == "throttle"@ {
        HitActView::Throttle
    } else {
        HitActView::Nothing
    }
}

/// Decide what a hit comes to once it is applied.
fn apply_hit(h: &PolicyHit, apps: &Vec<App>) -> (r: HitAct)
    ensures
        r@ == hit_act(h@, apps@),
        r matches HitAct::Suspend { app, .. } ==> app < apps@.len(),
{
    if same(h.action.as_str(), "suspend") {
        match by_key(apps, h.app_key.as_str()) {
            None => HitAct::Nothing,
            Some(k) => {
                let i: Intent = classify(&apps[k]);
                if i.can_suspend && !i.never_suspend {
                    HitAct::Suspend { app: k, task: i.task }
                } else {
                    HitAct::Skip
                }
            },
        }
    } else if same(h.action.as_str(), "throttle") {
        HitAct::Throttle
    } else {
        HitAct::Nothing
    }
}

/// What is said of a hit on protected work.
pub open spec fn skipped_text(t: Theme) -> Seq<char> {
    "    "@ + painted(t, "2"@, "skipped: protected intent"@)
}

/// What is said of a hit that led to lower priorities, by how many processes
/// took it and how many did not.
pub open spec fn throttled_text(t: Theme, ok: nat, fail: nat) -> Seq<char> {
    "    "@ + (if fail == 0 {
        painted(t, "32"@, "reniced +15, ionice idle ("@ + decimal(ok) + " pids)"@)
    } else {
        painted(
            t,
            "33"@,
            "throttle applied to "@ + decimal(ok) + " pids, "@ + decimal(fail) + " failed"@,
        )
    })
}

fn throttled_line(t: &Theme, ok: u64, fail: u64) -> (r: String)
    ensures
        r@ == throttled_text(*t, ok as nat, fail as nat),
{
    if fail == 0 {
        let msg: String = cat3("reniced +15, ionice idle (", dec64(ok).as_str(), " pids)");
        cat2("    ", t.green(msg.as_str()).as_str())
    } else {
        let msg: String = cat5(
            "throttle applied to ",
            dec64(ok).as_str(),
            " pids, ",
            dec64(fail).as_str(),
            " failed",
        );
        cat2("    ", t.yellow(msg.as_str()).as_str())
    }
}

/// What is said where the hits were only shown.
pub open spec fn dry_run_text(t: Theme) -> Seq<char> {
    painted(t, "2"@, "\n(dry run — pass --apply to act)"@)
}

/// The arguments of `renice` that lower a process's priority. No shell is
/// involved.
pub open spec fn nice_args(pid: u32) -> Seq<Seq<char>> {
    seq!["+15"@, "-p"@, decimal(pid as nat)]
}

/// The arguments of `ionice` that leave a process the idle disk.
pub open spec fn disk_args(pid: u32) -> Seq<Seq<char>> {
    seq!["-c"@, "3"@, "-p"@, decimal(pid as nat)]
}

fn nice(pid: u32) -> (r: Vec<String>)
    ensures
        texts(r@) == nice_args(pid),
{
    let mut v: Vec<String> = one(owned("+15"));
    push_text(&mut v, owned("-p"));
    push_text(&mut v, dec64(pid as u64));
    assert(texts(v@) =~= nice_args(pid));
    v
}

fn disk(pid: u32) -> (r: Vec<String>)
    ensures
        texts(r@) == disk_args(pid),
{
    let mut v: Vec<String> = one(owned("-c"));
    push_text(&mut v, owned("3"));
    push_text(&mut v, owned("-p"));
    push_text(&mut v, dec64(pid as u64));
    assert(texts(v@) =~= disk_args(pid));
    v
}

/// How a run of a tool ended.
pub enum Ran {
    Fine,
    /// It could not be started.
    Missing(String),
    /// It gave up, with what it printed on standard error.
    Refused(Vec<u8>),
}

/// What a run of a tool comes to.
pub open spec fn ran_error(tool: Seq<char>, r: Ran) -> Option<Seq<char>> {
    match r {
        Ran::Fine => None,
        Ran::Missing(e) => Some(tool + " spawn: "@ + e@),
        Ran::Refused(b) => Some(tool + ": "@ + trimmed(lossy_of(b@))),
    }
}

// ------------------------------------------------------------ turns

/// What is to be done next.
pub enum Act {
    /// Suspend the application at a place, which does a task.
    Suspend { app: usize, task: String },
    /// See whether a process is still there.
    Look { pid: u32 },
    /// Run `renice`.
    Renice { args: Vec<String> },
    /// Run `ionice`.
    Ionice { args: Vec<String> },
    /// Nothing is left to do.
    Exit { code: i32 },
}

pub ghost enum ActView {
    Suspend { app: int, task: Seq<char> },
    Look { pid: u32 },
    Renice { args: Seq<Seq<char>> },
    Ionice { args: Seq<Seq<char>> },
    Exit { code: i32 },
}

impl View for Act {
    type V = ActView;

    open spec fn view(&self) -> ActView {
        match self {
            Act::Suspend { app, task } => ActView::Suspend { app: *app as int, task: task@ },
            Act::Look { pid } => ActView::Look { pid: *pid },
            Act::Renice { args } => ActView::Renice { args: texts(args@) },
            Act::Ionice { args } => ActView::Ionice { args: texts(args@) },
            Act::Exit { code } => ActView::Exit { code: *code },
        }
    }
}

/// How the last act went.
pub enum Event {
    /// A suspension was recorded, or failed with a message.
    Suspended(Result<(), String>),
    /// Whether the process is there.
    Found(bool),
    /// How the tool ended.
    Ran(Ran),
}

/// What is printed, what is worth a warning, and what is to be done next.
pub struct Turn {
    pub out: Vec<String>,
    pub warn: Option<String>,
    pub act: Act,
}

#[verifier::ext_equal]
pub struct TurnView {
    pub out: Seq<Seq<char>>,
    pub warn: Option<Seq<char>>,
    pub act: ActView,
}

impl View for Turn {
    type V = TurnView;

    open spec fn view(&self) -> TurnView {
        TurnView { out: texts(self.out@), warn: opt_text(self.warn), act: self.act@ }
    }
}

/// A process of a hit that is being throttled, and how many before it took the
/// lower priorities or did not.
#[derive(Debug, Clone, Copy)]
pub struct Spot {
    pub hit: usize,
    pub pid: usize,
    pub ok: u64,
    pub fail: u64,
}

#[verifier::ext_equal]
pub struct SpotView {
    pub hit: nat,
    pub pid: nat,
    pub ok: nat,
    pub fail: nat,
}

impl View for Spot {
    type V = SpotView;

    open spec fn view(&self) -> SpotView {
        SpotView {
            hit: self.hit as nat,
            pid: self.pid as nat,
            ok: self.ok as nat,
            fail: self.fail as nat,
        }
    }
}

/// What was asked for last.
#[derive(Debug, Clone, Copy)]
pub enum Stage {
    Suspending { hit: usize },
    Looking(Spot),
    Nicing(Spot),
    Idling(Spot),
    Over,
}

pub ghost enum StageView {
    Suspending { hit: nat },
    Looking(SpotView),
    Nicing(SpotView),
    Idling(SpotView),
    Over,
}

impl View for Stage {
    type V = StageView;

    open spec fn view(&self) -> StageView {
        match self {
            Stage::Suspending { hit } => StageView::Suspending { hit: *hit as nat },
            Stage::Looking(s) => StageView::Looking(s@),
            Stage::Nicing(s) => StageView::Nicing(s@),
            Stage::Idling(s) => StageView::Idling(s@),
            Stage::Over => StageView::Over,
        }
    }
}

/// Hits on their way.
pub struct Enforcement {
    pub theme: Theme,
    pub hits: Vec<PolicyHit>,
    pub apps: Vec<App>,
    pub apply: bool,
    pub stage: Stage,
}

/// What does not change on the way.
#[verifier::ext_equal]
pub struct Given {
    pub theme: Theme,
    pub hits: Seq<HitView>,
    pub apps: Seq<App>,
    pub apply: bool,
}

/// A turn with lines before its own.
pub open spec fn led(lines: Seq<Seq<char>>, r: (StageView, TurnView)) -> (StageView, TurnView) {
    (r.0, TurnView { out: lines + r.1.out, ..r.1 })
}

/// A turn that only asks for something.
pub open spec fn asks(act: ActView) -> TurnView {
    TurnView { out: Seq::empty(), warn: None, act }
}

/// The turn that a hit and those after it lead to, up to the first act.
pub open spec fn from_hit(g: Given, hit: nat) -> (StageView, TurnView)
    decreases g.hits.len() - hit, 1int,
{
    if hit >= g.hits.len() {
        let out = if g.apply {
            Seq::empty()
        } else {
            seq![dry_run_text(g.theme)]
        };
        (StageView::Over, TurnView { out, warn: None, act: ActView::Exit { code: 0 } })
    } else {
        let h = g.hits[hit as int];
        let line = seq![hit_text(g.theme, h)];
        if !g.apply {
            led(line, from_hit(g, hit + 1))
        } else {
            match hit_act(h, g.apps) {
                HitActView::Nothing => led(line, from_hit(g, hit + 1)),
                HitActView::Suspend { app, task } => led(
                    line,
                    (StageView::Suspending { hit }, asks(ActView::Suspend { app, task })),
                ),
                HitActView::Skip => led(
                    line.push(skipped_text(g.theme)),
                    from_hit(g, hit + 1),
                ),
                HitActView::Throttle => led(
                    line,
                    from_pid(g, SpotView { hit, pid: 0, ok: 0, fail: 0 }),
                ),
            }
        }
    }
}

/// The turn that a process of a hit and those after it lead to.
pub open spec fn from_pid(g: Given, s: SpotView) -> (StageView, TurnView)
    decreases g.hits.len() - s.hit, 0int,
{
    if s.hit >= g.hits.len() {
        no_more()
    } else if s.pid < g.hits[s.hit as int].pids.len() {
        (
            StageView::Looking(s),
            asks(ActView::Look { pid: g.hits[s.hit as int].pids[s.pid as int] }),
        )
    } else {
        led(seq![throttled_text(g.theme, s.ok, s.fail)], from_hit(g, s.hit + 1))
    }
}

/// The turn where nothing is left.
pub open spec fn no_more() -> (StageView, TurnView) {
    (StageView::Over, asks(ActView::Exit { code: 0 }))
}

/// The error of a tool, by how the last act went.
pub open spec fn tool_error_of(tool: Seq<char>, ev: Event) -> Option<Seq<char>> {
    match ev {
        Event::Ran(r) => ran_error(tool, r),
        _ => Some(tool + ": "@),
    }
}

/// What is said of a hit that led to a suspension.
pub open spec fn applied_text(t: Theme, ev: Event) -> Seq<char> {
    "    "@ + (match ev {
        Event::Suspended(Ok(())) => painted(t, "32"@, "applied"@),
        Event::Suspended(Err(e)) => painted(t, "31"@, e@),
        _ => painted(t, "31"@, Seq::empty()),
    })
}

/// The turn after a process that did not take the lower priorities.
pub open spec fn after_failure(g: Given, s: SpotView, e: Seq<char>) -> (StageView, TurnView) {
    let pid = g.hits[s.hit as int].pids[s.pid as int];
    let r = from_pid(g, SpotView { pid: s.pid + 1, fail: s.fail + 1, ..s });
    (
        r.0,
        TurnView {
            warn: Some("throttle pid "@ + decimal(pid as nat) + " failed: "@ + e),
            ..r.1
        },
    )
}

/// What comes next, by how the last act went.
pub open spec fn enforced(g: Given, stage: StageView, ev: Event) -> (StageView, TurnView) {
    match stage {
        StageView::Suspending { hit } => led(
            seq![applied_text(g.theme, ev)],
            from_hit(g, hit + 1),
        ),
        StageView::Looking(s) => if ev == Event::Found(true) {
            (
                StageView::Nicing(s),
                asks(
                    ActView::Renice {
                        args: nice_args(g.hits[s.hit as int].pids[s.pid as int]),
                    },
                ),
            )
        } else {
            from_pid(g, SpotView { pid: s.pid + 1, ..s })
        },
        StageView::Nicing(s) => match tool_error_of("renice"@, ev) {
            None => (
                StageView::Idling(s),
                asks(
                    ActView::Ionice {
                        args: disk_args(g.hits[s.hit as int].pids[s.pid as int]),
                    },
                ),
            ),
            Some(e) => after_failure(g, s, e),
        },
        StageView::Idling(s) => match tool_error_of("ionice"@, ev) {
            None => from_pid(g, SpotView { pid: s.pid + 1, ok: s.ok + 1, ..s }),
            Some(e) => after_failure(g, s, e),
        },
        StageView::Over => no_more(),
    }
}

fn tool_error(tool: &str, ev: &Event) -> (e: Option<String>)
    ensures
        opt_text(e) == tool_error_of(tool@, *ev),
{
    match ev {
        Event::Ran(r) => match r {
            Ran::Fine => None,
            Ran::Missing(e) => Some(cat3(tool, " spawn: ", e.as_str())),
            Ran::Refused(b) => Some(cat3(tool, ": ", trim(lossy(b).as_str()).as_str())),
        },
        _ => Some(cat2(tool, ": ")),
    }
}

fn applied_line(t: &Theme, ev: &Event) -> (r: String)
    ensures
        r@ == applied_text(*t, *ev),
{
    match ev {
        Event::Suspended(Ok(())) => cat2("    ", t.green("applied").as_str()),
        Event::Suspended(Err(e)) => cat2("    ", t.red(e.as_str()).as_str()),
        _ => {
            let none: String = String::new();
            assert(none@ =~= Seq::empty());
            cat2("    ", t.red(none.as_str()).as_str())
        },
    }
}

fn ask(act: Act) -> (r: Turn)
    ensures
        r@ == asks(act@),
{
    let out: Vec<String> = Vec::new();
    assert(texts(out@) =~= Seq::empty());
    Turn { out, warn: None, act }
}

impl Spot {
    /// Whether the process is one of the hit's, with those before it counted at
    /// most once.
    pub open spec fn wf(self, hits: Seq<PolicyHit>) -> bool {
        self.hit < hits.len() && self.pid < hits[self.hit as int].pids@.len() && self.ok
            + self.fail <= self.pid
    }
}

impl Enforcement {
    pub open spec fn given(&self) -> Given {
        Given {
            theme: self.theme,
            hits: hit_views(self.hits@),
            apps: self.apps@,
            apply: self.apply,
        }
    }

    pub open spec fn stage_fits(&self, stage: Stage) -> bool {
        match stage {
            Stage::Suspending { hit } => hit < self.hits@.len(),
            Stage::Looking(s) => s.wf(self.hits@),
            Stage::Nicing(s) => s.wf(self.hits@),
            Stage::Idling(s) => s.wf(self.hits@),
            Stage::Over => true,
        }
    }

    pub open spec fn wf(&self) -> bool {
        self.stage_fits(self.stage)
    }

    /// Show a hit and those after it, up to the first that asks for an act.
    fn show(&self, hit: usize, lead: Vec<String>) -> (r: (Stage, Turn))
        requires
            hit <= self.hits@.len(),
        ensures
            (r.0@, r.1@) == led(texts(lead@), from_hit(self.given(), hit as nat)),
            self.stage_fits(r.0),
    {
        let ghost g = self.given();
        let ghost want = led(texts(lead@), from_hit(g, hit as nat));
        let mut out: Vec<String> = lead;
        let mut k: usize = hit;
        while k < self.hits.len()
            invariant
                k <= self.hits@.len(),
                g == self.given(),
                g.hits.len() == self.hits@.len(),
                want == led(texts(lead@), from_hit(g, hit as nat)),
                want == led(texts(out@), from_hit(g, k as nat)),
            decreases self.hits.len() - k,
        {
            let ghost before = texts(out@);
            let ghost rest = from_hit(g, k as nat + 1);
            assert(g.hits[k as int] == self.hits@[k as int]@);
            push_text(&mut out, hit_line(&self.theme, &self.hits[k]));
            let ghost line = hit_text(self.theme, g.hits[k as int]);
            if self.apply {
                match apply_hit(&self.hits[k], &self.apps) {
                    HitAct::Suspend { app, task } => {
                        assert(texts(out@) =~= before + seq![line] + Seq::empty());
                        assert(before + (seq![line] + Seq::empty()) =~= texts(out@));
                        return (
                            Stage::Suspending { hit: k },
                            Turn { out, warn: None, act: Act::Suspend { app, task } },
                        );
                    },
                    HitAct::Throttle => {
                        let ghost first = SpotView { hit: k as nat, pid: 0, ok: 0, fail: 0 };
                        assert(from_hit(g, k as nat) == led(seq![line], from_pid(g, first)));
                        if self.hits[k].pids.len() > 0 {
                            let s: Spot = Spot { hit: k, pid: 0, ok: 0, fail: 0 };
                            assert(before + (seq![line] + Seq::empty()) =~= texts(out@));
                            return (
                                Stage::Looking(s),
                                Turn {
                                    out,
                                    warn: None,
                                    act: Act::Look { pid: self.hits[k].pids[0] },
                                },
                            );
                        }
                        assert(from_pid(g, first) == led(
                            seq![throttled_text(self.theme, 0, 0)],
                            rest,
                        ));
                        push_text(&mut out, throttled_line(&self.theme, 0, 0));
                        assert(before + (seq![line] + (seq![throttled_text(self.theme, 0, 0)]
                            + rest.1.out)) =~= texts(out@) + rest.1.out);
                    },
                    HitAct::Skip => {
                        push_text(
                            &mut out,
                            cat2("    ", self.theme.dim("skipped: protected intent").as_str()),
                        );
                        assert(before + (seq![line].push(skipped_text(self.theme)) + rest.1.out)
                            =~= texts(out@) + rest.1.out);
                    },
                    HitAct::Nothing => {
                        assert(before + (seq![line] + rest.1.out) =~= texts(out@) + rest.1.out);
                    },
                }
            } else {
                assert(before + (seq![line] + rest.1.out) =~= texts(out@) + rest.1.out);
            }
            k = k + 1;
        }
        if !self.apply {
            let ghost before = texts(out@);
            push_text(&mut out, self.theme.dim("\n(dry run — pass --apply to act)"));
            assert(texts(out@) =~= before + seq![dry_run_text(self.theme)]);
        } else {
            assert(texts(out@) + Seq::<Seq<char>>::empty() =~= texts(out@));
        }
        (Stage::Over, Turn { out, warn: None, act: Act::Exit { code: 0 } })
    }

    /// Go on with a process of a hit, or with the next hit where none is left.
    fn throttle(&self, s: Spot) -> (r: (Stage, Turn))
        requires
            s.hit < self.hits@.len(),
            s.pid <= self.hits@[s.hit as int].pids@.len(),
            s.ok + s.fail <= s.pid,
        ensures
            (r.0@, r.1@) == from_pid(self.given(), s@),
            self.stage_fits(r.0),
    {
        assert(self.given().hits[s.hit as int] == self.hits@[s.hit as int]@);
        assert(s.hit < self.hits.len());
        if s.pid < self.hits[s.hit].pids.len() {
            (Stage::Looking(s), ask(Act::Look { pid: self.hits[s.hit].pids[s.pid] }))
        } else {
            self.show(s.hit + 1, one(throttled_line(&self.theme, s.ok, s.fail)))
        }
    }

    fn fail(&self, s: Spot, e: String) -> (r: (Stage, Turn))
        requires
            s.wf(self.hits@),
        ensures
            (r.0@, r.1@) == after_failure(self.given(), s@, e@),
            self.stage_fits(r.0),
    {
        assert(self.given().hits[s.hit as int] == self.hits@[s.hit as int]@);
        let pid: u32 = self.hits[s.hit].pids[s.pid];
        assert(s.pid < self.hits[s.hit as int].pids.len());
        let (stage, turn) = self.throttle(
            Spot { hit: s.hit, pid: s.pid + 1, ok: s.ok, fail: s.fail + 1 },
        );
        let said: String = cat4(
            "throttle pid ",
            dec64(pid as u64).as_str(),
            " failed: ",
            e.as_str(),
        );
        (stage, Turn { out: turn.out, warn: Some(said), act: turn.act })
    }

    /// What comes next, by how the last act went.
    pub fn next(self, ev: &Event) -> (r: (Enforcement, Turn))
        requires
            self.wf(),
        ensures
            r.0.wf(),
            r.0.given() == self.given(),
            (r.0.stage@, r.1@) == enforced(self.given(), self.stage@, *ev),
    {
        let (stage, turn) = self.step(ev);
        (
            Enforcement {
                theme: self.theme,
                hits: self.hits,
                apps: self.apps,
                apply: self.apply,
                stage,
            },
            turn,
        )
    }

    fn step(&self, ev: &Event) -> (r: (Stage, Turn))
        requires
            self.wf(),
        ensures
            self.stage_fits(r.0),
            (r.0@, r.1@) == enforced(self.given(), self.stage@, *ev),
    {
        match self.stage {
            Stage::Suspending { hit } => {
                assert(hit < self.hits.len());
                self.show(hit + 1, one(applied_line(&self.theme, ev)))
            },
            Stage::Looking(s) => {
                assert(self.given().hits[s.hit as int] == self.hits@[s.hit as int]@);
                assert(s.pid < self.hits[s.hit as int].pids.len());
                let found: bool = match ev {
                    Event::Found(b) => *b,
                    _ => false,
                };
                if found {
                    let pid: u32 = self.hits[s.hit].pids[s.pid];
                    (Stage::Nicing(s), ask(Act::Renice { args: nice(pid) }))
                } else {
                    self.throttle(Spot { hit: s.hit, pid: s.pid + 1, ok: s.ok, fail: s.fail })
                }
            },
            Stage::Nicing(s) => {
                assert(self.given().hits[s.hit as int] == self.hits@[s.hit as int]@);
                match tool_error("renice", ev) {
                    Some(e) => self.fail(s, e),
                    None => {
                        let pid: u32 = self.hits[s.hit].pids[s.pid];
                        (Stage::Idling(s), ask(Act::Ionice { args: disk(pid) }))
                    },
                }
            },
            Stage::Idling(s) => {
                assert(s.pid < self.hits[s.hit as int].pids.len());
                match tool_error("ionice", ev) {
                    Some(e) => self.fail(s, e),
                    None => self.throttle(
                        Spot { hit: s.hit, pid: s.pid + 1, ok: s.ok + 1, fail: s.fail },
                    ),
                }
            },
            Stage::Over => (Stage::Over, ask(Act::Exit { code: 0 })),
        }
    }
}

/// Set about a list of hits: show them, and carry them out where they are to
/// be applied.
pub fn enforce(t: &Theme, hits: Vec<PolicyHit>, apps: Vec<App>, apply: bool) -> (r: (
    Enforcement,
    Turn,
))
    ensures
        r.0.wf(),
        r.0.given() == (Given { theme: *t, hits: hit_views(hits@), apps: apps@, apply }),
        (r.0.stage@, r.1@) == from_hit(r.0.given(), 0),
{
    let run: Enforcement = Enforcement { theme: *t, hits, apps, apply, stage: Stage::Over };
    let none: Vec<String> = Vec::new();
    assert(texts(none@) =~= Seq::empty());
    let (stage, turn) = run.show(0, none);
    assert(Seq::empty() + from_hit(run.given(), 0).1.out =~= from_hit(run.given(), 0).1.out);
    (
        Enforcement {
            theme: run.theme,
            hits: run.hits,
            apps: run.apps,
            apply: run.apply,
            stage,
        },
        turn,
    )
}

// ------------------------------------------------------------ laws

/// Whether an act spares protected work: a suspension is only of an
/// application that may be frozen.
pub open spec fn spares(g: Given, act: ActView) -> bool {
    act matches ActView::Suspend { app, .. } ==> 0 <= app < g.apps.len() && may_freeze(
        own_intent(g.apps[app]),
    )
}

/// A hit comes to a suspension only of the application it names, and only where
/// that may be frozen.
proof fn lemma_hit_act(h: HitView, apps: Seq<App>)
    ensures
        hit_act(h, apps) matches HitActView::Suspend { app, .. } ==> 0 <= app < apps.len()
            && apps[app].key@ == h.app_key && may_freeze(own_intent(apps[app])),
{
    lemma_app_with_key(apps, h.app_key);
}

proof fn lemma_from_hit(g: Given, hit: nat)
    ensures
        spares(g, from_hit(g, hit).1.act),
        !g.apply ==> from_hit(g, hit).1.act is Exit,
    decreases g.hits.len() - hit, 1int,
{
    if hit < g.hits.len() {
        lemma_hit_act(g.hits[hit as int], g.apps);
        lemma_from_hit(g, hit + 1);
        lemma_from_pid(g, SpotView { hit, pid: 0, ok: 0, fail: 0 });
    }
}

proof fn lemma_from_pid(g: Given, s: SpotView)
    ensures
        spares(g, from_pid(g, s).1.act),
    decreases g.hits.len() - s.hit, 0int,
{
    if s.hit < g.hits.len() {
        lemma_from_hit(g, s.hit + 1);
    }
}

/// Policies never suspend protected work: whatever the rules say and whatever
/// happens on the way, no turn asks for the suspension of an application whose
/// intent forbids it.
pub proof fn policies_never_suspend_protected_work(g: Given, hit: nat, stage: StageView, ev: Event)
    ensures
        spares(g, from_hit(g, hit).1.act),
        spares(g, enforced(g, stage, ev).1.act),
{
    lemma_from_hit(g, hit);
    match stage {
        StageView::Suspending { hit } => lemma_from_hit(g, hit + 1),
        StageView::Looking(s) => lemma_from_pid(g, SpotView { pid: s.pid + 1, ..s }),
        StageView::Nicing(s) => lemma_from_pid(
            g,
            SpotView { pid: s.pid + 1, fail: s.fail + 1, ..s },
        ),
        StageView::Idling(s) => {
            lemma_from_pid(g, SpotView { pid: s.pid + 1, fail: s.fail + 1, ..s });
            lemma_from_pid(g, SpotView { pid: s.pid + 1, ok: s.ok + 1, ..s });
        },
        StageView::Over => {},
    }
}

/// A dry run touches nothing: it ends with its first turn.
pub proof fn a_dry_run_touches_nothing(g: Given)
    requires
        !g.apply,
    ensures
        from_hit(g, 0).1.act is Exit,
{
    lemma_from_hit(g, 0);
}

// ------------------------------------------------------------ laws of a whole run

/// The acts of an enforcement that were answered, how far it has come, and the
/// act that waits for an answer.
pub open spec fn enforce_run(g: Given, evs: Seq<Event>) -> (
    Seq<(ActView, Event)>,
    StageView,
    ActView,
)
    decreases evs.len(),
{
    if evs.len() == 0 {
        (Seq::empty(), from_hit(g, 0).0, from_hit(g, 0).1.act)
    } else {
        let (steps, stage, act) = enforce_run(g, evs.drop_last());
        let (next, turn) = enforced(g, stage, evs.last());
        (steps.push((act, evs.last())), next, turn.act)
    }
}

/// Whether a process was looked for and, where it was there, given the lower
/// priority, and where it took that, the idle disk too.
pub open spec fn slowed(steps: Seq<(ActView, Event)>, pid: u32) -> bool {
    exists|i: int|
        0 <= i < steps.len() && (#[trigger] steps[i]).0 == (ActView::Look { pid }) && (steps[i].1
            == Event::Found(true) ==> i + 1 < steps.len() && steps[i + 1].0 == (ActView::Renice {
            args: seq!["+15"@, "-p"@, decimal(pid as nat)],
        }) && (steps[i + 1].1 == Event::Ran(Ran::Fine) ==> i + 2 < steps.len() && steps[i + 2].0
            == (ActView::Ionice { args: seq!["-c"@, "3"@, "-p"@, decimal(pid as nat)] })))
}

/// Whether a hit was carried out. A suspension is asked for where the first
/// application under the key may be suspended; a throttling reaches every
/// process.
pub open spec fn carried_out(g: Given, steps: Seq<(ActView, Event)>, h: HitView) -> bool {
    &&& h.action == "suspend"@ ==> forall|k: int|
        0 <= k < g.apps.len() && (#[trigger] g.apps[k]).key@ == h.app_key && (forall|m: int|
            0 <= m < k ==> (#[trigger] g.apps[m]).key@ != h.app_key) && own_intent(
            g.apps[k],
        ).can_suspend && !own_intent(g.apps[k]).never_suspend ==> exists|i: int|
            0 <= i < steps.len() && (#[trigger] steps[i]).0 == (ActView::Suspend {
                app: k,
                task: own_intent(g.apps[k]).task,
            })
    &&& h.action == "throttle"@ ==> forall|p: int|
        0 <= p < h.pids.len() ==> slowed(steps, #[trigger] h.pids[p])
}

spec fn settled(g: Given, steps: Seq<(ActView, Event)>, n: int) -> bool {
    forall|j: int| 0 <= j < n ==> carried_out(g, steps, #[trigger] g.hits[j])
}

spec fn spot_inv(g: Given, steps: Seq<(ActView, Event)>, s: SpotView) -> bool {
    &&& s.hit < g.hits.len()
    &&& s.pid < g.hits[s.hit as int].pids.len()
    &&& g.hits[s.hit as int].action == "throttle"@
    &&& settled(g, steps, s.hit as int)
    &&& forall|p: int|
        0 <= p < s.pid ==> slowed(steps, #[trigger] g.hits[s.hit as int].pids[p])
}

spec fn enforce_inv(
    g: Given,
    steps: Seq<(ActView, Event)>,
    stage: StageView,
    act: ActView,
) -> bool {
    match stage {
        StageView::Suspending { hit } => {
            &&& hit < g.hits.len()
            &&& settled(g, steps, hit as int)
            &&& g.hits[hit as int].action == "suspend"@
            &&& exists|k: int|
                0 <= k < g.apps.len() && (#[trigger] g.apps[k]).key@ == g.hits[hit as int].app_key
                    && (forall|m: int|
                    0 <= m < k ==> (#[trigger] g.apps[m]).key@ != g.hits[hit as int].app_key) && act
                    == (ActView::Suspend { app: k, task: own_intent(g.apps[k]).task })
        },
        StageView::Looking(s) => {
            &&& spot_inv(g, steps, s)
            &&& act == (ActView::Look { pid: g.hits[s.hit as int].pids[s.pid as int] })
        },
        StageView::Nicing(s) => {
            let pid = g.hits[s.hit as int].pids[s.pid as int];
            &&& spot_inv(g, steps, s)
            &&& steps.len() > 0
            &&& steps.last() == (ActView::Look { pid }, Event::Found(true))
            &&& act == (ActView::Renice { args: seq!["+15"@, "-p"@, decimal(pid as nat)] })
        },
        StageView::Idling(s) => {
            let pid = g.hits[s.hit as int].pids[s.pid as int];
            &&& spot_inv(g, steps, s)
            &&& steps.len() > 1
            &&& steps[steps.len() - 2] == (ActView::Look { pid }, Event::Found(true))
            &&& steps.last() == (
                ActView::Renice { args: seq!["+15"@, "-p"@, decimal(pid as nat)] },
                Event::Ran(Ran::Fine),
            )
            &&& act == (ActView::Ionice { args: seq!["-c"@, "3"@, "-p"@, decimal(pid as nat)] })
        },
        StageView::Over => {
            &&& act == (ActView::Exit { code: 0 })
            &&& settled(g, steps, g.hits.len() as int)
        },
    }
}

proof fn lemma_first_with_key(apps: Seq<App>, key: Seq<char>)
    ensures
        app_with_key(apps, key) matches Some(k) ==> 0 <= k < apps.len() && apps[k].key@ == key
            && forall|m: int| 0 <= m < k ==> (#[trigger] apps[m]).key@ != key,
        app_with_key(apps, key) is None ==> forall|m: int|
            0 <= m < apps.len() ==> (#[trigger] apps[m]).key@ != key,
    decreases apps.len(),
{
    if apps.len() > 0 && apps[0].key@ != key {
        let rest = apps.drop_first();
        lemma_first_with_key(rest, key);
        assert forall|m: int| 1 <= m < apps.len() implies rest[m - 1] == #[trigger] apps[m] by {}
    }
}

proof fn lemma_hit_done(g: Given, steps: Seq<(ActView, Event)>, hit: nat)
    requires
        hit < g.hits.len(),
        settled(g, steps, hit as int),
        carried_out(g, steps, g.hits[hit as int]),
    ensures
        settled(g, steps, hit as int + 1),
{
}

proof fn lemma_hit_inv(g: Given, steps: Seq<(ActView, Event)>, hit: nat)
    requires
        g.apply,
        hit <= g.hits.len(),
        settled(g, steps, hit as int),
    ensures
        enforce_inv(g, steps, from_hit(g, hit).0, from_hit(g, hit).1.act),
    decreases g.hits.len() - hit, 1int,
{
    if hit < g.hits.len() {
        let h = g.hits[hit as int];
        lemma_first_with_key(g.apps, h.app_key);
        reveal_strlit("suspend");
        reveal_strlit("throttle");
        assert("suspend"@.len() != "throttle"@.len());
        match hit_act(h, g.apps) {
            HitActView::Nothing => {
                assert(carried_out(g, steps, h));
                lemma_hit_done(g, steps, hit);
                lemma_hit_inv(g, steps, hit + 1);
            },
            HitActView::Suspend { app, task } => {
                assert(g.apps[app].key@ == h.app_key);
            },
            HitActView::Skip => {
                let k = app_with_key(g.apps, h.app_key)->0;
                assert forall|j: int|
                    0 <= j < g.apps.len() && (#[trigger] g.apps[j]).key@ == h.app_key && (forall|
                        m: int,
                    |
                        0 <= m < j ==> (#[trigger] g.apps[m]).key@ != h.app_key) implies j == k by {
                    if k < j {
                        assert(g.apps[k].key@ != h.app_key);
                    }
                    if j < k {
                        assert(g.apps[j].key@ != h.app_key);
                    }
                }
                assert(carried_out(g, steps, h));
                lemma_hit_done(g, steps, hit);
                lemma_hit_inv(g, steps, hit + 1);
            },
            HitActView::Throttle => {
                lemma_pid_inv(g, steps, SpotView { hit, pid: 0, ok: 0, fail: 0 });
            },
        }
    }
}

proof fn lemma_pid_inv(g: Given, steps: Seq<(ActView, Event)>, s: SpotView)
    requires
        g.apply,
        s.hit < g.hits.len(),
        s.pid <= g.hits[s.hit as int].pids.len(),
        g.hits[s.hit as int].action == "throttle"@,
        settled(g, steps, s.hit as int),
        forall|p: int| 0 <= p < s.pid ==> slowed(steps, #[trigger] g.hits[s.hit as int].pids[p]),
    ensures
        enforce_inv(g, steps, from_pid(g, s).0, from_pid(g, s).1.act),
    decreases g.hits.len() - s.hit, 0int,
{
    if s.pid >= g.hits[s.hit as int].pids.len() {
        reveal_strlit("suspend");
        reveal_strlit("throttle");
        assert("suspend"@.len() != "throttle"@.len());
        assert(carried_out(g, steps, g.hits[s.hit as int]));
        lemma_hit_done(g, steps, s.hit);
        lemma_hit_inv(g, steps, s.hit + 1);
    }
}

proof fn lemma_more(g: Given, steps: Seq<(ActView, Event)>, x: (ActView, Event))
    ensures
        forall|pid: u32| slowed(steps, pid) ==> #[trigger] slowed(steps.push(x), pid),
        forall|h: HitView| carried_out(g, steps, h) ==> #[trigger] carried_out(g, steps.push(x), h),
        forall|n: int| settled(g, steps, n) ==> #[trigger] settled(g, steps.push(x), n),
{
    let next = steps.push(x);
    assert forall|pid: u32| slowed(steps, pid) implies #[trigger] slowed(next, pid) by {
        let i = choose|i: int|
            0 <= i < steps.len() && (#[trigger] steps[i]).0 == (ActView::Look { pid }) && (
            steps[i].1 == Event::Found(true) ==> i + 1 < steps.len() && steps[i + 1].0 == (
            ActView::Renice { args: seq!["+15"@, "-p"@, decimal(pid as nat)] }) && (steps[i
                + 1].1 == Event::Ran(Ran::Fine) ==> i + 2 < steps.len() && steps[i + 2].0 == (
            ActView::Ionice { args: seq!["-c"@, "3"@, "-p"@, decimal(pid as nat)] })));
        assert(next[i] == steps[i]);
        if i + 1 < steps.len() {
            assert(next[i + 1] == steps[i + 1]);
        }
        if i + 2 < steps.len() {
            assert(next[i + 2] == steps[i + 2]);
        }
    }
    assert forall|h: HitView| carried_out(g, steps, h) implies #[trigger] carried_out(
        g,
        next,
        h,
    ) by {
        assert forall|k: int|
            h.action == "suspend"@ && 0 <= k < g.apps.len() && (#[trigger] g.apps[k]).key@
                == h.app_key && (forall|m: int|
                0 <= m < k ==> (#[trigger] g.apps[m]).key@ != h.app_key) && own_intent(
                g.apps[k],
            ).can_suspend && !own_intent(g.apps[k]).never_suspend implies exists|i: int|
            0 <= i < next.len() && (#[trigger] next[i]).0 == (ActView::Suspend {
                app: k,
                task: own_intent(g.apps[k]).task,
            }) by {
            let i = choose|i: int|
                0 <= i < steps.len() && (#[trigger] steps[i]).0 == (ActView::Suspend {
                    app: k,
                    task: own_intent(g.apps[k]).task,
                });
            assert(next[i] == steps[i]);
        }
    }
    assert forall|n: int| settled(g, steps, n) implies #[trigger] settled(g, next, n) by {
        assert forall|j: int| 0 <= j < n implies carried_out(g, next, #[trigger] g.hits[j]) by {
            assert(carried_out(g, steps, g.hits[j]));
        }
    }
}

proof fn lemma_slowed(steps: Seq<(ActView, Event)>, i: int, pid: u32)
    requires
        0 <= i < steps.len(),
        steps[i].0 == (ActView::Look { pid }),
        steps[i].1 == Event::Found(true) ==> i + 1 < steps.len() && steps[i + 1].0 == (
        ActView::Renice { args: seq!["+15"@, "-p"@, decimal(pid as nat)] }) && (steps[i + 1].1
            == Event::Ran(Ran::Fine) ==> i + 2 < steps.len() && steps[i + 2].0 == (ActView::Ionice {
            args: seq!["-c"@, "3"@, "-p"@, decimal(pid as nat)],
        })),
    ensures
        slowed(steps, pid),
{
}

proof fn lemma_enforce_step(
    g: Given,
    steps: Seq<(ActView, Event)>,
    stage: StageView,
    act: ActView,
    ev: Event,
)
    requires
        g.apply,
        enforce_inv(g, steps, stage, act),
    ensures
        enforce_inv(
            g,
            steps.push((act, ev)),
            enforced(g, stage, ev).0,
            enforced(g, stage, ev).1.act,
        ),
{
    let x = (act, ev);
    let next = steps.push(x);
    let n = steps.len() as int;
    lemma_more(g, steps, x);
    assert(next[n] == x);
    if n > 0 {
        assert(next[n - 1] == steps.last());
    }
    match stage {
        StageView::Suspending { hit } => {
            let h = g.hits[hit as int];
            let k = choose|k: int|
                0 <= k < g.apps.len() && (#[trigger] g.apps[k]).key@ == h.app_key && (forall|
                    m: int,
                |
                    0 <= m < k ==> (#[trigger] g.apps[m]).key@ != h.app_key) && act == (
                ActView::Suspend { app: k, task: own_intent(g.apps[k]).task });
            reveal_strlit("suspend");
            reveal_strlit("throttle");
            assert("suspend"@.len() != "throttle"@.len());
            assert(carried_out(g, next, h)) by {
                assert forall|j: int|
                    0 <= j < g.apps.len() && (#[trigger] g.apps[j]).key@ == h.app_key && (forall|
                        m: int,
                    |
                        0 <= m < j ==> (#[trigger] g.apps[m]).key@ != h.app_key) implies exists|
                    i: int,
                |
                    0 <= i < next.len() && (#[trigger] next[i]).0 == (ActView::Suspend {
                        app: j,
                        task: own_intent(g.apps[j]).task,
                    }) by {
                    if k < j {
                        assert(g.apps[k].key@ != h.app_key);
                    }
                    if j < k {
                        assert(g.apps[j].key@ != h.app_key);
                    }
                    assert(next[n].0 == act);
                }
            }
            lemma_hit_done(g, next, hit);
            lemma_hit_inv(g, next, hit + 1);
        },
        StageView::Looking(s) => {
            if ev != Event::Found(true) {
                lemma_slowed(next, n, g.hits[s.hit as int].pids[s.pid as int]);
                lemma_pid_inv(g, next, SpotView { pid: s.pid + 1, ..s });
            }
        },
        StageView::Nicing(s) => {
            if ev == Event::Ran(Ran::Fine) {
                assert(next[next.len() - 2] == steps.last());
            } else {
                lemma_slowed(next, n - 1, g.hits[s.hit as int].pids[s.pid as int]);
                lemma_pid_inv(g, next, SpotView { pid: s.pid + 1, fail: s.fail + 1, ..s });
            }
        },
        StageView::Idling(s) => {
            assert(next[n - 2] == steps[n - 2]);
            lemma_slowed(next, n - 2, g.hits[s.hit as int].pids[s.pid as int]);
            lemma_pid_inv(g, next, SpotView { pid: s.pid + 1, ok: s.ok + 1, ..s });
            lemma_pid_inv(g, next, SpotView { pid: s.pid + 1, fail: s.fail + 1, ..s });
        },
        StageView::Over => {},
    }
}

proof fn lemma_enforce_run(g: Given, evs: Seq<Event>)
    requires
        g.apply,
    ensures
        ({
            let (steps, stage, act) = enforce_run(g, evs);
            steps.len() == evs.len() && enforce_inv(g, steps, stage, act)
        }),
    decreases evs.len(),
{
    if evs.len() == 0 {
        lemma_hit_inv(g, Seq::empty(), 0);
    } else {
        lemma_enforce_run(g, evs.drop_last());
        let (steps, stage, act) = enforce_run(g, evs.drop_last());
        lemma_enforce_step(g, steps, stage, act, evs.last());
    }
}

/// Policies that are applied carry out every hit before they end: each suspension
/// of an application that may be suspended is asked for, and each process of a
/// throttled one is slowed where it is still there.
pub proof fn applied_policies_carry_out_every_hit(g: Given, evs: Seq<Event>)
    requires
        g.apply,
        enforce_run(g, evs).2 is Exit,
    ensures
        enforce_run(g, evs).2 == (ActView::Exit { code: 0 }),
        forall|j: int|
            0 <= j < g.hits.len() ==> carried_out(
                g,
                enforce_run(g, evs).0,
                #[trigger] g.hits[j],
            ),
{
    lemma_enforce_run(g, evs);
}

/// A dry run shows every hit in its order, with its action, message and rule, and
/// then says that it was one.
pub proof fn a_dry_run_shows_every_hit(g: Given, hit: nat)
    requires
        !g.apply,
        hit <= g.hits.len(),
    ensures
        ({
            let out = from_hit(g, hit).1.out;
            &&& out.len() == g.hits.len() - hit + 1
            &&& forall|k: int|
                0 <= k < g.hits.len() - hit ==> #[trigger] out[k] == hit_text(
                    g.theme,
                    g.hits[hit + k],
                )
            &&& out.last() == dry_run_text(g.theme)
        }),
    decreases g.hits.len() - hit,
{
    if hit < g.hits.len() {
        a_dry_run_shows_every_hit(g, hit + 1);
        let out = from_hit(g, hit).1.out;
        let rest = from_hit(g, hit + 1).1.out;
        assert(out =~= seq![hit_text(g.theme, g.hits[hit as int])] + rest);
        assert forall|k: int| 0 <= k < g.hits.len() - hit implies #[trigger] out[k] == hit_text(
            g.theme,
            g.hits[hit + k],
        ) by {
            if k > 0 {
                assert(out[k] == rest[k - 1]);
            }
        }
    }
}

/// Without colours a hit is shown as its action, its message and its rule: the
/// actions are to suspend, to throttle and, for any other, to notify.
pub proof fn hits_are_shown_with_their_action(h: HitView)
    ensures
        hit_text(Theme { enabled: false }, h) == "  ["@ + (if h.action == "suspend"@ {
            "suspend"@
        } else if h.action == "throttle"@ {
            "throttle"@
        } else {
            "notify"@
        }) + "] "@ + h.message + " "@ + ("("@ + h.rule + ")"@),
{
}

/// Of the processes of a hit, those that took both priorities count as slowed and
/// those that refused one as failed; one that is gone counts as neither.
pub proof fn throttled_processes_are_counted(g: Given, s: SpotView, ev: Event)
    requires
        s.hit < g.hits.len(),
        s.pid + 1 < g.hits[s.hit as int].pids.len(),
    ensures
        ev != Event::Found(true) ==> enforced(g, StageView::Looking(s), ev).0
            == StageView::Looking(SpotView { pid: s.pid + 1, ..s }),
        ev == Event::Found(true) ==> enforced(g, StageView::Looking(s), ev).0 == StageView::Nicing(
            s,
        ),
        ev == Event::Ran(Ran::Fine) ==> enforced(g, StageView::Nicing(s), ev).0
            == StageView::Idling(s),
        ev != Event::Ran(Ran::Fine) ==> enforced(g, StageView::Nicing(s), ev).0
            == StageView::Looking(SpotView { pid: s.pid + 1, fail: s.fail + 1, ..s }),
        ev == Event::Ran(Ran::Fine) ==> enforced(g, StageView::Idling(s), ev).0
            == StageView::Looking(SpotView { pid: s.pid + 1, ok: s.ok + 1, ..s }),
        ev != Event::Ran(Ran::Fine) ==> enforced(g, StageView::Idling(s), ev).0
            == StageView::Looking(SpotView { pid: s.pid + 1, fail: s.fail + 1, ..s }),
{
}

} // verus!
