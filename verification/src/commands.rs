//! What each verb says and decides. A caller gathers what a verb needs, hands
//! it over, prints what comes back, and acts on the decision.

use vstd::prelude::*;

use crate::display::{
    bar_text, cell_text, painted, score_code, section_text, severity_label, title_text, Theme,
};
use crate::enforce::{enforce, from_hit, Enforcement, Given, Turn};
use crate::fixed::{
    dec64, decimal, numeral_reads_back, parse_u32, parsed, ratio, ratio_text, UNIT,
};
use crate::intent::{
    category_name, classified, classify, classify_command, command_key, confidence, find_intent,
    intent_for, suspend_confidence, Category, Intent, IntentView,
};
use crate::label::{
    apply, decided, format_duration, grace_left, grace_remaining, recorded, Decision, DecisionView,
    GlobalView, LabelView, Labels, LabelsView, Scope, ScopeView, DEFAULT_GRACE_SECS,
};
use crate::live::{frozen_among, is_frozen, worth_a_row};
use crate::migrate::{host_views, Host, HostView};
use crate::policy::{all_hits, category_views, evaluate, hit_views, PolicyHit, Rule};
use crate::pressure::{
    eta_text, fmt_eta, fmt_kb, fmt_rate, has_trend, kb_text, rate_text, total_of, PressureReport,
    ResourcePressure, ResourceView,
};
use crate::procfs::App;
use crate::recommend::{
    rec_views, recommend_with_labels, recommended, Action, RecView, Recommendation,
};
use crate::relocate::{choosing, relocate, Move, MoveTurn, Relocation};
use crate::scan::{begins, contains, holds_text, lemma_mentions, mentions, trim, trimmed};
use crate::session::{find, found_session, session_views, Session, SessionView};
use crate::suspend::{records, RecordView, SuspendedApp};
use crate::text::{
    byte_len, bytes_in, cat2, cat3, cat4, cat5, cat6, cat7, chars_of, join, joined, lower, lower_of,
    opt_text, owned, pad_left, pad_right, padded_left, padded_right, push_all, push_text, same,
    text_between, texts,
};

verus! {

// ------------------------------------------------------------ replies

/// What a verb prints, on standard output and on standard error, and the exit
/// code.
pub struct Reply {
    pub out: Vec<String>,
    pub err: Vec<String>,
    pub code: i32,
}

#[verifier::ext_equal]
pub struct ReplyView {
    pub out: Seq<Seq<char>>,
    pub err: Seq<Seq<char>>,
    pub code: i32,
}

impl View for Reply {
    type V = ReplyView;

    open spec fn view(&self) -> ReplyView {
        ReplyView { out: texts(self.out@), err: texts(self.err@), code: self.code }
    }
}

/// A reply on standard output that reports success.
pub open spec fn says(out: Seq<Seq<char>>) -> ReplyView {
    ReplyView { out, err: Seq::empty(), code: 0 }
}

/// A reply on standard error, with a code.
pub open spec fn complains(line: Seq<char>, code: i32) -> ReplyView {
    ReplyView { out: Seq::empty(), err: seq![line], code }
}

pub(crate) fn none() -> (r: Vec<String>)
    ensures
        texts(r@) == Seq::<Seq<char>>::empty(),
{
    let v: Vec<String> = Vec::new();
    assert(texts(v@) =~= Seq::<Seq<char>>::empty());
    v
}

pub(crate) fn one(s: String) -> (r: Vec<String>)
    ensures
        texts(r@) == seq![s@],
{
    let mut v: Vec<String> = none();
    push_text(&mut v, s);
    assert(texts(v@) =~= seq![s@]);
    v
}

fn say(out: Vec<String>) -> (r: Reply)
    ensures
        r@ == says(texts(out@)),
{
    Reply { out, err: none(), code: 0 }
}

fn complain(line: String, code: i32) -> (r: Reply)
    ensures
        r@ == complains(line@, code),
{
    Reply { out: none(), err: one(line), code }
}

/// The complaint of a verb whose work failed.
pub open spec fn fails(e: Seq<char>) -> ReplyView {
    complains("[pv] "@ + e, 1)
}

fn fail(e: &str) -> (r: Reply)
    ensures
        r@ == fails(e@),
{
    complain(cat2("[pv] ", e), 1)
}

// ------------------------------------------------------------ the state

pub struct State {
    pub apps: Vec<App>,
    pub intents: Vec<(String, Intent)>,
    pub report: PressureReport,
}

/// The intent that an application is classified with.
pub open spec fn own_intent(a: App) -> IntentView {
    classified(a.key@, a.cmdline@, a.tty)
}

pub open spec fn intent_views(v: Seq<(String, Intent)>) -> Seq<(Seq<char>, IntentView)> {
    v.map_values(|p: (String, Intent)| (p.0@, p.1@))
}

pub open spec fn intents_of(apps: Seq<App>) -> Seq<(Seq<char>, IntentView)> {
    apps.map_values(|a: App| (a.key@, own_intent(a)))
}

/// The applications with their intents, and the pressure.
pub fn gather(apps: Vec<App>, report: PressureReport) -> (r: State)
    ensures
        r.apps == apps,
        r.report == report,
        intent_views(r.intents@) == intents_of(apps@),
{
    let mut intents: Vec<(String, Intent)> = Vec::new();
    let mut i: usize = 0;
    assert(intent_views(intents@) =~= intents_of(apps@.take(0)));
    while i < apps.len()
        invariant
            i <= apps.len(),
            intent_views(intents@) == intents_of(apps@.take(i as int)),
        decreases apps.len() - i,
    {
        let ghost before = intent_views(intents@);
        let p: (String, Intent) = (apps[i].key.clone(), classify(&apps[i]));
        intents.push(p);
        proof {
            assert(intent_views(intents@) =~= before.push((p.0@, p.1@)));
            assert(intents_of(apps@.take(i as int + 1)) =~= before.push(
                (apps@[i as int].key@, own_intent(apps@[i as int])),
            ));
        }
        i = i + 1;
    }
    assert(apps@.take(i as int) =~= apps@);
    State { apps, intents, report }
}

// ------------------------------------------------------------ finding an application

/// The first application that has a process.
pub open spec fn app_with_pid(apps: Seq<App>, pid: u32) -> Option<int>
    decreases apps.len(),
{
    if apps.len() == 0 {
        None
    } else if apps[0].pids@.contains(pid) {
        Some(0)
    } else {
        match app_with_pid(apps.drop_first(), pid) {
            Some(i) => Some(i + 1),
            None => None,
        }
    }
}

/// The first application with a key.
pub open spec fn app_with_key(apps: Seq<App>, key: Seq<char>) -> Option<int>
    decreases apps.len(),
{
    if apps.len() == 0 {
        None
    } else if apps[0].key@ == key {
        Some(0)
    } else {
        match app_with_key(apps.drop_first(), key) {
            Some(i) => Some(i + 1),
            None => None,
        }
    }
}

/// The first application whose key holds a text.
pub open spec fn app_like(apps: Seq<App>, text: Seq<char>) -> Option<int>
    decreases apps.len(),
{
    if apps.len() == 0 {
        None
    } else if holds_text(apps[0].key@, text) {
        Some(0)
    } else {
        match app_like(apps.drop_first(), text) {
            Some(i) => Some(i + 1),
            None => None,
        }
    }
}

/// The application that a target means: the one with that process id where it
/// is a number, or else the one with that key, or else the first whose key
/// holds it, without regard to case.
pub open spec fn app_meant(apps: Seq<App>, target: Seq<char>) -> Option<int> {
    match parsed(target, 10, u32::MAX as nat) {
        Some(pid) => app_with_pid(apps, pid as u32),
        None => match app_with_key(apps, lower_of(target)) {
            Some(i) => Some(i),
            None => app_like(apps, lower_of(target)),
        },
    }
}

fn has_pid(pids: &Vec<u32>, pid: u32) -> (r: bool)
    ensures
        r == pids@.contains(pid),
{
    let mut i: usize = 0;
    while i < pids.len()
        invariant
            i <= pids.len(),
            forall|j: int| 0 <= j < i ==> pids@[j] != pid,
        decreases pids.len() - i,
    {
        if pids[i] == pid {
            return true;
        }
        i = i + 1;
    }
    false
}

fn by_pid(apps: &Vec<App>, pid: u32) -> (r: Option<usize>)
    ensures
        r is Some <==> app_with_pid(apps@, pid) is Some,
        r matches Some(i) ==> i < apps@.len() && app_with_pid(apps@, pid) == Some(i as int),
{
    let mut i: usize = 0;
    assert(apps@.skip(0) =~= apps@);
    while i < apps.len()
        invariant
            i <= apps.len(),
            app_with_pid(apps@, pid) is Some <==> app_with_pid(apps@.skip(i as int), pid) is Some,
            app_with_pid(apps@.skip(i as int), pid) matches Some(k) ==> app_with_pid(apps@, pid)
                == Some(i + k),
        decreases apps.len() - i,
    {
        if has_pid(&apps[i].pids, pid) {
            return Some(i);
        }
        assert(apps@.skip(i as int).drop_first() =~= apps@.skip(i as int + 1));
        i = i + 1;
    }
    None
}

pub(crate) fn by_key(apps: &Vec<App>, key: &str) -> (r: Option<usize>)
    ensures
        r is Some <==> app_with_key(apps@, key@) is Some,
        r matches Some(i) ==> i < apps@.len() && app_with_key(apps@, key@) == Some(i as int),
{
    let mut i: usize = 0;
    assert(apps@.skip(0) =~= apps@);
    while i < apps.len()
        invariant
            i <= apps.len(),
            app_with_key(apps@, key@) is Some <==> app_with_key(apps@.skip(i as int), key@) is Some,
            app_with_key(apps@.skip(i as int), key@) matches Some(k) ==> app_with_key(apps@, key@)
                == Some(i + k),
        decreases apps.len() - i,
    {
        if same(apps[i].key.as_str(), key) {
            return Some(i);
        }
        assert(apps@.skip(i as int).drop_first() =~= apps@.skip(i as int + 1));
        i = i + 1;
    }
    None
}

fn by_likeness(apps: &Vec<App>, text: &str) -> (r: Option<usize>)
    ensures
        r is Some <==> app_like(apps@, text@) is Some,
        r matches Some(i) ==> i < apps@.len() && app_like(apps@, text@) == Some(i as int),
{
    let mut i: usize = 0;
    assert(apps@.skip(0) =~= apps@);
    while i < apps.len()
        invariant
            i <= apps.len(),
            app_like(apps@, text@) is Some <==> app_like(apps@.skip(i as int), text@) is Some,
            app_like(apps@.skip(i as int), text@) matches Some(k) ==> app_like(apps@, text@)
                == Some(i + k),
        decreases apps.len() - i,
    {
        if contains(apps[i].key.as_str(), text) {
            return Some(i);
        }
        assert(apps@.skip(i as int).drop_first() =~= apps@.skip(i as int + 1));
        i = i + 1;
    }
    None
}

/// The place of the application that a target means.
pub fn find_app(apps: &Vec<App>, target: &str) -> (r: Option<usize>)
    ensures
        r is Some <==> app_meant(apps@, target@) is Some,
        r matches Some(i) ==> i < apps@.len() && app_meant(apps@, target@) == Some(i as int),
{
    if let Some(pid) = parse_u32(target) {
        return by_pid(apps, pid);
    }
    let t: String = lower(target);
    match by_key(apps, t.as_str()) {
        Some(i) => Some(i),
        None => by_likeness(apps, t.as_str()),
    }
}

// ------------------------------------------------------------ shared parts

/// The pressures that a report holds, in order.
pub open spec fn resources_of(r: PressureReport) -> Seq<ResourceView> {
    seq![r.cpu@, r.memory@, r.io@] + (match r.battery {
        Some(b) => seq![b@],
        None => Seq::empty(),
    }) + (match r.thermal {
        Some(h) => seq![h@],
        None => Seq::empty(),
    })
}

pub open spec fn resource_views(v: Seq<&ResourcePressure>) -> Seq<ResourceView> {
    v.map_values(|p: &ResourcePressure| p@)
}

pub fn resource_lines(r: &PressureReport) -> (v: Vec<&ResourcePressure>)
    ensures
        resource_views(v@) == resources_of(*r),
{
    let mut v: Vec<&ResourcePressure> = Vec::new();
    v.push(&r.cpu);
    v.push(&r.memory);
    v.push(&r.io);
    if let Some(b) = &r.battery {
        v.push(b);
    }
    if let Some(h) = &r.thermal {
        v.push(h);
    }
    assert(resource_views(v@) =~= resources_of(*r));
    v
}

/// The line of a pressure, its name in a column of a width.
pub open spec fn resource_row(t: Theme, p: ResourceView, width: nat) -> Seq<char> {
    "  "@ + padded_right(p.name, width) + " "@ + painted(t, score_code(p.score), bar_text(
        p.score,
        10,
    )) + " "@ + padded_left(decimal(p.score as nat), 3, ' ') + "%  "@ + painted(t, "2"@, p.detail)
}

pub open spec fn resource_rows(t: Theme, r: PressureReport, width: nat) -> Seq<Seq<char>> {
    resources_of(r).map_values(|p: ResourceView| resource_row(t, p, width))
}

fn resource_line(t: &Theme, p: &ResourcePressure, width: usize) -> (r: String)
    ensures
        r@ == resource_row(*t, p@, width as nat),
{
    let score: String = pad_left(dec64(p.score as u64).as_str(), 3, ' ');
    let head: String = cat7(
        "  ",
        pad_right(p.name, width).as_str(),
        " ",
        t.score_colored(p.score).as_str(),
        " ",
        score.as_str(),
        "%  ",
    );
    cat2(head.as_str(), t.dim(p.detail.as_str()).as_str())
}

fn resource_part(t: &Theme, r: &PressureReport, width: usize) -> (out: Vec<String>)
    ensures
        texts(out@) == resource_rows(*t, *r, width as nat),
{
    let list: Vec<&ResourcePressure> = resource_lines(r);
    let ghost all = resources_of(*r);
    let ghost want = resource_rows(*t, *r, width as nat);
    let mut out: Vec<String> = none();
    let mut i: usize = 0;
    assert(want.take(0) =~= Seq::empty());
    while i < list.len()
        invariant
            i <= list.len(),
            all == resource_views(list@),
            want == all.map_values(|p: ResourceView| resource_row(*t, p, width as nat)),
            texts(out@) == want.take(i as int),
        decreases list.len() - i,
    {
        push_text(&mut out, resource_line(t, list[i], width));
        proof {
            assert(all[i as int] == list@[i as int]@);
            assert(want.take(i as int + 1) =~= want.take(i as int).push(want[i as int]));
        }
        i = i + 1;
    }
    assert(want.take(i as int) =~= want);
    out
}

/// The warning where memory is projected to run out.
pub open spec fn oom_lines(t: Theme, eta: Option<u64>) -> Seq<Seq<char>> {
    match eta {
        Some(e) => seq![
            "  "@ + painted(t, "31"@, "⚠"@) + " projected memory exhaustion in "@ + painted(
                t,
                "1"@,
                eta_text(e as nat),
            ),
        ],
        None => Seq::empty(),
    }
}

fn oom_part(t: &Theme, eta: Option<u64>) -> (r: Vec<String>)
    ensures
        texts(r@) == oom_lines(*t, eta),
{
    match eta {
        Some(e) => one(
            cat4(
                "  ",
                t.red("⚠").as_str(),
                " projected memory exhaustion in ",
                t.bold(fmt_eta(e).as_str()).as_str(),
            ),
        ),
        None => none(),
    }
}

pub open spec fn load_text(a: App) -> Seq<char> {
    ratio_text(a.cpu_pct as nat, UNIT as nat, 0) + "% cpu"@
}

fn show_load(a: &App) -> (r: String)
    ensures
        r@ == load_text(*a),
{
    cat2(ratio(a.cpu_pct as u128, UNIT as u128, 0).as_str(), "% cpu")
}

/// A column heading of a width.
pub open spec fn heading(t: Theme, s: Seq<char>, width: nat) -> Seq<char> {
    painted(t, "1"@, cell_text(s, width))
}

fn head(t: &Theme, s: &str, width: usize) -> (r: String)
    ensures
        r@ == heading(*t, s@, width as nat),
{
    t.table_header(t.cell(s, width).as_str())
}

// ------------------------------------------------------------ the table

/// What is said of suspending an application.
pub open spec fn safety(t: Theme, a: App, i: IntentView) -> Seq<char> {
    if i.never_suspend {
        painted(t, "31"@, "never suspend"@)
    } else if i.can_suspend {
        if confidence(a, i, 0) >= 70 {
            painted(t, "32"@, "safe to suspend "@ + decimal(confidence(a, i, 0)) + "%"@)
        } else {
            painted(t, "33"@, "suspend risky"@)
        }
    } else {
        painted(t, "2"@, "system"@)
    }
}

/// The state column, filled up before it is coloured.
pub open spec fn state_cell(t: Theme, a: App, i: IntentView, frozen: bool) -> Seq<char> {
    if frozen {
        painted(t, "35"@, cell_text("suspended"@, 12))
    } else if i.never_suspend && i.interactive {
        painted(t, "36"@, cell_text("interactive"@, 12))
    } else if a.cpu_pct < UNIT {
        painted(t, "2"@, cell_text("idle"@, 12))
    } else {
        cell_text(load_text(a), 12)
    }
}

pub open spec fn table_row(t: Theme, a: App, i: IntentView, frozen: bool) -> Seq<char> {
    let left = "  "@ + painted(t, "1"@, cell_text(a.display@, 18)) + "  "@ + painted(
        t,
        "2"@,
        cell_text(i.task, 28),
    ) + "  "@ + state_cell(t, a, i, frozen) + "  "@;
    left + padded_left(kb_text(a.rss_kb as nat), 10, ' ') + "  "@ + safety(t, a, i)
}

/// The rows of the applications that are worth one and have an intent, so
/// many at most.
pub open spec fn table_rows(
    t: Theme,
    apps: Seq<App>,
    intents: Seq<(String, Intent)>,
    frozen: Seq<RecordView>,
    limit: nat,
) -> Seq<Seq<char>>
    decreases apps.len(),
{
    if apps.len() == 0 {
        Seq::empty()
    } else {
        let before = table_rows(t, apps.drop_last(), intents, frozen, limit);
        let a = apps.last();
        match intent_for(intents, a.key@) {
            Some(i) if before.len() < limit && worth_a_row(a) => before.push(
                table_row(t, a, i, is_frozen(frozen, a.key@)),
            ),
            _ => before,
        }
    }
}

/// The table, or a word that there is nothing in it.
pub open spec fn table_lines(
    t: Theme,
    apps: Seq<App>,
    intents: Seq<(String, Intent)>,
    frozen: Seq<RecordView>,
    limit: nat,
) -> Seq<Seq<char>> {
    let rows = table_rows(t, apps, intents, frozen, limit);
    if rows.len() == 0 {
        seq!["  "@ + painted(t, "2"@, "(nothing notable running)"@)]
    } else {
        rows
    }
}

fn show_safety(t: &Theme, a: &App, i: &Intent) -> (r: String)
    ensures
        r@ == safety(*t, *a, i@),
{
    if i.never_suspend {
        t.red("never suspend")
    } else if i.can_suspend {
        let conf: u8 = suspend_confidence(a, i, 0);
        if conf >= 70 {
            t.green(cat3("safe to suspend ", dec64(conf as u64).as_str(), "%").as_str())
        } else {
            t.yellow("suspend risky")
        }
    } else {
        t.dim("system")
    }
}

fn show_state(t: &Theme, a: &App, i: &Intent, frozen: bool) -> (r: String)
    ensures
        r@ == state_cell(*t, *a, i@, frozen),
{
    if frozen {
        t.magenta(t.cell("suspended", 12).as_str())
    } else if i.never_suspend && i.interactive {
        t.cyan(t.cell("interactive", 12).as_str())
    } else if a.cpu_pct < UNIT {
        t.dim(t.cell("idle", 12).as_str())
    } else {
        t.cell(show_load(a).as_str(), 12)
    }
}

fn show_row(t: &Theme, a: &App, i: &Intent, frozen: bool) -> (r: String)
    ensures
        r@ == table_row(*t, *a, i@, frozen),
{
    let left: String = cat7(
        "  ",
        t.bold(t.cell(a.display.as_str(), 18).as_str()).as_str(),
        "  ",
        t.dim(t.cell(i.task.as_str(), 28).as_str()).as_str(),
        "  ",
        show_state(t, a, i, frozen).as_str(),
        "  ",
    );
    cat4(
        left.as_str(),
        t.number(fmt_kb(a.rss_kb).as_str(), 10).as_str(),
        "  ",
        show_safety(t, a, i).as_str(),
    )
}

/// The table of applications.
pub fn print_app_table(
    t: &Theme,
    apps: &Vec<App>,
    intents: &Vec<(String, Intent)>,
    frozen: &Vec<SuspendedApp>,
    limit: usize,
) -> (r: Vec<String>)
    ensures
        texts(r@) == table_lines(*t, apps@, intents@, records(frozen@), limit as nat),
{
    let ghost views = records(frozen@);
    let mut out: Vec<String> = none();
    let mut i: usize = 0;
    assert(apps@.take(0) =~= Seq::empty());
    while i < apps.len()
        invariant
            i <= apps.len(),
            views == records(frozen@),
            texts(out@) == table_rows(*t, apps@.take(i as int), intents@, views, limit as nat),
        decreases apps.len() - i,
    {
        proof {
            assert(apps@.take(i as int + 1).drop_last() =~= apps@.take(i as int));
            assert(apps@.take(i as int + 1).last() == apps@[i as int]);
            assert(texts(out@).len() == out@.len());
        }
        if out.len() < limit && (apps[i].rss_kb > 8_000 || apps[i].cpu_pct > 2 * UNIT) {
            if let Some(kind) = find_intent(intents, apps[i].key.as_str()) {
                let cold: bool = frozen_among(frozen, apps[i].key.as_str());
                push_text(&mut out, show_row(t, &apps[i], kind, cold));
            }
        }
        i = i + 1;
    }
    assert(apps@.take(i as int) =~= apps@);
    assert(texts(out@).len() == out@.len());
    if out.len() == 0 {
        return one(cat2("  ", t.dim("(nothing notable running)").as_str()));
    }
    out
}

// ------------------------------------------------------------ dashboard

/// The working context that the user gave.
pub open spec fn context_lines(t: Theme, g: Option<GlobalView>) -> Seq<Seq<char>> {
    match g {
        Some(g) => seq![
            section_text(t, "YOUR CONTEXT"@),
            "  "@ + painted(t, "2"@, g.prompt),
        ],
        None => Seq::empty(),
    }
}

pub open spec fn minutes(secs: u64) -> Seq<char> {
    decimal((secs as nat + 59) / 60) + "m"@
}

/// The graces that are left, one line for each label whose application has
/// one.
pub open spec fn grace_lines(
    t: Theme,
    list: Seq<LabelView>,
    all: Seq<LabelView>,
    now: u64,
) -> Seq<Seq<char>>
    decreases list.len(),
{
    if list.len() == 0 {
        Seq::empty()
    } else {
        let before = grace_lines(t, list.drop_last(), all, now);
        match grace_left(all, list.last().key, now) {
            Some(left) => before.push(
                "  "@ + painted(t, "2"@, "grace:"@) + " "@ + list.last().display + " for "@
                    + minutes(left),
            ),
            None => before,
        }
    }
}

/// Whether the graces that are left can be shown in minutes.
pub open spec fn graces_fit(all: Seq<LabelView>, now: u64) -> bool {
    forall|i: int|
        0 <= i < all.len() ==> (grace_left(all, (#[trigger] all[i]).key, now) matches Some(left)
            ==> left <= u64::MAX - 59)
}

pub open spec fn action_tag(t: Theme, a: Action) -> Seq<char> {
    match a {
        Action::Suspend => painted(t, "33"@, "suspend"@),
        Action::Migrate => painted(t, "36"@, "migrate"@),
        Action::Throttle => painted(t, "35"@, "throttle"@),
        Action::Reserve => painted(t, "32"@, "reserve"@),
        _ => painted(t, "2"@, "note"@),
    }
}

pub open spec fn rec_line(t: Theme, r: RecView) -> Seq<char> {
    "  ["@ + action_tag(t, r.action) + "] "@ + r.display + " "@ + painted(
        t,
        "2"@,
        "("@ + decimal(r.confidence as nat) + "%)"@,
    )
}

pub open spec fn advice_lines(t: Theme, recs: Seq<RecView>) -> Seq<Seq<char>> {
    if recs.len() == 0 {
        seq![painted(t, "2"@, "  No action recommended — system is comfortable."@)]
    } else {
        seq![section_text(t, "RECOMMENDED NEXT STEP"@)] + recs.map_values(
            |r: RecView| rec_line(t, r),
        )
    }
}

pub open spec fn workload_head(t: Theme) -> Seq<Seq<char>> {
    seq![
        section_text(t, "WORKLOADS"@),
        "  "@ + heading(t, "APP"@, 18) + "  "@ + heading(t, "INTENT"@, 28) + "  "@ + heading(
            t,
            "STATE"@,
            12,
        ) + "  "@ + heading(t, "RSS"@, 10) + "  LIFECYCLE"@,
    ]
}

/// The dashboard.
pub open spec fn dashboard_lines(
    t: Theme,
    st: State,
    labels: LabelsView,
    frozen: Seq<RecordView>,
    now: u64,
) -> Seq<Seq<char>> {
    let top = seq![
        title_text(t, "PV / NOW"@, "live system overview"@),
        section_text(t, "PRESSURE"@),
    ] + resource_rows(t, st.report, 9) + oom_lines(t, st.report.oom_eta_secs);
    top + workload_head(t) + table_lines(t, st.apps@, st.intents@, frozen, 12) + context_lines(
        t,
        labels.global,
    ) + grace_lines(t, labels.app, labels.app, now) + advice_lines(
        t,
        recommended(st.apps@, st.intents@, st.report, labels.app, now),
    )
}

fn workload_titles(t: &Theme) -> (r: Vec<String>)
    ensures
        texts(r@) == workload_head(*t),
{
    let mut out: Vec<String> = none();
    push_text(&mut out, t.section("WORKLOADS"));
    let left: String = cat7(
        "  ",
        head(t, "APP", 18).as_str(),
        "  ",
        head(t, "INTENT", 28).as_str(),
        "  ",
        head(t, "STATE", 12).as_str(),
        "  ",
    );
    push_text(&mut out, cat3(left.as_str(), head(t, "RSS", 10).as_str(), "  LIFECYCLE"));
    assert(texts(out@) =~= workload_head(*t));
    out
}

fn context_part(t: &Theme, labels: &Labels) -> (r: Vec<String>)
    ensures
        texts(r@) == context_lines(*t, labels@.global),
{
    match &labels.global {
        Some(g) => {
            let mut out: Vec<String> = one(t.section("YOUR CONTEXT"));
            push_text(&mut out, cat2("  ", t.dim(g.prompt.as_str()).as_str()));
            assert(texts(out@) =~= context_lines(*t, Some(g@)));
            out
        },
        None => none(),
    }
}

fn grace_part(t: &Theme, labels: &Labels, now: u64) -> (r: Vec<String>)
    requires
        graces_fit(labels@.app, now),
    ensures
        texts(r@) == grace_lines(*t, labels@.app, labels@.app, now),
{
    let ghost all = labels@.app;
    let mut out: Vec<String> = none();
    let mut i: usize = 0;
    assert(all.take(0) =~= Seq::empty());
    while i < labels.app.len()
        invariant
            i <= labels.app.len(),
            all == labels@.app,
            all.len() == labels.app@.len(),
            graces_fit(all, now),
            texts(out@) == grace_lines(*t, all.take(i as int), all, now),
        decreases labels.app.len() - i,
    {
        proof {
            assert(all.take(i as int + 1).drop_last() =~= all.take(i as int));
            assert(all.take(i as int + 1).last() == all[i as int]);
            assert(all[i as int] == labels.app@[i as int]@);
        }
        if let Some(left) = grace_remaining(labels, labels.app[i].key.as_str(), now) {
            push_text(
                &mut out,
                cat6(
                    "  ",
                    t.dim("grace:").as_str(),
                    " ",
                    labels.app[i].display.as_str(),
                    " for ",
                    format_duration(left).as_str(),
                ),
            );
        }
        i = i + 1;
    }
    assert(all.take(i as int) =~= all);
    out
}

fn show_action(t: &Theme, a: Action) -> (r: String)
    ensures
        r@ == action_tag(*t, a),
{
    match a {
        Action::Suspend => t.yellow("suspend"),
        Action::Migrate => t.cyan("migrate"),
        Action::Throttle => t.magenta("throttle"),
        Action::Reserve => t.green("reserve"),
        _ => t.dim("note"),
    }
}

fn show_rec(t: &Theme, r: &Recommendation) -> (s: String)
    ensures
        s@ == rec_line(*t, r@),
{
    let sure: String = cat3("(", dec64(r.confidence as u64).as_str(), "%)");
    cat6(
        "  [",
        show_action(t, r.action).as_str(),
        "] ",
        r.display.as_str(),
        " ",
        t.dim(sure.as_str()).as_str(),
    )
}

fn advice_part(t: &Theme, recs: &Vec<Recommendation>) -> (r: Vec<String>)
    ensures
        texts(r@) == advice_lines(*t, rec_views(recs@)),
{
    let ghost all = rec_views(recs@);
    assert(all.len() == recs@.len());
    if recs.len() == 0 {
        return one(t.dim("  No action recommended — system is comfortable."));
    }
    let ghost rows = all.map_values(|r: RecView| rec_line(*t, r));
    let mut out: Vec<String> = one(t.section("RECOMMENDED NEXT STEP"));
    let ghost first = seq![section_text(*t, "RECOMMENDED NEXT STEP"@)];
    let mut i: usize = 0;
    assert(first + rows.take(0) =~= first);
    while i < recs.len()
        invariant
            i <= recs.len(),
            all == rec_views(recs@),
            rows == all.map_values(|r: RecView| rec_line(*t, r)),
            texts(out@) == first + rows.take(i as int),
        decreases recs.len() - i,
    {
        push_text(&mut out, show_rec(t, &recs[i]));
        proof {
            assert(all[i as int] == recs@[i as int]@);
            assert(texts(out@) =~= first + rows.take(i as int + 1));
        }
        i = i + 1;
    }
    assert(rows.take(i as int) =~= rows);
    out
}

/// The dashboard: pressures, workloads, the user's context, and advice.
pub fn dashboard(
    t: &Theme,
    st: &State,
    labels: &Labels,
    frozen: &Vec<SuspendedApp>,
    now: u64,
) -> (r: Vec<String>)
    requires
        graces_fit(labels@.app, now),
    ensures
        texts(r@) == dashboard_lines(*t, *st, labels@, records(frozen@), now),
{
    let mut out: Vec<String> = one(t.title("PV / NOW", "live system overview"));
    push_text(&mut out, t.section("PRESSURE"));
    assert(texts(out@) =~= seq![
        title_text(*t, "PV / NOW"@, "live system overview"@),
        section_text(*t, "PRESSURE"@),
    ]);
    push_all(&mut out, &resource_part(t, &st.report, 9));
    push_all(&mut out, &oom_part(t, st.report.oom_eta_secs));
    push_all(&mut out, &workload_titles(t));
    push_all(&mut out, &print_app_table(t, &st.apps, &st.intents, frozen, 12));
    push_all(&mut out, &context_part(t, labels));
    push_all(&mut out, &grace_part(t, labels, now));
    let recs: Vec<Recommendation> = recommend_with_labels(
        &st.apps,
        &st.intents,
        &st.report,
        labels,
        now,
    );
    push_all(&mut out, &advice_part(t, &recs));
    out
}

// ------------------------------------------------------------ ps

/// What may be done with an application, in words.
pub open spec fn capabilities(i: IntentView) -> Seq<Seq<char>> {
    (if i.can_suspend && !i.never_suspend {
        seq!["suspend"@]
    } else {
        Seq::empty()
    }) + (if i.can_interrupt {
        seq!["interrupt"@]
    } else {
        Seq::empty()
    }) + (if i.can_migrate {
        seq!["migrate"@]
    } else {
        Seq::empty()
    })
}

pub open spec fn ps_state(t: Theme, a: App) -> Seq<char> {
    if a.state == 'T' {
        painted(t, "35"@, cell_text("stopped"@, 12))
    } else if a.cpu_pct >= UNIT {
        cell_text(load_text(a), 12)
    } else {
        painted(t, "2"@, cell_text("idle"@, 12))
    }
}

pub open spec fn ps_row(t: Theme, a: App, i: IntentView) -> Seq<char> {
    let left = cell_text(a.display@, 18) + "  "@ + cell_text(i.task, 28) + "  "@ + ps_state(t, a)
        + "  "@;
    left + padded_left(kb_text(a.rss_kb as nat), 10, ' ') + "  "@ + padded_left(
        decimal(a.pids@.len()),
        8,
        ' ',
    ) + "  "@ + painted(t, "2"@, joined(capabilities(i), " · "@))
}

pub open spec fn ps_rows(t: Theme, apps: Seq<App>, intents: Seq<(String, Intent)>) -> Seq<
    Seq<char>,
>
    decreases apps.len(),
{
    if apps.len() == 0 {
        Seq::empty()
    } else {
        let before = ps_rows(t, apps.drop_last(), intents);
        let a = apps.last();
        match intent_for(intents, a.key@) {
            Some(i) if a.rss_kb > 4_000 || a.cpu_pct > UNIT => before.push(ps_row(t, a, i)),
            _ => before,
        }
    }
}

pub open spec fn ps_head(t: Theme) -> Seq<Seq<char>> {
    let left = heading(t, "APP"@, 18) + "  "@ + heading(t, "INTENT"@, 28) + "  "@ + heading(
        t,
        "STATE"@,
        12,
    ) + "  "@;
    seq![
        title_text(t, "PV / PROCESSES"@, "intent-aware workload view"@),
        section_text(t, "ACTIVE WORKLOADS"@),
        left + heading(t, "RSS"@, 10) + "  "@ + heading(t, "PIDS"@, 8) + "  LIFECYCLE"@,
    ]
}

/// The process view.
pub open spec fn ps_lines(t: Theme, st: State) -> Seq<Seq<char>> {
    (ps_head(t) + ps_rows(t, st.apps@, st.intents@)).push(
        painted(t, "2"@, "  Lifecycle is an inferred capability; inspect before acting."@),
    )
}

fn show_capabilities(i: &Intent) -> (r: String)
    ensures
        r@ == joined(capabilities(i@), " · "@),
{
    let mut list: Vec<String> = none();
    if i.can_suspend && !i.never_suspend {
        push_text(&mut list, owned("suspend"));
    }
    if i.can_interrupt {
        push_text(&mut list, owned("interrupt"));
    }
    if i.can_migrate {
        push_text(&mut list, owned("migrate"));
    }
    assert(texts(list@) =~= capabilities(i@));
    join(&list, " · ")
}

fn show_ps_row(t: &Theme, a: &App, i: &Intent) -> (r: String)
    ensures
        r@ == ps_row(*t, *a, i@),
{
    let state: String = if a.state == 'T' {
        t.magenta(t.cell("stopped", 12).as_str())
    } else if a.cpu_pct >= UNIT {
        t.cell(show_load(a).as_str(), 12)
    } else {
        t.dim(t.cell("idle", 12).as_str())
    };
    let left: String = cat6(
        t.cell(a.display.as_str(), 18).as_str(),
        "  ",
        t.cell(i.task.as_str(), 28).as_str(),
        "  ",
        state.as_str(),
        "  ",
    );
    cat6(
        left.as_str(),
        t.number(fmt_kb(a.rss_kb).as_str(), 10).as_str(),
        "  ",
        t.number(dec64(a.pids.len() as u64).as_str(), 8).as_str(),
        "  ",
        t.dim(show_capabilities(i).as_str()).as_str(),
    )
}

pub fn ps(t: &Theme, st: &State) -> (r: Vec<String>)
    ensures
        texts(r@) == ps_lines(*t, *st),
{
    let mut out: Vec<String> = one(t.title("PV / PROCESSES", "intent-aware workload view"));
    push_text(&mut out, t.section("ACTIVE WORKLOADS"));
    let left: String = cat6(
        head(t, "APP", 18).as_str(),
        "  ",
        head(t, "INTENT", 28).as_str(),
        "  ",
        head(t, "STATE", 12).as_str(),
        "  ",
    );
    push_text(
        &mut out,
        cat5(
            left.as_str(),
            head(t, "RSS", 10).as_str(),
            "  ",
            head(t, "PIDS", 8).as_str(),
            "  LIFECYCLE",
        ),
    );
    assert(texts(out@) =~= ps_head(*t));
    let apps: &Vec<App> = &st.apps;
    let mut i: usize = 0;
    assert(apps@.take(0) =~= Seq::empty());
    assert(ps_head(*t) + ps_rows(*t, apps@.take(0), st.intents@) =~= ps_head(*t));
    while i < apps.len()
        invariant
            i <= apps.len(),
            *apps == st.apps,
            texts(out@) == ps_head(*t) + ps_rows(*t, apps@.take(i as int), st.intents@),
        decreases apps.len() - i,
    {
        let ghost before = texts(out@);
        proof {
            assert(apps@.take(i as int + 1).drop_last() =~= apps@.take(i as int));
            assert(apps@.take(i as int + 1).last() == apps@[i as int]);
        }
        if apps[i].rss_kb > 4_000 || apps[i].cpu_pct > UNIT {
            if let Some(kind) = find_intent(&st.intents, apps[i].key.as_str()) {
                let row: String = show_ps_row(t, &apps[i], kind);
                push_text(&mut out, row);
                assert(texts(out@) =~= ps_head(*t) + ps_rows(
                    *t,
                    apps@.take(i as int),
                    st.intents@,
                ).push(row@));
            }
        }
        i = i + 1;
    }
    assert(apps@.take(i as int) =~= apps@);
    push_text(
        &mut out,
        t.dim("  Lifecycle is an inferred capability; inspect before acting."),
    );
    out
}

// ------------------------------------------------------------ pressure

/// Where the user is: at a graphical session, at a remote one, or unknown.
pub open spec fn attention(graphical: bool, remote: bool) -> Seq<char> {
    if graphical {
        "graphical session active"@
    } else if remote {
        "remote session"@
    } else {
        "unknown"@
    }
}

pub open spec fn trend_line(t: Theme, r: PressureReport) -> Seq<char> {
    "  "@ + padded_right("Mem trend"@, 10) + " "@ + (if r.mem_drop_kb > 0 {
        painted(t, "33"@, "draining"@)
    } else {
        painted(t, "32"@, "stable"@)
    }) + "  "@ + painted(
        t,
        "2"@,
        rate_text(r.mem_drop_kb as int, r.mem_window_ms as nat) + " MB/s available"@,
    )
}

/// The pressure view.
pub open spec fn pressure_lines(t: Theme, r: PressureReport, graphical: bool, remote: bool) -> Seq<
    Seq<char>,
> {
    let top = seq![
        title_text(
            t,
            "PV / SYSTEM PRESSURE"@,
            "System pressure · overall "@ + painted(
                t,
                score_code(r.overall),
                severity_label(r.overall),
            ),
        ),
        section_text(t, "RESOURCE SIGNALS"@),
    ] + resource_rows(t, r, 10);
    (top.push(section_text(t, "MEMORY TREND"@)).push(trend_line(t, r)) + oom_lines(
        t,
        r.oom_eta_secs,
    )).push(
        "  "@ + padded_right("Context"@, 10) + " "@ + painted(
            t,
            "2"@,
            attention(graphical, remote),
        ),
    )
}

pub fn pressure(t: &Theme, r: &PressureReport, graphical: bool, remote: bool) -> (out: Vec<String>)
    requires
        has_trend(*r),
    ensures
        texts(out@) == pressure_lines(*t, *r, graphical, remote),
{
    let detail: String = cat2("System pressure · overall ", t.severity(r.overall).as_str());
    let mut out: Vec<String> = one(t.title("PV / SYSTEM PRESSURE", detail.as_str()));
    push_text(&mut out, t.section("RESOURCE SIGNALS"));
    assert(texts(out@) =~= seq![
        title_text(
            *t,
            "PV / SYSTEM PRESSURE"@,
            "System pressure · overall "@ + painted(
                *t,
                score_code(r.overall),
                severity_label(r.overall),
            ),
        ),
        section_text(*t, "RESOURCE SIGNALS"@),
    ]);
    push_all(&mut out, &resource_part(t, r, 10));
    push_text(&mut out, t.section("MEMORY TREND"));
    let rate: String = cat2(
        fmt_rate(r.mem_drop_kb, r.mem_window_ms).as_str(),
        " MB/s available",
    );
    let course: String = if r.mem_drop_kb > 0 {
        t.yellow("draining")
    } else {
        t.green("stable")
    };
    push_text(
        &mut out,
        cat6(
            "  ",
            pad_right("Mem trend", 10).as_str(),
            " ",
            course.as_str(),
            "  ",
            t.dim(rate.as_str()).as_str(),
        ),
    );
    push_all(&mut out, &oom_part(t, r.oom_eta_secs));
    let place: &str = if graphical {
        "graphical session active"
    } else if remote {
        "remote session"
    } else {
        "unknown"
    };
    push_text(
        &mut out,
        cat4("  ", pad_right("Context", 10).as_str(), " ", t.dim(place).as_str()),
    );
    out
}

// ------------------------------------------------------------ explain

pub open spec fn mood(overall: u8) -> Seq<char> {
    if overall < 40 {
        "System is responsive."@
    } else if overall < 70 {
        "System is under moderate pressure."@
    } else {
        "System is under heavy pressure."@
    }
}

/// What is said of the application that holds most, where it holds more than
/// a twentieth of the memory.
pub open spec fn holder(apps: Seq<App>, r: PressureReport) -> Seq<Seq<char>> {
    if apps.len() > 0 && apps[0].rss_kb as nat * 100 > 5 * total_of(r.mem) {
        seq![
            "High RAM is mostly "@ + apps[0].display@ + " ("@ + kb_text(apps[0].rss_kb as nat)
                + ", "@ + ratio_text(apps[0].rss_kb as nat * 100, total_of(r.mem), 0)
                + "% of memory)."@,
        ]
    } else {
        Seq::empty()
    }
}

pub open spec fn swap_held(r: PressureReport) -> nat {
    if r.mem.swap_total_kb > r.mem.swap_free_kb {
        (r.mem.swap_total_kb - r.mem.swap_free_kb) as nat
    } else {
        0
    }
}

pub open spec fn swap_line(r: PressureReport) -> Seq<char> {
    if swap_held(r) > 512_000 {
        "Swap is in use ("@ + kb_text(swap_held(r)) + ") — memory pressure is real."@
    } else {
        "No meaningful swap pressure."@
    }
}

pub open spec fn eta_line(eta: Option<u64>) -> Seq<Seq<char>> {
    match eta {
        Some(e) => seq!["Projected memory exhaustion in "@ + eta_text(e as nat) + "."@],
        None => Seq::empty(),
    }
}

pub open spec fn counsel(recs: Seq<RecView>) -> Seq<Seq<char>> {
    if recs.len() == 0 {
        seq!["No action needed."@]
    } else {
        seq![
            "Recommendation: "@ + recs[0].display + "."@,
            "Confidence: "@ + decimal(recs[0].confidence as nat) + "%."@,
        ]
    }
}

/// What matters, in plain words.
pub open spec fn explained(st: State, labels: LabelsView, now: u64) -> Seq<Seq<char>> {
    (seq![mood(st.report.overall)] + holder(st.apps@, st.report)).push(swap_line(st.report))
        + eta_line(st.report.oom_eta_secs) + counsel(
        recommended(st.apps@, st.intents@, st.report, labels.app, now),
    )
}

pub open spec fn bulleted(list: Seq<Seq<char>>) -> Seq<Seq<char>> {
    list.map_values(|l: Seq<char>| "  • "@ + l)
}

pub open spec fn explain_lines(t: Theme, st: State, labels: LabelsView, now: u64) -> Seq<
    Seq<char>,
> {
    seq![
        title_text(t, "PV / EXPLAIN"@, "plain-language assessment"@),
        section_text(t, "WHAT MATTERS"@),
    ] + bulleted(explained(st, labels, now))
}

fn holder_part(apps: &Vec<App>, r: &PressureReport) -> (out: Vec<String>)
    ensures
        texts(out@) == holder(apps@, *r),
{
    let total: u64 = if r.mem.total_kb == 0 {
        1
    } else {
        r.mem.total_kb
    };
    if apps.len() > 0 && apps[0].rss_kb as u128 * 100 > 5 * total as u128 {
        let left: String = cat5(
            "High RAM is mostly ",
            apps[0].display.as_str(),
            " (",
            fmt_kb(apps[0].rss_kb).as_str(),
            ", ",
        );
        return one(
            cat3(
                left.as_str(),
                ratio(apps[0].rss_kb as u128 * 100, total as u128, 0).as_str(),
                "% of memory).",
            ),
        );
    }
    none()
}

fn swap_part(r: &PressureReport) -> (s: String)
    ensures
        s@ == swap_line(*r),
{
    let held: u64 = if r.mem.swap_total_kb > r.mem.swap_free_kb {
        r.mem.swap_total_kb - r.mem.swap_free_kb
    } else {
        0
    };
    if held > 512_000 {
        cat3("Swap is in use (", fmt_kb(held).as_str(), ") — memory pressure is real.")
    } else {
        owned("No meaningful swap pressure.")
    }
}

fn counsel_part(recs: &Vec<Recommendation>) -> (r: Vec<String>)
    ensures
        texts(r@) == counsel(rec_views(recs@)),
{
    assert(rec_views(recs@).len() == recs@.len());
    if recs.len() == 0 {
        return one(owned("No action needed."));
    }
    assert(rec_views(recs@)[0] == recs@[0]@);
    let mut out: Vec<String> = one(cat3("Recommendation: ", recs[0].display.as_str(), "."));
    push_text(
        &mut out,
        cat3("Confidence: ", dec64(recs[0].confidence as u64).as_str(), "%."),
    );
    assert(texts(out@) =~= counsel(rec_views(recs@)));
    out
}

fn bullets(list: &Vec<String>) -> (r: Vec<String>)
    ensures
        texts(r@) == bulleted(texts(list@)),
{
    let ghost all = texts(list@);
    let ghost want = bulleted(all);
    let mut out: Vec<String> = none();
    let mut i: usize = 0;
    assert(want.take(0) =~= Seq::empty());
    while i < list.len()
        invariant
            i <= list.len(),
            all == texts(list@),
            want == bulleted(all),
            texts(out@) == want.take(i as int),
        decreases list.len() - i,
    {
        push_text(&mut out, cat2("  • ", list[i].as_str()));
        proof {
            assert(all[i as int] == list@[i as int]@);
            assert(want.take(i as int + 1) =~= want.take(i as int).push(want[i as int]));
        }
        i = i + 1;
    }
    assert(want.take(i as int) =~= want);
    out
}

pub fn explain(t: &Theme, st: &State, labels: &Labels, now: u64) -> (r: Vec<String>)
    ensures
        texts(r@) == explain_lines(*t, *st, labels@, now),
{
    let r: &PressureReport = &st.report;
    let mut lines: Vec<String> = one(
        if r.overall < 40 {
            owned("System is responsive.")
        } else if r.overall < 70 {
            owned("System is under moderate pressure.")
        } else {
            owned("System is under heavy pressure.")
        },
    );
    push_all(&mut lines, &holder_part(&st.apps, r));
    push_text(&mut lines, swap_part(r));
    let eta: Vec<String> = match r.oom_eta_secs {
        Some(e) => one(cat3("Projected memory exhaustion in ", fmt_eta(e).as_str(), ".")),
        None => none(),
    };
    push_all(&mut lines, &eta);
    let recs: Vec<Recommendation> = recommend_with_labels(
        &st.apps,
        &st.intents,
        r,
        labels,
        now,
    );
    push_all(&mut lines, &counsel_part(&recs));
    let mut out: Vec<String> = one(t.title("PV / EXPLAIN", "plain-language assessment"));
    push_text(&mut out, t.section("WHAT MATTERS"));
    assert(texts(out@) =~= seq![
        title_text(*t, "PV / EXPLAIN"@, "plain-language assessment"@),
        section_text(*t, "WHAT MATTERS"@),
    ]);
    push_all(&mut out, &bullets(&lines));
    out
}

// ------------------------------------------------------------ intent

pub open spec fn yes_or_no(t: Theme, b: bool) -> Seq<char> {
    if b {
        painted(t, "32"@, "yes"@)
    } else {
        painted(t, "2"@, "no"@)
    }
}

pub open spec fn detail_lines(t: Theme, detail: Seq<char>) -> Seq<Seq<char>> {
    if detail.len() == 0 {
        Seq::empty()
    } else {
        seq!["  "@ + painted(t, "2"@, detail)]
    }
}

pub open spec fn command_intent(cmd: Seq<Seq<char>>) -> IntentView {
    let line = joined(cmd, " "@);
    classified(command_key(line), line, true)
}

pub open spec fn profile(t: Theme, i: IntentView) -> Seq<Seq<char>> {
    seq![
        title_text(t, "PV / INTENT"@, "classification only — command was not run"@),
        section_text(t, "LIFECYCLE PROFILE"@),
        "  "@ + painted(t, "1"@, "Task"@) + " "@ + i.task,
        "  Category:             "@ + category_name(i.category),
        "  Interactive:          "@ + yes_or_no(t, i.interactive),
        "  Can survive interrupt: "@ + yes_or_no(t, i.can_interrupt),
        "  Can suspend:          "@ + yes_or_no(t, i.can_suspend),
        "  Can migrate:          "@ + yes_or_no(t, i.can_migrate),
        "  Remote friendly:      "@ + yes_or_no(t, i.remote_friendly),
        "  GPU required:         "@ + yes_or_no(t, i.gpu),
    ] + detail_lines(t, i.detail)
}

fn yn(t: &Theme, b: bool) -> (r: String)
    ensures
        r@ == yes_or_no(*t, b),
{
    if b {
        t.green("yes")
    } else {
        t.dim("no")
    }
}

fn detail_part(t: &Theme, detail: &str) -> (r: Vec<String>)
    ensures
        texts(r@) == detail_lines(*t, detail@),
{
    if detail.unicode_len() == 0 {
        none()
    } else {
        one(cat2("  ", t.dim(detail).as_str()))
    }
}

fn show_profile(t: &Theme, i: &Intent) -> (r: Vec<String>)
    ensures
        texts(r@) == profile(*t, i@),
{
    let mut out: Vec<String> = one(
        t.title("PV / INTENT", "classification only — command was not run"),
    );
    push_text(&mut out, t.section("LIFECYCLE PROFILE"));
    push_text(&mut out, cat4("  ", t.bold("Task").as_str(), " ", i.task.as_str()));
    push_text(&mut out, cat2("  Category:             ", i.category.name()));
    push_text(&mut out, cat2("  Interactive:          ", yn(t, i.interactive).as_str()));
    push_text(&mut out, cat2("  Can survive interrupt: ", yn(t, i.can_interrupt).as_str()));
    push_text(&mut out, cat2("  Can suspend:          ", yn(t, i.can_suspend).as_str()));
    push_text(&mut out, cat2("  Can migrate:          ", yn(t, i.can_migrate).as_str()));
    push_text(&mut out, cat2("  Remote friendly:      ", yn(t, i.remote_friendly).as_str()));
    push_text(&mut out, cat2("  GPU required:         ", yn(t, i.gpu).as_str()));
    push_all(&mut out, &detail_part(t, i.detail.as_str()));
    assert(texts(out@) =~= profile(*t, i@));
    out
}

/// Show how a command is classified, without running it.
pub fn intent(t: &Theme, cmd: &Vec<String>) -> (r: Reply)
    ensures
        r@ == (if cmd@.len() == 0 {
            complains("usage: pv intent <command...>"@, 2)
        } else {
            says(profile(*t, command_intent(texts(cmd@))))
        }),
{
    if cmd.len() == 0 {
        return complain(owned("usage: pv intent <command...>"), 2);
    }
    let i: Intent = classify_command(join(cmd, " ").as_str());
    say(show_profile(t, &i))
}

// ------------------------------------------------------------ label

/// Note what the user is doing: the labels to save and what was decided, or
/// how to use the verb where nothing was said.
pub fn label(
    prompt: &str,
    st: &State,
    labels: Labels,
    now: u64,
) -> (r: Result<(Labels, Decision), Reply>)
    requires
        now + DEFAULT_GRACE_SECS <= u64::MAX,
    ensures
        r is Err <==> trimmed(prompt@).len() == 0,
        r matches Err(e) ==> e@ == complains("usage: pv label <what you are doing>"@, 2),
        r matches Ok((l, d)) ==> d@ == decided(prompt@, st.apps@, st.intents@) && l@ == recorded(
            labels@,
            prompt@,
            d@.scope,
            now,
        ),
{
    if trim(prompt).as_str().unicode_len() == 0 {
        return Err(complain(owned("usage: pv label <what you are doing>"), 2));
    }
    Ok(apply(prompt, &st.apps, &st.intents, labels, now))
}

pub open spec fn grace_of(d: DecisionView) -> u64 {
    match d.grace_secs {
        Some(g) => g,
        None => 0,
    }
}

/// What is said of a decision that was saved.
pub open spec fn noted(t: Theme, d: DecisionView) -> Seq<Seq<char>> {
    let first = match d.scope {
        ScopeView::Global => painted(t, "32"@, "✓"@) + " global context saved"@,
        ScopeView::App { display, .. } => painted(t, "32"@, "✓"@) + " "@ + display + " has a "@
            + minutes(grace_of(d)) + " recommendation grace"@,
    };
    seq![first, "  "@ + painted(t, "2"@, d.rationale)]
}

/// What is said once the labels were to be saved.
pub fn label_reply(t: &Theme, d: &Decision, saved: &Result<(), String>) -> (r: Reply)
    requires
        grace_of(d@) <= u64::MAX - 59,
    ensures
        r@ == (match *saved {
            Ok(()) => says(noted(*t, d@)),
            Err(e) => complains("[pv] cannot save label: "@ + e@, 1),
        }),
{
    match saved {
        Err(e) => complain(cat2("[pv] cannot save label: ", e.as_str()), 1),
        Ok(()) => {
            let first: String = match &d.scope {
                Scope::Global => cat2(t.green("✓").as_str(), " global context saved"),
                Scope::App { display, .. } => {
                    let grace: u64 = match d.grace_secs {
                        Some(g) => g,
                        None => 0,
                    };
                    cat6(
                        t.green("✓").as_str(),
                        " ",
                        display.as_str(),
                        " has a ",
                        format_duration(grace).as_str(),
                        " recommendation grace",
                    )
                },
            };
            let mut out: Vec<String> = one(first);
            push_text(&mut out, cat2("  ", t.dim(d.rationale.as_str()).as_str()));
            assert(texts(out@) =~= noted(*t, d@));
            say(out)
        },
    }
}

// ------------------------------------------------------------ run, sessions, attach

/// The intent of a detached command: it has no terminal, so nobody drives it.
pub open spec fn detached(i: IntentView) -> IntentView {
    IntentView {
        interactive: false,
        never_suspend: i.never_suspend && i.category != Category::Shell,
        ..i
    }
}

pub open spec fn intro(t: Theme, i: IntentView) -> Seq<Seq<char>> {
    seq![painted(t, "1"@, "Intent:"@) + " "@ + i.task] + detail_lines(t, i.detail)
}

/// How a command that is to be run is classified, and what is said of it.
pub fn run(t: &Theme, cmd: &Vec<String>) -> (r: (Intent, Vec<String>))
    ensures
        r.0@ == detached(command_intent(texts(cmd@))),
        texts(r.1@) == intro(*t, r.0@),
{
    let mut i: Intent = classify_command(join(cmd, " ").as_str());
    i.interactive = false;
    if i.category == Category::Shell {
        i.never_suspend = false;
    }
    let mut out: Vec<String> = one(cat3(t.bold("Intent:").as_str(), " ", i.task.as_str()));
    push_all(&mut out, &detail_part(t, i.detail.as_str()));
    (i, out)
}

/// The first host of a name.
pub open spec fn host_named(hosts: Seq<(Seq<char>, HostView)>, name: Seq<char>) -> Option<HostView>
    decreases hosts.len(),
{
    if hosts.len() == 0 {
        None
    } else if hosts[0].0 == name {
        Some(hosts[0].1)
    } else {
        host_named(hosts.drop_first(), name)
    }
}

pub open spec fn unknown_host(name: Seq<char>) -> ReplyView {
    complains("unknown host '"@ + name + "' — see `pv hosts`"@, 1)
}

/// The host of a name, or a complaint that there is none.
pub fn remote_host(hosts: &Vec<(String, Host)>, name: &str) -> (r: Result<Host, Reply>)
    ensures
        match host_named(host_views(hosts@), name@) {
            Some(h) => r matches Ok(x) && x@ == h,
            None => r matches Err(e) && e@ == unknown_host(name@),
        },
{
    let ghost all = host_views(hosts@);
    let mut i: usize = 0;
    assert(all.skip(0) =~= all);
    while i < hosts.len()
        invariant
            i <= hosts.len(),
            all == host_views(hosts@),
            host_named(all, name@) == host_named(all.skip(i as int), name@),
        decreases hosts.len() - i,
    {
        assert(all.skip(i as int)[0] == (hosts@[i as int].0@, hosts@[i as int].1@));
        if same(hosts[i].0.as_str(), name) {
            return Ok(hosts[i].1.copy());
        }
        assert(all.skip(i as int).drop_first() =~= all.skip(i as int + 1));
        i = i + 1;
    }
    assert(all.skip(i as int) =~= Seq::empty());
    Err(complain(cat3("unknown host '", name, "' — see `pv hosts`"), 1))
}

pub open spec fn started(t: Theme, s: SessionView) -> Seq<Seq<char>> {
    seq![
        painted(t, "32"@, "▶ detached"@) + " session "@ + s.id + " (pid "@ + decimal(s.pid as nat)
            + ")"@,
        "  log: "@ + s.log,
        "  reattach with: pv attach "@ + s.id,
    ]
}

/// What is said once a session was to be started.
pub fn run_reply(t: &Theme, outcome: &Result<Session, String>) -> (r: Reply)
    ensures
        r@ == (match *outcome {
            Ok(s) => says(started(*t, s@)),
            Err(e) => fails(e@),
        }),
{
    match outcome {
        Err(e) => fail(e.as_str()),
        Ok(s) => {
            let mut out: Vec<String> = one(
                cat6(
                    t.green("▶ detached").as_str(),
                    " session ",
                    s.id.as_str(),
                    " (pid ",
                    dec64(s.pid as u64).as_str(),
                    ")",
                ),
            );
            push_text(&mut out, cat2("  log: ", s.log.as_str()));
            push_text(&mut out, cat2("  reattach with: pv attach ", s.id.as_str()));
            assert(texts(out@) =~= started(*t, s@));
            say(out)
        },
    }
}

/// The text where it has at most `n` bytes, and otherwise its first `n - 1`
/// characters and a mark.
pub open spec fn truncated(s: Seq<char>, n: nat) -> Seq<char> {
    if bytes_in(s) <= n {
        s
    } else {
        let kept = if n == 0 {
            0
        } else {
            n - 1
        };
        (if kept < s.len() {
            s.take(kept)
        } else {
            s
        }) + "…"@
    }
}

/// Cut a text on character boundaries: logs hold arbitrary text.
pub fn truncate(s: &str, n: usize) -> (r: String)
    ensures
        r@ == truncated(s@, n as nat),
{
    if byte_len(s) <= n {
        return owned(s);
    }
    let kept: usize = if n == 0 {
        0
    } else {
        n - 1
    };
    let v: Vec<char> = chars_of(s);
    if kept < v.len() {
        let part: String = text_between(&v, 0, kept);
        assert(part@ =~= s@.take(kept as int));
        cat2(part.as_str(), "…")
    } else {
        cat2(s, "…")
    }
}

/// A session as it was seen: whether it runs, and the last line of its log.
pub struct Seen {
    pub session: Session,
    pub alive: bool,
    pub last: Option<String>,
}

#[verifier::ext_equal]
pub struct SeenView {
    pub session: SessionView,
    pub alive: bool,
    pub last: Option<Seq<char>>,
}

impl View for Seen {
    type V = SeenView;

    open spec fn view(&self) -> SeenView {
        SeenView { session: self.session@, alive: self.alive, last: opt_text(self.last) }
    }
}

pub open spec fn seen_views(v: Seq<Seen>) -> Seq<SeenView> {
    v.map_values(|s: Seen| s@)
}

pub open spec fn session_row(t: Theme, s: SeenView) -> Seq<char> {
    let status = if s.alive {
        painted(t, "32"@, cell_text("running"@, 10))
    } else {
        painted(t, "2"@, cell_text("finished"@, 10))
    };
    "  "@ + status + "  "@ + cell_text(s.session.id, 10) + "  "@ + cell_text(
        joined(s.session.cmd, " "@),
        24,
    ) + "  "@ + painted(t, "2"@, "pid "@ + decimal(s.session.pid as nat))
}

pub open spec fn last_line(t: Theme, last: Option<Seq<char>>) -> Seq<Seq<char>> {
    match last {
        Some(l) if l.len() > 0 => seq![
            "    "@ + painted(t, "2"@, "└ "@ + truncated(l, 70)),
        ],
        _ => Seq::empty(),
    }
}

pub open spec fn session_rows(t: Theme, list: Seq<SeenView>) -> Seq<Seq<char>>
    decreases list.len(),
{
    if list.len() == 0 {
        Seq::empty()
    } else {
        session_rows(t, list.drop_last()).push(session_row(t, list.last())) + last_line(
            t,
            list.last().last,
        )
    }
}

pub open spec fn session_head(t: Theme) -> Seq<Seq<char>> {
    seq![
        title_text(t, "PV / SESSIONS"@, "detached work that survives terminal loss"@),
        section_text(t, "CONTINUITY"@),
        "  "@ + heading(t, "STATUS"@, 10) + "  "@ + heading(t, "ID"@, 10) + "  "@ + heading(
            t,
            "COMMAND"@,
            24,
        ) + "  PID"@,
    ]
}

pub open spec fn session_lines(t: Theme, list: Seq<SeenView>) -> Seq<Seq<char>> {
    if list.len() == 0 {
        seq![painted(t, "2"@, "No pv sessions. Start one with `pv run -- <cmd>`."@)]
    } else {
        session_head(t) + session_rows(t, list)
    }
}

fn show_session(t: &Theme, s: &Seen) -> (r: String)
    ensures
        r@ == session_row(*t, s@),
{
    let status: String = if s.alive {
        t.green(t.cell("running", 10).as_str())
    } else {
        t.dim(t.cell("finished", 10).as_str())
    };
    let pid: String = cat2("pid ", dec64(s.session.pid as u64).as_str());
    let left: String = cat7(
        "  ",
        status.as_str(),
        "  ",
        t.cell(s.session.id.as_str(), 10).as_str(),
        "  ",
        t.cell(join(&s.session.cmd, " ").as_str(), 24).as_str(),
        "  ",
    );
    cat2(left.as_str(), t.dim(pid.as_str()).as_str())
}

fn show_last(t: &Theme, last: &Option<String>) -> (r: Vec<String>)
    ensures
        texts(r@) == last_line(*t, opt_text(*last)),
{
    match last {
        Some(l) => {
            if l.as_str().unicode_len() > 0 {
                let s: String = cat2("└ ", truncate(l.as_str(), 70).as_str());
                one(cat2("    ", t.dim(s.as_str()).as_str()))
            } else {
                none()
            }
        },
        None => none(),
    }
}

pub fn sessions(t: &Theme, list: &Vec<Seen>) -> (r: Vec<String>)
    ensures
        texts(r@) == session_lines(*t, seen_views(list@)),
{
    let ghost all = seen_views(list@);
    assert(all.len() == list@.len());
    if list.len() == 0 {
        return one(t.dim("No pv sessions. Start one with `pv run -- <cmd>`."));
    }
    let mut out: Vec<String> = one(
        t.title("PV / SESSIONS", "detached work that survives terminal loss"),
    );
    push_text(&mut out, t.section("CONTINUITY"));
    push_text(
        &mut out,
        cat7(
            "  ",
            head(t, "STATUS", 10).as_str(),
            "  ",
            head(t, "ID", 10).as_str(),
            "  ",
            head(t, "COMMAND", 24).as_str(),
            "  PID",
        ),
    );
    assert(texts(out@) =~= session_head(*t));
    let mut i: usize = 0;
    assert(all.take(0) =~= Seq::empty());
    assert(session_head(*t) + session_rows(*t, all.take(0)) =~= session_head(*t));
    while i < list.len()
        invariant
            i <= list.len(),
            all == seen_views(list@),
            texts(out@) == session_head(*t) + session_rows(*t, all.take(i as int)),
        decreases list.len() - i,
    {
        let ghost before = session_rows(*t, all.take(i as int));
        proof {
            assert(all.take(i as int + 1).drop_last() =~= all.take(i as int));
            assert(all.take(i as int + 1).last() == list@[i as int]@);
        }
        push_text(&mut out, show_session(t, &list[i]));
        push_all(&mut out, &show_last(t, &list[i].last));
        assert(texts(out@) =~= session_head(*t) + (before.push(
            session_row(*t, list@[i as int]@),
        ) + last_line(*t, list@[i as int]@.last)));
        i = i + 1;
    }
    assert(all.take(i as int) =~= all);
    out
}

/// The session to follow and what is said of it, or a complaint.
pub fn attach(t: &Theme, all: &Vec<Session>, id: &str) -> (r: Result<(Session, String), Reply>)
    ensures
        match found_session(session_views(all@), id@) {
            Some(s) => r matches Ok((x, line)) && x@ == s && line@ == painted(
                *t,
                "1"@,
                "Attaching to"@,
            ) + " "@ + s.id + " — "@ + joined(s.cmd, " "@),
            None => r matches Err(e) && e@ == complains(
                "no session matching '"@ + id@ + "'"@,
                1,
            ),
        },
{
    match find(all, id) {
        None => Err(complain(cat3("no session matching '", id, "'"), 1)),
        Some(s) => {
            let line: String = cat5(
                t.bold("Attaching to").as_str(),
                " ",
                s.id.as_str(),
                " — ",
                join(&s.cmd, " ").as_str(),
            );
            Ok((s, line))
        },
    }
}

/// What is said once a piece of work is over: nothing where it went well.
pub fn outcome_reply(outcome: &Result<(), String>) -> (r: Reply)
    ensures
        r@ == (match *outcome {
            Ok(()) => says(Seq::empty()),
            Err(e) => fails(e@),
        }),
{
    match outcome {
        Ok(()) => say(none()),
        Err(e) => fail(e.as_str()),
    }
}

// ------------------------------------------------------------ suspend, resume, kill

/// Whether an intent allows suspension.
pub open spec fn may_freeze(i: IntentView) -> bool {
    i.can_suspend && !i.never_suspend
}

pub open spec fn refusal(t: Theme, a: App, i: IntentView) -> ReplyView {
    complains(
        painted(t, "31"@, "refusing:"@) + " "@ + a.display@ + " — "@ + i.detail
            + " (use --force to override)"@,
        1,
    )
}

/// The application to suspend and its intent, or a refusal: protected work is
/// suspended only by force.
pub fn suspend(t: &Theme, apps: &Vec<App>, target: &str, force: bool) -> (r: Result<
    (usize, Intent),
    Reply,
>)
    ensures
        match app_meant(apps@, target@) {
            None => r matches Err(e) && e@ == complains(
                "no running app matching '"@ + target@ + "'"@,
                1,
            ),
            Some(k) => {
                let i = own_intent(apps@[k]);
                if may_freeze(i) || force {
                    r matches Ok((n, x)) && n == k && n < apps@.len() && x@ == i
                } else {
                    r matches Err(e) && e@ == refusal(*t, apps@[k], i)
                }
            },
        },
        r matches Ok((_, x)) ==> force || (x.can_suspend && !x.never_suspend),
{
    match find_app(apps, target) {
        None => Err(complain(cat3("no running app matching '", target, "'"), 1)),
        Some(n) => {
            let i: Intent = classify(&apps[n]);
            if (i.never_suspend || !i.can_suspend) && !force {
                return Err(
                    complain(
                        cat6(
                            t.red("refusing:").as_str(),
                            " ",
                            apps[n].display.as_str(),
                            " — ",
                            i.detail.as_str(),
                            " (use --force to override)",
                        ),
                        1,
                    ),
                );
            }
            Ok((n, i))
        },
    }
}

pub open spec fn frozen_line(t: Theme, e: RecordView) -> Seq<char> {
    painted(t, "33"@, "❄"@) + " "@ + e.display + " frozen — "@ + kb_text(e.rss_kb as nat)
        + " held, resume with `pv resume "@ + e.key + "`"@
}

/// What is said once an application was to be suspended.
pub fn suspend_reply(t: &Theme, outcome: &Result<SuspendedApp, String>) -> (r: Reply)
    ensures
        r@ == (match *outcome {
            Ok(e) => says(seq![frozen_line(*t, e@)]),
            Err(e) => fails(e@),
        }),
{
    match outcome {
        Err(e) => fail(e.as_str()),
        Ok(e) => say(
            one(
                cat2(
                    cat7(
                        t.yellow("❄").as_str(),
                        " ",
                        e.display.as_str(),
                        " frozen — ",
                        fmt_kb(e.rss_kb).as_str(),
                        " held, resume with `pv resume ",
                        e.key.as_str(),
                    ).as_str(),
                    "`",
                ),
            ),
        ),
    }
}

/// The key of the first suspended application that a target means, without
/// regard to case.
pub open spec fn frozen_meant(list: Seq<RecordView>, target: Seq<char>) -> Option<Seq<char>>
    decreases list.len(),
{
    if list.len() == 0 {
        None
    } else if list[0].key == lower_of(target) || holds_text(list[0].key, lower_of(target)) {
        Some(list[0].key)
    } else {
        frozen_meant(list.drop_first(), target)
    }
}

fn find_frozen(list: &Vec<SuspendedApp>, target: &str) -> (r: Option<String>)
    ensures
        opt_text(r) == frozen_meant(records(list@), target@),
{
    let t: String = lower(target);
    let ghost all = records(list@);
    let mut i: usize = 0;
    assert(all.skip(0) =~= all);
    while i < list.len()
        invariant
            i <= list.len(),
            all == records(list@),
            t@ == lower_of(target@),
            frozen_meant(all, target@) == frozen_meant(all.skip(i as int), target@),
        decreases list.len() - i,
    {
        assert(all.skip(i as int)[0] == list@[i as int]@);
        if same(list[i].key.as_str(), t.as_str()) || contains(list[i].key.as_str(), t.as_str()) {
            return Some(list[i].key.clone());
        }
        assert(all.skip(i as int).drop_first() =~= all.skip(i as int + 1));
        i = i + 1;
    }
    assert(all.skip(i as int) =~= Seq::empty());
    None
}

/// The key of the application to thaw, or a complaint.
pub fn resume(list: &Vec<SuspendedApp>, target: &str) -> (r: Result<String, Reply>)
    ensures
        match frozen_meant(records(list@), target@) {
            Some(k) => r matches Ok(s) && s@ == k,
            None => r matches Err(e) && e@ == complains(
                "no suspended app matching '"@ + target@ + "'"@,
                1,
            ),
        },
{
    match find_frozen(list, target) {
        Some(k) => Ok(k),
        None => Err(complain(cat3("no suspended app matching '", target, "'"), 1)),
    }
}

pub open spec fn thawed_line(t: Theme, key: Seq<char>, n: nat, rss: nat) -> Seq<char> {
    painted(t, "32"@, "▶"@) + " "@ + key + " thawed ("@ + decimal(n) + " processes, "@ + kb_text(
        rss,
    ) + " returned to service)"@
}

/// What is said once an application was to be thawed.
pub fn resume_reply(t: &Theme, key: &str, outcome: &Result<(usize, u64), String>) -> (r: Reply)
    ensures
        r@ == (match *outcome {
            Ok((n, rss)) => says(seq![thawed_line(*t, key@, n as nat, rss as nat)]),
            Err(e) => fails(e@),
        }),
{
    match outcome {
        Err(e) => fail(e.as_str()),
        Ok((n, rss)) => {
            let left: String = cat6(
                t.green("▶").as_str(),
                " ",
                key,
                " thawed (",
                dec64(*n as u64).as_str(),
                " processes, ",
            );
            say(one(cat3(left.as_str(), fmt_kb(*rss).as_str(), " returned to service)")))
        },
    }
}

/// The key of the application to end, or a complaint: only what is suspended
/// can be ended.
pub fn kill(list: &Vec<SuspendedApp>, target: &str) -> (r: Result<String, Reply>)
    ensures
        match frozen_meant(records(list@), target@) {
            Some(k) => r matches Ok(s) && s@ == k,
            None => r matches Err(e) && e@ == complains(
                "no suspended app matching '"@ + target@
                    + "' (kill works on suspended apps)"@,
                1,
            ),
        },
{
    match find_frozen(list, target) {
        Some(k) => Ok(k),
        None => Err(
            complain(
                cat3(
                    "no suspended app matching '",
                    target,
                    "' (kill works on suspended apps)",
                ),
                1,
            ),
        ),
    }
}

pub open spec fn killed_line(t: Theme, key: Seq<char>, n: nat) -> Seq<char> {
    painted(t, "31"@, "✖"@) + " "@ + key + " terminated ("@ + decimal(n) + " processes)"@
}

/// What is said once an application was to be ended.
pub fn kill_reply(t: &Theme, key: &str, outcome: &Result<usize, String>) -> (r: Reply)
    ensures
        r@ == (match *outcome {
            Ok(n) => says(seq![killed_line(*t, key@, n as nat)]),
            Err(e) => fails(e@),
        }),
{
    match outcome {
        Err(e) => fail(e.as_str()),
        Ok(n) => say(
            one(
                cat6(
                    t.red("✖").as_str(),
                    " ",
                    key,
                    " terminated (",
                    dec64(*n as u64).as_str(),
                    " processes)",
                ),
            ),
        ),
    }
}

pub open spec fn age_of(now: u64, since: u64) -> nat {
    if now > since {
        (now - since) as nat
    } else {
        0
    }
}

pub open spec fn frozen_row(t: Theme, s: RecordView, now: u64) -> Seq<char> {
    let left = "  "@ + painted(t, "1"@, cell_text(s.display, 18)) + "  "@ + painted(
        t,
        "2"@,
        cell_text(s.task, 28),
    ) + "  "@;
    left + padded_left(kb_text(s.rss_kb as nat), 10, ' ') + "  "@ + painted(
        t,
        "2"@,
        "frozen "@ + eta_text(age_of(now, s.suspended_at)),
    )
}

pub open spec fn frozen_head(t: Theme) -> Seq<char> {
    "  "@ + heading(t, "APP"@, 18) + "  "@ + heading(t, "INTENT"@, 28) + "  "@ + heading(
        t,
        "RSS"@,
        10,
    ) + "  AGE"@
}

pub open spec fn frozen_lines(t: Theme, list: Seq<RecordView>, now: u64) -> Seq<Seq<char>> {
    if list.len() == 0 {
        seq![painted(t, "2"@, "Nothing suspended."@)]
    } else {
        seq![frozen_head(t)] + list.map_values(|s: RecordView| frozen_row(t, s, now))
    }
}

fn show_frozen(t: &Theme, s: &SuspendedApp, now: u64) -> (r: String)
    ensures
        r@ == frozen_row(*t, s@, now),
{
    let age: u64 = if now > s.suspended_at {
        now - s.suspended_at
    } else {
        0
    };
    let left: String = cat5(
        "  ",
        t.bold(t.cell(s.display.as_str(), 18).as_str()).as_str(),
        "  ",
        t.dim(t.cell(s.task.as_str(), 28).as_str()).as_str(),
        "  ",
    );
    let since: String = cat2("frozen ", fmt_eta(age).as_str());
    cat4(
        left.as_str(),
        t.number(fmt_kb(s.rss_kb).as_str(), 10).as_str(),
        "  ",
        t.dim(since.as_str()).as_str(),
    )
}

pub fn suspended(t: &Theme, list: &Vec<SuspendedApp>, now: u64) -> (r: Vec<String>)
    ensures
        texts(r@) == frozen_lines(*t, records(list@), now),
{
    let ghost all = records(list@);
    assert(all.len() == list@.len());
    if list.len() == 0 {
        return one(t.dim("Nothing suspended."));
    }
    let ghost rows = all.map_values(|s: RecordView| frozen_row(*t, s, now));
    let mut out: Vec<String> = one(
        cat7(
            "  ",
            head(t, "APP", 18).as_str(),
            "  ",
            head(t, "INTENT", 28).as_str(),
            "  ",
            head(t, "RSS", 10).as_str(),
            "  AGE",
        ),
    );
    let ghost first = seq![frozen_head(*t)];
    let mut i: usize = 0;
    assert(first + rows.take(0) =~= first);
    while i < list.len()
        invariant
            i <= list.len(),
            all == records(list@),
            rows == all.map_values(|s: RecordView| frozen_row(*t, s, now)),
            texts(out@) == first + rows.take(i as int),
        decreases list.len() - i,
    {
        push_text(&mut out, show_frozen(t, &list[i], now));
        proof {
            assert(all[i as int] == list@[i as int]@);
            assert(texts(out@) =~= first + rows.take(i as int + 1));
        }
        i = i + 1;
    }
    assert(rows.take(i as int) =~= rows);
    out
}

// ------------------------------------------------------------ policy

/// The complaint where a file that is to be made is there already.
pub fn init_refused(path: &str, exists: bool) -> (r: Option<Reply>)
    ensures
        r is Some <==> exists,
        r matches Some(e) ==> e@ == complains("already exists: "@ + path@, 1),
{
    if exists {
        Some(complain(cat2("already exists: ", path), 1))
    } else {
        None
    }
}

/// What is said once a file was to be made.
pub fn init_reply(path: &str, written: &Result<(), String>) -> (r: Reply)
    ensures
        r@ == (match *written {
            Ok(()) => says(seq!["wrote "@ + path@]),
            Err(e) => fails(e@),
        }),
{
    match written {
        Ok(()) => say(one(cat2("wrote ", path))),
        Err(e) => fail(e.as_str()),
    }
}

pub open spec fn categories_of(v: Seq<(String, Intent)>) -> Seq<(Seq<char>, Category)> {
    v.map_values(|p: (String, Intent)| (p.0@, p.1.category))
}

/// The category of each application.
pub fn categories(intents: &Vec<(String, Intent)>) -> (r: Vec<(String, Category)>)
    ensures
        category_views(r@) == categories_of(intents@),
{
    let ghost want = categories_of(intents@);
    let mut out: Vec<(String, Category)> = Vec::new();
    let mut i: usize = 0;
    assert(category_views(out@) =~= want.take(0));
    while i < intents.len()
        invariant
            i <= intents.len(),
            want == categories_of(intents@),
            category_views(out@) == want.take(i as int),
        decreases intents.len() - i,
    {
        let ghost before = category_views(out@);
        let p: (String, Category) = (intents[i].0.clone(), intents[i].1.category);
        out.push(p);
        proof {
            assert(category_views(out@) =~= before.push((p.0@, p.1)));
            assert(want.take(i as int + 1) =~= want.take(i as int).push(want[i as int]));
        }
        i = i + 1;
    }
    assert(want.take(i as int) =~= want);
    out
}

/// What is said where there is nothing to enforce, by the number of rules.
pub open spec fn idle_word(rules: nat) -> Seq<char> {
    if rules == 0 {
        "No policies. Create defaults with `pv policy --init`."@
    } else {
        "No policy conditions met right now."@
    }
}

/// The word that there are no rules, which needs no look at the system.
pub fn no_policies(t: &Theme, rules: &Vec<Rule>) -> (r: Option<Reply>)
    ensures
        r is Some <==> rules@.len() == 0,
        r matches Some(e) ==> e@ == says(seq![painted(*t, "2"@, idle_word(0))]),
{
    if rules.len() == 0 {
        Some(say(one(t.dim("No policies. Create defaults with `pv policy --init`."))))
    } else {
        None
    }
}

/// The hits of the rules, or a word that there are no rules or no hits.
fn policy_hits(t: &Theme, rules: &Vec<Rule>, st: &State) -> (r: Result<
    Vec<PolicyHit>,
    Reply,
>)
    ensures
        ({
            let hits = all_hits(rules@, st.apps@, categories_of(st.intents@), st.report);
            if rules@.len() == 0 || hits.len() == 0 {
                r matches Err(e) && e@ == says(seq![painted(*t, "2"@, idle_word(rules@.len()))])
            } else {
                r matches Ok(v) && hit_views(v@) == hits
            }
        }),
{
    if let Some(e) = no_policies(t, rules) {
        return Err(e);
    }
    let hits: Vec<PolicyHit> = evaluate(
        rules,
        &st.apps,
        &categories(&st.intents),
        &st.report,
    );
    assert(hit_views(hits@).len() == hits@.len());
    if hits.len() == 0 {
        return Err(say(one(t.dim("No policy conditions met right now."))));
    }
    Ok(hits)
}

/// Evaluate the rules and set about their hits: the first turn of carrying
/// them out, or a word that there are no rules or no hits.
pub fn policy(t: &Theme, apply: bool, rules: &Vec<Rule>, st: State) -> (r: Result<
    (Enforcement, Turn),
    Reply,
>)
    ensures
        ({
            let hits = all_hits(rules@, st.apps@, categories_of(st.intents@), st.report);
            if rules@.len() == 0 || hits.len() == 0 {
                r matches Err(e) && e@ == says(seq![painted(*t, "2"@, idle_word(rules@.len()))])
            } else {
                r matches Ok((run, turn)) && run.wf() && run.given() == (Given {
                    theme: *t,
                    hits,
                    apps: st.apps@,
                    apply,
                }) && (run.stage@, turn@) == from_hit(run.given(), 0)
            }
        }),
{
    match policy_hits(t, rules, &st) {
        Err(e) => Err(e),
        Ok(hits) => Ok(enforce(t, hits, st.apps, apply)),
    }
}

// ------------------------------------------------------------ hosts, migrate

/// A host as it was seen: whether it answers, and what it said of itself.
pub struct HostSeen {
    pub name: String,
    pub host: Host,
    pub up: bool,
    pub probe: Option<String>,
}

#[verifier::ext_equal]
pub struct HostSeenView {
    pub name: Seq<char>,
    pub host: HostView,
    pub up: bool,
    pub probe: Option<Seq<char>>,
}

impl View for HostSeen {
    type V = HostSeenView;

    open spec fn view(&self) -> HostSeenView {
        HostSeenView {
            name: self.name@,
            host: self.host@,
            up: self.up,
            probe: opt_text(self.probe),
        }
    }
}

pub open spec fn host_seen_views(v: Seq<HostSeen>) -> Seq<HostSeenView> {
    v.map_values(|h: HostSeen| h@)
}

/// What is said of a host: its own words where it answers with some, or the
/// note that was kept of it.
pub open spec fn host_detail(h: HostSeenView) -> Seq<char> {
    match h.probe {
        Some(p) if h.up && p.len() > 0 => p,
        _ => h.host.note,
    }
}

pub open spec fn host_row(t: Theme, h: HostSeenView) -> Seq<char> {
    let status = if h.up {
        painted(t, "32"@, cell_text("online"@, 9))
    } else {
        painted(t, "2"@, cell_text("offline"@, 9))
    };
    "  "@ + painted(t, "1"@, cell_text(h.name, 14)) + "  "@ + cell_text(h.host.addr, 24) + "  "@
        + status + "  "@ + painted(t, "2"@, host_detail(h))
}

pub open spec fn host_head(t: Theme) -> Seq<char> {
    "  "@ + heading(t, "NAME"@, 14) + "  "@ + heading(t, "ADDRESS"@, 24) + "  "@ + heading(
        t,
        "STATUS"@,
        9,
    ) + "  DETAILS"@
}

pub open spec fn host_lines(t: Theme, list: Seq<HostSeenView>) -> Seq<Seq<char>> {
    if list.len() == 0 {
        seq![
            painted(
                t,
                "2"@,
                "No remote hosts configured — edit ~/.config/pv/hosts.toml (template: `pv hosts --init`)."@,
            ),
        ]
    } else {
        seq![host_head(t)] + list.map_values(|h: HostSeenView| host_row(t, h))
    }
}

fn show_host(t: &Theme, h: &HostSeen) -> (r: String)
    ensures
        r@ == host_row(*t, h@),
{
    let status: String = if h.up {
        t.green(t.cell("online", 9).as_str())
    } else {
        t.dim(t.cell("offline", 9).as_str())
    };
    let detail: String = match &h.probe {
        Some(p) => if h.up && p.as_str().unicode_len() > 0 {
            p.clone()
        } else {
            h.host.note.clone()
        },
        None => h.host.note.clone(),
    };
    let left: String = cat7(
        "  ",
        t.bold(t.cell(h.name.as_str(), 14).as_str()).as_str(),
        "  ",
        t.cell(h.host.addr.as_str(), 24).as_str(),
        "  ",
        status.as_str(),
        "  ",
    );
    cat2(left.as_str(), t.dim(detail.as_str()).as_str())
}

pub fn hosts(t: &Theme, list: &Vec<HostSeen>) -> (r: Vec<String>)
    ensures
        texts(r@) == host_lines(*t, host_seen_views(list@)),
{
    let ghost all = host_seen_views(list@);
    assert(all.len() == list@.len());
    if list.len() == 0 {
        return one(
            t.dim(
                "No remote hosts configured — edit ~/.config/pv/hosts.toml (template: `pv hosts --init`).",
            ),
        );
    }
    let ghost rows = all.map_values(|h: HostSeenView| host_row(*t, h));
    let mut out: Vec<String> = one(
        cat7(
            "  ",
            head(t, "NAME", 14).as_str(),
            "  ",
            head(t, "ADDRESS", 24).as_str(),
            "  ",
            head(t, "STATUS", 9).as_str(),
            "  DETAILS",
        ),
    );
    let ghost first = seq![host_head(*t)];
    let mut i: usize = 0;
    assert(first + rows.take(0) =~= first);
    while i < list.len()
        invariant
            i <= list.len(),
            all == host_seen_views(list@),
            rows == all.map_values(|h: HostSeenView| host_row(*t, h)),
            texts(out@) == first + rows.take(i as int),
        decreases list.len() - i,
    {
        push_text(&mut out, show_host(t, &list[i]));
        proof {
            assert(all[i as int] == list@[i as int]@);
            assert(texts(out@) =~= first + rows.take(i as int + 1));
        }
        i = i + 1;
    }
    assert(rows.take(i as int) =~= rows);
    out
}

/// Set about moving a session or an application to a host: the one that is
/// named, or else the first that answers.
pub fn migrate(t: &Theme, target: &str, to: &Option<String>, hosts: Vec<(String, Host)>) -> (r: (
    Relocation,
    MoveTurn,
))
    ensures
        r.0.wf(),
        r.0.given() == (Move { theme: *t, target: target@, hosts: host_views(hosts@) }),
        (r.0.stage@, r.1@) == choosing(r.0.given(), opt_text(*to)),
{
    relocate(t, target, to, hosts)
}

// ------------------------------------------------------------ laws

pub proof fn lemma_app_with_key(apps: Seq<App>, key: Seq<char>)
    ensures
        app_with_key(apps, key) matches Some(k) ==> 0 <= k < apps.len() && apps[k].key@ == key,
        app_with_key(apps, key) is None ==> forall|i: int|
            0 <= i < apps.len() ==> (#[trigger] apps[i]).key@ != key,
    decreases apps.len(),
{
    if apps.len() > 0 && apps[0].key@ != key {
        let rest = apps.drop_first();
        lemma_app_with_key(rest, key);
        if app_with_key(apps, key) is None {
            assert forall|i: int| 0 <= i < apps.len() implies (#[trigger] apps[i]).key@ != key by {
                if i > 0 {
                    assert(apps[i] == rest[i - 1]);
                }
            }
        }
    }
}

proof fn lemma_app_with_pid(apps: Seq<App>, pid: u32)
    ensures
        app_with_pid(apps, pid) matches Some(k) ==> 0 <= k < apps.len()
            && apps[k].pids@.contains(pid),
    decreases apps.len(),
{
    if apps.len() > 0 {
        lemma_app_with_pid(apps.drop_first(), pid);
    }
}

proof fn lemma_app_like(apps: Seq<App>, text: Seq<char>)
    ensures
        app_like(apps, text) matches Some(k) ==> 0 <= k < apps.len()
            && holds_text(apps[k].key@, text),
    decreases apps.len(),
{
    if apps.len() > 0 {
        lemma_app_like(apps.drop_first(), text);
    }
}

/// The application that a target means is one of the list.
pub proof fn lemma_app_meant(apps: Seq<App>, target: Seq<char>)
    ensures
        app_meant(apps, target) matches Some(k) ==> 0 <= k < apps.len(),
{
    match parsed(target, 10, u32::MAX as nat) {
        Some(pid) => lemma_app_with_pid(apps, pid as u32),
        None => {
            lemma_app_with_key(apps, lower_of(target));
            lemma_app_like(apps, lower_of(target));
        },
    }
}

/// An exact key wins over one that merely holds the target.
pub proof fn exact_keys_win(apps: Seq<App>, target: Seq<char>, i: int)
    requires
        parsed(target, 10, u32::MAX as nat) is None,
        0 <= i < apps.len(),
        apps[i].key@ == lower_of(target),
    ensures
        app_meant(apps, target) matches Some(k) && 0 <= k < apps.len() && apps[k].key@ == lower_of(
            target,
        ),
{
    lemma_app_with_key(apps, lower_of(target));
}

/// A text that is cut keeps at most as many characters as asked, and one that
/// fits is left as it is.
pub proof fn truncation_keeps_the_limit(s: Seq<char>, n: nat)
    requires
        n > 0,
    ensures
        truncated(s, n).len() <= n || truncated(s, n) == s,
        bytes_in(s) <= n ==> truncated(s, n) == s,
        bytes_in(s) > n && s.len() >= n ==> truncated(s, n).len() == n,
{
    reveal_strlit("…");
}

proof fn lemma_first_with_pid(apps: Seq<App>, pid: u32)
    ensures
        app_with_pid(apps, pid) matches Some(k) ==> forall|i: int|
            0 <= i < k ==> !(#[trigger] apps[i]).pids@.contains(pid),
        app_with_pid(apps, pid) is None ==> forall|i: int|
            0 <= i < apps.len() ==> !(#[trigger] apps[i]).pids@.contains(pid),
    decreases apps.len(),
{
    if apps.len() > 0 && !apps[0].pids@.contains(pid) {
        let rest = apps.drop_first();
        lemma_first_with_pid(rest, pid);
        lemma_app_with_pid(apps, pid);
        let n = match app_with_pid(apps, pid) {
            Some(k) => k,
            None => apps.len() as int,
        };
        assert forall|i: int| 0 <= i < n implies !(#[trigger] apps[i]).pids@.contains(pid) by {
            if i > 0 {
                assert(apps[i] == rest[i - 1]);
            }
        }
    }
}

proof fn lemma_first_like(apps: Seq<App>, text: Seq<char>)
    ensures
        app_like(apps, text) matches Some(k) ==> forall|i: int|
            0 <= i < k ==> !holds_text((#[trigger] apps[i]).key@, text),
        app_like(apps, text) is None ==> forall|i: int|
            0 <= i < apps.len() ==> !holds_text((#[trigger] apps[i]).key@, text),
    decreases apps.len(),
{
    if apps.len() > 0 && !holds_text(apps[0].key@, text) {
        let rest = apps.drop_first();
        lemma_first_like(rest, text);
        lemma_app_like(apps, text);
        let n = match app_like(apps, text) {
            Some(k) => k,
            None => apps.len() as int,
        };
        assert forall|i: int| 0 <= i < n implies !holds_text((#[trigger] apps[i]).key@, text) by {
            if i > 0 {
                assert(apps[i] == rest[i - 1]);
            }
        }
    }
}

/// A number means the first application with that process, and none where no
/// application has it.
pub proof fn numbers_mean_processes(apps: Seq<App>, pid: u32)
    ensures
        app_meant(apps, decimal(pid as nat)) matches Some(k) ==> 0 <= k < apps.len()
            && apps[k].pids@.contains(pid) && forall|i: int|
            0 <= i < k ==> !(#[trigger] apps[i]).pids@.contains(pid),
        app_meant(apps, decimal(pid as nat)) is None ==> forall|i: int|
            0 <= i < apps.len() ==> !(#[trigger] apps[i]).pids@.contains(pid),
{
    numeral_reads_back(pid as nat, u32::MAX as nat);
    lemma_app_with_pid(apps, pid);
    lemma_first_with_pid(apps, pid);
}

/// A name means an application with that key, or else the first whose key
/// mentions it, and none where no key does.
pub proof fn names_mean_keys(apps: Seq<App>, target: Seq<char>)
    requires
        parsed(target, 10, u32::MAX as nat) is None,
        forall|i: int| 0 <= i < apps.len() ==> (#[trigger] apps[i]).key@ != lower_of(target),
    ensures
        app_meant(apps, target) matches Some(k) ==> 0 <= k < apps.len() && mentions(
            apps[k].key@,
            lower_of(target),
        ) && forall|i: int| 0 <= i < k ==> !mentions((#[trigger] apps[i]).key@, lower_of(target)),
        app_meant(apps, target) is None ==> forall|i: int|
            0 <= i < apps.len() ==> !mentions((#[trigger] apps[i]).key@, lower_of(target)),
{
    let text = lower_of(target);
    lemma_app_with_key(apps, text);
    lemma_app_like(apps, text);
    lemma_first_like(apps, text);
    assert forall|i: int| 0 <= i < apps.len() implies holds_text((#[trigger] apps[i]).key@, text)
        == mentions(apps[i].key@, text) by {
        lemma_mentions(apps[i].key@, text);
    }
}

/// Only what its intent lets be suspended is, unless it is forced; what is
/// never to be suspended is refused.
pub proof fn intents_decide_on_suspension(i: IntentView)
    ensures
        i.never_suspend ==> !may_freeze(i),
        !i.can_suspend ==> !may_freeze(i),
        i.can_suspend && !i.never_suspend ==> may_freeze(i),
{
}

/// A target means the first suspended application whose key mentions it, and
/// none where no key does.
pub proof fn names_mean_suspended_keys(list: Seq<RecordView>, target: Seq<char>)
    ensures
        frozen_meant(list, target) matches Some(key) ==> mentions(key, lower_of(target))
            && exists|k: int|
            0 <= k < list.len() && (#[trigger] list[k]).key == key && forall|i: int|
                0 <= i < k ==> !mentions((#[trigger] list[i]).key, lower_of(target)),
        frozen_meant(list, target) is None ==> forall|i: int|
            0 <= i < list.len() ==> !mentions((#[trigger] list[i]).key, lower_of(target)),
    decreases list.len(),
{
    let text = lower_of(target);
    if list.len() > 0 {
        lemma_mentions(list[0].key, text);
        if list[0].key == text {
            assert(text.subrange(0, text.len() as int) =~= text);
        }
        let rest = list.drop_first();
        names_mean_suspended_keys(rest, target);
        if mentions(list[0].key, text) {
            assert(list[0].key == frozen_meant(list, target)->0);
        } else {
            match frozen_meant(list, target) {
                Some(key) => {
                    let k = choose|k: int|
                        0 <= k < rest.len() && (#[trigger] rest[k]).key == key && forall|i: int|
                            0 <= i < k ==> !mentions((#[trigger] rest[i]).key, text);
                    assert(list[k + 1].key == key);
                    assert forall|i: int| 0 <= i < k + 1 implies !mentions(
                        (#[trigger] list[i]).key,
                        text,
                    ) by {
                        if i > 0 {
                            assert(list[i] == rest[i - 1]);
                        }
                    }
                },
                None => {
                    assert forall|i: int| 0 <= i < list.len() implies !mentions(
                        (#[trigger] list[i]).key,
                        text,
                    ) by {
                        if i > 0 {
                            assert(list[i] == rest[i - 1]);
                        }
                    }
                },
            }
        }
    }
}

/// A host is found by its name: the first that has it.
pub proof fn hosts_are_found_by_name(hosts: Seq<(Seq<char>, HostView)>, name: Seq<char>, k: int)
    requires
        0 <= k < hosts.len(),
        hosts[k].0 == name,
        forall|i: int| 0 <= i < k ==> (#[trigger] hosts[i]).0 != name,
    ensures
        host_named(hosts, name) == Some(hosts[k].1),
    decreases k,
{
    if k > 0 {
        let rest = hosts.drop_first();
        assert(hosts[0].0 != name);
        assert forall|i: int| 0 <= i < k - 1 implies (#[trigger] rest[i]).0 != name by {
            assert(rest[i] == hosts[i + 1]);
        }
        hosts_are_found_by_name(rest, name, k - 1);
    }
}

/// A name that no host has finds none.
pub proof fn other_names_find_no_host(hosts: Seq<(Seq<char>, HostView)>, name: Seq<char>)
    requires
        forall|i: int| 0 <= i < hosts.len() ==> (#[trigger] hosts[i]).0 != name,
    ensures
        host_named(hosts, name) is None,
    decreases hosts.len(),
{
    if hosts.len() > 0 {
        let rest = hosts.drop_first();
        assert(hosts[0].0 != name);
        assert forall|i: int| 0 <= i < rest.len() implies (#[trigger] rest[i]).0 != name by {
            assert(rest[i] == hosts[i + 1]);
        }
        other_names_find_no_host(rest, name);
    }
}

/// What may be done with an application is listed: suspending it unless it
/// never is, interrupting it, and moving it.
pub proof fn what_may_be_done_is_listed(i: IntentView)
    ensures
        capabilities(i).contains("suspend"@) <==> i.can_suspend && !i.never_suspend,
        capabilities(i).contains("interrupt"@) <==> i.can_interrupt,
        capabilities(i).contains("migrate"@) <==> i.can_migrate,
{
    reveal_strlit("suspend");
    reveal_strlit("interrupt");
    reveal_strlit("migrate");
    let list = capabilities(i);
    assert("suspend"@[0] == 's' && "interrupt"@[0] == 'i' && "migrate"@[0] == 'm');
    let a: int = if i.can_suspend && !i.never_suspend {
        1
    } else {
        0
    };
    let b: int = if i.can_interrupt {
        1
    } else {
        0
    };
    if a == 1 {
        assert(list[0] == "suspend"@);
    }
    if i.can_interrupt {
        assert(list[a] == "interrupt"@);
    }
    if i.can_migrate {
        assert(list[a + b] == "migrate"@);
    }
}

/// The table has a row for each application that takes more than 8 MB or two
/// percent of a core and has an intent, in order, so many as it has room for.
pub proof fn tables_show_what_is_notable(
    t: Theme,
    apps: Seq<App>,
    intents: Seq<(String, Intent)>,
    frozen: Seq<RecordView>,
    limit: nat,
) -> (at: Seq<int>)
    ensures
        ({
            let rows = table_rows(t, apps, intents, frozen, limit);
            &&& rows.len() == at.len()
            &&& rows.len() <= limit
            &&& forall|i: int, j: int| 0 <= i < j < at.len() ==> #[trigger] at[i] < #[trigger] at[j]
            &&& forall|i: int|
                0 <= i < at.len() ==> 0 <= #[trigger] at[i] < apps.len() && (apps[at[i]].rss_kb
                    > 8_000 || apps[at[i]].cpu_pct > 2_000_000_000) && intent_for(
                    intents,
                    apps[at[i]].key@,
                ) is Some && rows[i] == table_row(
                    t,
                    apps[at[i]],
                    intent_for(intents, apps[at[i]].key@)->0,
                    is_frozen(frozen, apps[at[i]].key@),
                )
            &&& rows.len() < limit ==> forall|k: int|
                0 <= k < apps.len() && ((#[trigger] apps[k]).rss_kb > 8_000 || apps[k].cpu_pct
                    > 2_000_000_000) && intent_for(intents, apps[k].key@) is Some ==> at.contains(k)
        }),
    decreases apps.len(),
{
    if apps.len() == 0 {
        Seq::empty()
    } else {
        let head = apps.drop_last();
        let before = tables_show_what_is_notable(t, head, intents, frozen, limit);
        let a = apps.last();
        let n = apps.len() - 1;
        let taken = table_rows(t, head, intents, frozen, limit).len() < limit && (a.rss_kb > 8_000
            || a.cpu_pct > 2_000_000_000) && intent_for(intents, a.key@) is Some;
        let at = if taken {
            before.push(n)
        } else {
            before
        };
        let rows = table_rows(t, apps, intents, frozen, limit);
        assert forall|i: int| 0 <= i < at.len() implies 0 <= #[trigger] at[i] < apps.len() && (
        apps[at[i]].rss_kb > 8_000 || apps[at[i]].cpu_pct > 2_000_000_000) && intent_for(
            intents,
            apps[at[i]].key@,
        ) is Some && rows[i] == table_row(
            t,
            apps[at[i]],
            intent_for(intents, apps[at[i]].key@)->0,
            is_frozen(frozen, apps[at[i]].key@),
        ) by {
            if i < before.len() {
                assert(at[i] == before[i]);
                assert(apps[at[i]] == head[before[i]]);
            }
        }
        if rows.len() < limit {
            assert forall|k: int|
                0 <= k < apps.len() && ((#[trigger] apps[k]).rss_kb > 8_000 || apps[k].cpu_pct
                    > 2_000_000_000) && intent_for(intents, apps[k].key@) is Some implies at.contains(
                k,
            ) by {
                if k < n {
                    assert(head[k] == apps[k]);
                    let j = choose|j: int| 0 <= j < before.len() && before[j] == k;
                    assert(at[j] == k);
                } else {
                    assert(at[before.len() as int] == n);
                }
            }
        }
        at
    }
}

/// The process view has a row for each application that takes more than 4 MB
/// or one percent of a core and has an intent, in order.
pub proof fn process_views_show_what_runs(
    t: Theme,
    apps: Seq<App>,
    intents: Seq<(String, Intent)>,
) -> (at: Seq<int>)
    ensures
        ({
            let rows = ps_rows(t, apps, intents);
            &&& rows.len() == at.len()
            &&& forall|i: int, j: int| 0 <= i < j < at.len() ==> #[trigger] at[i] < #[trigger] at[j]
            &&& forall|i: int|
                0 <= i < at.len() ==> 0 <= #[trigger] at[i] < apps.len() && (apps[at[i]].rss_kb
                    > 4_000 || apps[at[i]].cpu_pct > 1_000_000_000) && intent_for(
                    intents,
                    apps[at[i]].key@,
                ) is Some && rows[i] == ps_row(
                    t,
                    apps[at[i]],
                    intent_for(intents, apps[at[i]].key@)->0,
                )
            &&& forall|k: int|
                0 <= k < apps.len() && ((#[trigger] apps[k]).rss_kb > 4_000 || apps[k].cpu_pct
                    > 1_000_000_000) && intent_for(intents, apps[k].key@) is Some ==> at.contains(k)
        }),
    decreases apps.len(),
{
    if apps.len() == 0 {
        Seq::empty()
    } else {
        let head = apps.drop_last();
        let before = process_views_show_what_runs(t, head, intents);
        let a = apps.last();
        let n = apps.len() - 1;
        let taken = (a.rss_kb > 4_000 || a.cpu_pct > 1_000_000_000) && intent_for(intents, a.key@) is
            Some;
        let at = if taken {
            before.push(n)
        } else {
            before
        };
        let rows = ps_rows(t, apps, intents);
        assert forall|i: int| 0 <= i < at.len() implies 0 <= #[trigger] at[i] < apps.len() && (
        apps[at[i]].rss_kb > 4_000 || apps[at[i]].cpu_pct > 1_000_000_000) && intent_for(
            intents,
            apps[at[i]].key@,
        ) is Some && rows[i] == ps_row(
            t,
            apps[at[i]],
            intent_for(intents, apps[at[i]].key@)->0,
        ) by {
            if i < before.len() {
                assert(at[i] == before[i]);
                assert(apps[at[i]] == head[before[i]]);
            }
        }
        assert forall|k: int|
            0 <= k < apps.len() && ((#[trigger] apps[k]).rss_kb > 4_000 || apps[k].cpu_pct
                > 1_000_000_000) && intent_for(intents, apps[k].key@) is Some implies at.contains(
            k,
        ) by {
            if k < n {
                assert(head[k] == apps[k]);
                let j = choose|j: int| 0 <= j < before.len() && before[j] == k;
                assert(at[j] == k);
            } else {
                assert(at[before.len() as int] == n);
            }
        }
        at
    }
}

/// What is said of suspending an application: that it never is, how safe it
/// is from seventy percent on, that it is risky below, and that what cannot
/// be suspended is the system's.
pub proof fn safety_is_told_by_the_intent(a: App, i: IntentView)
    ensures
        ({
            let said = safety(Theme { enabled: false }, a, i);
            let sure = confidence(a, i, 0);
            &&& i.never_suspend ==> said == "never suspend"@
            &&& !i.never_suspend && i.can_suspend && sure >= 70 ==> said == "safe to suspend "@
                + decimal(sure) + "%"@
            &&& !i.never_suspend && i.can_suspend && sure < 70 ==> said == "suspend risky"@
            &&& !i.never_suspend && !i.can_suspend ==> said == "system"@
        }),
{
}

/// The state is that an application is suspended, or that somebody drives it,
/// or that it idles below one percent of a core, or its load.
pub proof fn states_are_told_in_turn(a: App, i: IntentView, frozen: bool)
    ensures
        ({
            let said = state_cell(Theme { enabled: false }, a, i, frozen);
            let driven = i.never_suspend && i.interactive;
            &&& frozen ==> said == cell_text("suspended"@, 12)
            &&& !frozen && driven ==> said == cell_text("interactive"@, 12)
            &&& !frozen && !driven && a.cpu_pct < 1_000_000_000 ==> said == cell_text("idle"@, 12)
            &&& !frozen && !driven && a.cpu_pct >= 1_000_000_000 ==> said == cell_text(
                load_text(a),
                12,
            )
        }),
{
}

/// The system is responsive below forty, under heavy pressure from seventy on,
/// and under moderate pressure between; swap counts above 500 MB.
pub proof fn pressure_is_explained_in_words(overall: u8, r: PressureReport)
    ensures
        overall < 40 <==> mood(overall) == "System is responsive."@,
        40 <= overall < 70 <==> mood(overall) == "System is under moderate pressure."@,
        overall >= 70 <==> mood(overall) == "System is under heavy pressure."@,
        r.mem.swap_total_kb - r.mem.swap_free_kb > 512_000 ==> swap_line(r) == "Swap is in use ("@
            + kb_text((r.mem.swap_total_kb - r.mem.swap_free_kb) as nat)
            + ") — memory pressure is real."@,
        r.mem.swap_total_kb - r.mem.swap_free_kb <= 512_000 ==> swap_line(r)
            == "No meaningful swap pressure."@,
{
    reveal_strlit("System is responsive.");
    reveal_strlit("System is under moderate pressure.");
    reveal_strlit("System is under heavy pressure.");
    assert("System is responsive."@.len() == 21);
    assert("System is under moderate pressure."@.len() == 34);
    assert("System is under heavy pressure."@.len() == 31);
}

/// The largest application is named where it takes more than a twentieth of
/// the memory.
pub proof fn a_large_holder_is_named(apps: Seq<App>, r: PressureReport)
    ensures
        apps.len() == 0 ==> holder(apps, r).len() == 0,
        apps.len() > 0 && apps[0].rss_kb as nat * 20 <= total_of(r.mem) ==> holder(apps, r).len()
            == 0,
        apps.len() > 0 && apps[0].rss_kb as nat * 20 > total_of(r.mem) ==> holder(apps, r).len()
            == 1 && mentions(holder(apps, r)[0], apps[0].display@),
{
    if apps.len() > 0 && apps[0].rss_kb as nat * 20 > total_of(r.mem) {
        let lead = "High RAM is mostly "@;
        let name = apps[0].display@;
        let line = holder(apps, r)[0];
        assert(line.subrange(lead.len() as int, lead.len() as int + name.len()) =~= name);
    }
}

/// A detached command is driven by nobody, and a shell then may be suspended;
/// nothing else of its intent changes.
pub proof fn detached_commands_are_driven_by_nobody(i: IntentView)
    ensures
        !detached(i).interactive,
        i.category == Category::Shell ==> !detached(i).never_suspend,
        i.category != Category::Shell ==> detached(i).never_suspend == i.never_suspend,
        detached(i) == (IntentView {
            interactive: false,
            never_suspend: detached(i).never_suspend,
            ..i
        }),
{
}

/// A grace is told in whole minutes, begun ones too.
pub proof fn graces_are_told_in_minutes(secs: u64, m: nat)
    requires
        m * 60 < secs + 60,
        secs <= m * 60,
    ensures
        minutes(secs) == decimal(m) + "m"@,
{
    assert((secs as nat + 59) / 60 == m);
}

/// Each label whose grace is left has a line, in order, and no other has.
pub proof fn graces_left_are_told(
    t: Theme,
    list: Seq<LabelView>,
    all: Seq<LabelView>,
    now: u64,
    l: LabelView,
)
    ensures
        ({
            let before = grace_lines(t, list, all, now);
            let after = grace_lines(t, list.push(l), all, now);
            &&& grace_left(all, l.key, now) is None ==> after == before
            &&& grace_left(all, l.key, now) matches Some(left) ==> after.len() == before.len() + 1
                && after.drop_last() == before && mentions(
                after.last(),
                l.display + " for "@ + minutes(left),
            )
        }),
{
    assert(list.push(l).drop_last() =~= list);
    match grace_left(all, l.key, now) {
        Some(left) => {
            let lead = "  "@ + painted(t, "2"@, "grace:"@) + " "@;
            let told = l.display + " for "@ + minutes(left);
            let after = grace_lines(t, list.push(l), all, now);
            assert(after.drop_last() =~= grace_lines(t, list, all, now));
            assert(after.last() =~= lead + told);
            assert(after.last().subrange(lead.len() as int, lead.len() as int + told.len())
                =~= told);
        },
        None => {},
    }
}

/// Each session has a row, and its last words below where it has any.
pub proof fn sessions_have_a_row_each(t: Theme, list: Seq<SeenView>, s: SeenView)
    ensures
        ({
            let before = session_rows(t, list);
            let after = session_rows(t, list.push(s));
            let row = session_row(t, s);
            &&& (s.last is None || s.last->0.len() == 0) ==> after == before.push(row)
            &&& s.last matches Some(l) ==> l.len() > 0 ==> after == before.push(row).push(
                "    "@ + painted(t, "2"@, "└ "@ + truncated(l, 70)),
            )
        }),
{
    assert(list.push(s).drop_last() =~= list);
    let before = session_rows(t, list);
    let row = session_row(t, s);
    assert(session_rows(t, list.push(s)) == before.push(row) + last_line(t, s.last));
    match s.last {
        Some(l) if l.len() > 0 => {},
        _ => {
            assert(before.push(row) + last_line(t, s.last) =~= before.push(row));
        },
    }
}

/// The user is at a graphical session, or else at a remote one, or nobody
/// knows.
pub proof fn attention_is_told_in_turn(remote: bool)
    ensures
        attention(true, remote) == "graphical session active"@,
        attention(false, true) == "remote session"@,
        attention(false, false) == "unknown"@,
{
}

/// A report lists processor, memory and input first, then the battery and
/// the heat where they are known.
pub proof fn reports_list_every_pressure(r: PressureReport)
    ensures
        ({
            let list = resources_of(r);
            &&& list.len() == 3 + (if r.battery is Some { 1int } else { 0 }) + (if r.thermal is Some {
                1int
            } else {
                0
            })
            &&& list[0] == r.cpu@ && list[1] == r.memory@ && list[2] == r.io@
            &&& r.battery matches Some(b) ==> list[3] == b@
            &&& r.thermal matches Some(h) ==> list.last() == h@
        }),
{
}

/// What is recommended is listed line by line with its action and how sure
/// it is, and comfort is told where nothing is.
pub proof fn advice_is_listed_line_by_line(recs: Seq<RecView>, i: int)
    requires
        0 <= i < recs.len(),
    ensures
        ({
            let t = Theme { enabled: false };
            let list = advice_lines(t, recs);
            let tag = match recs[i].action {
                Action::Suspend => "suspend"@,
                Action::Migrate => "migrate"@,
                Action::Throttle => "throttle"@,
                Action::Reserve => "reserve"@,
                _ => "note"@,
            };
            &&& list.len() == recs.len() + 1
            &&& list[i + 1] == "  ["@ + tag + "] "@ + recs[i].display + " "@ + ("("@ + decimal(
                recs[i].confidence as nat,
            ) + "%)"@)
        }),
        advice_lines(Theme { enabled: false }, Seq::empty()) == seq![
            "  No action recommended — system is comfortable."@,
        ],
{
    let t = Theme { enabled: false };
    assert(advice_lines(t, recs)[i + 1] == rec_line(t, recs[i]));
}

/// The counsel is the first recommendation, with how sure it is.
pub proof fn the_first_recommendation_is_counselled(recs: Seq<RecView>)
    ensures
        recs.len() == 0 ==> counsel(recs) == seq!["No action needed."@],
        recs.len() > 0 ==> counsel(recs) == seq![
            "Recommendation: "@ + recs[0].display + "."@,
            "Confidence: "@ + decimal(recs[0].confidence as nat) + "%."@,
        ],
{
}

/// What is suspended is listed with its age, and a clock that was set back
/// makes nothing older.
pub proof fn suspended_apps_are_listed_with_their_age(
    list: Seq<RecordView>,
    now: u64,
    i: int,
)
    requires
        0 <= i < list.len(),
    ensures
        ({
            let t = Theme { enabled: false };
            let rows = frozen_lines(t, list, now);
            let s = list[i];
            &&& rows.len() == list.len() + 1
            &&& begins(rows[i + 1], "  "@ + cell_text(s.display, 18) + "  "@)
            &&& now >= s.suspended_at ==> mentions(
                rows[i + 1],
                "frozen "@ + eta_text((now - s.suspended_at) as nat),
            )
            &&& now < s.suspended_at ==> mentions(rows[i + 1], "frozen "@ + eta_text(0))
        }),
        frozen_lines(Theme { enabled: false }, Seq::empty(), now) == seq!["Nothing suspended."@],
{
    let t = Theme { enabled: false };
    let s = list[i];
    let row = frozen_row(t, s, now);
    assert(frozen_lines(t, list, now)[i + 1] == row);
    let front = "  "@ + cell_text(s.display, 18) + "  "@;
    assert(row.take(front.len() as int) =~= front);
    let age = "frozen "@ + eta_text(age_of(now, s.suspended_at));
    let at = row.len() - age.len();
    assert(row.subrange(at, at + age.len()) =~= age);
}

/// A refusal fails, names the application and why, and says nothing on
/// standard output.
pub proof fn refusals_fail_and_say_why(a: App, i: IntentView)
    ensures
        ({
            let r = refusal(Theme { enabled: false }, a, i);
            &&& r.code == 1
            &&& r.out.len() == 0
            &&& r.err.len() == 1
            &&& r.err[0] == "refusing:"@ + " "@ + a.display@ + " — "@ + i.detail
                + " (use --force to override)"@
        }),
{
}

/// A reply that succeeds has the code zero and nothing on standard error; one
/// that complains has its code and one line there.
pub proof fn replies_go_where_they_belong(out: Seq<Seq<char>>, line: Seq<char>, code: i32)
    ensures
        says(out).code == 0 && says(out).out == out && says(out).err.len() == 0,
        complains(line, code).code == code && complains(line, code).out.len() == 0,
        complains(line, code).err == seq![line],
        fails(line).code == 1 && fails(line).err == seq!["[pv] "@ + line],
{
}

/// The profile of a command answers each question about it.
pub proof fn profiles_answer_each_question(i: IntentView)
    ensures
        ({
            let p = profile(Theme { enabled: false }, i);
            let answer = |b: bool|
                if b {
                    "yes"@
                } else {
                    "no"@
                };
            &&& p[2] == "  "@ + "Task"@ + " "@ + i.task
            &&& p[3] == "  Category:             "@ + category_name(i.category)
            &&& p[4] == "  Interactive:          "@ + answer(i.interactive)
            &&& p[5] == "  Can survive interrupt: "@ + answer(i.can_interrupt)
            &&& p[6] == "  Can suspend:          "@ + answer(i.can_suspend)
            &&& p[7] == "  Can migrate:          "@ + answer(i.can_migrate)
            &&& p[8] == "  Remote friendly:      "@ + answer(i.remote_friendly)
            &&& p[9] == "  GPU required:         "@ + answer(i.gpu)
            &&& i.detail.len() > 0 ==> p.len() == 11 && p[10] == "  "@ + i.detail
            &&& i.detail.len() == 0 ==> p.len() == 10
        }),
{
}

/// A command is profiled by its own name and line, as one on a terminal.
pub proof fn commands_are_profiled_by_their_line(cmd: Seq<Seq<char>>)
    ensures
        command_intent(cmd) == classified(
            command_key(joined(cmd, " "@)),
            joined(cmd, " "@),
            true,
        ),
{
}

/// A projected exhaustion is told in one line, and none where there is none.
pub proof fn exhaustion_is_told_in_time(e: u64)
    ensures
        oom_lines(Theme { enabled: false }, Some(e)) == seq![
            "  "@ + "⚠"@ + " projected memory exhaustion in "@ + eta_text(e as nat),
        ],
        oom_lines(Theme { enabled: false }, None).len() == 0,
        eta_line(Some(e)) == seq!["Projected memory exhaustion in "@ + eta_text(e as nat) + "."@],
        eta_line(None).len() == 0,
{
}

/// Hosts are listed with their address and whether they answer, and with
/// their own words where they do.
pub proof fn hosts_are_listed_with_their_status(list: Seq<HostSeenView>, i: int)
    requires
        0 <= i < list.len(),
    ensures
        ({
            let t = Theme { enabled: false };
            let rows = host_lines(t, list);
            let h = list[i];
            let front = "  "@ + cell_text(h.name, 14) + "  "@ + cell_text(h.host.addr, 24) + "  "@;
            &&& rows.len() == list.len() + 1
            &&& h.up ==> begins(rows[i + 1], front + cell_text("online"@, 9) + "  "@)
            &&& !h.up ==> begins(rows[i + 1], front + cell_text("offline"@, 9) + "  "@)
            &&& !h.up ==> host_detail(h) == h.host.note
            &&& h.probe matches Some(p) ==> h.up && p.len() > 0 ==> host_detail(h) == p
            &&& h.probe is None ==> host_detail(h) == h.host.note
        }),
{
    let t = Theme { enabled: false };
    let h = list[i];
    let row = host_row(t, h);
    assert(host_lines(t, list)[i + 1] == row);
    let front = "  "@ + cell_text(h.name, 14) + "  "@ + cell_text(h.host.addr, 24) + "  "@;
    let a = front + cell_text("online"@, 9) + "  "@;
    let b = front + cell_text("offline"@, 9) + "  "@;
    if h.up {
        assert(row.take(a.len() as int) =~= a);
    } else {
        assert(row.take(b.len() as int) =~= b);
    }
}

/// Where there is nothing to enforce, the words depend on whether there are
/// rules.
pub proof fn idle_policies_are_told(rules: nat)
    ensures
        rules == 0 ==> idle_word(rules) == "No policies. Create defaults with `pv policy --init`."@,
        rules > 0 ==> idle_word(rules) == "No policy conditions met right now."@,
{
}

/// The table says so where it has no row.
pub proof fn empty_tables_say_so(
    apps: Seq<App>,
    intents: Seq<(String, Intent)>,
    frozen: Seq<RecordView>,
    limit: nat,
)
    ensures
        ({
            let t = Theme { enabled: false };
            let rows = table_rows(t, apps, intents, frozen, limit);
            &&& rows.len() == 0 ==> table_lines(t, apps, intents, frozen, limit) == seq![
                "  "@ + "(nothing notable running)"@,
            ]
            &&& rows.len() > 0 ==> table_lines(t, apps, intents, frozen, limit) == rows
        }),
{
}

/// The trend is draining where memory is lost, and stable otherwise.
pub proof fn trends_are_told_by_their_sign(r: PressureReport)
    ensures
        ({
            let line = trend_line(Theme { enabled: false }, r);
            let front = "  "@ + padded_right("Mem trend"@, 10) + " "@;
            &&& r.mem_drop_kb > 0 ==> begins(line, front + "draining"@)
            &&& r.mem_drop_kb <= 0 ==> begins(line, front + "stable"@)
        }),
{
    let line = trend_line(Theme { enabled: false }, r);
    let front = "  "@ + padded_right("Mem trend"@, 10) + " "@;
    let a = front + "draining"@;
    let b = front + "stable"@;
    if r.mem_drop_kb > 0 {
        assert(line.take(a.len() as int) =~= a);
    } else {
        assert(line.take(b.len() as int) =~= b);
    }
}

/// What matters is explained in order: how pressed the system is, who holds
/// most, the swap, an exhaustion to come, and what to do.
pub proof fn explanations_are_in_order(st: State, labels: LabelsView, now: u64)
    ensures
        ({
            let list = explained(st, labels, now);
            let held = holder(st.apps@, st.report).len() as int;
            &&& list[0] == mood(st.report.overall)
            &&& list[held + 1] == swap_line(st.report)
            &&& st.report.oom_eta_secs matches Some(e) ==> list[held + 2]
                == "Projected memory exhaustion in "@ + eta_text(e as nat) + "."@
            &&& list.len() >= held + 3
        }),
{
}

/// The intents of the applications are their own, in order.
pub proof fn every_app_has_its_intent(apps: Seq<App>, i: int)
    requires
        0 <= i < apps.len(),
    ensures
        intents_of(apps).len() == apps.len(),
        intents_of(apps)[i].0 == apps[i].key@,
        intents_of(apps)[i].1 == classified(apps[i].key@, apps[i].cmdline@, apps[i].tty),
{
}

} // verus!
