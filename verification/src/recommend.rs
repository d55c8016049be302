//! Recommendations: what would relieve pressure right now?

use vstd::prelude::*;

use crate::fixed::{ratio, ratio_text, UNIT};
use crate::intent::{
    confidence, find_intent, intent_for, intent_index, lemma_intent_index, suspend_confidence,
    Category, Intent, IntentView,
};
use crate::label::{grace_left, grace_remaining, LabelView, Labels};
use crate::order::{
    arranged, by_size, descending, descending_is_a_ranking, indices, larger, lemma_ranking_lists,
    rank,
};
use crate::pressure::{eta_text, fmt_eta, fmt_kb, kb_text, PressureReport};
use crate::procfs::App;
use crate::text::{cat2, cat3, cat5, cat7, copy_pids, same};

verus! {

#[derive(Debug, Clone, Copy, PartialEq, Eq, Structural)]
pub enum Action {
    Suspend,
    Resume,
    Throttle,
    Migrate,
    Reserve,
    Notify,
}

#[derive(Debug)]
pub struct Recommendation {
    pub action: Action,
    /// The app's key, or a resource.
    pub target: String,
    /// A sentence for people.
    pub display: String,
    /// The memory that would be reclaimed.
    pub benefit_kb: u64,
    /// From 0 to 100.
    pub confidence: u8,
    pub pids: Vec<u32>,
}

#[verifier::ext_equal]
pub struct RecView {
    pub action: Action,
    pub target: Seq<char>,
    pub display: Seq<char>,
    pub benefit_kb: u64,
    pub confidence: u8,
    pub pids: Seq<u32>,
}

impl View for Recommendation {
    type V = RecView;

    open spec fn view(&self) -> RecView {
        RecView {
            action: self.action,
            target: self.target@,
            display: self.display@,
            benefit_kb: self.benefit_kb,
            confidence: self.confidence,
            pids: self.pids@,
        }
    }
}

impl Recommendation {
    /// A recommendation that says the same.
    pub fn copy(&self) -> (r: Self)
        ensures
            r@ == self@,
    {
        Recommendation {
            action: self.action,
            target: self.target.clone(),
            display: self.display.clone(),
            benefit_kb: self.benefit_kb,
            confidence: self.confidence,
            pids: copy_pids(&self.pids),
        }
    }
}

/// What a list of recommendations says.
pub open spec fn rec_views(v: Seq<Recommendation>) -> Seq<RecView> {
    v.map_values(|r: Recommendation| r@)
}

proof fn lemma_views_push(v: Seq<Recommendation>, r: Recommendation)
    ensures
        rec_views(v.push(r)) == rec_views(v).push(r@),
{
    assert(rec_views(v.push(r)) =~= rec_views(v).push(r@));
}

// ------------------------------------------------------------ one app

pub open spec fn is_graced(labels: Seq<LabelView>, key: Seq<char>, now: u64) -> bool {
    grace_left(labels, key, now) is Some
}

/// Idle: almost no load and no sound.
pub open spec fn is_idle(app: App) -> bool {
    app.cpu_pct < UNIT && !app.has_audio
}

/// An idle browser of some size, under memory pressure and without grace, is
/// to be suspended.
pub open spec fn suspend_due(app: App, intent: IntentView, report: PressureReport, graced: bool)
    -> bool {
    !graced && intent.category == Category::Browser && report.memory.score >= 45 && is_idle(app)
        && app.rss_kb > 150_000
}

pub open spec fn suspend_rec(app: App, intent: IntentView) -> RecView {
    RecView {
        action: Action::Suspend,
        target: app.key@,
        display: "Suspend "@ + app.display@ + " (+"@ + kb_text(app.rss_kb as nat) + ")"@,
        benefit_kb: app.rss_kb,
        confidence: confidence(app, intent, 600) as u8,
        pids: app.pids@,
    }
}

/// Restartable work is to move to another host when the battery is critical.
pub open spec fn migrate_due(intent: IntentView, report: PressureReport) -> bool {
    intent.can_migrate && intent.remote_friendly && (report.battery matches Some(b) && b.score
        >= 85)
}

pub open spec fn migrate_rec(app: App) -> RecView {
    RecView {
        action: Action::Migrate,
        target: app.key@,
        display: "Move "@ + app.display@ + " to a remote host (battery critical)"@,
        benefit_kb: app.rss_kb,
        confidence: 80,
        pids: app.pids@,
    }
}

/// A backup or download that saturates a hot processor is to be throttled.
pub open spec fn throttle_due(app: App, intent: IntentView, report: PressureReport) -> bool {
    (intent.category == Category::Backup || intent.category == Category::Download)
        && report.cpu.score >= 70 && app.cpu_pct > 30 * UNIT
}

pub open spec fn throttle_rec(app: App) -> RecView {
    RecView {
        action: Action::Throttle,
        target: app.key@,
        display: "Throttle "@ + app.display@ + " ("@ + ratio_text(
            app.cpu_pct as nat,
            UNIT as nat,
            0,
        ) + "% cpu — nice/ionice it)"@,
        benefit_kb: 0,
        confidence: 75,
        pids: app.pids@,
    }
}

/// A language model that is loaded or busy is to have the GPU for itself.
pub open spec fn reserve_due(app: App, intent: IntentView) -> bool {
    intent.gpu && intent.category == Category::Llm && (app.rss_kb > 500_000 || app.cpu_pct > 10
        * UNIT)
}

pub open spec fn reserve_rec(app: App) -> RecView {
    RecView {
        action: Action::Reserve,
        target: app.key@,
        display: "Reserve GPU/VRAM for "@ + app.display@,
        benefit_kb: 0,
        confidence: 90,
        pids: Seq::empty(),
    }
}

pub open spec fn if_due(due: bool, r: RecView) -> Seq<RecView> {
    if due {
        seq![r]
    } else {
        Seq::empty()
    }
}

/// What is recommended for one app.
pub open spec fn recs_for(
    app: App,
    intent: IntentView,
    report: PressureReport,
    graced: bool,
) -> Seq<RecView> {
    if_due(suspend_due(app, intent, report, graced), suspend_rec(app, intent)) + if_due(
        migrate_due(intent, report),
        migrate_rec(app),
    ) + if_due(throttle_due(app, intent, report), throttle_rec(app)) + if_due(
        reserve_due(app, intent),
        reserve_rec(app),
    )
}

// ------------------------------------------------------------ all apps

/// What is recommended for each app that has an intent, app by app.
pub open spec fn recs_by_app(
    apps: Seq<App>,
    intents: Seq<(String, Intent)>,
    report: PressureReport,
    labels: Seq<LabelView>,
    now: u64,
) -> Seq<RecView>
    decreases apps.len(),
{
    if apps.len() == 0 {
        Seq::empty()
    } else {
        let before = recs_by_app(apps.drop_last(), intents, report, labels, now);
        match intent_for(intents, apps.last().key@) {
            Some(i) => before + recs_for(
                apps.last(),
                i,
                report,
                is_graced(labels, apps.last().key@, now),
            ),
            None => before,
        }
    }
}

pub open spec fn any_suspend(recs: Seq<RecView>) -> bool {
    exists|i: int| 0 <= i < recs.len() && (#[trigger] recs[i]).action == Action::Suspend
}

/// Whether an app may be suspended: no grace, and an intent that allows it.
pub open spec fn may_suspend(
    app: App,
    intents: Seq<(String, Intent)>,
    labels: Seq<LabelView>,
    now: u64,
) -> bool {
    !is_graced(labels, app.key@, now) && (intent_for(intents, app.key@) matches Some(i)
        && i.can_suspend && !i.never_suspend)
}

/// The first app that may be suspended.
pub open spec fn first_suspendable(
    apps: Seq<App>,
    intents: Seq<(String, Intent)>,
    labels: Seq<LabelView>,
    now: u64,
) -> Option<int>
    decreases apps.len(),
{
    if apps.len() == 0 {
        None
    } else {
        match first_suspendable(apps.drop_last(), intents, labels, now) {
            Some(i) => Some(i),
            None => if may_suspend(apps.last(), intents, labels, now) {
                Some(apps.len() - 1)
            } else {
                None
            },
        }
    }
}

pub open spec fn oom_rec(app: App, eta: u64) -> RecView {
    RecView {
        action: Action::Suspend,
        target: app.key@,
        display: "OOM in ~"@ + eta_text(eta as nat) + " — suspend "@ + app.display@ + " (+"@
            + kb_text(app.rss_kb as nat) + ")"@,
        benefit_kb: app.rss_kb,
        confidence: 85,
        pids: app.pids@,
    }
}

/// All recommendations: where memory is hot, its exhaustion is projected and
/// no suspension is among them, one for the first app that may be suspended
/// comes in front.
pub open spec fn recs_raw(
    apps: Seq<App>,
    intents: Seq<(String, Intent)>,
    report: PressureReport,
    labels: Seq<LabelView>,
    now: u64,
) -> Seq<RecView> {
    let out = recs_by_app(apps, intents, report, labels, now);
    match report.oom_eta_secs {
        Some(eta) if report.memory.score >= 70 && !any_suspend(out) => {
            match first_suspendable(apps, intents, labels, now) {
                Some(i) => seq![oom_rec(apps[i], eta)] + out,
                None => out,
            }
        },
        _ => out,
    }
}

/// The most beneficial first, then the most certain.
pub open spec fn best_first(recs: Seq<RecView>) -> Seq<RecView> {
    arranged(
        recs,
        descending(recs.map_values(|r: RecView| (r.benefit_kb, r.confidence as u64))),
    )
}

/// Without those that repeat the target and action of the one before.
pub open spec fn without_repeats(recs: Seq<RecView>) -> Seq<RecView>
    decreases recs.len(),
{
    if recs.len() == 0 {
        Seq::empty()
    } else {
        let before = without_repeats(recs.drop_last());
        if before.len() > 0 && before.last().target == recs.last().target && before.last().action
            == recs.last().action {
            before
        } else {
            before.push(recs.last())
        }
    }
}

/// The five that matter most.
pub open spec fn top_five(recs: Seq<RecView>) -> Seq<RecView> {
    if recs.len() > 5 {
        recs.take(5)
    } else {
        recs
    }
}

/// The recommendations.
pub open spec fn recommended(
    apps: Seq<App>,
    intents: Seq<(String, Intent)>,
    report: PressureReport,
    labels: Seq<LabelView>,
    now: u64,
) -> Seq<RecView> {
    top_five(without_repeats(best_first(recs_raw(apps, intents, report, labels, now))))
}

// ------------------------------------------------------------ computing them

fn push_recs(
    out: &mut Vec<Recommendation>,
    app: &App,
    intent: &Intent,
    report: &PressureReport,
    graced: bool,
)
    ensures
        rec_views(final(out)@) == rec_views(old(out)@) + recs_for(*app, intent@, *report, graced),
{
    let ghost v0 = rec_views(out@);
    let idle: bool = app.cpu_pct < UNIT && !app.has_audio;
    let ghost s1 = if_due(
        suspend_due(*app, intent@, *report, graced),
        suspend_rec(*app, intent@),
    );
    let ghost s2 = if_due(migrate_due(intent@, *report), migrate_rec(*app));
    let ghost s3 = if_due(throttle_due(*app, intent@, *report), throttle_rec(*app));
    let ghost s4 = if_due(reserve_due(*app, intent@), reserve_rec(*app));

    // an idle browser under memory pressure
    if !graced && intent.category == Category::Browser && report.memory.score >= 45 && idle
        && app.rss_kb > 150_000 {
        let r: Recommendation = Recommendation {
            action: Action::Suspend,
            target: app.key.clone(),
            display: cat5(
                "Suspend ",
                app.display.as_str(),
                " (+",
                fmt_kb(app.rss_kb).as_str(),
                ")",
            ),
            benefit_kb: app.rss_kb,
            confidence: suspend_confidence(app, intent, 600),
            pids: copy_pids(&app.pids),
        };
        proof {
            lemma_views_push(out@, r);
        }
        out.push(r);
    }
    assert(rec_views(out@) =~= v0 + s1);

    // restartable work under battery pressure
    let critical: bool = match &report.battery {
        Some(b) => b.score >= 85,
        None => false,
    };
    if intent.can_migrate && intent.remote_friendly && critical {
        let r: Recommendation = Recommendation {
            action: Action::Migrate,
            target: app.key.clone(),
            display: cat3("Move ", app.display.as_str(), " to a remote host (battery critical)"),
            benefit_kb: app.rss_kb,
            confidence: 80,
            pids: copy_pids(&app.pids),
        };
        proof {
            lemma_views_push(out@, r);
        }
        out.push(r);
    }
    assert(rec_views(out@) =~= v0 + (s1 + s2));

    // a background copy that saturates the processor
    if (intent.category == Category::Backup || intent.category == Category::Download)
        && report.cpu.score >= 70 && app.cpu_pct > 30 * UNIT {
        let r: Recommendation = Recommendation {
            action: Action::Throttle,
            target: app.key.clone(),
            display: cat5(
                "Throttle ",
                app.display.as_str(),
                " (",
                ratio(app.cpu_pct as u128, UNIT as u128, 0).as_str(),
                "% cpu — nice/ionice it)",
            ),
            benefit_kb: 0,
            confidence: 75,
            pids: copy_pids(&app.pids),
        };
        proof {
            lemma_views_push(out@, r);
        }
        out.push(r);
    }
    assert(rec_views(out@) =~= v0 + (s1 + s2 + s3));

    // a language model that is loaded
    if intent.gpu && intent.category == Category::Llm && (app.rss_kb > 500_000 || app.cpu_pct > 10
        * UNIT) {
        let r: Recommendation = Recommendation {
            action: Action::Reserve,
            target: app.key.clone(),
            display: cat2("Reserve GPU/VRAM for ", app.display.as_str()),
            benefit_kb: 0,
            confidence: 90,
            pids: Vec::new(),
        };
        proof {
            lemma_views_push(out@, r);
        }
        out.push(r);
    }
    assert(rec_views(out@) =~= v0 + (s1 + s2 + s3 + s4));
}

proof fn lemma_first_suspendable(
    apps: Seq<App>,
    intents: Seq<(String, Intent)>,
    labels: Seq<LabelView>,
    now: u64,
)
    ensures
        first_suspendable(apps, intents, labels, now) matches Some(i) ==> 0 <= i < apps.len()
            && may_suspend(apps[i], intents, labels, now) && forall|j: int|
            0 <= j < i ==> !may_suspend(#[trigger] apps[j], intents, labels, now),
        first_suspendable(apps, intents, labels, now) is None ==> forall|j: int|
            0 <= j < apps.len() ==> !may_suspend(#[trigger] apps[j], intents, labels, now),
    decreases apps.len(),
{
    if apps.len() > 0 {
        lemma_first_suspendable(apps.drop_last(), intents, labels, now);
        assert forall|j: int| 0 <= j < apps.len() - 1 implies apps.drop_last()[j]
            == #[trigger] apps[j] by {}
    }
}

/// The first app that may be suspended.
pub fn find_suspendable(
    apps: &Vec<App>,
    intents: &Vec<(String, Intent)>,
    labels: &Labels,
    now: u64,
) -> (r: Option<usize>)
    ensures
        r is Some <==> first_suspendable(apps@, intents@, labels@.app, now) is Some,
        r matches Some(i) ==> i < apps@.len() && first_suspendable(
            apps@,
            intents@,
            labels@.app,
            now,
        ) == Some(i as int),
{
    let mut i: usize = 0;
    while i < apps.len()
        invariant
            i <= apps.len(),
            forall|j: int|
                0 <= j < i ==> !may_suspend(#[trigger] apps@[j], intents@, labels@.app, now),
        decreases apps.len() - i,
    {
        let key: &str = apps[i].key.as_str();
        if grace_remaining(labels, key, now).is_none() {
            let ok: bool = match find_intent(intents, key) {
                Some(intent) => intent.can_suspend && !intent.never_suspend,
                None => false,
            };
            if ok {
                proof {
                    lemma_first_suspendable(apps@, intents@, labels@.app, now);
                }
                return Some(i);
            }
        }
        i = i + 1;
    }
    proof {
        lemma_first_suspendable(apps@, intents@, labels@.app, now);
    }
    None
}

fn has_suspend(recs: &Vec<Recommendation>) -> (r: bool)
    ensures
        r == any_suspend(rec_views(recs@)),
{
    let ghost v = rec_views(recs@);
    let mut i: usize = 0;
    while i < recs.len()
        invariant
            i <= recs.len(),
            v == rec_views(recs@),
            forall|j: int| 0 <= j < i ==> (#[trigger] v[j]).action != Action::Suspend,
        decreases recs.len() - i,
    {
        assert(v[i as int] == recs@[i as int]@);
        if recs[i].action == Action::Suspend {
            return true;
        }
        i = i + 1;
    }
    false
}

fn sort_recs(recs: &Vec<Recommendation>) -> (r: Vec<Recommendation>)
    ensures
        rec_views(r@) == best_first(rec_views(recs@)),
{
    let mut keys: Vec<(u64, u64)> = Vec::new();
    let mut i: usize = 0;
    while i < recs.len()
        invariant
            i <= recs.len(),
            keys@.len() == i,
            forall|j: int|
                0 <= j < i ==> #[trigger] keys@[j] == (
                    recs@[j].benefit_kb,
                    recs@[j].confidence as u64,
                ),
        decreases recs.len() - i,
    {
        keys.push((recs[i].benefit_kb, recs[i].confidence as u64));
        i = i + 1;
    }
    let ghost views = rec_views(recs@);
    assert(keys@ =~= views.map_values(|r: RecView| (r.benefit_kb, r.confidence as u64)));
    let order: Vec<usize> = rank(&keys);
    let mut out: Vec<Recommendation> = Vec::new();
    let mut k: usize = 0;
    while k < order.len()
        invariant
            k <= order.len(),
            out@.len() == k,
            forall|j: int| 0 <= j < order@.len() ==> 0 <= #[trigger] order@[j] < recs@.len(),
            forall|j: int| 0 <= j < k ==> (#[trigger] out@[j])@ == recs@[order@[j] as int]@,
        decreases order.len() - k,
    {
        out.push(recs[order[k]].copy());
        k = k + 1;
    }
    assert(rec_views(out@) =~= arranged(views, indices(order@)));
    out
}

fn drop_repeats(recs: &Vec<Recommendation>) -> (r: Vec<Recommendation>)
    ensures
        rec_views(r@) == without_repeats(rec_views(recs@)),
{
    let ghost all = rec_views(recs@);
    let mut out: Vec<Recommendation> = Vec::new();
    let mut i: usize = 0;
    assert(rec_views(out@) =~= without_repeats(all.take(0)));
    while i < recs.len()
        invariant
            i <= recs.len(),
            all == rec_views(recs@),
            rec_views(out@) == without_repeats(all.take(i as int)),
        decreases recs.len() - i,
    {
        let ghost before = rec_views(out@);
        proof {
            assert(all.take(i as int + 1).drop_last() =~= all.take(i as int));
            assert(all.take(i as int + 1).last() == recs@[i as int]@);
            assert(before.len() == out@.len());
        }
        let n: usize = out.len();
        let again: bool = n > 0 && same(out[n - 1].target.as_str(), recs[i].target.as_str())
            && out[n - 1].action == recs[i].action;
        if n > 0 {
            assert(before.last() == out@[n - 1]@);
        }
        if !again {
            let c: Recommendation = recs[i].copy();
            proof {
                lemma_views_push(out@, c);
            }
            out.push(c);
        }
        i = i + 1;
    }
    assert(all.take(i as int) =~= all);
    out
}

/// What would relieve pressure right now, given the user's labels.
pub fn recommend_with_labels(
    apps: &Vec<App>,
    intents: &Vec<(String, Intent)>,
    report: &PressureReport,
    labels: &Labels,
    now: u64,
) -> (r: Vec<Recommendation>)
    ensures
        rec_views(r@) == recommended(apps@, intents@, *report, labels@.app, now),
{
    let mut out: Vec<Recommendation> = Vec::new();
    let mut i: usize = 0;
    assert(rec_views(out@) =~= recs_by_app(apps@.take(0), intents@, *report, labels@.app, now));
    while i < apps.len()
        invariant
            i <= apps.len(),
            rec_views(out@) == recs_by_app(
                apps@.take(i as int),
                intents@,
                *report,
                labels@.app,
                now,
            ),
        decreases apps.len() - i,
    {
        assert(apps@.take(i as int + 1).drop_last() =~= apps@.take(i as int));
        let app: &App = &apps[i];
        if let Some(intent) = find_intent(intents, app.key.as_str()) {
            let graced: bool = grace_remaining(labels, app.key.as_str(), now).is_some();
            push_recs(&mut out, app, intent, report, graced);
        }
        i = i + 1;
    }
    assert(apps@.take(i as int) =~= apps@);

    // projected exhaustion comes before everything else
    let ghost plain = rec_views(out@);
    if let Some(eta) = report.oom_eta_secs {
        if report.memory.score >= 70 && !has_suspend(&out) {
            if let Some(k) = find_suspendable(apps, intents, labels, now) {
                let big: &App = &apps[k];
                let r: Recommendation = Recommendation {
                    action: Action::Suspend,
                    target: big.key.clone(),
                    display: cat7(
                        "OOM in ~",
                        fmt_eta(eta).as_str(),
                        " — suspend ",
                        big.display.as_str(),
                        " (+",
                        fmt_kb(big.rss_kb).as_str(),
                        ")",
                    ),
                    benefit_kb: big.rss_kb,
                    confidence: 85,
                    pids: copy_pids(&big.pids),
                };
                out.insert(0, r);
                assert(rec_views(out@) =~= seq![r@] + plain);
            }
        }
    }
    assert(rec_views(out@) == recs_raw(apps@, intents@, *report, labels@.app, now));
    let sorted: Vec<Recommendation> = sort_recs(&out);
    let mut list: Vec<Recommendation> = drop_repeats(&sorted);
    let ghost all = list@;
    assert(rec_views(all).len() == all.len());
    if list.len() > 5 {
        list.truncate(5);
        assert(rec_views(list@) =~= rec_views(all).take(5));
    }
    list
}

/// What would relieve pressure right now.
pub fn recommend(
    apps: &Vec<App>,
    intents: &Vec<(String, Intent)>,
    report: &PressureReport,
) -> (r: Vec<Recommendation>)
    ensures
        rec_views(r@) == recommended(apps@, intents@, *report, Seq::empty(), 0),
{
    recommend_with_labels(apps, intents, report, &Labels::default(), 0)
}

// ------------------------------------------------------------ laws

/// Whether one recommendation may stand before another: not the less
/// beneficial, nor the less certain of two that are equally beneficial.
pub open spec fn in_order(a: RecView, b: RecView) -> bool {
    a.benefit_kb > b.benefit_kb || (a.benefit_kb == b.benefit_kb && a.confidence >= b.confidence)
}

/// Whether two recommendations differ in target or action.
pub open spec fn differ(a: RecView, b: RecView) -> bool {
    a.target != b.target || a.action != b.action
}

proof fn lemma_best_first(recs: Seq<RecView>)
    ensures
        best_first(recs).len() == recs.len(),
        forall|i: int, j: int|
            0 <= i < j < recs.len() ==> in_order(
                #[trigger] best_first(recs)[i],
                #[trigger] best_first(recs)[j],
            ),
        forall|i: int|
            0 <= i < recs.len() ==> recs.contains(#[trigger] best_first(recs)[i]),
{
    let keys = recs.map_values(|r: RecView| (r.benefit_kb, r.confidence as u64));
    let order = descending(keys);
    descending_is_a_ranking(keys);
    assert forall|i: int, j: int| 0 <= i < j < recs.len() implies in_order(
        #[trigger] best_first(recs)[i],
        #[trigger] best_first(recs)[j],
    ) by {
        let a = order[i];
        let b = order[j];
        assert(!larger(keys[b], keys[a])) by {
            let f = by_size();
            assert(!f(keys[b], keys[a]));
        }
    }
    assert forall|i: int| 0 <= i < recs.len() implies recs.contains(
        #[trigger] best_first(recs)[i],
    ) by {
        assert(recs[order[i]] == best_first(recs)[i]);
    }
}

proof fn lemma_without_repeats(recs: Seq<RecView>)
    requires
        forall|i: int, j: int|
            0 <= i < j < recs.len() ==> in_order(#[trigger] recs[i], #[trigger] recs[j]),
    ensures
        ({
            let out = without_repeats(recs);
            &&& forall|i: int| 0 <= i < out.len() ==> recs.contains(#[trigger] out[i])
            &&& forall|i: int, j: int|
                0 <= i < j < out.len() ==> in_order(#[trigger] out[i], #[trigger] out[j])
            &&& forall|i: int, j: int|
                0 <= i && j == i + 1 && j < out.len() ==> differ(
                    #[trigger] out[i],
                    #[trigger] out[j],
                )
        }),
    decreases recs.len(),
{
    if recs.len() > 0 {
        let rest = recs.drop_last();
        lemma_without_repeats(rest);
        let before = without_repeats(rest);
        let out = without_repeats(recs);
        assert forall|i: int| 0 <= i < before.len() implies exists|k: int|
            0 <= k < rest.len() && recs[k] == #[trigger] before[i] by {
            assert(rest.contains(before[i]));
            let k = choose|k: int| 0 <= k < rest.len() && rest[k] == before[i];
            assert(recs[k] == before[i]);
        }
        assert forall|i: int| 0 <= i < out.len() implies recs.contains(#[trigger] out[i]) by {
            if i < before.len() {
                assert(out[i] == before[i]);
            } else {
                assert(out[i] == recs[recs.len() - 1]);
            }
        }
        assert forall|i: int, j: int| 0 <= i < j < out.len() implies in_order(
            #[trigger] out[i],
            #[trigger] out[j],
        ) by {
            assert(out[i] == before[i]);
            if j < before.len() {
                assert(out[j] == before[j]);
            } else {
                let k = choose|k: int| 0 <= k < rest.len() && recs[k] == before[i];
                assert(in_order(recs[k], recs[recs.len() - 1]));
            }
        }
        assert forall|i: int, j: int| 0 <= i && j == i + 1 && j < out.len() implies differ(
            #[trigger] out[i],
            #[trigger] out[j],
        ) by {
            assert(out[i] == before[i]);
            if j < before.len() {
                assert(out[j] == before[j]);
            }
        }
    }
}

/// Whether no two recommendations share target and action.
pub open spec fn all_differ(recs: Seq<RecView>) -> bool {
    forall|i: int, j: int|
        0 <= i < j < recs.len() ==> differ(#[trigger] recs[i], #[trigger] recs[j])
}

/// Whether no two apps share a key.
pub open spec fn keys_distinct(apps: Seq<App>) -> bool {
    forall|i: int, j: int|
        0 <= i < j < apps.len() ==> (#[trigger] apps[i]).key@ != (#[trigger] apps[j]).key@
}

proof fn lemma_one_app_differs(
    app: App,
    intent: IntentView,
    report: PressureReport,
    graced: bool,
)
    ensures
        all_differ(recs_for(app, intent, report, graced)),
        forall|i: int|
            0 <= i < recs_for(app, intent, report, graced).len() ==> (#[trigger] recs_for(
                app,
                intent,
                report,
                graced,
            )[i]).target == app.key@,
{
}

proof fn lemma_by_app_differ(
    apps: Seq<App>,
    intents: Seq<(String, Intent)>,
    report: PressureReport,
    labels: Seq<LabelView>,
    now: u64,
)
    requires
        keys_distinct(apps),
    ensures
        all_differ(recs_by_app(apps, intents, report, labels, now)),
        forall|i: int|
            0 <= i < recs_by_app(apps, intents, report, labels, now).len() ==> exists|a: int|
                0 <= a < apps.len() && (#[trigger] apps[a]).key@ == (#[trigger] recs_by_app(
                    apps,
                    intents,
                    report,
                    labels,
                    now,
                )[i]).target,
    decreases apps.len(),
{
    if apps.len() > 0 {
        let rest = apps.drop_last();
        let app = apps.last();
        let last = apps.len() - 1;
        assert forall|i: int, j: int| 0 <= i < j < rest.len() implies (#[trigger] rest[i]).key@ != (
        #[trigger] rest[j]).key@ by {
            assert(apps[i].key@ != apps[j].key@);
        }
        lemma_by_app_differ(rest, intents, report, labels, now);
        let before = recs_by_app(rest, intents, report, labels, now);
        let all = recs_by_app(apps, intents, report, labels, now);
        let n = before.len() as int;
        if let Some(intent) = intent_for(intents, app.key@) {
            let graced = is_graced(labels, app.key@, now);
            lemma_one_app_differs(app, intent, report, graced);
            let mine = recs_for(app, intent, report, graced);
            assert(all == before + mine);
            assert forall|i: int| n <= i < all.len() implies (#[trigger] all[i]).target
                == app.key@ by {
                assert(all[i] == mine[i - n]);
            }
            assert forall|i: int, j: int| 0 <= i < j < all.len() implies differ(
                #[trigger] all[i],
                #[trigger] all[j],
            ) by {
                if j < n {
                    assert(all[i] == before[i] && all[j] == before[j]);
                } else if i >= n {
                    assert(all[i] == mine[i - n] && all[j] == mine[j - n]);
                } else {
                    assert(all[i] == before[i]);
                    let a = choose|a: int|
                        0 <= a < rest.len() && (#[trigger] rest[a]).key@ == before[i].target;
                    assert(apps[a].key@ != apps[last].key@);
                }
            }
        }
        assert forall|i: int| 0 <= i < all.len() implies exists|a: int|
            0 <= a < apps.len() && (#[trigger] apps[a]).key@ == (#[trigger] all[i]).target by {
            if i < n {
                assert(all[i] == before[i]);
                let a = choose|a: int|
                    0 <= a < rest.len() && (#[trigger] rest[a]).key@ == before[i].target;
                assert(apps[a].key@ == all[i].target);
            } else {
                assert(apps[last].key@ == all[i].target);
            }
        }
    }
}

proof fn lemma_arranged_differ(recs: Seq<RecView>)
    requires
        all_differ(recs),
    ensures
        all_differ(best_first(recs)),
{
    let keys = recs.map_values(|r: RecView| (r.benefit_kb, r.confidence as u64));
    let order = descending(keys);
    descending_is_a_ranking(keys);
    let out = best_first(recs);
    assert forall|i: int, j: int| 0 <= i < j < out.len() implies differ(
        #[trigger] out[i],
        #[trigger] out[j],
    ) by {
        let a = order[i];
        let b = order[j];
        assert(a != b);
        assert(out[i] == recs[a] && out[j] == recs[b]);
        if a < b {
            assert(differ(recs[a], recs[b]));
        } else {
            assert(differ(recs[b], recs[a]));
        }
    }
}

proof fn lemma_nothing_repeats(recs: Seq<RecView>)
    requires
        all_differ(recs),
    ensures
        without_repeats(recs) == recs,
    decreases recs.len(),
{
    if recs.len() > 0 {
        let rest = recs.drop_last();
        assert forall|i: int, j: int| 0 <= i < j < rest.len() implies differ(
            #[trigger] rest[i],
            #[trigger] rest[j],
        ) by {
            assert(differ(recs[i], recs[j]));
        }
        lemma_nothing_repeats(rest);
        if rest.len() > 0 {
            assert(rest.last() == recs[recs.len() - 2]);
            assert(differ(recs[recs.len() - 2], recs[recs.len() - 1]));
        }
        assert(rest.push(recs.last()) =~= recs);
    } else {
        assert(recs =~= Seq::empty());
    }
}

/// There are at most five recommendations, the most beneficial first, then
/// the most certain. None repeats the target and action of the one before it,
/// and where no two apps share a key, no two recommendations share both.
pub proof fn recommendations_are_few_and_ordered(
    apps: Seq<App>,
    intents: Seq<(String, Intent)>,
    report: PressureReport,
    labels: Seq<LabelView>,
    now: u64,
)
    ensures
        ({
            let out = recommended(apps, intents, report, labels, now);
            &&& out.len() <= 5
            &&& forall|i: int, j: int|
                0 <= i < j < out.len() ==> in_order(#[trigger] out[i], #[trigger] out[j])
            &&& forall|i: int, j: int|
                0 <= i && j == i + 1 && j < out.len() ==> differ(
                    #[trigger] out[i],
                    #[trigger] out[j],
                )
            &&& keys_distinct(apps) ==> all_differ(out)
        }),
{
    let raw = recs_raw(apps, intents, report, labels, now);
    let sorted = best_first(raw);
    lemma_best_first(raw);
    lemma_without_repeats(sorted);
    if keys_distinct(apps) {
        let plain = recs_by_app(apps, intents, report, labels, now);
        lemma_by_app_differ(apps, intents, report, labels, now);
        assert(all_differ(raw)) by {
            if raw != plain {
                assert(!any_suspend(plain));
                assert(raw[0].action == Action::Suspend);
                assert forall|i: int, j: int| 0 <= i < j < raw.len() implies differ(
                    #[trigger] raw[i],
                    #[trigger] raw[j],
                ) by {
                    assert(raw[j] == plain[j - 1]);
                    if i > 0 {
                        assert(raw[i] == plain[i - 1]);
                    }
                }
            }
        }
        lemma_arranged_differ(raw);
        lemma_nothing_repeats(sorted);
    }
}

/// Whether a recommendation suspends an app that may be suspended.
pub open spec fn suspends_rightly(
    r: RecView,
    apps: Seq<App>,
    intents: Seq<(String, Intent)>,
    labels: Seq<LabelView>,
    now: u64,
) -> bool {
    exists|a: int|
        0 <= a < apps.len() && (#[trigger] apps[a]).key@ == r.target && may_suspend(
            apps[a],
            intents,
            labels,
            now,
        ) && r.benefit_kb == apps[a].rss_kb
}

proof fn lemma_by_app_suspends_rightly(
    apps: Seq<App>,
    intents: Seq<(String, Intent)>,
    report: PressureReport,
    labels: Seq<LabelView>,
    now: u64,
    k: int,
)
    requires
        forall|i: int|
            0 <= i < intents.len() && (#[trigger] intents[i]).1.category == Category::Browser
                ==> intents[i].1.can_suspend && !intents[i].1.never_suspend,
        0 <= k < recs_by_app(apps, intents, report, labels, now).len(),
        recs_by_app(apps, intents, report, labels, now)[k].action == Action::Suspend,
    ensures
        suspends_rightly(
            recs_by_app(apps, intents, report, labels, now)[k],
            apps,
            intents,
            labels,
            now,
        ),
    decreases apps.len(),
{
    let before = recs_by_app(apps.drop_last(), intents, report, labels, now);
    let all = recs_by_app(apps, intents, report, labels, now);
    if k < before.len() {
        assert(all[k] == before[k]);
        lemma_by_app_suspends_rightly(apps.drop_last(), intents, report, labels, now, k);
        let a = choose|a: int|
            0 <= a < apps.drop_last().len() && (#[trigger] apps.drop_last()[a]).key@
                == all[k].target && may_suspend(apps.drop_last()[a], intents, labels, now)
                && all[k].benefit_kb == apps.drop_last()[a].rss_kb;
        assert(apps[a] == apps.drop_last()[a]);
    } else {
        let app = apps.last();
        let index = intent_index(intents, app.key@)->0;
        lemma_intent_index(intents, app.key@);
        let intent = intents[index].1@;
        let graced = is_graced(labels, app.key@, now);
        let mine = recs_for(app, intent, report, graced);
        assert(all[k] == mine[k - before.len()]);
        assert(suspend_due(app, intent, report, graced));
        assert(intents[index].1.category == Category::Browser);
        assert(apps[apps.len() - 1] == app);
    }
}

/// No recommendation suspends an app that is in its grace period or whose
/// intent forbids it, as long as browsers are classified as suspendable.
pub proof fn suspensions_respect_grace_and_intent(
    apps: Seq<App>,
    intents: Seq<(String, Intent)>,
    report: PressureReport,
    labels: Seq<LabelView>,
    now: u64,
)
    requires
        forall|i: int|
            0 <= i < intents.len() && (#[trigger] intents[i]).1.category == Category::Browser
                ==> intents[i].1.can_suspend && !intents[i].1.never_suspend,
    ensures
        forall|k: int|
            0 <= k < recommended(apps, intents, report, labels, now).len() && (
            #[trigger] recommended(apps, intents, report, labels, now)[k]).action
                == Action::Suspend ==> suspends_rightly(
                recommended(apps, intents, report, labels, now)[k],
                apps,
                intents,
                labels,
                now,
            ),
{
    let plain = recs_by_app(apps, intents, report, labels, now);
    let raw = recs_raw(apps, intents, report, labels, now);
    let sorted = best_first(raw);
    let out = recommended(apps, intents, report, labels, now);
    lemma_best_first(raw);
    lemma_without_repeats(sorted);
    assert forall|k: int|
        0 <= k < out.len() && (#[trigger] out[k]).action
            == Action::Suspend implies suspends_rightly(out[k], apps, intents, labels, now) by {
        assert(out[k] == without_repeats(sorted)[k]);
        assert(sorted.contains(out[k]));
        let i = choose|i: int| 0 <= i < sorted.len() && sorted[i] == out[k];
        assert(raw.contains(sorted[i]));
        let j = choose|j: int| 0 <= j < raw.len() && raw[j] == out[k];
        if raw.len() == plain.len() {
            assert(raw == plain);
            lemma_by_app_suspends_rightly(apps, intents, report, labels, now, j);
        } else {
            lemma_first_suspendable(apps, intents, labels, now);
            let a = first_suspendable(apps, intents, labels, now)->0;
            if j == 0 {
                assert(raw[0].target == apps[a].key@);
            } else {
                assert(raw[j] == plain[j - 1]);
                lemma_by_app_suspends_rightly(apps, intents, report, labels, now, j - 1);
            }
        }
    }
}

/// Whether an action would help with an app. An idle browser that holds more
/// than 150000 KiB is to be suspended where memory is at 45 or more and it has no
/// grace; work that can move and does well elsewhere is to move where the battery
/// is at 85 or more; a backup or download that takes more than 30 percent of a
/// core is to be throttled where the processor is at 70 or more; and a language
/// model on the GPU that holds more than 500000 KiB or takes more than 10 percent
/// of a core is to have the GPU.
pub open spec fn helps(
    action: Action,
    app: App,
    intent: IntentView,
    report: PressureReport,
    graced: bool,
) -> bool {
    match action {
        Action::Suspend => !graced && intent.category == Category::Browser && report.memory.score
            >= 45 && app.cpu_pct < 1_000_000_000 && !app.has_audio && app.rss_kb > 150_000,
        Action::Migrate => intent.can_migrate && intent.remote_friendly && report.battery is Some
            && report.battery->0.score >= 85,
        Action::Throttle => (intent.category == Category::Backup || intent.category
            == Category::Download) && report.cpu.score >= 70 && app.cpu_pct > 30_000_000_000,
        Action::Reserve => intent.gpu && intent.category == Category::Llm && (app.rss_kb > 500_000
            || app.cpu_pct > 10_000_000_000),
        _ => false,
    }
}

/// What an action would give back.
pub open spec fn gain(action: Action, app: App) -> u64 {
    if action == Action::Suspend || action == Action::Migrate {
        app.rss_kb
    } else {
        0
    }
}

/// How certain it is that an action helps: most of all that a model wants the GPU
/// and a battery needs less work, less so with a terminal in play, and not at all
/// where the intent forbids a suspension.
pub open spec fn certainty(action: Action, app: App, intent: IntentView) -> u8 {
    match action {
        Action::Suspend => if intent.never_suspend || !intent.can_suspend {
            0
        } else if app.tty {
            55
        } else {
            80
        },
        Action::Migrate => 80,
        Action::Throttle => 75,
        _ => 90,
    }
}

/// Whether the app at a position would be helped, by its first intent.
pub open spec fn is_helped(
    action: Action,
    apps: Seq<App>,
    a: int,
    intents: Seq<(String, Intent)>,
    report: PressureReport,
    labels: Seq<LabelView>,
    now: u64,
) -> bool {
    intent_for(intents, apps[a].key@) is Some && helps(
        action,
        apps[a],
        intent_for(intents, apps[a].key@)->0,
        report,
        grace_left(labels, apps[a].key@, now) is Some,
    )
}

/// Whether a recommendation is for an app and an action.
pub open spec fn is_for(r: RecView, app: App, action: Action) -> bool {
    r.target == app.key@ && r.action == action
}

proof fn lemma_recs_for(app: App, intent: IntentView, report: PressureReport, graced: bool)
    ensures
        ({
            let mine = recs_for(app, intent, report, graced);
            &&& forall|action: Action| #[trigger]
                helps(action, app, intent, report, graced) ==> exists|k: int|
                    0 <= k < mine.len() && is_for(#[trigger] mine[k], app, action)
                        && mine[k].benefit_kb == gain(action, app)
            &&& forall|k: int|
                0 <= k < mine.len() ==> helps(
                    (#[trigger] mine[k]).action,
                    app,
                    intent,
                    report,
                    graced,
                ) && mine[k].target == app.key@ && mine[k].benefit_kb == gain(mine[k].action, app)
                    && mine[k].confidence == certainty(mine[k].action, app, intent)
                    && mine[k].pids == (if mine[k].action == Action::Reserve {
                    Seq::empty()
                } else {
                    app.pids@
                })
        }),
{
    let mine = recs_for(app, intent, report, graced);
    let s1 = if_due(suspend_due(app, intent, report, graced), suspend_rec(app, intent));
    let s2 = if_due(migrate_due(intent, report), migrate_rec(app));
    let s3 = if_due(throttle_due(app, intent, report), throttle_rec(app));
    let s4 = if_due(reserve_due(app, intent), reserve_rec(app));
    assert(mine == s1 + s2 + s3 + s4);
    assert forall|action: Action| #[trigger]
        helps(action, app, intent, report, graced) implies exists|k: int|
        0 <= k < mine.len() && is_for(#[trigger] mine[k], app, action) && mine[k].benefit_kb
            == gain(action, app) by {
        let k = match action {
            Action::Suspend => 0,
            Action::Migrate => s1.len() as int,
            Action::Throttle => (s1.len() + s2.len()) as int,
            _ => (s1.len() + s2.len() + s3.len()) as int,
        };
        assert(is_for(mine[k], app, action));
    }
}

proof fn lemma_by_app_helps(
    apps: Seq<App>,
    intents: Seq<(String, Intent)>,
    report: PressureReport,
    labels: Seq<LabelView>,
    now: u64,
    a: int,
    action: Action,
)
    requires
        0 <= a < apps.len(),
        is_helped(action, apps, a, intents, report, labels, now),
    ensures
        exists|k: int|
            0 <= k < recs_by_app(apps, intents, report, labels, now).len() && is_for(
                #[trigger] recs_by_app(apps, intents, report, labels, now)[k],
                apps[a],
                action,
            ) && recs_by_app(apps, intents, report, labels, now)[k].benefit_kb == gain(
                action,
                apps[a],
            ),
    decreases apps.len(),
{
    let less = apps.drop_last();
    let before = recs_by_app(less, intents, report, labels, now);
    let all = recs_by_app(apps, intents, report, labels, now);
    if a < apps.len() - 1 {
        assert(less[a] == apps[a]);
        lemma_by_app_helps(less, intents, report, labels, now, a, action);
        let k = choose|k: int|
            0 <= k < before.len() && is_for(#[trigger] before[k], less[a], action)
                && before[k].benefit_kb == gain(action, less[a]);
        assert(all[k] == before[k]);
        assert(is_for(all[k], apps[a], action));
    } else {
        let app = apps.last();
        let intent = intent_for(intents, app.key@)->0;
        let graced = is_graced(labels, app.key@, now);
        lemma_recs_for(app, intent, report, graced);
        let mine = recs_for(app, intent, report, graced);
        let k = choose|k: int|
            0 <= k < mine.len() && is_for(#[trigger] mine[k], app, action) && mine[k].benefit_kb
                == gain(action, app);
        assert(all[before.len() + k] == mine[k]);
        assert(is_for(all[before.len() + k], apps[a], action));
    }
}

proof fn lemma_by_app_from(
    apps: Seq<App>,
    intents: Seq<(String, Intent)>,
    report: PressureReport,
    labels: Seq<LabelView>,
    now: u64,
    k: int,
)
    requires
        0 <= k < recs_by_app(apps, intents, report, labels, now).len(),
    ensures
        exists|a: int|
            0 <= a < apps.len() && backed(
                recs_by_app(apps, intents, report, labels, now)[k],
                apps,
                #[trigger] ident(a),
                intents,
                report,
                labels,
                now,
            ),
    decreases apps.len(),
{
    let less = apps.drop_last();
    let before = recs_by_app(less, intents, report, labels, now);
    let all = recs_by_app(apps, intents, report, labels, now);
    if k < before.len() {
        assert(all[k] == before[k]);
        lemma_by_app_from(less, intents, report, labels, now, k);
        let a = choose|a: int|
            0 <= a < less.len() && backed(
                before[k],
                less,
                #[trigger] ident(a),
                intents,
                report,
                labels,
                now,
            );
        assert(less[a] == apps[a]);
        assert(backed(all[k], apps, ident(a), intents, report, labels, now));
    } else {
        let app = apps.last();
        let intent = intent_for(intents, app.key@)->0;
        let graced = is_graced(labels, app.key@, now);
        lemma_recs_for(app, intent, report, graced);
        let mine = recs_for(app, intent, report, graced);
        assert(all[k] == mine[k - before.len()]);
        assert(backed(all[k], apps, ident(apps.len() - 1), intents, report, labels, now));
    }
}

spec fn ident(a: int) -> int {
    a
}

spec fn backed(
    r: RecView,
    apps: Seq<App>,
    a: int,
    intents: Seq<(String, Intent)>,
    report: PressureReport,
    labels: Seq<LabelView>,
    now: u64,
) -> bool {
    &&& is_for(r, apps[a], r.action)
    &&& is_helped(r.action, apps, a, intents, report, labels, now)
    &&& r.benefit_kb == gain(r.action, apps[a])
    &&& r.confidence == certainty(
        r.action,
        apps[a],
        intent_for(intents, apps[a].key@)->0,
    )
    &&& r.pids == (if r.action == Action::Reserve {
        Seq::empty()
    } else {
        apps[a].pids@
    })
}

proof fn lemma_repeats_keep(recs: Seq<RecView>, i: int)
    requires
        0 <= i < recs.len(),
        forall|i: int, j: int|
            0 <= i < j < recs.len() ==> in_order(#[trigger] recs[i], #[trigger] recs[j]),
    ensures
        exists|k: int|
            0 <= k < without_repeats(recs).len() && !differ(
                #[trigger] without_repeats(recs)[k],
                recs[i],
            ) && in_order(without_repeats(recs)[k], recs[i]),
    decreases recs.len(),
{
    let rest = recs.drop_last();
    let before = without_repeats(rest);
    let out = without_repeats(recs);
    assert forall|i: int, j: int| 0 <= i < j < rest.len() implies in_order(
        #[trigger] rest[i],
        #[trigger] rest[j],
    ) by {
        assert(in_order(recs[i], recs[j]));
    }
    if i < recs.len() - 1 {
        assert(rest[i] == recs[i]);
        lemma_repeats_keep(rest, i);
        let k = choose|k: int|
            0 <= k < before.len() && !differ(#[trigger] before[k], rest[i]) && in_order(
                before[k],
                rest[i],
            );
        assert(out[k] == before[k]);
    } else if out.len() > before.len() {
        assert(out[before.len() as int] == recs[i]);
    } else {
        lemma_without_repeats(rest);
        let last = before[before.len() - 1];
        assert(rest.contains(last));
        let m = choose|m: int| 0 <= m < rest.len() && rest[m] == last;
        assert(in_order(recs[m], recs[i]));
        assert(!differ(out[before.len() - 1], recs[i]));
    }
}

proof fn lemma_raw_shown(
    apps: Seq<App>,
    intents: Seq<(String, Intent)>,
    report: PressureReport,
    labels: Seq<LabelView>,
    now: u64,
    i: int,
)
    requires
        0 <= i < recs_raw(apps, intents, report, labels, now).len(),
    ensures
        ({
            let r = recs_raw(apps, intents, report, labels, now)[i];
            let out = recommended(apps, intents, report, labels, now);
            ||| exists|k: int| 0 <= k < out.len() && !differ(#[trigger] out[k], r)
            ||| out.len() == 5 && forall|k: int|
                0 <= k < 5 ==> (#[trigger] out[k]).benefit_kb >= r.benefit_kb
        }),
{
    let raw = recs_raw(apps, intents, report, labels, now);
    let keys = raw.map_values(|r: RecView| (r.benefit_kb, r.confidence as u64));
    let sorted = best_first(raw);
    let out = recommended(apps, intents, report, labels, now);
    lemma_best_first(raw);
    descending_is_a_ranking(keys);
    lemma_ranking_lists(keys, by_size(), descending(keys), i);
    let p = choose|p: int| 0 <= p < descending(keys).len() && descending(keys)[p] == i;
    assert(sorted[p] == raw[i]);
    lemma_repeats_keep(sorted, p);
    lemma_without_repeats(sorted);
    let plain = without_repeats(sorted);
    let k = choose|k: int|
        0 <= k < plain.len() && !differ(#[trigger] plain[k], sorted[p]) && in_order(
            plain[k],
            sorted[p],
        );
    if k < 5 {
        assert(out[k] == plain[k]);
    } else {
        assert forall|j: int| 0 <= j < 5 implies (#[trigger] out[j]).benefit_kb
            >= raw[i].benefit_kb by {
            assert(out[j] == plain[j]);
            assert(in_order(plain[j], plain[k]));
        }
    }
}

/// Whatever would help with an app is recommended, by its key and action, unless
/// five others give back as much.
pub proof fn what_helps_is_recommended(
    apps: Seq<App>,
    intents: Seq<(String, Intent)>,
    report: PressureReport,
    labels: Seq<LabelView>,
    now: u64,
    a: int,
    action: Action,
)
    requires
        0 <= a < apps.len(),
        is_helped(action, apps, a, intents, report, labels, now),
    ensures
        ({
            let out = recommended(apps, intents, report, labels, now);
            ||| exists|k: int| 0 <= k < out.len() && is_for(#[trigger] out[k], apps[a], action)
            ||| out.len() == 5 && forall|k: int|
                0 <= k < 5 ==> (#[trigger] out[k]).benefit_kb >= gain(action, apps[a])
        }),
{
    lemma_by_app_helps(apps, intents, report, labels, now, a, action);
    let plain = recs_by_app(apps, intents, report, labels, now);
    let raw = recs_raw(apps, intents, report, labels, now);
    let out = recommended(apps, intents, report, labels, now);
    let k = choose|k: int|
        0 <= k < plain.len() && is_for(#[trigger] plain[k], apps[a], action) && plain[k].benefit_kb
            == gain(action, apps[a]);
    let i = if raw == plain {
        k
    } else {
        k + 1
    };
    assert(raw[i] == plain[k]);
    lemma_raw_shown(apps, intents, report, labels, now, i);
    if exists|j: int| 0 <= j < out.len() && !differ(#[trigger] out[j], raw[i]) {
        let j = choose|j: int| 0 <= j < out.len() && !differ(#[trigger] out[j], raw[i]);
        assert(is_for(out[j], apps[a], action));
    }
}

/// Whether an app may be suspended to save memory: it has no grace, and its
/// first intent allows it.
pub open spec fn may_give_way(
    apps: Seq<App>,
    a: int,
    intents: Seq<(String, Intent)>,
    labels: Seq<LabelView>,
    now: u64,
) -> bool {
    grace_left(labels, apps[a].key@, now) is None && intent_for(intents, apps[a].key@) is Some
        && intent_for(intents, apps[a].key@)->0.can_suspend && !intent_for(
        intents,
        apps[a].key@,
    )->0.never_suspend
}

/// Where memory is at 70 or more and runs out, and no suspension would help by
/// itself, the first app that may be suspended is to be, with a confidence of 85,
/// unless five others give back as much.
pub proof fn exhaustion_asks_for_a_suspension(
    apps: Seq<App>,
    intents: Seq<(String, Intent)>,
    report: PressureReport,
    labels: Seq<LabelView>,
    now: u64,
    a: int,
)
    requires
        report.oom_eta_secs is Some,
        report.memory.score >= 70,
        forall|b: int|
            0 <= b < apps.len() ==> !#[trigger] is_helped(
                Action::Suspend,
                apps,
                b,
                intents,
                report,
                labels,
                now,
            ),
        0 <= a < apps.len(),
        may_give_way(apps, a, intents, labels, now),
        forall|b: int| 0 <= b < a ==> !#[trigger] may_give_way(apps, b, intents, labels, now),
    ensures
        ({
            let out = recommended(apps, intents, report, labels, now);
            ||| exists|k: int|
                0 <= k < out.len() && is_for(#[trigger] out[k], apps[a], Action::Suspend)
            ||| out.len() == 5 && forall|k: int|
                0 <= k < 5 ==> (#[trigger] out[k]).benefit_kb >= apps[a].rss_kb
        }),
{
    let plain = recs_by_app(apps, intents, report, labels, now);
    let raw = recs_raw(apps, intents, report, labels, now);
    let out = recommended(apps, intents, report, labels, now);
    assert(!any_suspend(plain)) by {
        if any_suspend(plain) {
            let k = choose|k: int|
                0 <= k < plain.len() && (#[trigger] plain[k]).action == Action::Suspend;
            lemma_by_app_from(apps, intents, report, labels, now, k);
            let b = choose|b: int|
                0 <= b < apps.len() && backed(
                    plain[k],
                    apps,
                    #[trigger] ident(b),
                    intents,
                    report,
                    labels,
                    now,
                );
            assert(is_helped(Action::Suspend, apps, b, intents, report, labels, now));
        }
    }
    lemma_first_gives_way(apps, intents, labels, now, a);
    assert(raw[0] == oom_rec(apps[a], report.oom_eta_secs->0));
    lemma_raw_shown(apps, intents, report, labels, now, 0);
    if exists|j: int| 0 <= j < out.len() && !differ(#[trigger] out[j], raw[0]) {
        let j = choose|j: int| 0 <= j < out.len() && !differ(#[trigger] out[j], raw[0]);
        assert(is_for(out[j], apps[a], Action::Suspend));
    }
}

proof fn lemma_first_gives_way(
    apps: Seq<App>,
    intents: Seq<(String, Intent)>,
    labels: Seq<LabelView>,
    now: u64,
    a: int,
)
    requires
        0 <= a < apps.len(),
        may_give_way(apps, a, intents, labels, now),
        forall|b: int| 0 <= b < a ==> !#[trigger] may_give_way(apps, b, intents, labels, now),
    ensures
        first_suspendable(apps, intents, labels, now) == Some(a),
    decreases apps.len(),
{
    let less = apps.drop_last();
    assert(forall|b: int| 0 <= b < less.len() ==> less[b] == apps[b]);
    assert forall|b: int| 0 <= b < a implies !#[trigger] may_give_way(
        less,
        b,
        intents,
        labels,
        now,
    ) by {
        assert(!may_give_way(apps, b, intents, labels, now));
    }
    if a < apps.len() - 1 {
        assert(may_give_way(less, a, intents, labels, now));
        lemma_first_gives_way(less, intents, labels, now, a);
    } else {
        lemma_none_gives_way(less, intents, labels, now);
    }
}

proof fn lemma_none_gives_way(
    apps: Seq<App>,
    intents: Seq<(String, Intent)>,
    labels: Seq<LabelView>,
    now: u64,
)
    requires
        forall|b: int|
            0 <= b < apps.len() ==> !#[trigger] may_give_way(apps, b, intents, labels, now),
    ensures
        first_suspendable(apps, intents, labels, now) is None,
    decreases apps.len(),
{
    if apps.len() > 0 {
        let less = apps.drop_last();
        assert(forall|b: int| 0 <= b < less.len() ==> less[b] == apps[b]);
        assert forall|b: int| 0 <= b < less.len() implies !#[trigger] may_give_way(
            less,
            b,
            intents,
            labels,
            now,
        ) by {
            assert(!may_give_way(apps, b, intents, labels, now));
        }
        lemma_none_gives_way(less, intents, labels, now);
        assert(!may_give_way(apps, apps.len() - 1, intents, labels, now));
    }
}

/// Nothing is recommended without a reason: each recommendation is for an app
/// that it helps, or saves memory that runs out with the first app that may be
/// suspended, where no suspension helps by itself. It tells what it gives back
/// and which processes it is about.
pub proof fn what_is_recommended_helps(
    apps: Seq<App>,
    intents: Seq<(String, Intent)>,
    report: PressureReport,
    labels: Seq<LabelView>,
    now: u64,
    k: int,
) -> (a: int)
    requires
        0 <= k < recommended(apps, intents, report, labels, now).len(),
    ensures
        ({
            let r = recommended(apps, intents, report, labels, now)[k];
            &&& 0 <= a < apps.len()
            &&& r.target == apps[a].key@
            &&& r.benefit_kb == gain(r.action, apps[a])
            &&& r.pids == (if r.action == Action::Reserve {
                Seq::empty()
            } else {
                apps[a].pids@
            })
            &&& {
                ||| is_helped(r.action, apps, a, intents, report, labels, now) && r.confidence
                    == certainty(r.action, apps[a], intent_for(intents, apps[a].key@)->0)
                ||| {
                    &&& r.action == Action::Suspend
                    &&& r.confidence == 85
                    &&& report.oom_eta_secs is Some
                    &&& report.memory.score >= 70
                    &&& may_give_way(apps, a, intents, labels, now)
                    &&& forall|b: int|
                        0 <= b < apps.len() ==> !#[trigger] is_helped(
                            Action::Suspend,
                            apps,
                            b,
                            intents,
                            report,
                            labels,
                            now,
                        )
                }
            }
        }),
{
    let plain = recs_by_app(apps, intents, report, labels, now);
    let raw = recs_raw(apps, intents, report, labels, now);
    let sorted = best_first(raw);
    let out = recommended(apps, intents, report, labels, now);
    lemma_best_first(raw);
    lemma_without_repeats(sorted);
    assert(out[k] == without_repeats(sorted)[k]);
    assert(sorted.contains(out[k]));
    let i = choose|i: int| 0 <= i < sorted.len() && sorted[i] == out[k];
    assert(raw.contains(sorted[i]));
    let j = choose|j: int| 0 <= j < raw.len() && raw[j] == out[k];
    if raw.len() != plain.len() && j == 0 {
        lemma_first_suspendable(apps, intents, labels, now);
        let a = first_suspendable(apps, intents, labels, now)->0;
        assert forall|b: int| 0 <= b < apps.len() implies !#[trigger] is_helped(
            Action::Suspend,
            apps,
            b,
            intents,
            report,
            labels,
            now,
        ) by {
            if is_helped(Action::Suspend, apps, b, intents, report, labels, now) {
                lemma_by_app_helps(apps, intents, report, labels, now, b, Action::Suspend);
                let m = choose|m: int|
                    0 <= m < plain.len() && is_for(#[trigger] plain[m], apps[b], Action::Suspend)
                        && plain[m].benefit_kb == gain(Action::Suspend, apps[b]);
                assert(plain[m].action == Action::Suspend);
            }
        }
        a
    } else {
        let m = if raw.len() == plain.len() {
            j
        } else {
            j - 1
        };
        assert(raw[j] == plain[m]);
        lemma_by_app_from(apps, intents, report, labels, now, m);
        let a = choose|a: int|
            0 <= a < apps.len() && backed(
                plain[m],
                apps,
                #[trigger] ident(a),
                intents,
                report,
                labels,
                now,
            );
        a
    }
}

} // verus!
