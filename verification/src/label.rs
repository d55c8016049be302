//! Natural-language intent labels: a small, local layer of user context.
//!
//! Labels never suspend or alter a process. They tell recommendation logic
//! which work deserves a temporary grace period and record the user's current
//! overall focus for display.

use vstd::prelude::*;

use crate::fixed::{dec64, decimal};
use crate::intent::{find_intent, intent_for, Category, Intent};
use crate::procfs::{xdg, xdg_dir, App};
use crate::scan::{contains, holds_text, lemma_mentions, mentions};
use crate::text::{cat2, joined_path, lower, lower_of, opt_text, owned, path_join, same};

verus! {

/// A quarter of an hour.
pub const DEFAULT_GRACE_SECS: u64 = 900;

pub struct GlobalLabel {
    pub prompt: String,
    pub created_at: u64,
}

#[verifier::ext_equal]
pub struct GlobalView {
    pub prompt: Seq<char>,
    pub created_at: u64,
}

impl View for GlobalLabel {
    type V = GlobalView;

    open spec fn view(&self) -> GlobalView {
        GlobalView { prompt: self.prompt@, created_at: self.created_at }
    }
}

pub struct AppLabel {
    pub key: String,
    pub display: String,
    pub prompt: String,
    pub expires_at: u64,
}

#[verifier::ext_equal]
pub struct LabelView {
    pub key: Seq<char>,
    pub display: Seq<char>,
    pub prompt: Seq<char>,
    pub expires_at: u64,
}

impl View for AppLabel {
    type V = LabelView;

    open spec fn view(&self) -> LabelView {
        LabelView {
            key: self.key@,
            display: self.display@,
            prompt: self.prompt@,
            expires_at: self.expires_at,
        }
    }
}

impl AppLabel {
    /// A label that says the same.
    pub fn copy(&self) -> (r: Self)
        ensures
            r@ == self@,
    {
        AppLabel {
            key: self.key.clone(),
            display: self.display.clone(),
            prompt: self.prompt.clone(),
            expires_at: self.expires_at,
        }
    }
}

pub struct Labels {
    pub global: Option<GlobalLabel>,
    pub app: Vec<AppLabel>,
}

#[verifier::ext_equal]
pub struct LabelsView {
    pub global: Option<GlobalView>,
    pub app: Seq<LabelView>,
}

impl View for Labels {
    type V = LabelsView;

    open spec fn view(&self) -> LabelsView {
        LabelsView {
            global: match self.global {
                Some(g) => Some(g@),
                None => None,
            },
            app: self.app@.map_values(|l: AppLabel| l@),
        }
    }
}

impl Default for Labels {
    fn default() -> (r: Self)
        ensures
            r@ == (LabelsView { global: None, app: Seq::empty() }),
    {
        let r: Labels = Labels { global: None, app: Vec::new() };
        assert(r@.app =~= Seq::empty());
        r
    }
}

#[derive(Debug, PartialEq, Eq)]
pub enum Scope {
    Global,
    App { key: String, display: String },
}

pub enum ScopeView {
    Global,
    App { key: Seq<char>, display: Seq<char> },
}

impl View for Scope {
    type V = ScopeView;

    open spec fn view(&self) -> ScopeView {
        match self {
            Scope::Global => ScopeView::Global,
            Scope::App { key, display } => ScopeView::App { key: key@, display: display@ },
        }
    }
}

#[derive(Debug, PartialEq, Eq)]
pub struct Decision {
    pub scope: Scope,
    pub grace_secs: Option<u64>,
    pub rationale: String,
}

#[verifier::ext_equal]
pub struct DecisionView {
    pub scope: ScopeView,
    pub grace_secs: Option<u64>,
    pub rationale: Seq<char>,
}

impl View for Decision {
    type V = DecisionView;

    open spec fn view(&self) -> DecisionView {
        DecisionView {
            scope: self.scope@,
            grace_secs: self.grace_secs,
            rationale: self.rationale@,
        }
    }
}

/// Where the labels are kept, by the configuration and home directories.
pub fn config_path(config_home: &Option<String>, home: &Option<String>) -> (r: String)
    ensures
        r@ == joined_path(
            xdg_dir(opt_text(*config_home), opt_text(*home), ".config"@),
            "pv/labels.toml"@,
        ),
{
    path_join(xdg(config_home, home, ".config").as_str(), "pv/labels.toml")
}

// ------------------------------------------------------------ expiry

/// The labels that have not expired.
pub open spec fn unexpired(list: Seq<LabelView>, now: u64) -> Seq<LabelView> {
    list.filter(|l: LabelView| l.expires_at > now)
}

/// The labels read from disk, without those that have expired.
pub fn load(labels: Labels, now: u64) -> (r: Labels)
    ensures
        r@ == (LabelsView { global: labels@.global, app: unexpired(labels@.app, now) }),
{
    let ghost all = labels@.app;
    let mut out: Vec<AppLabel> = Vec::new();
    let mut i: usize = 0;
    assert(out@.map_values(|l: AppLabel| l@) =~= unexpired(all.take(0), now)) by {
        reveal(Seq::filter);
    }
    while i < labels.app.len()
        invariant
            i <= labels.app.len(),
            all == labels@.app,
            out@.map_values(|l: AppLabel| l@) == unexpired(all.take(i as int), now),
        decreases labels.app.len() - i,
    {
        let ghost views = out@.map_values(|l: AppLabel| l@);
        proof {
            reveal(Seq::filter);
            assert(all.take(i as int + 1).drop_last() =~= all.take(i as int));
            assert(all.take(i as int + 1).last() == labels.app@[i as int]@);
        }
        if labels.app[i].expires_at > now {
            let l: AppLabel = labels.app[i].copy();
            out.push(l);
            assert(out@.map_values(|l: AppLabel| l@) =~= views.push(l@));
        }
        i = i + 1;
    }
    assert(all.take(i as int) =~= all);
    Labels { global: labels.global, app: out }
}

// ------------------------------------------------------------ inference

pub open spec fn names_app(text: Seq<char>, app: App) -> bool {
    ||| holds_text(text, lower_of(app.key@))
    ||| lower_of(app.display@).len() > 0 && holds_text(text, lower_of(app.display@))
}

/// The first app that a text names.
pub open spec fn named_app(text: Seq<char>, apps: Seq<App>) -> Option<int>
    decreases apps.len(),
{
    if apps.len() == 0 {
        None
    } else {
        match named_app(text, apps.drop_last()) {
            Some(i) => Some(i),
            None => if names_app(text, apps.last()) {
                Some(apps.len() - 1)
            } else {
                None
            },
        }
    }
}

pub open spec fn speaks_of_viewing(text: Seq<char>) -> bool {
    ||| holds_text(text, "youtube"@)
    ||| holds_text(text, "tutorial"@)
    ||| holds_text(text, "watching"@)
    ||| holds_text(text, "video"@)
    ||| holds_text(text, "stream"@)
}

pub open spec fn is_browser(app: App, intents: Seq<(String, Intent)>) -> bool {
    intent_for(intents, app.key@) matches Some(i) && i.category == Category::Browser
}

/// The last of the browsers with the most memory.
pub open spec fn largest_browser(apps: Seq<App>, intents: Seq<(String, Intent)>) -> Option<int>
    decreases apps.len(),
{
    if apps.len() == 0 {
        None
    } else {
        let before = largest_browser(apps.drop_last(), intents);
        if is_browser(apps.last(), intents) && (before is None || apps.last().rss_kb
            >= apps[before->0].rss_kb) {
            Some(apps.len() - 1)
        } else {
            before
        }
    }
}

/// The app that a note is about: one that it names, or else, where it speaks
/// of watching something, the largest browser.
pub open spec fn subject(
    text: Seq<char>,
    apps: Seq<App>,
    intents: Seq<(String, Intent)>,
) -> Option<int> {
    match named_app(text, apps) {
        Some(i) => Some(i),
        None => if speaks_of_viewing(text) {
            largest_browser(apps, intents)
        } else {
            None
        },
    }
}

/// What a note is taken to mean.
pub open spec fn decided(
    prompt: Seq<char>,
    apps: Seq<App>,
    intents: Seq<(String, Intent)>,
) -> DecisionView {
    let text = lower_of(prompt);
    match subject(text, apps, intents) {
        Some(i) => DecisionView {
            scope: ScopeView::App { key: apps[i].key@, display: apps[i].display@ },
            grace_secs: Some(DEFAULT_GRACE_SECS),
            rationale: if speaks_of_viewing(text) && !holds_text(text, lower_of(apps[i].key@)) {
                apps[i].display@
                    + " is the highest-memory active browser, matching this viewing activity"@
            } else {
                "your note directly refers to "@ + apps[i].display@
            },
        },
        None => DecisionView {
            scope: ScopeView::Global,
            grace_secs: None,
            rationale: "saved as your current global working context"@,
        },
    }
}

fn viewing(text: &str) -> (r: bool)
    ensures
        r == speaks_of_viewing(text@),
{
    contains(text, "youtube") || contains(text, "tutorial") || contains(text, "watching")
        || contains(text, "video") || contains(text, "stream")
}

proof fn lemma_named_app(text: Seq<char>, apps: Seq<App>)
    ensures
        named_app(text, apps) matches Some(i) ==> 0 <= i < apps.len() && names_app(text, apps[i])
            && forall|j: int| 0 <= j < i ==> !names_app(text, #[trigger] apps[j]),
        named_app(text, apps) is None ==> forall|j: int|
            0 <= j < apps.len() ==> !names_app(text, #[trigger] apps[j]),
    decreases apps.len(),
{
    if apps.len() > 0 {
        lemma_named_app(text, apps.drop_last());
        assert forall|j: int| 0 <= j < apps.len() - 1 implies apps.drop_last()[j]
            == #[trigger] apps[j] by {}
    }
}

fn find_named(text: &str, apps: &Vec<App>) -> (r: Option<usize>)
    ensures
        r is Some <==> named_app(text@, apps@) is Some,
        r matches Some(i) ==> named_app(text@, apps@) == Some(i as int) && i < apps@.len(),
{
    let mut i: usize = 0;
    while i < apps.len()
        invariant
            i <= apps.len(),
            forall|j: int| 0 <= j < i ==> !names_app(text@, #[trigger] apps@[j]),
        decreases apps.len() - i,
    {
        let key: String = lower(apps[i].key.as_str());
        let display: String = lower(apps[i].display.as_str());
        if contains(text, key.as_str()) || (display.as_str().unicode_len() > 0 && contains(
            text,
            display.as_str(),
        )) {
            proof {
                lemma_named_app(text@, apps@);
            }
            return Some(i);
        }
        i = i + 1;
    }
    proof {
        lemma_named_app(text@, apps@);
    }
    None
}

fn find_browser(apps: &Vec<App>, intents: &Vec<(String, Intent)>) -> (r: Option<usize>)
    ensures
        r is Some <==> largest_browser(apps@, intents@) is Some,
        r matches Some(i) ==> largest_browser(apps@, intents@) == Some(i as int) && i
            < apps@.len(),
{
    let mut best: Option<usize> = None;
    let mut i: usize = 0;
    while i < apps.len()
        invariant
            i <= apps.len(),
            best is Some <==> largest_browser(apps@.take(i as int), intents@) is Some,
            best matches Some(b) ==> largest_browser(apps@.take(i as int), intents@) == Some(
                b as int,
            ) && b < i,
        decreases apps.len() - i,
    {
        assert(apps@.take(i as int + 1).drop_last() =~= apps@.take(i as int));
        let here: bool = match find_intent(intents, apps[i].key.as_str()) {
            Some(intent) => intent.category == Category::Browser,
            None => false,
        };
        if here {
            match best {
                None => {
                    best = Some(i);
                },
                Some(b) => {
                    if apps[i].rss_kb >= apps[b].rss_kb {
                        best = Some(i);
                    }
                },
            }
        }
        i = i + 1;
    }
    assert(apps@.take(i as int) =~= apps@);
    best
}

/// Infer scope from direct app references first, then from recognised
/// activity. A tutorial or video is intentionally associated with the largest
/// browser: watching it is foreground work even when the tab is idle.
pub fn infer(prompt: &str, apps: &Vec<App>, intents: &Vec<(String, Intent)>) -> (r: Decision)
    ensures
        r@ == decided(prompt@, apps@, intents@),
{
    let low: String = lower(prompt);
    let text: &str = low.as_str();
    let watching: bool = viewing(text);
    let subject: Option<usize> = match find_named(text, apps) {
        Some(i) => Some(i),
        None => if watching {
            find_browser(apps, intents)
        } else {
            None
        },
    };
    match subject {
        Some(i) => {
            let app: &App = &apps[i];
            let rationale: String = if watching && !contains(
                text,
                lower(app.key.as_str()).as_str(),
            ) {
                cat2(
                    app.display.as_str(),
                    " is the highest-memory active browser, matching this viewing activity",
                )
            } else {
                cat2("your note directly refers to ", app.display.as_str())
            };
            Decision {
                scope: Scope::App { key: app.key.clone(), display: app.display.clone() },
                grace_secs: Some(DEFAULT_GRACE_SECS),
                rationale,
            }
        },
        None => Decision {
            scope: Scope::Global,
            grace_secs: None,
            rationale: owned("saved as your current global working context"),
        },
    }
}

// ------------------------------------------------------------ recording

/// The labels of other apps.
pub open spec fn others(list: Seq<LabelView>, key: Seq<char>) -> Seq<LabelView> {
    list.filter(|l: LabelView| l.key != key)
}

/// The labels once a note has been recorded.
pub open spec fn recorded(
    labels: LabelsView,
    prompt: Seq<char>,
    scope: ScopeView,
    now: u64,
) -> LabelsView {
    match scope {
        ScopeView::Global => LabelsView {
            global: Some(GlobalView { prompt, created_at: now }),
            ..labels
        },
        ScopeView::App { key, display } => LabelsView {
            app: others(labels.app, key).push(
                LabelView {
                    key,
                    display,
                    prompt,
                    expires_at: (now + DEFAULT_GRACE_SECS) as u64,
                },
            ),
            ..labels
        },
    }
}

fn drop_key(list: &Vec<AppLabel>, key: &str) -> (r: Vec<AppLabel>)
    ensures
        r@.map_values(|l: AppLabel| l@) == others(list@.map_values(|l: AppLabel| l@), key@),
{
    let ghost all = list@.map_values(|l: AppLabel| l@);
    let mut out: Vec<AppLabel> = Vec::new();
    let mut i: usize = 0;
    assert(out@.map_values(|l: AppLabel| l@) =~= others(all.take(0), key@)) by {
        reveal(Seq::filter);
    }
    while i < list.len()
        invariant
            i <= list.len(),
            all == list@.map_values(|l: AppLabel| l@),
            out@.map_values(|l: AppLabel| l@) == others(all.take(i as int), key@),
        decreases list.len() - i,
    {
        let ghost views = out@.map_values(|l: AppLabel| l@);
        proof {
            reveal(Seq::filter);
            assert(all.take(i as int + 1).drop_last() =~= all.take(i as int));
            assert(all.take(i as int + 1).last() == list@[i as int]@);
        }
        if !same(list[i].key.as_str(), key) {
            let l: AppLabel = list[i].copy();
            out.push(l);
            assert(out@.map_values(|l: AppLabel| l@) =~= views.push(l@));
        }
        i = i + 1;
    }
    assert(all.take(i as int) =~= all);
    out
}

/// Decide what a note means and record it: the labels to save, and the
/// decision.
pub fn apply(
    prompt: &str,
    apps: &Vec<App>,
    intents: &Vec<(String, Intent)>,
    labels: Labels,
    now: u64,
) -> (r: (Labels, Decision))
    requires
        now + DEFAULT_GRACE_SECS <= u64::MAX,
    ensures
        r.1@ == decided(prompt@, apps@, intents@),
        r.0@ == recorded(labels@, prompt@, r.1@.scope, now),
{
    let decision: Decision = infer(prompt, apps, intents);
    let next: Labels = match &decision.scope {
        Scope::Global => {
            let n: Labels = Labels {
                global: Some(GlobalLabel { prompt: owned(prompt), created_at: now }),
                app: labels.app,
            };
            n
        },
        Scope::App { key, display } => {
            let mut app: Vec<AppLabel> = drop_key(&labels.app, key.as_str());
            let l: AppLabel = AppLabel {
                key: key.clone(),
                display: display.clone(),
                prompt: owned(prompt),
                expires_at: now + DEFAULT_GRACE_SECS,
            };
            let ghost before = app@.map_values(|l: AppLabel| l@);
            app.push(l);
            assert(app@.map_values(|l: AppLabel| l@) =~= before.push(l@));
            Labels { global: labels.global, app }
        },
    };
    (next, decision)
}

// ------------------------------------------------------------ grace

/// The seconds of grace left for an app: those of its first label that has
/// not expired.
pub open spec fn grace_left(list: Seq<LabelView>, key: Seq<char>, now: u64) -> Option<u64>
    decreases list.len(),
{
    if list.len() == 0 {
        None
    } else if list[0].key == key && list[0].expires_at > now {
        Some((list[0].expires_at - now) as u64)
    } else {
        grace_left(list.drop_first(), key, now)
    }
}

pub fn grace_remaining(labels: &Labels, key: &str, now: u64) -> (r: Option<u64>)
    ensures
        r == grace_left(labels@.app, key@, now),
{
    let ghost all = labels@.app;
    let mut i: usize = 0;
    assert(all.skip(0) =~= all);
    while i < labels.app.len()
        invariant
            i <= labels.app.len(),
            all == labels@.app,
            grace_left(all, key@, now) == grace_left(all.skip(i as int), key@, now),
        decreases labels.app.len() - i,
    {
        proof {
            assert(all.skip(i as int).drop_first() =~= all.skip(i as int + 1));
            assert(all.skip(i as int)[0] == labels.app@[i as int]@);
        }
        if same(labels.app[i].key.as_str(), key) && labels.app[i].expires_at > now {
            return Some(labels.app[i].expires_at - now);
        }
        i = i + 1;
    }
    None
}

/// Minutes, rounded up.
pub fn format_duration(secs: u64) -> (r: String)
    requires
        secs <= u64::MAX - 59,
    ensures
        r@ == decimal((secs as nat + 59) / 60) + "m"@,
{
    cat2(dec64((secs + 59) / 60).as_str(), "m")
}

// ------------------------------------------------------------ laws

proof fn lemma_grace_skips(list: Seq<LabelView>, l: LabelView, key: Seq<char>, now: u64)
    requires
        forall|i: int| 0 <= i < list.len() ==> (#[trigger] list[i]).key != key,
    ensures
        grace_left(list.push(l), key, now) == grace_left(seq![l], key, now),
    decreases list.len(),
{
    if list.len() == 0 {
        assert(list.push(l) =~= seq![l]);
    } else {
        assert(list.push(l).drop_first() =~= list.drop_first().push(l));
        assert(list.push(l)[0] == list[0]);
        assert forall|i: int| 0 <= i < list.drop_first().len() implies (
        #[trigger] list.drop_first()[i]).key != key by {
            assert(list.drop_first()[i] == list[i + 1]);
        }
        lemma_grace_skips(list.drop_first(), l, key, now);
    }
}

proof fn lemma_grace_of_others(list: Seq<LabelView>, l: LabelView, key: Seq<char>, now: u64)
    requires
        l.key != key,
    ensures
        grace_left(others(list, l.key).push(l), key, now) == grace_left(list, key, now),
    decreases list.len(),
{
    reveal(Seq::filter);
    if list.len() == 0 {
        let one = others(list, l.key).push(l);
        assert(one =~= seq![l]);
        assert(one.drop_first() =~= Seq::empty());
        assert(grace_left(one.drop_first(), key, now) is None);
    } else {
        let head = list[0];
        let tail = list.drop_first();
        lemma_grace_of_others(tail, l, key, now);
        lemma_filter_head(list, l.key);
        let rest = others(tail, l.key);
        if head.key != l.key {
            assert(others(list, l.key) =~= seq![head] + rest);
            let all = others(list, l.key).push(l);
            assert(all.drop_first() =~= rest.push(l));
            assert(all[0] == head);
        } else {
            assert(others(list, l.key) =~= rest);
        }
    }
}

proof fn lemma_filter_head(list: Seq<LabelView>, key: Seq<char>)
    requires
        list.len() > 0,
    ensures
        others(list, key) == (if list[0].key != key {
            seq![list[0]] + others(list.drop_first(), key)
        } else {
            others(list.drop_first(), key)
        }),
    decreases list.len(),
{
    reveal(Seq::filter);
    if list.len() == 1 {
        assert(list.drop_last() =~= Seq::empty());
        assert(list.drop_first() =~= Seq::empty());
        assert(others(Seq::empty(), key) =~= Seq::empty());
        assert(others(list, key) =~= (if list[0].key != key {
            seq![list[0]]
        } else {
            Seq::empty()
        }));
    } else {
        lemma_filter_head(list.drop_last(), key);
        assert(list.drop_last().drop_first() =~= list.drop_first().drop_last());
        assert(list.drop_first().last() == list.last());
        let mid = others(list.drop_first().drop_last(), key);
        if list.last().key != key {
            assert((seq![list[0]] + mid).push(list.last()) =~= seq![list[0]] + mid.push(
                list.last(),
            ));
        }
    }
}

/// A note about an app grants it the whole grace period and changes the grace
/// of no other app.
pub proof fn a_note_grants_grace_to_its_app_alone(
    labels: LabelsView,
    prompt: Seq<char>,
    key: Seq<char>,
    display: Seq<char>,
    now: u64,
    other: Seq<char>,
    later: u64,
)
    requires
        now + DEFAULT_GRACE_SECS <= u64::MAX,
    ensures
        ({
            let next = recorded(labels, prompt, ScopeView::App { key, display }, now);
            &&& grace_left(next.app, key, now) == Some(DEFAULT_GRACE_SECS)
            &&& later >= now + DEFAULT_GRACE_SECS ==> grace_left(next.app, key, later) is None
            &&& other != key ==> grace_left(next.app, other, later) == grace_left(
                labels.app,
                other,
                later,
            )
            &&& next.global == labels.global
        }),
{
    let l = LabelView { key, display, prompt, expires_at: (now + DEFAULT_GRACE_SECS) as u64 };
    let rest = others(labels.app, key);
    assert forall|i: int| 0 <= i < rest.len() implies (#[trigger] rest[i]).key != key by {
        broadcast use vstd::seq_lib::group_filter_ensures;

    }
    lemma_grace_skips(rest, l, key, now);
    lemma_grace_skips(rest, l, key, later);
    assert(seq![l].drop_first() =~= Seq::empty());
    assert(grace_left(seq![l].drop_first(), key, later) is None);
    if other != key {
        lemma_grace_of_others(labels.app, l, other, later);
    }
}

/// Dropping expired labels changes no app's grace.
pub proof fn expired_labels_grant_nothing(list: Seq<LabelView>, key: Seq<char>, now: u64)
    ensures
        grace_left(unexpired(list, now), key, now) == grace_left(list, key, now),
    decreases list.len(),
{
    if list.len() > 0 {
        lemma_unexpired_head(list, now);
        expired_labels_grant_nothing(list.drop_first(), key, now);
        let rest = unexpired(list.drop_first(), now);
        if list[0].expires_at > now {
            let all = unexpired(list, now);
            assert(all.drop_first() =~= rest);
            assert(all[0] == list[0]);
        }
    } else {
        reveal(Seq::filter);
        assert(unexpired(list, now) =~= list);
    }
}

proof fn lemma_unexpired_head(list: Seq<LabelView>, now: u64)
    requires
        list.len() > 0,
    ensures
        unexpired(list, now) == (if list[0].expires_at > now {
            seq![list[0]] + unexpired(list.drop_first(), now)
        } else {
            unexpired(list.drop_first(), now)
        }),
    decreases list.len(),
{
    reveal(Seq::filter);
    if list.len() == 1 {
        assert(list.drop_last() =~= Seq::empty());
        assert(list.drop_first() =~= Seq::empty());
        assert(unexpired(Seq::empty(), now) =~= Seq::empty());
        assert(unexpired(list, now) =~= (if list[0].expires_at > now {
            seq![list[0]]
        } else {
            Seq::empty()
        }));
    } else {
        lemma_unexpired_head(list.drop_last(), now);
        assert(list.drop_last().drop_first() =~= list.drop_first().drop_last());
        assert(list.drop_first().last() == list.last());
        let mid = unexpired(list.drop_first().drop_last(), now);
        if list.last().expires_at > now {
            assert((seq![list[0]] + mid).push(list.last()) =~= seq![list[0]] + mid.push(
                list.last(),
            ));
        }
    }
}

/// Whether a note names an app: by its key, or by the name that is shown.
pub open spec fn speaks_of(text: Seq<char>, app: App) -> bool {
    mentions(text, lower_of(app.key@)) || lower_of(app.display@).len() > 0 && mentions(
        text,
        lower_of(app.display@),
    )
}

/// Whether a note speaks of something that is watched.
pub open spec fn speaks_of_watching(text: Seq<char>) -> bool {
    mentions(text, "youtube"@) || mentions(text, "tutorial"@) || mentions(text, "watching"@)
        || mentions(text, "video"@) || mentions(text, "stream"@)
}

proof fn lemma_note_names(text: Seq<char>, apps: Seq<App>)
    ensures
        named_app(text, apps) matches Some(i) ==> 0 <= i < apps.len() && speaks_of(text, apps[i])
            && forall|j: int| 0 <= j < i ==> !speaks_of(text, #[trigger] apps[j]),
        named_app(text, apps) is None ==> forall|j: int|
            0 <= j < apps.len() ==> !speaks_of(text, #[trigger] apps[j]),
    decreases apps.len(),
{
    if apps.len() > 0 {
        lemma_note_names(text, apps.drop_last());
        lemma_mentions(text, lower_of(apps.last().key@));
        lemma_mentions(text, lower_of(apps.last().display@));
        assert forall|j: int| 0 <= j < apps.len() - 1 implies apps.drop_last()[j]
            == #[trigger] apps[j] by {}
    }
}

/// Whether the app at a place is a browser by its first intent.
pub open spec fn browses(apps: Seq<App>, a: int, intents: Seq<(String, Intent)>) -> bool {
    intent_for(intents, apps[a].key@) is Some && intent_for(intents, apps[a].key@)->0.category
        == Category::Browser
}

proof fn lemma_largest_browser(apps: Seq<App>, intents: Seq<(String, Intent)>)
    ensures
        largest_browser(apps, intents) is None ==> forall|a: int|
            0 <= a < apps.len() ==> !#[trigger] browses(apps, a, intents),
        largest_browser(apps, intents) matches Some(i) ==> 0 <= i < apps.len() && browses(
            apps,
            i,
            intents,
        ) && forall|a: int|
            0 <= a < apps.len() && #[trigger] browses(apps, a, intents) ==> apps[a].rss_kb
                <= apps[i].rss_kb,
    decreases apps.len(),
{
    if apps.len() > 0 {
        let less = apps.drop_last();
        lemma_largest_browser(less, intents);
        assert forall|a: int| 0 <= a < less.len() implies #[trigger] browses(apps, a, intents)
            == browses(less, a, intents) by {
            assert(less[a] == apps[a]);
        }
        let before = largest_browser(less, intents);
        if before is Some {
            assert(less[before->0] == apps[before->0]);
            assert(browses(less, before->0, intents));
            assert forall|a: int|
                0 <= a < less.len() && #[trigger] browses(apps, a, intents) implies apps[a].rss_kb
                <= apps[before->0].rss_kb by {
                assert(browses(less, a, intents));
                assert(less[a] == apps[a]);
            }
        }
        assert(browses(apps, apps.len() - 1, intents) == is_browser(apps.last(), intents));
    }
}

/// A note is about the first app that it names; where it names none and speaks of
/// something that is watched, about the browser that holds the most; and
/// otherwise about everything. An app that it is about gets a quarter of an hour.
pub proof fn notes_are_about_what_they_name(
    prompt: Seq<char>,
    apps: Seq<App>,
    intents: Seq<(String, Intent)>,
)
    ensures
        ({
            let text = lower_of(prompt);
            let d = decided(prompt, apps, intents);
            let named = exists|a: int| 0 <= a < apps.len() && speaks_of(text, #[trigger] apps[a]);
            let watched = exists|a: int|
                0 <= a < apps.len() && #[trigger] browses(apps, a, intents);
            &&& forall|a: int|
                0 <= a < apps.len() && speaks_of(text, #[trigger] apps[a]) && (forall|b: int|
                    0 <= b < a ==> !speaks_of(text, #[trigger] apps[b])) ==> d.scope == (
                ScopeView::App { key: apps[a].key@, display: apps[a].display@ })
            &&& d.scope is Global <==> !named && !(speaks_of_watching(text) && watched)
            &&& !named && d.scope is App ==> exists|a: int|
                0 <= a < apps.len() && #[trigger] browses(apps, a, intents) && d.scope == (
                ScopeView::App { key: apps[a].key@, display: apps[a].display@ }) && forall|b: int|
                    0 <= b < apps.len() && #[trigger] browses(apps, b, intents) ==> apps[b].rss_kb
                        <= apps[a].rss_kb
            &&& d.grace_secs == (if d.scope is App {
                Some(900u64)
            } else {
                None
            })
        }),
{
    let text = lower_of(prompt);
    let d = decided(prompt, apps, intents);
    lemma_note_names(text, apps);
    lemma_largest_browser(apps, intents);
    lemma_mentions(text, "youtube"@);
    lemma_mentions(text, "tutorial"@);
    lemma_mentions(text, "watching"@);
    lemma_mentions(text, "video"@);
    lemma_mentions(text, "stream"@);
    if named_app(text, apps) is Some {
        assert(speaks_of(text, apps[named_app(text, apps)->0]));
    }
    assert forall|a: int|
        0 <= a < apps.len() && speaks_of(text, #[trigger] apps[a]) && (forall|b: int|
            0 <= b < a ==> !speaks_of(text, #[trigger] apps[b])) implies named_app(text, apps)
        == Some(a) by {
        let i = named_app(text, apps)->0;
        if i < a {
            assert(!speaks_of(text, apps[i]));
        }
        if a < i {
            assert(!speaks_of(text, apps[a]));
        }
    }
}

/// A note is kept for its app until a quarter of an hour has passed, in place of
/// any before, and one about everything is kept as the one context.
pub proof fn notes_are_kept_for_their_app(
    labels: LabelsView,
    prompt: Seq<char>,
    key: Seq<char>,
    display: Seq<char>,
    now: u64,
    l: LabelView,
)
    requires
        now + 900 <= u64::MAX,
    ensures
        recorded(labels, prompt, ScopeView::Global, now) == (LabelsView {
            global: Some(GlobalView { prompt, created_at: now }),
            app: labels.app,
        }),
        ({
            let next = recorded(labels, prompt, ScopeView::App { key, display }, now);
            &&& next.global == labels.global
            &&& next.app.contains(l) <==> (l.key != key && labels.app.contains(l)) || l == (
            LabelView { key, display, prompt, expires_at: (now + 900) as u64 })
        }),
{
    let next = recorded(labels, prompt, ScopeView::App { key, display }, now);
    let rest = others(labels.app, key);
    let own = LabelView { key, display, prompt, expires_at: (now + 900) as u64 };
    lemma_others(labels.app, key, l);
    assert(next.app == rest.push(own));
    assert(next.app[rest.len() as int] == own);
    if next.app.contains(l) && l != own {
        let i = choose|i: int| 0 <= i < next.app.len() && next.app[i] == l;
        assert(rest[i] == l);
    }
    if rest.contains(l) {
        let k = choose|k: int| 0 <= k < rest.len() && rest[k] == l;
        assert(next.app[k] == l);
    }
}

proof fn lemma_others(list: Seq<LabelView>, key: Seq<char>, l: LabelView)
    ensures
        others(list, key).contains(l) <==> list.contains(l) && l.key != key,
    decreases list.len(),
{
    reveal(Seq::filter);
    if list.len() > 0 {
        let less = list.drop_last();
        let before = others(less, key);
        let all = others(list, key);
        lemma_others(less, key, l);
        if less.contains(l) {
            let i = choose|i: int| 0 <= i < less.len() && less[i] == l;
            assert(list[i] == l);
        }
        if list.contains(l) && l != list.last() {
            let i = choose|i: int| 0 <= i < list.len() && list[i] == l;
            assert(less[i] == l);
        }
        if before.contains(l) {
            let i = choose|i: int| 0 <= i < before.len() && before[i] == l;
            assert(all[i] == l);
        }
        if list.last().key != key {
            assert(all == before.push(list.last()));
            assert(all[before.len() as int] == list.last());
            if all.contains(l) && l != list.last() {
                let i = choose|i: int| 0 <= i < all.len() && all[i] == l;
                assert(before[i] == l);
            }
        } else {
            assert(all == before);
        }
        assert(list[list.len() - 1] == list.last());
    }
}

/// The grace of an app is what is left of its first label that has not expired.
pub proof fn grace_is_what_is_left_of_a_label(
    list: Seq<LabelView>,
    key: Seq<char>,
    now: u64,
    i: int,
)
    requires
        0 <= i < list.len(),
        list[i].key == key,
        list[i].expires_at > now,
        forall|j: int| 0 <= j < i ==> (#[trigger] list[j]).key != key || list[j].expires_at <= now,
    ensures
        grace_left(list, key, now) is Some,
        grace_left(list, key, now)->0 + now == list[i].expires_at,
    decreases list.len(),
{
    if i > 0 {
        let rest = list.drop_first();
        assert(list[0].key != key || list[0].expires_at <= now);
        assert(rest[i - 1] == list[i]);
        assert forall|j: int| 0 <= j < i - 1 implies (#[trigger] rest[j]).key != key
            || rest[j].expires_at <= now by {
            assert(rest[j] == list[j + 1]);
        }
        grace_is_what_is_left_of_a_label(rest, key, now, i - 1);
    }
}

/// An app without a label that lasts has no grace.
pub proof fn no_label_grants_no_grace(list: Seq<LabelView>, key: Seq<char>, now: u64)
    requires
        forall|j: int|
            0 <= j < list.len() ==> (#[trigger] list[j]).key != key || list[j].expires_at <= now,
    ensures
        grace_left(list, key, now) is None,
    decreases list.len(),
{
    if list.len() > 0 {
        let rest = list.drop_first();
        assert(list[0].key != key || list[0].expires_at <= now);
        assert forall|j: int| 0 <= j < rest.len() implies (#[trigger] rest[j]).key != key
            || rest[j].expires_at <= now by {
            assert(rest[j] == list[j + 1]);
        }
        no_label_grants_no_grace(rest, key, now);
    }
}

} // verus!
