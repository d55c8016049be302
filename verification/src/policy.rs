//! Pressure policies: user-declared rules evaluated against live state.
//!
//! Rules live in `~/.config/pv/policies.toml`:
//!
//! ```toml
//! [[rule]]
//! name = "idle-browsers"
//! category = "browser"
//! min_rss_mb = 200
//! action = "suspend"          # suspend|throttle|notify
//! message = "Suspend {app} — idle and heavy"
//!
//! [[rule]]
//! name = "battery-builds"
//! category = "build"
//! battery_below = 10
//! action = "notify"
//! message = "Battery low — consider `pv migrate {app}`"
//! ```

use vstd::prelude::*;

use crate::fixed::{dec64, decimal};
use crate::intent::Category;
use crate::pressure::PressureReport;
use crate::procfs::{xdg, xdg_dir, App};
use crate::scan::{begins, replace, replaced};
use crate::text::{
    cat3, copy_pids, joined_path, lower, lower_of, opt_text, owned, path_join, same,
};

verus! {

pub struct Rule {
    pub name: String,
    pub category: Option<String>,
    pub min_rss_mb: Option<u64>,
    /// In billionths of a percent of one core.
    pub min_cpu_pct: Option<u64>,
    pub battery_below: Option<u32>,
    pub min_mem_pressure: Option<u8>,
    /// One of "suspend", "throttle" and "notify".
    pub action: String,
    pub message: Option<String>,
}

pub struct PolicyHit {
    pub rule: String,
    pub app_key: String,
    pub display: String,
    pub action: String,
    pub message: String,
    pub pids: Vec<u32>,
    pub rss_kb: u64,
}

#[verifier::ext_equal]
pub struct HitView {
    pub rule: Seq<char>,
    pub app_key: Seq<char>,
    pub display: Seq<char>,
    pub action: Seq<char>,
    pub message: Seq<char>,
    pub pids: Seq<u32>,
    pub rss_kb: u64,
}

impl View for PolicyHit {
    type V = HitView;

    open spec fn view(&self) -> HitView {
        HitView {
            rule: self.rule@,
            app_key: self.app_key@,
            display: self.display@,
            action: self.action@,
            message: self.message@,
            pids: self.pids@,
            rss_kb: self.rss_kb,
        }
    }
}

/// What a list of hits says.
pub open spec fn hit_views(v: Seq<PolicyHit>) -> Seq<HitView> {
    v.map_values(|h: PolicyHit| h@)
}

/// Where the rules are kept, by the configuration and home directories.
pub fn config_path(config_home: &Option<String>, home: &Option<String>) -> (r: String)
    ensures
        r@ == joined_path(
            xdg_dir(opt_text(*config_home), opt_text(*home), ".config"@),
            "pv/policies.toml"@,
        ),
{
    path_join(xdg(config_home, home, ".config").as_str(), "pv/policies.toml")
}

/// The rules to begin with.
pub const DEFAULT_POLICY: &'static str = "# Pressure Valve policies — evaluated by `pv policy`
[[rule]]
name = \"idle-heavy-browser\"
category = \"browser\"
min_rss_mb = 300
min_mem_pressure = 40
action = \"suspend\"
message = \"Suspend {app} (+{rss_mb} MB)\"

[[rule]]
name = \"battery-migrate-builds\"
category = \"build\"
battery_below = 10
action = \"notify\"
message = \"Battery {battery}% — migrate {app} to a remote host\"

[[rule]]
name = \"throttle-backups\"
category = \"backup\"
min_cpu_pct = 40
action = \"throttle\"
message = \"Throttle {app} — competing with foreground work\"
";

pub fn default_policy() -> (r: &'static str)
    ensures
        r@ == DEFAULT_POLICY@,
{
    DEFAULT_POLICY
}

// ------------------------------------------------------------ conditions

/// The conditions of a rule on the whole machine.
pub open spec fn machine_meets(rule: Rule, report: PressureReport) -> bool {
    &&& rule.min_mem_pressure matches Some(mp) ==> report.memory.score >= mp
    &&& rule.battery_below matches Some(bb) ==> (report.battery_info matches Some(b)
        && b.capacity <= bb && b.discharging)
}

/// The category that a rule names.
pub open spec fn category_named(s: Seq<char>) -> Category {
    let c = lower_of(s);
    if c == "browser"@ {
        Category::Browser
    } else if c == "build"@ {
        Category::Build
    } else if c == "encode"@ {
        Category::Encode
    } else if c == "llm"@ {
        Category::Llm
    } else if c == "backup"@ {
        Category::Backup
    } else if c == "download"@ {
        Category::Download
    } else if c == "shell"@ {
        Category::Shell
    } else {
        Category::Unknown
    }
}

/// What a list of categories says.
pub open spec fn category_views(v: Seq<(String, Category)>) -> Seq<(Seq<char>, Category)> {
    v.map_values(|p: (String, Category)| (p.0@, p.1))
}

/// The first category that is listed under a key.
pub open spec fn category_for(list: Seq<(Seq<char>, Category)>, key: Seq<char>) -> Option<Category>
    decreases list.len(),
{
    if list.len() == 0 {
        None
    } else if list[0].0 == key {
        Some(list[0].1)
    } else {
        category_for(list.drop_first(), key)
    }
}

/// The conditions of a rule on one app.
pub open spec fn app_meets(rule: Rule, app: App, categories: Seq<(Seq<char>, Category)>) -> bool {
    &&& rule.category matches Some(c) ==> category_for(categories, app.key@) == Some(
        category_named(c@),
    )
    &&& rule.min_rss_mb matches Some(min) ==> app.rss_kb >= min * 1024
    &&& rule.min_cpu_pct matches Some(min) ==> app.cpu_pct >= min
}

pub open spec fn hit_message(rule: Rule, app: App, report: PressureReport) -> Seq<char> {
    let base = match rule.message {
        Some(m) => m@,
        None => rule.action@ + ": "@ + app.display@,
    };
    replaced(
        replaced(
            replaced(base, "{app}"@, app.display@),
            "{rss_mb}"@,
            decimal(app.rss_kb as nat / 1024),
        ),
        "{battery}"@,
        match report.battery_info {
            Some(b) => decimal(b.capacity as nat),
            None => "?"@,
        },
    )
}

pub open spec fn hit_of(rule: Rule, app: App, report: PressureReport) -> HitView {
    HitView {
        rule: rule.name@,
        app_key: app.key@,
        display: app.display@,
        action: rule.action@,
        message: hit_message(rule, app, report),
        pids: app.pids@,
        rss_kb: app.rss_kb,
    }
}

/// The hits of one rule, app by app.
pub open spec fn rule_hits(
    rule: Rule,
    apps: Seq<App>,
    categories: Seq<(Seq<char>, Category)>,
    report: PressureReport,
) -> Seq<HitView>
    decreases apps.len(),
{
    if apps.len() == 0 {
        Seq::empty()
    } else {
        let before = rule_hits(rule, apps.drop_last(), categories, report);
        if app_meets(rule, apps.last(), categories) {
            before.push(hit_of(rule, apps.last(), report))
        } else {
            before
        }
    }
}

/// The hits of all rules, rule by rule.
pub open spec fn all_hits(
    rules: Seq<Rule>,
    apps: Seq<App>,
    categories: Seq<(Seq<char>, Category)>,
    report: PressureReport,
) -> Seq<HitView>
    decreases rules.len(),
{
    if rules.len() == 0 {
        Seq::empty()
    } else {
        let before = all_hits(rules.drop_last(), apps, categories, report);
        if machine_meets(rules.last(), report) {
            before + rule_hits(rules.last(), apps, categories, report)
        } else {
            before
        }
    }
}

// ------------------------------------------------------------ evaluation

fn machine_ok(rule: &Rule, report: &PressureReport) -> (r: bool)
    ensures
        r == machine_meets(*rule, *report),
{
    if let Some(mp) = rule.min_mem_pressure {
        if report.memory.score < mp {
            return false;
        }
    }
    if let Some(bb) = rule.battery_below {
        match report.battery_info {
            Some(b) => {
                if !(b.capacity <= bb && b.discharging) {
                    return false;
                }
            },
            None => {
                return false;
            },
        }
    }
    true
}

fn named(s: &str) -> (r: Category)
    ensures
        r == category_named(s@),
{
    let low: String = lower(s);
    let c: &str = low.as_str();
    if same(c, "browser") {
        Category::Browser
    } else if same(c, "build") {
        Category::Build
    } else if same(c, "encode") {
        Category::Encode
    } else if same(c, "llm") {
        Category::Llm
    } else if same(c, "backup") {
        Category::Backup
    } else if same(c, "download") {
        Category::Download
    } else if same(c, "shell") {
        Category::Shell
    } else {
        Category::Unknown
    }
}

fn find_category(list: &Vec<(String, Category)>, key: &str) -> (r: Option<Category>)
    ensures
        r == category_for(category_views(list@), key@),
{
    let ghost all = category_views(list@);
    let mut i: usize = 0;
    assert(all.skip(0) =~= all);
    while i < list.len()
        invariant
            i <= list.len(),
            all == category_views(list@),
            category_for(all, key@) == category_for(all.skip(i as int), key@),
        decreases list.len() - i,
    {
        assert(all.skip(i as int).drop_first() =~= all.skip(i as int + 1));
        assert(all.skip(i as int)[0] == (list@[i as int].0@, list@[i as int].1));
        if same(list[i].0.as_str(), key) {
            return Some(list[i].1);
        }
        i = i + 1;
    }
    None
}

fn app_ok(rule: &Rule, app: &App, categories: &Vec<(String, Category)>) -> (r: bool)
    ensures
        r == app_meets(*rule, *app, category_views(categories@)),
{
    if let Some(c) = &rule.category {
        match find_category(categories, app.key.as_str()) {
            Some(have) => {
                if have != named(c.as_str()) {
                    return false;
                }
            },
            None => {
                return false;
            },
        }
    }
    if let Some(min) = rule.min_rss_mb {
        if (app.rss_kb as u128) < min as u128 * 1024 {
            return false;
        }
    }
    if let Some(min) = rule.min_cpu_pct {
        if app.cpu_pct < min {
            return false;
        }
    }
    true
}

fn message(rule: &Rule, app: &App, report: &PressureReport) -> (r: String)
    ensures
        r@ == hit_message(*rule, *app, *report),
{
    let base: String = match &rule.message {
        Some(m) => m.clone(),
        None => cat3(rule.action.as_str(), ": ", app.display.as_str()),
    };
    proof {
        reveal_strlit("{app}");
        reveal_strlit("{rss_mb}");
        reveal_strlit("{battery}");
    }
    let a: String = replace(base.as_str(), "{app}", app.display.as_str());
    let b: String = replace(a.as_str(), "{rss_mb}", dec64(app.rss_kb / 1024).as_str());
    let charge: String = match report.battery_info {
        Some(b) => dec64(b.capacity as u64),
        None => owned("?"),
    };
    replace(b.as_str(), "{battery}", charge.as_str())
}

/// The rules whose conditions are met, with the apps that meet them.
pub fn evaluate(
    rules: &Vec<Rule>,
    apps: &Vec<App>,
    categories: &Vec<(String, Category)>,
    report: &PressureReport,
) -> (r: Vec<PolicyHit>)
    ensures
        hit_views(r@) == all_hits(rules@, apps@, category_views(categories@), *report),
{
    let ghost cats = category_views(categories@);
    let mut hits: Vec<PolicyHit> = Vec::new();
    let mut i: usize = 0;
    assert(hit_views(hits@) =~= all_hits(rules@.take(0), apps@, cats, *report));
    while i < rules.len()
        invariant
            i <= rules.len(),
            cats == category_views(categories@),
            hit_views(hits@) == all_hits(rules@.take(i as int), apps@, cats, *report),
        decreases rules.len() - i,
    {
        assert(rules@.take(i as int + 1).drop_last() =~= rules@.take(i as int));
        let rule: &Rule = &rules[i];
        if machine_ok(rule, report) {
            let ghost before = hit_views(hits@);
            let mut k: usize = 0;
            assert(before + rule_hits(*rule, apps@.take(0), cats, *report) =~= before);
            while k < apps.len()
                invariant
                    k <= apps.len(),
                    cats == category_views(categories@),
                    hit_views(hits@) == before + rule_hits(
                        *rule,
                        apps@.take(k as int),
                        cats,
                        *report,
                    ),
                decreases apps.len() - k,
            {
                assert(apps@.take(k as int + 1).drop_last() =~= apps@.take(k as int));
                let app: &App = &apps[k];
                if app_ok(rule, app, categories) {
                    let h: PolicyHit = PolicyHit {
                        rule: rule.name.clone(),
                        app_key: app.key.clone(),
                        display: app.display.clone(),
                        action: rule.action.clone(),
                        message: message(rule, app, report),
                        pids: copy_pids(&app.pids),
                        rss_kb: app.rss_kb,
                    };
                    let ghost have = hits@;
                    hits.push(h);
                    proof {
                        assert(hit_views(hits@) =~= hit_views(have).push(h@));
                        assert(hit_views(hits@) =~= before + rule_hits(
                            *rule,
                            apps@.take(k as int + 1),
                            cats,
                            *report,
                        ));
                    }
                }
                k = k + 1;
            }
            assert(apps@.take(k as int) =~= apps@);
        }
        i = i + 1;
    }
    assert(rules@.take(i as int) =~= rules@);
    hits
}

// ------------------------------------------------------------ laws

proof fn lemma_rule_hits(
    rule: Rule,
    apps: Seq<App>,
    categories: Seq<(Seq<char>, Category)>,
    report: PressureReport,
    k: int,
)
    requires
        0 <= k < rule_hits(rule, apps, categories, report).len(),
    ensures
        exists|a: int|
            0 <= a < apps.len() && app_meets(rule, #[trigger] apps[a], categories) && rule_hits(
                rule,
                apps,
                categories,
                report,
            )[k] == hit_of(rule, apps[a], report),
    decreases apps.len(),
{
    let before = rule_hits(rule, apps.drop_last(), categories, report);
    if k < before.len() {
        lemma_rule_hits(rule, apps.drop_last(), categories, report, k);
        let a = choose|a: int|
            0 <= a < apps.drop_last().len() && app_meets(
                rule,
                #[trigger] apps.drop_last()[a],
                categories,
            ) && before[k] == hit_of(rule, apps.drop_last()[a], report);
        assert(apps[a] == apps.drop_last()[a]);
    } else {
        assert(apps[apps.len() - 1] == apps.last());
    }
}

/// Every hit comes from a rule and an app that meet all of its conditions.
pub proof fn hits_meet_their_conditions(
    rules: Seq<Rule>,
    apps: Seq<App>,
    categories: Seq<(Seq<char>, Category)>,
    report: PressureReport,
    k: int,
)
    requires
        0 <= k < all_hits(rules, apps, categories, report).len(),
    ensures
        exists|i: int, a: int|
            0 <= i < rules.len() && 0 <= a < apps.len() && machine_meets(rules[i], report)
                && app_meets(rules[i], apps[a], categories) && all_hits(
                rules,
                apps,
                categories,
                report,
            )[k] == #[trigger] hit_of(rules[i], apps[a], report),
    decreases rules.len(),
{
    let before = all_hits(rules.drop_last(), apps, categories, report);
    if k < before.len() {
        hits_meet_their_conditions(rules.drop_last(), apps, categories, report, k);
        let (i, a) = choose|i: int, a: int|
            0 <= i < rules.drop_last().len() && 0 <= a < apps.len() && machine_meets(
                rules.drop_last()[i],
                report,
            ) && app_meets(rules.drop_last()[i], apps[a], categories) && before[k]
                == #[trigger] hit_of(rules.drop_last()[i], apps[a], report);
        assert(rules[i] == rules.drop_last()[i]);
        assert(all_hits(rules, apps, categories, report)[k] == hit_of(rules[i], apps[a], report));
    } else {
        let last = rules.last();
        let j = k - before.len();
        lemma_rule_hits(last, apps, categories, report, j);
        let a = choose|a: int|
            0 <= a < apps.len() && app_meets(last, #[trigger] apps[a], categories) && rule_hits(
                last,
                apps,
                categories,
                report,
            )[j] == hit_of(last, apps[a], report);
        let i = rules.len() - 1;
        assert(rules[i] == last);
        assert(all_hits(rules, apps, categories, report)[k] == hit_of(rules[i], apps[a], report));
    }
}

/// Whether a rule speaks of an app: memory is under the pressure that it names,
/// the battery drains and is no fuller than it names, the first category that
/// is listed for the app is the one it names, and the app holds and uses as
/// much as it names. What a rule does not name does not matter.
pub open spec fn applies(
    rule: Rule,
    app: App,
    categories: Seq<(Seq<char>, Category)>,
    report: PressureReport,
) -> bool {
    &&& rule.min_mem_pressure is Some ==> report.memory.score >= rule.min_mem_pressure->0
    &&& rule.battery_below is Some ==> report.battery_info is Some
        && report.battery_info->0.discharging && report.battery_info->0.capacity
        <= rule.battery_below->0
    &&& rule.category is Some ==> exists|j: int|
        0 <= j < categories.len() && (#[trigger] categories[j]).0 == app.key@ && categories[j].1
            == category_named(rule.category->0@) && forall|m: int|
            0 <= m < j ==> (#[trigger] categories[m]).0 != app.key@
    &&& rule.min_rss_mb is Some ==> app.rss_kb >= rule.min_rss_mb->0 * 1024
    &&& rule.min_cpu_pct is Some ==> app.cpu_pct >= rule.min_cpu_pct->0
}

proof fn lemma_category_for(list: Seq<(Seq<char>, Category)>, key: Seq<char>)
    ensures
        category_for(list, key) is None ==> forall|j: int|
            0 <= j < list.len() ==> (#[trigger] list[j]).0 != key,
        category_for(list, key) matches Some(c) ==> exists|j: int|
            0 <= j < list.len() && (#[trigger] list[j]).0 == key && list[j].1 == c && forall|
                m: int,
            |
                0 <= m < j ==> (#[trigger] list[m]).0 != key,
    decreases list.len(),
{
    if list.len() > 0 {
        let rest = list.drop_first();
        lemma_category_for(rest, key);
        assert forall|j: int| 1 <= j < list.len() implies rest[j - 1] == #[trigger] list[j] by {}
        if list[0].0 != key {
            if let Some(c) = category_for(rest, key) {
                let j = choose|j: int|
                    0 <= j < rest.len() && (#[trigger] rest[j]).0 == key && rest[j].1 == c
                        && forall|m: int| 0 <= m < j ==> (#[trigger] rest[m]).0 != key;
                assert(list[j + 1].0 == key && list[j + 1].1 == c);
                assert forall|m: int| 0 <= m < j + 1 implies (#[trigger] list[m]).0 != key by {
                    if m > 0 {
                        assert(rest[m - 1].0 != key);
                    }
                }
            }
        } else {
            assert(list[0].0 == key && list[0].1 == category_for(list, key)->0);
        }
    }
}

proof fn lemma_applies(
    rule: Rule,
    app: App,
    categories: Seq<(Seq<char>, Category)>,
    report: PressureReport,
)
    ensures
        applies(rule, app, categories, report) <==> machine_meets(rule, report) && app_meets(
            rule,
            app,
            categories,
        ),
{
    lemma_category_for(categories, app.key@);
    if rule.category is Some {
        let want = category_named(rule.category->0@);
        if category_for(categories, app.key@) is Some {
            let j = choose|j: int|
                0 <= j < categories.len() && (#[trigger] categories[j]).0 == app.key@
                    && categories[j].1 == category_for(categories, app.key@)->0 && forall|m: int|
                    0 <= m < j ==> (#[trigger] categories[m]).0 != app.key@;
            assert forall|k: int|
                0 <= k < categories.len() && (#[trigger] categories[k]).0 == app.key@ && (forall|
                    m: int,
                |
                    0 <= m < k ==> (#[trigger] categories[m]).0 != app.key@) implies k == j by {
                if k < j {
                    assert(categories[k].0 != app.key@);
                }
                if j < k {
                    assert(categories[j].0 != app.key@);
                }
            }
        }
    }
}

proof fn lemma_rule_listing(
    rule: Rule,
    apps: Seq<App>,
    categories: Seq<(Seq<char>, Category)>,
    report: PressureReport,
) -> (src: Seq<int>)
    ensures
        src.len() == rule_hits(rule, apps, categories, report).len(),
        forall|k: int|
            0 <= k < src.len() ==> 0 <= #[trigger] src[k] < apps.len() && app_meets(
                rule,
                apps[src[k]],
                categories,
            ) && rule_hits(rule, apps, categories, report)[k] == hit_of(
                rule,
                apps[src[k]],
                report,
            ),
        forall|j: int, k: int| 0 <= j < k < src.len() ==> #[trigger] src[j] < #[trigger] src[k],
        forall|a: int|
            0 <= a < apps.len() && app_meets(rule, #[trigger] apps[a], categories)
                ==> src.contains(a),
    decreases apps.len(),
{
    if apps.len() == 0 {
        Seq::empty()
    } else {
        let rest = apps.drop_last();
        let before = lemma_rule_listing(rule, rest, categories, report);
        let n = apps.len() - 1;
        assert(forall|a: int| 0 <= a < n ==> rest[a] == apps[a]);
        let src = if app_meets(rule, apps.last(), categories) {
            before.push(n)
        } else {
            before
        };
        assert forall|a: int|
            0 <= a < apps.len() && app_meets(rule, #[trigger] apps[a], categories) implies src.contains(
            a,
        ) by {
            if a < n {
                assert(app_meets(rule, rest[a], categories));
                let k = choose|k: int| 0 <= k < before.len() && before[k] == a;
                assert(src[k] == a);
            } else {
                assert(src[src.len() - 1] == a);
            }
        }
        src
    }
}

/// Every rule and app for which the rule speaks make a hit, and nothing else
/// does. The hits come rule by rule and app by app, one for each such pair,
/// with the names of both and with what is to be done.
pub proof fn hits_are_the_pairs_that_apply(
    rules: Seq<Rule>,
    apps: Seq<App>,
    categories: Seq<(Seq<char>, Category)>,
    report: PressureReport,
) -> (pairs: Seq<(int, int)>)
    ensures
        pairs.len() == all_hits(rules, apps, categories, report).len(),
        forall|k: int|
            0 <= k < pairs.len() ==> 0 <= (#[trigger] pairs[k]).0 < rules.len() && 0
                <= pairs[k].1 < apps.len() && applies(
                rules[pairs[k].0],
                apps[pairs[k].1],
                categories,
                report,
            ),
        forall|k: int|
            0 <= k < pairs.len() ==> ({
                let hit = all_hits(rules, apps, categories, report)[k];
                let (rule, app) = (rules[pairs[k].0], apps[(#[trigger] pairs[k]).1]);
                &&& hit.rule == rule.name@
                &&& hit.action == rule.action@
                &&& hit.app_key == app.key@
                &&& hit.display == app.display@
                &&& hit.pids == app.pids@
                &&& hit.rss_kb == app.rss_kb
                &&& hit.message == hit_message(rule, app, report)
            }),
        forall|j: int, k: int|
            0 <= j < k < pairs.len() ==> (#[trigger] pairs[j]).0 < (#[trigger] pairs[k]).0 || (
            pairs[j].0 == pairs[k].0 && pairs[j].1 < pairs[k].1),
        forall|i: int, a: int|
            0 <= i < rules.len() && 0 <= a < apps.len() && #[trigger] applies(
                rules[i],
                apps[a],
                categories,
                report,
            ) ==> pairs.contains((i, a)),
    decreases rules.len(),
{
    if rules.len() == 0 {
        Seq::empty()
    } else {
        let rest = rules.drop_last();
        let n = rules.len() - 1;
        let rule = rules.last();
        let before = hits_are_the_pairs_that_apply(rest, apps, categories, report);
        assert(forall|i: int| 0 <= i < n ==> rest[i] == rules[i]);
        let list = lemma_rule_listing(rule, apps, categories, report);
        let more = list.map_values(|a: int| (n, a));
        let pairs = if machine_meets(rule, report) {
            before + more
        } else {
            before
        };
        assert forall|k: int| 0 <= k < pairs.len() implies 0 <= (#[trigger] pairs[k]).0
            < rules.len() && 0 <= pairs[k].1 < apps.len() && applies(
            rules[pairs[k].0],
            apps[pairs[k].1],
            categories,
            report,
        ) by {
            if k < before.len() {
                assert(pairs[k] == before[k]);
            } else {
                let a = list[k - before.len()];
                assert(pairs[k] == (n, a));
                lemma_applies(rule, apps[a], categories, report);
            }
        }
        assert forall|j: int, k: int| 0 <= j < k < pairs.len() implies (#[trigger] pairs[j]).0 < (
        #[trigger] pairs[k]).0 || (pairs[j].0 == pairs[k].0 && pairs[j].1 < pairs[k].1) by {
            if k < before.len() {
                assert(pairs[j] == before[j] && pairs[k] == before[k]);
            } else if j >= before.len() {
                assert(list[j - before.len()] < list[k - before.len()]);
            } else {
                assert(pairs[j] == before[j]);
            }
        }
        assert forall|i: int, a: int|
            0 <= i < rules.len() && 0 <= a < apps.len() && #[trigger] applies(
                rules[i],
                apps[a],
                categories,
                report,
            ) implies pairs.contains((i, a)) by {
            if i < n {
                assert(applies(rest[i], apps[a], categories, report));
                let k = choose|k: int| 0 <= k < before.len() && before[k] == (i, a);
                assert(pairs[k] == (i, a));
            } else {
                lemma_applies(rule, apps[a], categories, report);
                let k = choose|k: int| 0 <= k < list.len() && list[k] == a;
                assert(pairs[before.len() + k] == (i, a));
            }
        }
        assert forall|k: int| 0 <= k < pairs.len() implies all_hits(
            rules,
            apps,
            categories,
            report,
        )[k] == hit_of(rules[pairs[k].0], apps[(#[trigger] pairs[k]).1], report) by {
            if k < before.len() {
                assert(pairs[k] == before[k]);
                assert(all_hits(rest, apps, categories, report)[k] == hit_of(
                    rest[before[k].0],
                    apps[before[k].1],
                    report,
                ));
            } else {
                assert(pairs[k] == (n, list[k - before.len()]));
            }
        }
        pairs
    }
}

/// The categories that rules can name, and what any other name stands for.
pub proof fn rules_name_categories(s: Seq<char>)
    ensures
        lower_of(s) == "browser"@ ==> category_named(s) == Category::Browser,
        lower_of(s) == "build"@ ==> category_named(s) == Category::Build,
        lower_of(s) == "encode"@ ==> category_named(s) == Category::Encode,
        lower_of(s) == "llm"@ ==> category_named(s) == Category::Llm,
        lower_of(s) == "backup"@ ==> category_named(s) == Category::Backup,
        lower_of(s) == "download"@ ==> category_named(s) == Category::Download,
        lower_of(s) == "shell"@ ==> category_named(s) == Category::Shell,
        lower_of(s) != "browser"@ && lower_of(s) != "build"@ && lower_of(s) != "encode"@
            && lower_of(s) != "llm"@ && lower_of(s) != "backup"@ && lower_of(s) != "download"@
            && lower_of(s) != "shell"@ ==> category_named(s) == Category::Unknown,
{
    reveal_strlit("browser");
    reveal_strlit("build");
    reveal_strlit("encode");
    reveal_strlit("llm");
    reveal_strlit("backup");
    reveal_strlit("download");
    reveal_strlit("shell");
    let look = (lower_of(s).len(), lower_of(s)[0], lower_of(s)[1]);
}

/// Whether a text has no opening brace.
pub open spec fn braceless(s: Seq<char>) -> bool {
    forall|i: int| 0 <= i < s.len() ==> #[trigger] s[i] != '{'
}

proof fn lemma_braceless(s: Seq<char>, from: Seq<char>, to: Seq<char>)
    requires
        braceless(s),
        from.len() > 0,
        from[0] == '{',
    ensures
        replaced(s, from, to) == s,
    decreases s.len(),
{
    if s.len() >= from.len() {
        if begins(s, from) {
            assert(s.take(from.len() as int)[0] == from[0]);
            assert(s[0] == '{');
        }
        let rest = s.drop_first();
        assert forall|i: int| 0 <= i < rest.len() implies #[trigger] rest[i] != '{' by {
            assert(rest[i] == s[i + 1]);
        }
        lemma_braceless(rest, from, to);
        assert(seq![s[0]] + rest =~= s);
    }
}

proof fn lemma_placed(a: Seq<char>, b: Seq<char>, from: Seq<char>, to: Seq<char>)
    requires
        braceless(a),
        braceless(b),
        from.len() > 0,
        from[0] == '{',
    ensures
        replaced(a + from + b, from, to) == a + to + b,
    decreases a.len(),
{
    let s = a + from + b;
    if a.len() == 0 {
        assert(s.take(from.len() as int) =~= from);
        assert(s.skip(from.len() as int) =~= b);
        lemma_braceless(b, from, to);
        assert(a + to + b =~= to + b);
    } else {
        let rest = a.drop_first();
        assert(s[0] == a[0]);
        if begins(s, from) {
            assert(s.take(from.len() as int)[0] == from[0]);
        }
        assert forall|i: int| 0 <= i < rest.len() implies #[trigger] rest[i] != '{' by {
            assert(rest[i] == a[i + 1]);
        }
        assert(s.drop_first() =~= rest + from + b);
        lemma_placed(rest, b, from, to);
        assert(seq![a[0]] + (rest + to + b) =~= a + to + b);
    }
}

proof fn lemma_other_kept(
    a: Seq<char>,
    p: Seq<char>,
    b: Seq<char>,
    from: Seq<char>,
    to: Seq<char>,
)
    requires
        braceless(a),
        braceless(b),
        p.len() > 1,
        p[0] == '{',
        braceless(p.drop_first()),
        from.len() > 1,
        from[0] == '{',
        p[1] != from[1],
    ensures
        replaced(a + p + b, from, to) == a + p + b,
    decreases a.len(),
{
    let s = a + p + b;
    if s.len() >= from.len() {
        if a.len() == 0 {
            let tail = p.drop_first() + b;
            if begins(s, from) {
                assert(s.take(from.len() as int)[1] == from[1]);
                assert(s[1] == p[1]);
            }
            assert forall|i: int| 0 <= i < tail.len() implies #[trigger] tail[i] != '{' by {
                if i < p.len() - 1 {
                    assert(tail[i] == p.drop_first()[i]);
                } else {
                    assert(tail[i] == b[i - (p.len() - 1)]);
                }
            }
            assert(s.drop_first() =~= tail);
            lemma_braceless(tail, from, to);
            assert(seq![s[0]] + tail =~= s);
        } else {
            let rest = a.drop_first();
            assert(s[0] == a[0]);
            if begins(s, from) {
                assert(s.take(from.len() as int)[0] == from[0]);
            }
            assert forall|i: int| 0 <= i < rest.len() implies #[trigger] rest[i] != '{' by {
                assert(rest[i] == a[i + 1]);
            }
            assert(s.drop_first() =~= rest + p + b);
            lemma_other_kept(rest, p, b, from, to);
            assert(seq![a[0]] + (rest + p + b) =~= s);
        }
    }
}

/// A message says what its rule says, with the name of the app, its memory in
/// MB and the charge of the battery where the rule leaves a place for them. A
/// rule without a message says its action and the name of the app.
pub proof fn messages_fill_their_places(
    rule: Rule,
    app: App,
    report: PressureReport,
    a: Seq<char>,
    b: Seq<char>,
)
    requires
        braceless(a),
        braceless(b),
        braceless(app.display@),
    ensures
        rule.message is None && braceless(rule.action@) ==> hit_message(rule, app, report)
            == rule.action@ + ": "@ + app.display@,
        rule.message is Some && rule.message->0@ == a ==> hit_message(rule, app, report) == a,
        rule.message is Some && rule.message->0@ == a + "{app}"@ + b ==> hit_message(
            rule,
            app,
            report,
        ) == a + app.display@ + b,
        rule.message is Some && rule.message->0@ == a + "{rss_mb}"@ + b ==> hit_message(
            rule,
            app,
            report,
        ) == a + decimal(app.rss_kb as nat / 1024) + b,
        rule.message is Some && rule.message->0@ == a + "{battery}"@ + b ==> hit_message(
            rule,
            app,
            report,
        ) == a + (if report.battery_info is Some {
            decimal(report.battery_info->0.capacity as nat)
        } else {
            "?"@
        }) + b,
{
    reveal_strlit("{app}");
    reveal_strlit("{rss_mb}");
    reveal_strlit("{battery}");
    reveal_strlit(": ");
    let n = app.display@;
    let mb = decimal(app.rss_kb as nat / 1024);
    let charge = match report.battery_info {
        Some(b) => decimal(b.capacity as nat),
        None => "?"@,
    };
    lemma_numeral_braceless(app.rss_kb as nat / 1024);
    assert(braceless("{app}"@.drop_first()));
    assert(braceless("{rss_mb}"@.drop_first()));
    assert(braceless("{battery}"@.drop_first()));
    if rule.message is None {
        if braceless(rule.action@) {
            let s = rule.action@ + ": "@ + n;
            assert(braceless(s)) by {
                assert forall|i: int| 0 <= i < s.len() implies #[trigger] s[i] != '{' by {
                    let k = rule.action@.len() as int;
                    if i < k {
                        assert(s[i] == rule.action@[i]);
                    } else if i < k + 2 {
                        assert(s[i] == ": "@[i - k]);
                    } else {
                        assert(s[i] == n[i - k - 2]);
                    }
                }
            }
            lemma_braceless(s, "{app}"@, n);
            lemma_braceless(s, "{rss_mb}"@, mb);
            lemma_braceless(s, "{battery}"@, charge);
        }
    } else {
        let m = rule.message->0@;
        if m == a {
            lemma_braceless(a, "{app}"@, n);
            lemma_braceless(a, "{rss_mb}"@, mb);
            lemma_braceless(a, "{battery}"@, charge);
        }
        if m == a + "{app}"@ + b {
            lemma_placed(a, b, "{app}"@, n);
            lemma_braceless_three(a, n, b);
            lemma_braceless(a + n + b, "{rss_mb}"@, mb);
            lemma_braceless(a + n + b, "{battery}"@, charge);
        }
        if m == a + "{rss_mb}"@ + b {
            lemma_other_kept(a, "{rss_mb}"@, b, "{app}"@, n);
            lemma_placed(a, b, "{rss_mb}"@, mb);
            lemma_braceless_three(a, mb, b);
            lemma_braceless(a + mb + b, "{battery}"@, charge);
        }
        if m == a + "{battery}"@ + b {
            lemma_other_kept(a, "{battery}"@, b, "{app}"@, n);
            lemma_other_kept(a, "{battery}"@, b, "{rss_mb}"@, mb);
            lemma_placed(a, b, "{battery}"@, charge);
        }
    }
}

proof fn lemma_braceless_three(a: Seq<char>, n: Seq<char>, b: Seq<char>)
    requires
        braceless(a),
        braceless(n),
        braceless(b),
    ensures
        braceless(a + n + b),
{
    let s = a + n + b;
    assert forall|i: int| 0 <= i < s.len() implies #[trigger] s[i] != '{' by {
        if i < a.len() {
            assert(s[i] == a[i]);
        } else if i < a.len() + n.len() {
            assert(s[i] == n[i - a.len()]);
        } else {
            assert(s[i] == b[i - a.len() - n.len()]);
        }
    }
}

proof fn lemma_numeral_braceless(n: nat)
    ensures
        braceless(decimal(n)),
    decreases n,
{
    if n >= 10 {
        lemma_numeral_braceless(n / 10);
    }
}

} // verus!
