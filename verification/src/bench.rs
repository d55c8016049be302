//! A simulated benchmark for choosing a model to supervise agents with.
//!
//! Nothing here touches the machine or the network: every workload is a
//! pre-defined snapshot and every model a row of a table. Two architectures
//! are compared: a cached answer that is renewed on a change of state or by a
//! heartbeat, and an answer that streams anew at a fixed interval.
//!
//! Quantities are exact. Tiers and verbosities are in tenths, times to the
//! first token and variances in hundredths, prices in thousandths of a dollar
//! for a million tokens, accuracies in thousandths of a point, stabilities in
//! parts of 8000, and costs in units of a ten-billionth of a dollar.

use vstd::prelude::*;

use crate::fixed::{
    dec64, decimal, exceeds, ratio, ratio_text, ratios_are_written_to_the_nearest_place,
};
use crate::order::{
    arranged, indices, is_order, is_ranking, ranked, ranked_is_a_ranking, slot,
};
use crate::text::{
    byte_len, bytes_in, cat2, cat3, cat4, cat5, cat7, join, joined, opt_text, owned, pad_left,
    pad_right, padded_left, padded_right, push_all, push_text, repeat, repeated, texts,
};

verus! {

// ------------------------------------------------------------ the tables

#[derive(Clone, Copy)]
pub struct Model {
    pub id: &'static str,
    /// Capability, from small chat to frontier class, in tenths.
    pub tier: u64,
    /// Output tokens a second.
    pub tok_s: u64,
    /// Time to the first token, in hundredths of a second.
    pub ttft: u64,
    /// Price of a million input tokens, in thousandths of a dollar.
    pub price_in: u64,
    /// Price of a million output tokens, in thousandths of a dollar.
    pub price_out: u64,
    /// Estimated usefulness for agents, from 0 to 100.
    pub quality: u64,
    /// Output tokens as a multiple of a terse baseline, in tenths.
    pub verbosity: u64,
    /// How much answers to one input differ, in hundredths.
    pub variance: u64,
}

#[derive(Clone, Copy)]
pub struct Workload {
    pub name: &'static str,
    pub cores: u64,
    pub agents: u64,
    /// A pre-defined process table, one process a line.
    pub procs: &'static str,
    /// Prompt tokens of a call.
    pub ctx_in: u64,
    /// Answer tokens of a call, before the verbosity of a model.
    pub ctx_out: u64,
    /// Changes of state that matter, an hour.
    pub events_hr: u64,
    /// The capability that is required, in tenths.
    pub req_tier: u64,
    /// Advice older than this many seconds is useless.
    pub freshness_need: u64,
    /// Hours a day that are supervised.
    pub active: u64,
}

#[verifier::ext_equal]
pub struct ModelView {
    pub id: Seq<char>,
    pub tier: nat,
    pub tok_s: nat,
    pub ttft: nat,
    pub price_in: nat,
    pub price_out: nat,
    pub quality: nat,
    pub verbosity: nat,
    pub variance: nat,
}

#[verifier::ext_equal]
pub struct WorkloadView {
    pub name: Seq<char>,
    pub cores: nat,
    pub agents: nat,
    pub procs: Seq<char>,
    pub ctx_in: nat,
    pub ctx_out: nat,
    pub events_hr: nat,
    pub req_tier: nat,
    pub freshness_need: nat,
    pub active: nat,
}

impl View for Model {
    type V = ModelView;

    open spec fn view(&self) -> ModelView {
        ModelView {
            id: self.id@,
            tier: self.tier as nat,
            tok_s: self.tok_s as nat,
            ttft: self.ttft as nat,
            price_in: self.price_in as nat,
            price_out: self.price_out as nat,
            quality: self.quality as nat,
            verbosity: self.verbosity as nat,
            variance: self.variance as nat,
        }
    }
}

impl View for Workload {
    type V = WorkloadView;

    open spec fn view(&self) -> WorkloadView {
        WorkloadView {
            name: self.name@,
            cores: self.cores as nat,
            agents: self.agents as nat,
            procs: self.procs@,
            ctx_in: self.ctx_in as nat,
            ctx_out: self.ctx_out as nat,
            events_hr: self.events_hr as nat,
            req_tier: self.req_tier as nat,
            freshness_need: self.freshness_need as nat,
            active: self.active as nat,
        }
    }
}

pub open spec fn model_views(v: Seq<Model>) -> Seq<ModelView> {
    v.map_values(|m: Model| m@)
}

pub open spec fn workload_views(v: Seq<Workload>) -> Seq<WorkloadView> {
    v.map_values(|w: Workload| w@)
}

pub open spec fn model(
    id: Seq<char>,
    tier: nat,
    tok_s: nat,
    ttft: nat,
    price_in: nat,
    price_out: nat,
    quality: nat,
    verbosity: nat,
    variance: nat,
) -> ModelView {
    ModelView { id, tier, tok_s, ttft, price_in, price_out, quality, verbosity, variance }
}

/// The models.
pub open spec fn model_table() -> Seq<ModelView> {
    seq![
        model("llama-3.1-8b-instant"@, 10, 840, 22, 50, 80, 42, 9, 10),
        model("meta-llama/llama-4-scout-17b-16e-instruct"@, 20, 594, 25, 110, 340, 55, 10, 7),
        model("openai/gpt-oss-20b"@, 25, 1000, 30, 75, 300, 65, 18, 6),
        model("qwen/qwen3-32b"@, 30, 662, 30, 290, 590, 63, 16, 7),
        model("qwen/qwen3.6-27b"@, 30, 500, 30, 600, 3000, 66, 15, 6),
        model("llama-3.3-70b-versatile"@, 30, 394, 35, 590, 790, 57, 10, 6),
        model("openai/gpt-oss-120b"@, 40, 500, 35, 150, 600, 76, 17, 5),
        model("moonshotai/kimi-k2-instruct-0905"@, 40, 250, 45, 1000, 3000, 79, 14, 5),
    ]
}

pub const SINGLE_PROCS: &'static str = "python agent.py --loop research      38%cpu   385MB
sqlite3 .agent/state.db               2%cpu   128MB";

pub const DUAL_PROCS: &'static str = "python agent.py --role researcher    41%cpu   512MB
python agent.py --role writer        36%cpu   470MB
node tools/sandbox.js                 8%cpu   210MB
redis-server :6379                    1%cpu    60MB";

pub const QUAD_PROCS: &'static str = "python orchestrator.py               22%cpu   640MB
python worker.py --id w1..w4    4x  55%cpu   2.1GB
cargo build --release               180%cpu   1.3GB
postgres -D var/db                   6%cpu   420MB
python indexer.py --embed           30%cpu   890MB";

pub const OCTO_PROCS: &'static str = "python orchestrator.py               28%cpu   900MB
python worker.py --id w1..w8    8x 310%cpu   5.6GB
rustc --crate-type lib              220%cpu   2.4GB
postgres -D var/db                   9%cpu   780MB
qdrant                              12%cpu   1.1GB
chromium --headless --render        45%cpu   1.6GB";

pub const TWELVE_PROCS: &'static str = "python orchestrator.py               31%cpu   1.2GB
python worker.py --id w1..w12  12x 520%cpu   9.8GB
python verifier.py --vote 3/5        18%cpu   700MB
cargo build --workspace           340%cpu   3.1GB
docker compose up (5 svc)            60%cpu   2.2GB
chromium --headless --render 2x     90%cpu   3.0GB
python llm_indexer.py --repo        140%cpu  4.4GB
ffmpeg -i cast.mp4                   80%cpu   500MB";

/// The workloads, from one core to twelve.
pub open spec fn workload_table() -> Seq<WorkloadView> {
    seq![
        WorkloadView {
            name: "single-core"@,
            cores: 1,
            agents: 1,
            procs: SINGLE_PROCS@,
            ctx_in: 1_800,
            ctx_out: 220,
            events_hr: 18,
            req_tier: 10,
            freshness_need: 120,
            active: 6,
        },
        WorkloadView {
            name: "dual-core"@,
            cores: 2,
            agents: 2,
            procs: DUAL_PROCS@,
            ctx_in: 2_600,
            ctx_out: 300,
            events_hr: 26,
            req_tier: 20,
            freshness_need: 90,
            active: 7,
        },
        WorkloadView {
            name: "quad-core"@,
            cores: 4,
            agents: 4,
            procs: QUAD_PROCS@,
            ctx_in: 4_200,
            ctx_out: 420,
            events_hr: 40,
            req_tier: 30,
            freshness_need: 60,
            active: 8,
        },
        WorkloadView {
            name: "octo-core"@,
            cores: 8,
            agents: 8,
            procs: OCTO_PROCS@,
            ctx_in: 7_000,
            ctx_out: 600,
            events_hr: 65,
            req_tier: 35,
            freshness_need: 45,
            active: 9,
        },
        WorkloadView {
            name: "12-core"@,
            cores: 12,
            agents: 12,
            procs: TWELVE_PROCS@,
            ctx_in: 11_000,
            ctx_out: 800,
            events_hr: 95,
            req_tier: 40,
            freshness_need: 30,
            active: 10,
        },
    ]
}

/// The bounds within which a model is simulated without loss.
pub open spec fn model_fits(m: ModelView) -> bool {
    m.tier <= u32::MAX && m.ttft <= u32::MAX && m.price_in <= u32::MAX && m.price_out <= u32::MAX
        && m.quality <= u32::MAX && m.verbosity <= u32::MAX && m.variance <= 10_000
}

/// The bounds within which a workload is simulated without loss.
pub open spec fn workload_fits(w: WorkloadView) -> bool {
    w.ctx_in <= u32::MAX && w.ctx_out <= u32::MAX && w.events_hr <= u32::MAX && w.req_tier
        <= u32::MAX && w.freshness_need <= u32::MAX && w.active <= u32::MAX
}

/// Whether a simulation stays within its bounds: those of the model and of the
/// workload, and what a day costs is a number of 64 bits.
pub open spec fn trial_fits(m: ModelView, w: WorkloadView, arch: Arch) -> bool {
    model_fits(m) && workload_fits(w) && cost_of(m, w, arch) <= u64::MAX
}

pub open spec fn models_fit(list: Seq<ModelView>) -> bool {
    forall|i: int| 0 <= i < list.len() ==> model_fits(#[trigger] list[i])
}

pub open spec fn trials_fit(list: Seq<ModelView>, w: WorkloadView, arch: Arch) -> bool {
    forall|i: int| 0 <= i < list.len() ==> trial_fits(#[trigger] list[i], w, arch)
}

/// The bounds that the models of the table keep.
pub open spec fn model_tabled(m: ModelView) -> bool {
    m.tier <= 100 && m.ttft <= 1000 && m.price_in <= 1000 && m.price_out <= 3000 && m.quality
        <= 100 && m.verbosity <= 20 && m.variance <= 50
}

/// The bounds that the workloads of the table keep.
pub open spec fn load_tabled(w: WorkloadView) -> bool {
    w.ctx_in <= 11_000 && w.ctx_out <= 800 && w.events_hr <= 100 && w.req_tier <= 100
        && w.freshness_need <= 1000 && 1 <= w.active <= 10
}

pub open spec fn models_tabled(list: Seq<ModelView>) -> bool {
    forall|i: int| 0 <= i < list.len() ==> model_tabled(#[trigger] list[i])
}

pub open spec fn loads_tabled(list: Seq<WorkloadView>) -> bool {
    forall|i: int| 0 <= i < list.len() ==> load_tabled(#[trigger] list[i])
}

fn push_model(
    out: &mut Vec<Model>,
    id: &'static str,
    tier: u64,
    tok_s: u64,
    ttft: u64,
    price_in: u64,
    price_out: u64,
    quality: u64,
    verbosity: u64,
    variance: u64,
)
    ensures
        model_views(final(out)@) == model_views(old(out)@).push(
            model(
                id@,
                tier as nat,
                tok_s as nat,
                ttft as nat,
                price_in as nat,
                price_out as nat,
                quality as nat,
                verbosity as nat,
                variance as nat,
            ),
        ),
{
    let ghost before = model_views(out@);
    let m: Model = Model {
        id,
        tier,
        tok_s,
        ttft,
        price_in,
        price_out,
        quality,
        verbosity,
        variance,
    };
    out.push(m);
    assert(model_views(out@) =~= before.push(m@));
}

pub fn models() -> (r: Vec<Model>)
    ensures
        model_views(r@) == model_table(),
        models_tabled(model_views(r@)),
{
    let mut out: Vec<Model> = Vec::new();
    push_model(&mut out, "llama-3.1-8b-instant", 10, 840, 22, 50, 80, 42, 9, 10);
    push_model(
        &mut out,
        "meta-llama/llama-4-scout-17b-16e-instruct",
        20,
        594,
        25,
        110,
        340,
        55,
        10,
        7,
    );
    push_model(&mut out, "openai/gpt-oss-20b", 25, 1000, 30, 75, 300, 65, 18, 6);
    push_model(&mut out, "qwen/qwen3-32b", 30, 662, 30, 290, 590, 63, 16, 7);
    push_model(&mut out, "qwen/qwen3.6-27b", 30, 500, 30, 600, 3000, 66, 15, 6);
    push_model(&mut out, "llama-3.3-70b-versatile", 30, 394, 35, 590, 790, 57, 10, 6);
    push_model(&mut out, "openai/gpt-oss-120b", 40, 500, 35, 150, 600, 76, 17, 5);
    push_model(&mut out, "moonshotai/kimi-k2-instruct-0905", 40, 250, 45, 1000, 3000, 79, 14, 5);
    assert(model_views(out@) =~= model_table());
    out
}

fn push_workload(out: &mut Vec<Workload>, w: Workload)
    ensures
        workload_views(final(out)@) == workload_views(old(out)@).push(w@),
{
    let ghost before = workload_views(out@);
    out.push(w);
    assert(workload_views(out@) =~= before.push(w@));
}

pub fn workloads() -> (r: Vec<Workload>)
    ensures
        workload_views(r@) == workload_table(),
        loads_tabled(workload_views(r@)),
{
    let mut out: Vec<Workload> = Vec::new();
    push_workload(
        &mut out,
        Workload {
            name: "single-core",
            cores: 1,
            agents: 1,
            procs: SINGLE_PROCS,
            ctx_in: 1_800,
            ctx_out: 220,
            events_hr: 18,
            req_tier: 10,
            freshness_need: 120,
            active: 6,
        },
    );
    push_workload(
        &mut out,
        Workload {
            name: "dual-core",
            cores: 2,
            agents: 2,
            procs: DUAL_PROCS,
            ctx_in: 2_600,
            ctx_out: 300,
            events_hr: 26,
            req_tier: 20,
            freshness_need: 90,
            active: 7,
        },
    );
    push_workload(
        &mut out,
        Workload {
            name: "quad-core",
            cores: 4,
            agents: 4,
            procs: QUAD_PROCS,
            ctx_in: 4_200,
            ctx_out: 420,
            events_hr: 40,
            req_tier: 30,
            freshness_need: 60,
            active: 8,
        },
    );
    push_workload(
        &mut out,
        Workload {
            name: "octo-core",
            cores: 8,
            agents: 8,
            procs: OCTO_PROCS,
            ctx_in: 7_000,
            ctx_out: 600,
            events_hr: 65,
            req_tier: 35,
            freshness_need: 45,
            active: 9,
        },
    );
    push_workload(
        &mut out,
        Workload {
            name: "12-core",
            cores: 12,
            agents: 12,
            procs: TWELVE_PROCS,
            ctx_in: 11_000,
            ctx_out: 800,
            events_hr: 95,
            req_tier: 40,
            freshness_need: 30,
            active: 10,
        },
    );
    assert(workload_views(out@) =~= workload_table());
    out
}

// ------------------------------------------------------------ the simulation

/// How advice is kept up to date.
#[derive(Debug, Clone, Copy, PartialEq, Eq, Structural)]
pub enum Arch {
    CachedNonStream,
    Streaming,
}

impl Arch {
    pub open spec fn name(self) -> Seq<char> {
        match self {
            Arch::CachedNonStream => "cached-nonstream"@,
            Arch::Streaming => "streaming"@,
        }
    }

    pub fn label(self) -> (r: &'static str)
        ensures
            r@ == self.name(),
    {
        match self {
            Arch::CachedNonStream => "cached-nonstream",
            Arch::Streaming => "streaming",
        }
    }
}

/// The accuracy that a tier demands: errors compound across agents, so bigger
/// fleets need sharper advice.
pub open spec fn needed_at(req_tier: nat) -> int {
    40_000 + 800 * (req_tier - 10)
}

/// How well a model fits a requirement, in thousandths: 15 percent less for
/// each tier below it, and never less than a fifth.
pub open spec fn fit_at(m: ModelView, req_tier: nat) -> nat {
    if m.tier >= req_tier {
        1000
    } else if 1000 - 15 * (req_tier - m.tier) < 200 {
        200
    } else {
        (1000 - 15 * (req_tier - m.tier)) as nat
    }
}

/// The accuracy of a model against a requirement, at most 97 points.
pub open spec fn accuracy_of(m: ModelView, req_tier: nat) -> nat {
    if m.quality * fit_at(m, req_tier) > 97_000 {
        97_000
    } else {
        m.quality * fit_at(m, req_tier)
    }
}

/// The cost of a call.
pub open spec fn cost_of_call(m: ModelView, ctx_in: nat, ctx_out: nat) -> nat {
    ctx_in * m.price_in * 10 + ctx_out * m.verbosity * m.price_out
}

/// Calls an hour: the events and those of the 30 heartbeats that do not fall
/// together with one, at most four fifths of which do; or one every 8 seconds.
pub open spec fn calls_of(w: WorkloadView, arch: Arch) -> nat {
    match arch {
        Arch::CachedNonStream => if w.events_hr > 24 {
            w.events_hr + 6
        } else {
            30
        },
        Arch::Streaming => 450,
    }
}

/// The mean age of advice in seconds, as a fraction: half the mean gap between
/// events and at most half the heartbeat, or half the interval and the time to
/// the first token.
pub open spec fn staleness_of(m: ModelView, w: WorkloadView, arch: Arch) -> (nat, nat) {
    match arch {
        Arch::CachedNonStream => if w.events_hr <= 30 {
            (60, 1)
        } else {
            (1800, w.events_hr)
        },
        Arch::Streaming => (400 + m.ttft, 100),
    }
}

/// How steady the display is: what is cached changes with the events alone,
/// what streams flickers and is rephrased every time. Answers that differ
/// much make it less than nothing.
pub open spec fn stability_of(m: ModelView, w: WorkloadView, arch: Arch) -> int {
    match arch {
        Arch::CachedNonStream => 7680 - (if w.events_hr * 10 > 640 {
            640
        } else {
            w.events_hr * 10
        }) - 24 * m.variance,
        Arch::Streaming => 5920 - 80 * m.variance,
    }
}

/// The stability that is shown, from nothing to 99 percent.
pub open spec fn steadiness_of(m: ModelView, w: WorkloadView, arch: Arch) -> int {
    let s = stability_of(m, w, arch);
    if s < 0 {
        0
    } else if s > 7920 {
        7920
    } else {
        s
    }
}

/// The cost of a day.
pub open spec fn cost_of(m: ModelView, w: WorkloadView, arch: Arch) -> nat {
    calls_of(w, arch) * w.active * cost_of_call(m, w.ctx_in, w.ctx_out)
}

/// How fresh advice is, as a fraction: whole where it meets the need.
pub open spec fn freshness_of(stale: (nat, nat), need: nat) -> (nat, nat) {
    if stale.0 <= need * stale.1 {
        (1, 1)
    } else {
        (need * stale.1, stale.0)
    }
}

/// The parts of the composite score that do not depend on cost or freshness,
/// over 20 million: 45 percent of the accuracy and a quarter of the stability.
pub open spec fn steady_part(m: ModelView, w: WorkloadView, arch: Arch) -> int {
    90 * accuracy_of(m, w.req_tier) + 625 * stability_of(m, w, arch)
}

/// The numerator of the composite score: with 15 percent each of freshness and
/// of cost, which is half where a day costs half a dollar.
pub open spec fn score_num(m: ModelView, w: WorkloadView, arch: Arch) -> int {
    let fresh = freshness_of(staleness_of(m, w, arch), w.freshness_need);
    let d = 5_000_000_000 + cost_of(m, w, arch);
    steady_part(m, w, arch) * fresh.1 * d + 3_000_000 * fresh.0 * d
        + 15_000_000_000_000_000 * fresh.1
}

/// The denominator of the composite score.
pub open spec fn score_den(m: ModelView, w: WorkloadView, arch: Arch) -> int {
    let fresh = freshness_of(staleness_of(m, w, arch), w.freshness_need);
    (fresh.1 * (5_000_000_000 + cost_of(m, w, arch))) as int
}

/// What comes of a model under a workload.
pub struct Outcome {
    pub calls_hr: u64,
    pub accuracy: u64,
    pub stability: u64,
    /// The mean age of advice in seconds, as a fraction.
    pub stale_num: u64,
    pub stale_den: u64,
    pub cost_day: u64,
    /// The composite score as a fraction of 20 million.
    pub cba_num: i128,
    pub cba_den: u128,
    pub pass: bool,
}

#[verifier::ext_equal]
pub struct OutcomeView {
    pub calls_hr: nat,
    pub accuracy: nat,
    pub stability: int,
    pub stale: (nat, nat),
    pub cost_day: nat,
    pub cba_num: int,
    pub cba_den: int,
    pub pass: bool,
}

impl View for Outcome {
    type V = OutcomeView;

    open spec fn view(&self) -> OutcomeView {
        OutcomeView {
            calls_hr: self.calls_hr as nat,
            accuracy: self.accuracy as nat,
            stability: self.stability as int,
            stale: (self.stale_num as nat, self.stale_den as nat),
            cost_day: self.cost_day as nat,
            cba_num: self.cba_num as int,
            cba_den: self.cba_den as int,
            pass: self.pass,
        }
    }
}

/// What comes of a model under a workload and an architecture.
pub open spec fn simulated(m: ModelView, w: WorkloadView, arch: Arch) -> OutcomeView {
    OutcomeView {
        calls_hr: calls_of(w, arch),
        accuracy: accuracy_of(m, w.req_tier),
        stability: steadiness_of(m, w, arch),
        stale: staleness_of(m, w, arch),
        cost_day: cost_of(m, w, arch),
        cba_num: score_num(m, w, arch),
        cba_den: score_den(m, w, arch),
        pass: accuracy_of(m, w.req_tier) >= needed_at(w.req_tier),
    }
}

/// Whether the composite score of an outcome lies within what any model and
/// workload can come to.
pub open spec fn score_fits(o: OutcomeView) -> bool {
    0 < o.cba_den <= 80_000_000_000_000_000_000_000_000_000 && -500_000_000 * o.cba_den
        <= o.cba_num <= 20_000_000 * o.cba_den
}

/// Whether an outcome is within the bounds that those of the tables keep.
pub open spec fn outcome_fits(o: OutcomeView) -> bool {
    0 < o.cba_den <= 2_000_000_000_000_000 && 0 <= o.cba_num
        <= 40_000_000_000_000_000_000_000 && o.cost_day <= 1_000_000_000_000 && o.accuracy
        <= 97_000 && 0 <= o.stability <= 7680 && 0 < o.stale.1 <= 100 && o.stale.0 <= 1800
        && 0 < o.calls_hr <= 450
}

pub proof fn lemma_cost_bound(m: ModelView, w: WorkloadView, arch: Arch)
    requires
        model_tabled(m),
        load_tabled(w),
    ensures
        cost_of_call(m, w.ctx_in, w.ctx_out) <= 158_000_000,
        cost_of(m, w, arch) <= 711_000_000_000,
        calls_of(w, arch) * w.active <= 4500,
{
    assert(w.ctx_in * m.price_in <= 11_000 * 1000) by (nonlinear_arith)
        requires
            w.ctx_in <= 11_000,
            m.price_in <= 1000,
    ;
    assert(w.ctx_out * m.verbosity <= 800 * 20) by (nonlinear_arith)
        requires
            w.ctx_out <= 800,
            m.verbosity <= 20,
    ;
    assert(w.ctx_out * m.verbosity * m.price_out <= 800 * 20 * 3000) by (nonlinear_arith)
        requires
            w.ctx_out * m.verbosity <= 800 * 20,
            m.price_out <= 3000,
    ;
    let calls = calls_of(w, arch);
    assert(calls * w.active <= 450 * 10) by (nonlinear_arith)
        requires
            calls <= 450,
            w.active <= 10,
    ;
    let each = cost_of_call(m, w.ctx_in, w.ctx_out);
    assert((calls * w.active) * each <= 4500 * 158_000_000) by (nonlinear_arith)
        requires
            calls * w.active <= 4500,
            each <= 158_000_000,
    ;
}

/// The accuracy that a tier demands.
pub fn req_accuracy_tier(req_tier: u64) -> (r: u64)
    requires
        req_tier <= u32::MAX,
    ensures
        r == needed_at(req_tier as nat),
{
    32_000 + 800 * req_tier
}

/// The accuracy of a model against a requirement.
pub fn accuracy_at(m: &Model, req_tier: u64) -> (r: u64)
    requires
        model_fits(m@),
    ensures
        r == accuracy_of(m@, req_tier as nat),
        r <= 97_000,
{
    let fit: u64 = if m.tier >= req_tier {
        1000
    } else if req_tier - m.tier > 53 {
        200
    } else {
        1000 - 15 * (req_tier - m.tier)
    };
    assert(fit == fit_at(m@, req_tier as nat));
    assert(m.quality * fit <= u32::MAX * 1000) by (nonlinear_arith)
        requires
            m.quality <= u32::MAX,
            fit <= 1000,
    ;
    let a: u64 = m.quality * fit;
    if a > 97_000 {
        97_000
    } else {
        a
    }
}

/// The cost of a supervision call.
pub fn call_cost(m: &Model, ctx_in: u64, ctx_out: u64) -> (r: u128)
    requires
        model_fits(m@),
        ctx_in <= u32::MAX,
        ctx_out <= u32::MAX,
    ensures
        r == cost_of_call(m@, ctx_in as nat, ctx_out as nat),
{
    assert(ctx_in * m.price_in <= u32::MAX * u32::MAX) by (nonlinear_arith)
        requires
            ctx_in <= u32::MAX,
            m.price_in <= u32::MAX,
    ;
    assert(ctx_out * m.verbosity <= u32::MAX * u32::MAX) by (nonlinear_arith)
        requires
            ctx_out <= u32::MAX,
            m.verbosity <= u32::MAX,
    ;
    assert(ctx_out * m.verbosity * m.price_out <= u32::MAX * u32::MAX * u32::MAX)
        by (nonlinear_arith)
        requires
            ctx_out * m.verbosity <= u32::MAX * u32::MAX,
            m.price_out <= u32::MAX,
    ;
    ctx_in as u128 * m.price_in as u128 * 10 + ctx_out as u128 * m.verbosity as u128
        * m.price_out as u128
}

/// What a day costs.
fn day_cost(m: &Model, w: &Workload, calls: u64) -> (r: u64)
    requires
        model_fits(m@),
        workload_fits(w@),
        calls <= u32::MAX + 6,
        calls * w.active * cost_of_call(m@, w.ctx_in as nat, w.ctx_out as nat) <= u64::MAX,
    ensures
        r == calls * w.active * cost_of_call(m@, w.ctx_in as nat, w.ctx_out as nat),
{
    assert(calls * w.active <= (u32::MAX + 6) * u32::MAX) by (nonlinear_arith)
        requires
            calls <= u32::MAX + 6,
            w.active <= u32::MAX,
    ;
    let hours: u128 = calls as u128 * w.active as u128;
    (hours * call_cost(m, w.ctx_in, w.ctx_out)) as u64
}

/// The bounds of a composite score.
proof fn lemma_score_bound(steady: int, fresh: (int, int), d: int)
    requires
        -500_000_000 <= steady <= 13_530_000,
        0 <= fresh.0 <= fresh.1,
        0 < fresh.1 <= 4_294_967_695,
        5_000_000_000 <= d <= 18_446_744_078_709_551_615,
    ensures
        ({
            let den = fresh.1 * d;
            let num = steady * fresh.1 * d + 3_000_000 * fresh.0 * d + 15_000_000_000_000_000
                * fresh.1;
            &&& 0 < den <= 80_000_000_000_000_000_000_000_000_000
            &&& -500_000_000 * den <= num <= 20_000_000 * den
            &&& -500_000_000 * den <= steady * fresh.1 * d <= 13_530_000 * den
            &&& -500_000_000 * fresh.1 <= steady * fresh.1 <= 13_530_000 * fresh.1
            &&& 0 <= 3_000_000 * fresh.0 * d <= 3_000_000 * den
            &&& 0 <= 15_000_000_000_000_000 * fresh.1 <= 3_000_000 * den
        }),
{
    let f = fresh.1;
    let g = fresh.0;
    let den = f * d;
    assert(0 < f * d <= 4_294_967_695 * 18_446_744_078_709_551_615) by (nonlinear_arith)
        requires
            0 < f <= 4_294_967_695,
            0 < d <= 18_446_744_078_709_551_615,
    ;
    assert(steady * f * d == steady * (f * d)) by (nonlinear_arith);
    assert(-500_000_000 * den <= steady * den <= 13_530_000 * den) by (nonlinear_arith)
        requires
            -500_000_000 <= steady <= 13_530_000,
            den > 0,
    ;
    assert(-500_000_000 * f <= steady * f <= 13_530_000 * f) by (nonlinear_arith)
        requires
            -500_000_000 <= steady <= 13_530_000,
            f > 0,
    ;
    assert(0 <= 3_000_000 * g * d <= 3_000_000 * (f * d)) by (nonlinear_arith)
        requires
            0 <= g <= f,
            d > 0,
    ;
    assert(15_000_000_000_000_000 * f <= 3_000_000 * (f * d)) by (nonlinear_arith)
        requires
            f > 0,
            d >= 5_000_000_000,
    ;
}

/// What comes of the tables is small.
proof fn lemma_tabled(m: ModelView, w: WorkloadView, arch: Arch)
    requires
        model_tabled(m),
        load_tabled(w),
    ensures
        trial_fits(m, w, arch),
        outcome_fits(simulated(m, w, arch)),
        simulated(m, w, arch).stability == stability_of(m, w, arch),
{
    lemma_cost_bound(m, w, arch);
    let stale = staleness_of(m, w, arch);
    let fresh = freshness_of(stale, w.freshness_need);
    let d = 5_000_000_000 + cost_of(m, w, arch) as int;
    let steady = steady_part(m, w, arch);
    let f = fresh.1 as int;
    let g = fresh.0 as int;
    assert(0 < f <= 1800 && 0 <= g <= f) by {
        assert(w.freshness_need * stale.1 >= 0) by (nonlinear_arith)
            requires
                w.freshness_need >= 0,
                stale.1 >= 0,
        ;
    }
    assert(0 <= steady <= 13_530_000);
    assert(0 < f * d <= 1800 * 716_000_000_000) by (nonlinear_arith)
        requires
            0 < f <= 1800,
            0 < d <= 716_000_000_000,
    ;
    assert(0 <= steady * f <= 13_530_000 * 1800) by (nonlinear_arith)
        requires
            0 <= steady <= 13_530_000,
            0 < f <= 1800,
    ;
    assert(0 <= steady * f * d <= 13_530_000 * 1800 * 716_000_000_000) by (nonlinear_arith)
        requires
            0 <= steady * f <= 13_530_000 * 1800,
            0 < d <= 716_000_000_000,
    ;
    assert(0 <= 3_000_000 * g * d <= 3_000_000 * 1800 * 716_000_000_000) by (nonlinear_arith)
        requires
            0 <= g <= 1800,
            0 < d <= 716_000_000_000,
    ;
}

proof fn lemma_trials_tabled(list: Seq<ModelView>, w: WorkloadView, arch: Arch)
    requires
        models_tabled(list),
        load_tabled(w),
    ensures
        trials_fit(list, w, arch),
{
    assert forall|i: int| 0 <= i < list.len() implies trial_fits(#[trigger] list[i], w, arch) by {
        assert(model_tabled(list[i]));
        lemma_tabled(list[i], w, arch);
    }
}

/// What comes of a model under a workload and an architecture.
pub fn simulate(m: &Model, w: &Workload, arch: Arch) -> (r: Outcome)
    requires
        trial_fits(m@, w@, arch),
    ensures
        r@ == simulated(m@, w@, arch),
        score_fits(r@),
        model_tabled(m@) && load_tabled(w@) ==> outcome_fits(r@),
{
    let calls: u64 = match arch {
        Arch::CachedNonStream => if w.events_hr > 24 {
            w.events_hr + 6
        } else {
            30
        },
        Arch::Streaming => 450,
    };
    let (stale_num, stale_den): (u64, u64) = match arch {
        Arch::CachedNonStream => if w.events_hr <= 30 {
            (60, 1)
        } else {
            (1800, w.events_hr)
        },
        Arch::Streaming => (400 + m.ttft, 100),
    };
    let churn: u64 = if w.events_hr * 10 > 640 {
        640
    } else {
        w.events_hr * 10
    };
    let stability: i64 = match arch {
        Arch::CachedNonStream => 7680 - churn as i64 - 24 * m.variance as i64,
        Arch::Streaming => 5920 - 80 * m.variance as i64,
    };
    let cost: u64 = day_cost(m, w, calls);
    let accuracy: u64 = accuracy_at(m, w.req_tier);
    assert(w.freshness_need * stale_den <= u32::MAX * u32::MAX) by (nonlinear_arith)
        requires
            w.freshness_need <= u32::MAX,
            stale_den <= u32::MAX,
    ;
    let (fresh_num, fresh_den): (u64, u64) = if stale_num <= w.freshness_need * stale_den {
        (1, 1)
    } else {
        (w.freshness_need * stale_den, stale_num)
    };
    let d: i128 = 5_000_000_000 + cost as i128;
    let steady: i128 = 90 * accuracy as i128 + 625 * stability as i128;
    let fresh_n: i128 = fresh_num as i128;
    let fresh_d: i128 = fresh_den as i128;
    proof {
        lemma_score_bound(steady as int, (fresh_n as int, fresh_d as int), d as int);
        if model_tabled(m@) && load_tabled(w@) {
            lemma_tabled(m@, w@, arch);
        }
    }
    let num: i128 = steady * fresh_d * d + 3_000_000 * fresh_n * d + 15_000_000_000_000_000
        * fresh_d;
    let den: u128 = (fresh_d * d) as u128;
    Outcome {
        calls_hr: calls,
        accuracy,
        stability: if stability < 0 {
            0
        } else {
            stability as u64
        },
        stale_num,
        stale_den,
        cost_day: cost,
        cba_num: num,
        cba_den: den,
        pass: accuracy >= req_accuracy_tier(w.req_tier),
    }
}

// ------------------------------------------------------------ choosing

/// A model and what comes of it.
pub struct Ranked {
    pub model: Model,
    pub out: Outcome,
}

pub open spec fn pair_view(r: Ranked) -> (ModelView, OutcomeView) {
    (r.model@, r.out@)
}

pub open spec fn pair_views(v: Seq<Ranked>) -> Seq<(ModelView, OutcomeView)> {
    v.map_values(|r: Ranked| pair_view(r))
}

/// What comes of each model.
pub open spec fn trials(list: Seq<ModelView>, w: WorkloadView, arch: Arch) -> Seq<
    (ModelView, OutcomeView),
> {
    list.map_values(|m: ModelView| (m, simulated(m, w, arch)))
}

/// Whether a composite score is above another. Scores have positive
/// denominators; what has none stands behind all that have one.
pub open spec fn scores_above(a: OutcomeView, b: OutcomeView) -> bool {
    if a.cba_den > 0 && b.cba_den > 0 {
        a.cba_num * b.cba_den > b.cba_num * a.cba_den
    } else {
        a.cba_den > 0 && b.cba_den <= 0
    }
}

/// `scores_above` as a relation.
pub open spec fn by_score() -> spec_fn(
    (ModelView, OutcomeView),
    (ModelView, OutcomeView),
) -> bool {
    |a: (ModelView, OutcomeView), b: (ModelView, OutcomeView)| scores_above(a.1, b.1)
}

/// The models by composite score, the best first.
pub open spec fn ranking(list: Seq<ModelView>, w: WorkloadView, arch: Arch) -> Seq<
    (ModelView, OutcomeView),
> {
    let all = trials(list, w, arch);
    arranged(all, ranked(all, by_score()))
}

fn try_all(list: &Vec<Model>, w: &Workload, arch: Arch) -> (r: Vec<Ranked>)
    requires
        trials_fit(model_views(list@), w@, arch),
    ensures
        pair_views(r@) == trials(model_views(list@), w@, arch),
        forall|i: int| 0 <= i < r@.len() ==> score_fits((#[trigger] r@[i]).out@),
        models_tabled(model_views(list@)) && load_tabled(w@) ==> forall|i: int|
            0 <= i < r@.len() ==> outcome_fits((#[trigger] r@[i]).out@),
{
    let ghost all = model_views(list@);
    let ghost want = trials(all, w@, arch);
    let mut out: Vec<Ranked> = Vec::new();
    let mut i: usize = 0;
    assert(pair_views(out@) =~= want.take(0));
    while i < list.len()
        invariant
            i <= list.len(),
            all == model_views(list@),
            trials_fit(all, w@, arch),
            want == trials(all, w@, arch),
            pair_views(out@) == want.take(i as int),
            forall|j: int| 0 <= j < out@.len() ==> score_fits((#[trigger] out@[j]).out@),
            models_tabled(all) && load_tabled(w@) ==> forall|j: int|
                0 <= j < out@.len() ==> outcome_fits((#[trigger] out@[j]).out@),
        decreases list.len() - i,
    {
        let ghost before = pair_views(out@);
        assert(all[i as int] == list@[i as int]@);
        assert(trial_fits(all[i as int], w@, arch));
        let r: Ranked = Ranked { model: list[i], out: simulate(&list[i], w, arch) };
        out.push(r);
        proof {
            assert(pair_views(out@) =~= before.push(pair_view(r)));
            assert(want.take(i as int + 1) =~= want.take(i as int).push(want[i as int]));
        }
        i = i + 1;
    }
    assert(want.take(i as int) =~= want);
    out
}

fn above(a: &Outcome, b: &Outcome) -> (r: bool)
    requires
        score_fits(a@),
        score_fits(b@),
    ensures
        r == scores_above(a@, b@),
{
    // both numerators are moved above zero by as much of their denominators
    let x: u128 = (a.cba_num + 500_000_000 * a.cba_den as i128) as u128;
    let y: u128 = (b.cba_num + 500_000_000 * b.cba_den as i128) as u128;
    proof {
        let (p, q) = (a.cba_num as int, a.cba_den as int);
        let (u, v) = (b.cba_num as int, b.cba_den as int);
        assert((p + 500_000_000 * q) * v == p * v + 500_000_000 * (q * v)) by (nonlinear_arith);
        assert((u + 500_000_000 * v) * q == u * q + 500_000_000 * (q * v)) by (nonlinear_arith);
    }
    exceeds(x, a.cba_den, y, b.cba_den)
}

fn rank_trials(list: &Vec<Ranked>) -> (r: Vec<usize>)
    requires
        forall|i: int| 0 <= i < list@.len() ==> score_fits((#[trigger] list@[i]).out@),
    ensures
        indices(r@) == ranked(pair_views(list@), by_score()),
        r@.len() == list@.len(),
        forall|i: int| 0 <= i < r@.len() ==> 0 <= #[trigger] r@[i] < list@.len(),
{
    let mut out: Vec<usize> = Vec::new();
    let mut i: usize = 0;
    let ghost all = pair_views(list@);
    assert(indices(out@) =~= ranked(all.take(0), by_score()));
    while i < list.len()
        invariant
            i <= list.len(),
            all == pair_views(list@),
            forall|j: int| 0 <= j < list@.len() ==> score_fits((#[trigger] list@[j]).out@),
            out@.len() == i,
            forall|j: int| 0 <= j < out@.len() ==> 0 <= #[trigger] out@[j] < i,
            indices(out@) == ranked(all.take(i as int), by_score()),
        decreases list.len() - i,
    {
        let ghost r = indices(out@);
        let ghost now = all.take(i as int + 1);
        let mut p: usize = 0;
        while p < out.len() && !above(&list[i].out, &list[out[p]].out)
            invariant
                p <= out.len(),
                i < list.len(),
                all == pair_views(list@),
                forall|j: int| 0 <= j < list@.len() ==> score_fits((#[trigger] list@[j]).out@),
                r == indices(out@),
                now == all.take(i as int + 1),
                forall|j: int| 0 <= j < out@.len() ==> 0 <= #[trigger] out@[j] < i,
                slot(now, by_score(), r, i as int, 0) == slot(
                    now,
                    by_score(),
                    r,
                    i as int,
                    p as int,
                ),
            decreases out.len() - p,
        {
            assert(r[p as int] == out@[p as int]);
            p = p + 1;
        }
        assert(p < out@.len() ==> r[p as int] == out@[p as int]);
        assert(now.drop_last() =~= all.take(i as int));
        out.insert(p, i);
        assert(indices(out@) =~= r.insert(p as int, i as int));
        i = i + 1;
    }
    assert(all.take(i as int) =~= all);
    out
}

fn copy_ranked(r: &Ranked) -> (s: Ranked)
    ensures
        pair_view(s) == pair_view(*r),
{
    let o: &Outcome = &r.out;
    Ranked {
        model: r.model,
        out: Outcome {
            calls_hr: o.calls_hr,
            accuracy: o.accuracy,
            stability: o.stability,
            stale_num: o.stale_num,
            stale_den: o.stale_den,
            cost_day: o.cost_day,
            cba_num: o.cba_num,
            cba_den: o.cba_den,
            pass: o.pass,
        },
    }
}

/// The models by composite score, the best first.
pub fn rank(list: &Vec<Model>, w: &Workload, arch: Arch) -> (r: Vec<Ranked>)
    requires
        trials_fit(model_views(list@), w@, arch),
    ensures
        pair_views(r@) == ranking(model_views(list@), w@, arch),
        r@.len() == list@.len(),
        models_tabled(model_views(list@)) && load_tabled(w@) ==> forall|i: int|
            0 <= i < r@.len() ==> outcome_fits((#[trigger] r@[i]).out@),
{
    let all: Vec<Ranked> = try_all(list, w, arch);
    assert(pair_views(all@).len() == list@.len());
    let order: Vec<usize> = rank_trials(&all);
    let ghost views = pair_views(all@);
    let ghost want = indices(order@);
    let ghost small = models_tabled(model_views(list@)) && load_tabled(w@);
    let mut out: Vec<Ranked> = Vec::new();
    let mut i: usize = 0;
    while i < order.len()
        invariant
            i <= order.len(),
            views == pair_views(all@),
            want == indices(order@),
            forall|j: int| 0 <= j < order@.len() ==> 0 <= #[trigger] order@[j] < all@.len(),
            small ==> forall|j: int|
                0 <= j < all@.len() ==> outcome_fits((#[trigger] all@[j]).out@),
            small ==> forall|j: int|
                0 <= j < out@.len() ==> outcome_fits((#[trigger] out@[j]).out@),
            out@.len() == i,
            pair_views(out@) == arranged(views, want.take(i as int)),
        decreases order.len() - i,
    {
        let ghost before = pair_views(out@);
        let r: Ranked = copy_ranked(&all[order[i]]);
        out.push(r);
        proof {
            assert(want[i as int] == order@[i as int]);
            assert(arranged(views, want.take(i as int + 1)) =~= arranged(
                views,
                want.take(i as int),
            ).push(views[want[i as int]]));
            assert(pair_views(out@) =~= before.push(pair_view(r)));
        }
        i = i + 1;
    }
    assert(want.take(i as int) =~= want);
    out
}

/// The first place of the lowest cost among those that pass.
pub open spec fn cheapest_at(list: Seq<(ModelView, OutcomeView)>) -> Option<int>
    decreases list.len(),
{
    if list.len() == 0 {
        None
    } else {
        let last = list.last().1;
        match cheapest_at(list.drop_last()) {
            Some(k) => if last.pass && last.cost_day < list[k].1.cost_day {
                Some(list.len() - 1)
            } else {
                Some(k)
            },
            None => if last.pass {
                Some(list.len() - 1)
            } else {
                None
            },
        }
    }
}

/// The cheapest model that passes under a workload and an architecture.
pub open spec fn cheapest_of(list: Seq<ModelView>, w: WorkloadView, arch: Arch) -> Option<
    (ModelView, OutcomeView),
> {
    match cheapest_at(trials(list, w, arch)) {
        Some(k) => Some(trials(list, w, arch)[k]),
        None => None,
    }
}

proof fn lemma_cheapest(list: Seq<(ModelView, OutcomeView)>)
    ensures
        cheapest_at(list) matches Some(k) ==> 0 <= k < list.len() && list[k].1.pass,
        cheapest_at(list) matches Some(k) ==> forall|i: int|
            0 <= i < list.len() && (#[trigger] list[i]).1.pass ==> list[k].1.cost_day
                <= list[i].1.cost_day,
        cheapest_at(list) is None ==> forall|i: int|
            0 <= i < list.len() ==> !(#[trigger] list[i]).1.pass,
    decreases list.len(),
{
    if list.len() > 0 {
        let head = list.drop_last();
        lemma_cheapest(head);
        assert forall|i: int| 0 <= i < head.len() implies #[trigger] list[i] == head[i] by {}
    }
}

/// The cheapest model that passes.
pub fn cheapest_pass(list: &Vec<Model>, w: &Workload, arch: Arch) -> (r: Option<Ranked>)
    requires
        trials_fit(model_views(list@), w@, arch),
    ensures
        (match r {
            Some(x) => Some(pair_view(x)),
            None => None,
        }) == cheapest_of(model_views(list@), w@, arch),
        r matches Some(x) ==> x.out.pass && x.out@ == simulated(x.model@, w@, arch),
        models_tabled(model_views(list@)) && load_tabled(w@) ==> (r matches Some(x)
            ==> outcome_fits(x.out@) && model_tabled(x.model@)),
{
    let all: Vec<Ranked> = try_all(list, w, arch);
    let ghost views = pair_views(all@);
    let ghost given = model_views(list@);
    let mut best: Option<usize> = None;
    let mut i: usize = 0;
    assert(views.take(0) =~= Seq::empty());
    while i < all.len()
        invariant
            i <= all.len(),
            views == pair_views(all@),
            best matches Some(k) ==> k < i,
            best is Some <==> cheapest_at(views.take(i as int)) is Some,
            best matches Some(k) ==> cheapest_at(views.take(i as int)) == Some(k as int),
        decreases all.len() - i,
    {
        proof {
            assert(views.take(i as int + 1).drop_last() =~= views.take(i as int));
            assert(views.take(i as int + 1).last() == pair_view(all@[i as int]));
            if let Some(k) = best {
                assert(views.take(i as int + 1)[k as int] == pair_view(all@[k as int]));
            }
        }
        if all[i].out.pass {
            match best {
                Some(k) => {
                    if all[i].out.cost_day < all[k].out.cost_day {
                        best = Some(i);
                    }
                },
                None => {
                    best = Some(i);
                },
            }
        }
        i = i + 1;
    }
    assert(views.take(i as int) =~= views);
    match best {
        None => None,
        Some(k) => {
            proof {
                lemma_cheapest(views);
                assert(views[k as int] == pair_view(all@[k as int]));
                assert(given[k as int] == views[k as int].0);
                if models_tabled(given) && load_tabled(w@) {
                    assert(model_tabled(given[k as int]));
                    assert(outcome_fits(all@[k as int].out@));
                }
            }
            Some(copy_ranked(&all[k]))
        },
    }
}

/// The first place of the lowest cost of a call among the models that clear
/// the bar of a tier.
pub open spec fn cheapest_caller(
    list: Seq<ModelView>,
    req_tier: nat,
    ctx_in: nat,
    ctx_out: nat,
) -> Option<int>
    decreases list.len(),
{
    if list.len() == 0 {
        None
    } else {
        let m = list.last();
        let clears = accuracy_of(m, req_tier) >= needed_at(req_tier);
        match cheapest_caller(list.drop_last(), req_tier, ctx_in, ctx_out) {
            Some(k) => if clears && cost_of_call(m, ctx_in, ctx_out) < cost_of_call(
                list[k],
                ctx_in,
                ctx_out,
            ) {
                Some(list.len() - 1)
            } else {
                Some(k)
            },
            None => if clears {
                Some(list.len() - 1)
            } else {
                None
            },
        }
    }
}

/// The cheapest model to call that clears the bar of a tier.
pub fn cheapest_passing(list: &Vec<Model>, req_tier: u64, ctx_in: u64, ctx_out: u64) -> (r: Option<
    usize,
>)
    requires
        models_fit(model_views(list@)),
        req_tier <= u32::MAX,
        ctx_in <= u32::MAX,
        ctx_out <= u32::MAX,
    ensures
        r is Some <==> cheapest_caller(
            model_views(list@),
            req_tier as nat,
            ctx_in as nat,
            ctx_out as nat,
        ) is Some,
        r matches Some(k) ==> k < list@.len() && cheapest_caller(
            model_views(list@),
            req_tier as nat,
            ctx_in as nat,
            ctx_out as nat,
        ) == Some(k as int),
{
    let need: u64 = req_accuracy_tier(req_tier);
    let ghost views = model_views(list@);
    let mut best: Option<usize> = None;
    let mut i: usize = 0;
    assert(views.take(0) =~= Seq::empty());
    while i < list.len()
        invariant
            i <= list.len(),
            views == model_views(list@),
            models_fit(views),
            req_tier <= u32::MAX,
            ctx_in <= u32::MAX,
            ctx_out <= u32::MAX,
            need == needed_at(req_tier as nat),
            best matches Some(k) ==> k < i,
            best is Some <==> cheapest_caller(
                views.take(i as int),
                req_tier as nat,
                ctx_in as nat,
                ctx_out as nat,
            ) is Some,
            best matches Some(k) ==> cheapest_caller(
                views.take(i as int),
                req_tier as nat,
                ctx_in as nat,
                ctx_out as nat,
            ) == Some(k as int),
        decreases list.len() - i,
    {
        proof {
            assert(views.take(i as int + 1).drop_last() =~= views.take(i as int));
            assert(views.take(i as int + 1).last() == list@[i as int]@);
            assert(model_fits(views[i as int]));
            if let Some(k) = best {
                assert(views.take(i as int + 1)[k as int] == list@[k as int]@);
                assert(model_fits(views[k as int]));
            }
        }
        if accuracy_at(&list[i], req_tier) >= need {
            match best {
                Some(k) => {
                    if call_cost(&list[i], ctx_in, ctx_out) < call_cost(
                        &list[k],
                        ctx_in,
                        ctx_out,
                    ) {
                        best = Some(i);
                    }
                },
                None => {
                    best = Some(i);
                },
            }
        }
        i = i + 1;
    }
    assert(views.take(i as int) =~= views);
    best
}

/// Whether the invariants hold that make the benchmark mean something: what is
/// the first that does not, in the order of the workloads.
pub open spec fn fault_in(
    list: Seq<ModelView>,
    loads: Seq<WorkloadView>,
) -> Option<Seq<char>>
    decreases loads.len(),
{
    if loads.len() == 0 {
        None
    } else {
        let w = loads[0];
        match cheapest_of(list, w, Arch::CachedNonStream) {
            None => Some(w.name + ": no cached-nonstream model passes"@),
            Some(a) => if cost_of(a.0, w, Arch::Streaming) <= a.1.cost_day {
                Some(w.name + ": streaming not more expensive — sim bug"@)
            } else if a.1.stale.0 > w.freshness_need * a.1.stale.1 {
                Some(w.name + ": cached staleness violates freshness need"@)
            } else if a.1.accuracy < needed_at(w.req_tier) {
                Some(w.name + ": cached recommendation below threshold"@)
            } else {
                fault_in(list, loads.drop_first())
            },
        }
    }
}

fn fault(list: &Vec<Model>, loads: &Vec<Workload>) -> (r: Option<String>)
    requires
        models_tabled(model_views(list@)),
        loads_tabled(workload_views(loads@)),
    ensures
        opt_text(r) == fault_in(model_views(list@), workload_views(loads@)),
        r is None ==> forall|i: int|
            0 <= i < loads@.len() ==> cheapest_of(
                model_views(list@),
                (#[trigger] loads@[i])@,
                Arch::CachedNonStream,
            ) is Some,
{
    let ghost views = model_views(list@);
    let ghost all = workload_views(loads@);
    let mut i: usize = 0;
    assert(all.skip(0) =~= all);
    while i < loads.len()
        invariant
            i <= loads.len(),
            views == model_views(list@),
            all == workload_views(loads@),
            models_tabled(views),
            loads_tabled(all),
            fault_in(views, all) == fault_in(views, all.skip(i as int)),
            forall|j: int|
                0 <= j < i ==> cheapest_of(
                    views,
                    (#[trigger] loads@[j])@,
                    Arch::CachedNonStream,
                ) is Some,
        decreases loads.len() - i,
    {
        proof {
            assert(all.skip(i as int)[0] == loads@[i as int]@);
            assert(all[i as int] == loads@[i as int]@);
            assert(load_tabled(all[i as int]));
            lemma_trials_tabled(views, all[i as int], Arch::CachedNonStream);
        }
        let w: Workload = loads[i];
        match cheapest_pass(list, &w, Arch::CachedNonStream) {
            None => {
                return Some(cat2(w.name, ": no cached-nonstream model passes"));
            },
            Some(a) => {
                proof {
                    lemma_tabled(a.model@, w@, Arch::Streaming);
                }
                let b: Outcome = simulate(&a.model, &w, Arch::Streaming);
                if b.cost_day <= a.out.cost_day {
                    return Some(cat2(w.name, ": streaming not more expensive — sim bug"));
                }
                assert(w.freshness_need * a.out.stale_den <= 1000 * 100) by (nonlinear_arith)
                    requires
                        w.freshness_need <= 1000,
                        a.out.stale_den <= 100,
                ;
                if a.out.stale_num > w.freshness_need * a.out.stale_den {
                    return Some(cat2(w.name, ": cached staleness violates freshness need"));
                }
                if a.out.accuracy < req_accuracy_tier(w.req_tier) {
                    return Some(cat2(w.name, ": cached recommendation below threshold"));
                }
            },
        }
        assert(all.skip(i as int).drop_first() =~= all.skip(i as int + 1));
        i = i + 1;
    }
    assert(all.skip(i as int) =~= Seq::empty());
    None
}

/// What is wrong with the benchmark: a fault of a workload, or that the
/// largest workload needs no larger a model than the smallest.
pub open spec fn check_error(list: Seq<ModelView>, loads: Seq<WorkloadView>) -> Option<Seq<char>> {
    match fault_in(list, loads) {
        Some(e) => Some(e),
        None => {
            let first = cheapest_of(list, loads[0], Arch::CachedNonStream)->0;
            let last = cheapest_of(list, loads[4], Arch::CachedNonStream)->0;
            if last.0.tier <= first.0.tier {
                Some("no tier escalation between single and 12-core"@)
            } else {
                None
            }
        },
    }
}

/// The invariants that make the benchmark mean something.
pub fn check() -> (r: Result<(), String>)
    ensures
        match check_error(model_table(), workload_table()) {
            Some(e) => r matches Err(m) && m@ == e,
            None => r is Ok,
        },
{
    let list: Vec<Model> = models();
    let loads: Vec<Workload> = workloads();
    let ghost all = workload_views(loads@);
    assert(all.len() == loads@.len());
    match fault(&list, &loads) {
        Some(e) => Err(e),
        None => {
            proof {
                assert(all[0] == loads@[0]@ && all[4] == loads@[4]@);
                assert(load_tabled(all[0]) && load_tabled(all[4]));
                lemma_trials_tabled(model_views(list@), all[0], Arch::CachedNonStream);
                lemma_trials_tabled(model_views(list@), all[4], Arch::CachedNonStream);
            }
            let small: Option<Ranked> = cheapest_pass(&list, &loads[0], Arch::CachedNonStream);
            let large: Option<Ranked> = cheapest_pass(&list, &loads[4], Arch::CachedNonStream);
            match (small, large) {
                (Some(a), Some(b)) => {
                    if b.model.tier <= a.model.tier {
                        return Err(owned("no tier escalation between single and 12-core"));
                    }
                    Ok(())
                },
                _ => Ok(()),
            }
        },
    }
}

// ------------------------------------------------------------ the report

/// The lines, each with its line end.
pub open spec fn written(list: Seq<Seq<char>>) -> Seq<char>
    decreases list.len(),
{
    if list.len() == 0 {
        Seq::empty()
    } else {
        written(list.drop_last()) + list.last() + "\n"@
    }
}

fn write_all(list: &Vec<String>) -> (r: String)
    ensures
        r@ == written(texts(list@)),
{
    let ghost all = texts(list@);
    let mut s: String = String::new();
    let mut i: usize = 0;
    assert(s@ =~= written(all.take(0)));
    while i < list.len()
        invariant
            i <= list.len(),
            all == texts(list@),
            s@ == written(all.take(i as int)),
        decreases list.len() - i,
    {
        proof {
            assert(all.take(i as int + 1).drop_last() =~= all.take(i as int));
            assert(all.take(i as int + 1).last() == list@[i as int]@);
        }
        s.append(list[i].as_str());
        s.append("\n");
        i = i + 1;
    }
    assert(all.take(i as int) =~= all);
    s
}

/// An amount of money, to four places where it is less than a cent. What lies
/// halfway between two goes to the even one where it is a whole number of
/// eighths of a dollar, and to the higher otherwise: half a unit is added to
/// it, which moves nothing else.
pub open spec fn money_text(cost: nat) -> Seq<char> {
    if cost < 100_000_000 {
        "$"@ + ratio_text(2 * cost + 1, 20_000_000_000, 4)
    } else if cost % 1_250_000_000 == 0 {
        "$"@ + ratio_text(cost, 10_000_000_000, 2)
    } else {
        "$"@ + ratio_text(2 * cost + 1, 20_000_000_000, 2)
    }
}

pub fn money(cost: u64) -> (r: String)
    ensures
        r@ == money_text(cost as nat),
{
    if cost < 100_000_000 {
        cat2("$", ratio(2 * cost as u128 + 1, 20_000_000_000, 4).as_str())
    } else if cost % 1_250_000_000 == 0 {
        cat2("$", ratio(cost as u128, 10_000_000_000, 2).as_str())
    } else {
        cat2("$", ratio(2 * cost as u128 + 1, 20_000_000_000, 2).as_str())
    }
}

/// A heading of the first level.
pub open spec fn h1_text(t: Seq<char>, md: bool) -> Seq<char> {
    if md {
        "\n## "@ + t + "\n"@
    } else {
        let pad = if bytes_in(t) < 60 {
            (60 - bytes_in(t)) as nat
        } else {
            0
        };
        "\n== "@ + t + " "@ + repeated('=', pad) + "\n"@
    }
}

fn h1(t: &str, md: bool) -> (r: String)
    ensures
        r@ == h1_text(t@, md),
{
    if md {
        cat3("\n## ", t, "\n")
    } else {
        let n: usize = byte_len(t);
        let pad: usize = if n < 60 {
            60 - n
        } else {
            0
        };
        cat5("\n== ", t, " ", repeat('=', pad).as_str(), "\n")
    }
}

/// A heading of the second level.
pub open spec fn h2_text(t: Seq<char>, md: bool) -> Seq<char> {
    if md {
        "\n### "@ + t + "\n"@
    } else {
        "\n-- "@ + t + "\n"@
    }
}

fn h2(t: &str, md: bool) -> (r: String)
    ensures
        r@ == h2_text(t@, md),
{
    if md {
        cat3("\n### ", t, "\n")
    } else {
        cat3("\n-- ", t, "\n")
    }
}

pub open spec fn code_text(t: Seq<char>, md: bool) -> Seq<char> {
    if md {
        "```\n"@ + t + "\n```"@
    } else {
        t
    }
}

fn code(t: &str, md: bool) -> (r: String)
    ensures
        r@ == code_text(t@, md),
{
    if md {
        cat3("```\n", t, "\n```")
    } else {
        owned(t)
    }
}

/// A row of cells: between bars in markdown, with spaces between otherwise.
pub open spec fn row_text(cells: Seq<Seq<char>>, md: bool) -> Seq<char> {
    if md {
        "| "@ + joined(cells, " | "@) + " |"@
    } else {
        joined(cells, " "@)
    }
}

fn row(cells: &Vec<String>, md: bool) -> (r: String)
    ensures
        r@ == row_text(texts(cells@), md),
{
    if md {
        cat3("| ", join(cells, " | ").as_str(), " |")
    } else {
        join(cells, " ")
    }
}

/// A cell flush left: as it is in markdown, filled up otherwise.
pub open spec fn left_cell(s: Seq<char>, w: nat, md: bool) -> Seq<char> {
    if md {
        s
    } else {
        padded_right(s, w)
    }
}

/// A cell flush right: as it is in markdown, filled up otherwise.
pub open spec fn right_cell(s: Seq<char>, w: nat, md: bool) -> Seq<char> {
    if md {
        s
    } else {
        padded_left(s, w, ' ')
    }
}

/// The name of a model: quoted in markdown.
pub open spec fn id_text(id: Seq<char>, md: bool) -> Seq<char> {
    if md {
        "`"@ + id + "`"@
    } else {
        id
    }
}

fn left(s: &str, w: usize, md: bool) -> (r: String)
    ensures
        r@ == left_cell(s@, w as nat, md),
{
    if md {
        owned(s)
    } else {
        pad_right(s, w)
    }
}

fn right(s: &str, w: usize, md: bool) -> (r: String)
    ensures
        r@ == right_cell(s@, w as nat, md),
{
    if md {
        owned(s)
    } else {
        pad_left(s, w, ' ')
    }
}

fn show_id(id: &str, md: bool) -> (r: String)
    ensures
        r@ == id_text(id@, md),
{
    if md {
        cat3("`", id, "`")
    } else {
        owned(id)
    }
}

/// A price: with the sign of the dollar in markdown.
pub open spec fn price_text(p: nat, places: nat, md: bool) -> Seq<char> {
    if md {
        "$"@ + ratio_text(p, 1000, places)
    } else {
        ratio_text(p, 1000, places)
    }
}

fn price(p: u64, places: u32, md: bool) -> (r: String)
    requires
        places <= 4,
    ensures
        r@ == price_text(p as nat, places as nat, md),
{
    if md {
        cat2("$", ratio(p as u128, 1000, places).as_str())
    } else {
        ratio(p as u128, 1000, places)
    }
}

// ------------------------------------------------------------ the model table

pub open spec fn model_cells(m: ModelView, md: bool) -> Seq<Seq<char>> {
    seq![
        left_cell(id_text(m.id, md), 40, md),
        right_cell(ratio_text(m.tier, 10, 1), 4, md),
        right_cell(decimal(m.tok_s), 6, md),
        right_cell(ratio_text(m.ttft, 100, 2), 4, md) + "s"@,
        right_cell(price_text(m.price_in, 3, md), 8, md),
        right_cell(price_text(m.price_out, 2, md), 7, md),
        right_cell(decimal(m.quality), 5, md),
        right_cell(ratio_text(m.verbosity, 10, 1), 3, md) + "x"@,
    ]
}

fn model_row(m: &Model, md: bool) -> (r: String)
    ensures
        r@ == row_text(model_cells(m@, md), md),
{
    let mut c: Vec<String> = Vec::new();
    push_text(&mut c, left(show_id(m.id, md).as_str(), 40, md));
    push_text(&mut c, right(ratio(m.tier as u128, 10, 1).as_str(), 4, md));
    push_text(&mut c, right(dec64(m.tok_s).as_str(), 6, md));
    push_text(
        &mut c,
        cat2(right(ratio(m.ttft as u128, 100, 2).as_str(), 4, md).as_str(), "s"),
    );
    push_text(&mut c, right(price(m.price_in, 3, md).as_str(), 8, md));
    push_text(&mut c, right(price(m.price_out, 2, md).as_str(), 7, md));
    push_text(&mut c, right(dec64(m.quality).as_str(), 5, md));
    push_text(
        &mut c,
        cat2(right(ratio(m.verbosity as u128, 10, 1).as_str(), 3, md).as_str(), "x"),
    );
    assert(texts(c@) =~= model_cells(m@, md));
    row(&c, md)
}

pub open spec fn model_rows(list: Seq<ModelView>, md: bool) -> Seq<Seq<char>> {
    list.map_values(|m: ModelView| row_text(model_cells(m, md), md))
}

fn model_lines(list: &Vec<Model>, md: bool) -> (r: Vec<String>)
    ensures
        texts(r@) == model_rows(model_views(list@), md),
{
    let ghost all = model_views(list@);
    let ghost want = model_rows(all, md);
    let mut out: Vec<String> = Vec::new();
    let mut i: usize = 0;
    assert(texts(out@) =~= want.take(0));
    while i < list.len()
        invariant
            i <= list.len(),
            all == model_views(list@),
            want == model_rows(all, md),
            texts(out@) == want.take(i as int),
        decreases list.len() - i,
    {
        push_text(&mut out, model_row(&list[i], md));
        proof {
            assert(all[i as int] == list@[i as int]@);
            assert(want.take(i as int + 1) =~= want.take(i as int).push(want[i as int]));
        }
        i = i + 1;
    }
    assert(want.take(i as int) =~= want);
    out
}

/// The head of the report.
pub open spec fn opening(md: bool) -> Seq<Seq<char>> {
    if md {
        seq![
            "# pv bench — Groq model CBA under simulated agentic workloads\n"@,
            "Generated by `pv_bench` (fully simulated: pre-defined faux workloads, no\nreal CPU/API use). Sources: [Groq pricing](https://groq.com/pricing/),"@,
            "[supported models](https://console.groq.com/docs/models) (2026-07-15)."@,
            "Quality indices are labelled estimates; workload shapes are synthetic."@,
        ]
    } else {
        seq![
            "pv bench — Groq model CBA under simulated agentic workloads"@,
            "fully simulated: pre-defined faux values, no real CPU/API use"@,
            "sources: groq.com/pricing, console.groq.com/docs/models (2026-07-15)"@,
        ]
    }
}

fn open_report(md: bool) -> (r: Vec<String>)
    ensures
        texts(r@) == opening(md),
{
    let mut out: Vec<String> = Vec::new();
    if md {
        push_text(
            &mut out,
            owned("# pv bench — Groq model CBA under simulated agentic workloads\n"),
        );
        push_text(
            &mut out,
            owned(
                "Generated by `pv_bench` (fully simulated: pre-defined faux workloads, no\nreal CPU/API use). Sources: [Groq pricing](https://groq.com/pricing/),",
            ),
        );
        push_text(
            &mut out,
            owned("[supported models](https://console.groq.com/docs/models) (2026-07-15)."),
        );
        push_text(
            &mut out,
            owned("Quality indices are labelled estimates; workload shapes are synthetic."),
        );
    } else {
        push_text(
            &mut out,
            owned("pv bench — Groq model CBA under simulated agentic workloads"),
        );
        push_text(
            &mut out,
            owned("fully simulated: pre-defined faux values, no real CPU/API use"),
        );
        push_text(
            &mut out,
            owned("sources: groq.com/pricing, console.groq.com/docs/models (2026-07-15)"),
        );
    }
    assert(texts(out@) =~= opening(md));
    out
}

pub open spec fn model_head(md: bool) -> Seq<Seq<char>> {
    if md {
        seq![
            "| model | tier | tok/s | ttft | $in/1M | $out/1M | quality* | verbosity |"@,
            "|-------|-----:|------:|-----:|-------:|--------:|---------:|----------:|"@,
        ]
    } else {
        seq![
            "model                                    tier  tok/s  ttft   $in/1M $out/1M qual* verb"@,
        ]
    }
}

pub open spec fn model_notes(md: bool) -> Seq<Seq<char>> {
    if md {
        seq![
            "\n\\* agentic-usefulness estimate from public leaderboards; verbosity = output-token multiplier (reasoning models emit more)."@,
            "Excluded: whisper/orpheus (audio), prompt-guard/safeguard (safety), groq/compound (systems, passthrough pricing)."@,
        ]
    } else {
        seq![
            "* quality = agentic-usefulness estimate; excluded: audio/safety/systems models"@,
        ]
    }
}

pub open spec fn model_section(list: Seq<ModelView>, md: bool) -> Seq<Seq<char>> {
    seq![h1_text("Model table (all Groq text models, 2026-07)"@, md)] + model_head(md)
        + model_rows(list, md) + model_notes(md)
}

fn model_part(list: &Vec<Model>, md: bool) -> (r: Vec<String>)
    ensures
        texts(r@) == model_section(model_views(list@), md),
{
    let mut out: Vec<String> = Vec::new();
    push_text(&mut out, h1("Model table (all Groq text models, 2026-07)", md));
    assert(texts(out@) =~= seq![h1_text("Model table (all Groq text models, 2026-07)"@, md)]);
    let ghost first = texts(out@);
    if md {
        push_text(
            &mut out,
            owned("| model | tier | tok/s | ttft | $in/1M | $out/1M | quality* | verbosity |"),
        );
        push_text(
            &mut out,
            owned("|-------|-----:|------:|-----:|-------:|--------:|---------:|----------:|"),
        );
    } else {
        push_text(
            &mut out,
            owned(
                "model                                    tier  tok/s  ttft   $in/1M $out/1M qual* verb",
            ),
        );
    }
    assert(texts(out@) =~= first + model_head(md));
    push_all(&mut out, &model_lines(list, md));
    let ghost second = texts(out@);
    if md {
        push_text(
            &mut out,
            owned(
                "\n\\* agentic-usefulness estimate from public leaderboards; verbosity = output-token multiplier (reasoning models emit more).",
            ),
        );
        push_text(
            &mut out,
            owned(
                "Excluded: whisper/orpheus (audio), prompt-guard/safeguard (safety), groq/compound (systems, passthrough pricing).",
            ),
        );
    } else {
        push_text(
            &mut out,
            owned(
                "* quality = agentic-usefulness estimate; excluded: audio/safety/systems models",
            ),
        );
    }
    assert(texts(out@) =~= second + model_notes(md));
    out
}

pub const ASSUMPTIONS: &'static str =
    "A cached-nonstream  refire = events + 30x 120 s-heartbeats (coalesced), one
                   non-streaming call, atomic panel swap on completion
B streaming         refire every 8 s, tokens displayed as they arrive
accuracy            quality x tier-fit (penalty 15%/tier below requirement)
pass threshold      accuracy >= 40 + 8*(req tier - 1) — errors compound
                    across agents, bigger fleets need sharper advice
stability           A: 0.96 - churn(events) - 0.3*variance (cache dedupes)
                    B: 0.78 - variance - 0.04 flicker
staleness           A: min(1800/events, 60)s   B: interval/2 + ttft
cba = 0.45*acc + 0.25*stability + 0.15*freshness + 0.15*cost (ref $0.50/day)";

// ------------------------------------------------------------ the workloads

pub open spec fn count_text(n: nat, one: Seq<char>, many: Seq<char>) -> Seq<char> {
    if n == 1 {
        one
    } else {
        decimal(n) + many
    }
}

fn count(n: u64, one: &str, many: &str) -> (r: String)
    ensures
        r@ == count_text(n as nat, one@, many@),
{
    if n == 1 {
        owned(one)
    } else {
        cat2(dec64(n).as_str(), many)
    }
}

/// The shape of a workload.
pub open spec fn shape_text(w: WorkloadView, md: bool) -> Seq<char> {
    let cores = count_text(w.cores, "1 core"@, " cores"@);
    let events = ratio_text(w.events_hr, 1, 0);
    let tier = ratio_text(w.req_tier, 10, 1);
    if md {
        cores + " · ctx "@ + decimal(w.ctx_in) + "/"@ + decimal(w.ctx_out) + " tok · "@ + events
            + " events/h · needs tier "@ + tier + "+, freshness ≤ "@ + decimal(w.freshness_need)
            + "s · "@ + decimal(w.active) + " h/day\n"@
    } else {
        cores + ", ctx "@ + decimal(w.ctx_in) + "/"@ + decimal(w.ctx_out) + " tok, "@ + events
            + " events/h, needs tier "@ + tier + "+, freshness <= "@ + decimal(w.freshness_need)
            + "s, "@ + decimal(w.active) + " h/day\n"@
    }
}

fn shape(w: &Workload, md: bool) -> (r: String)
    ensures
        r@ == shape_text(w@, md),
{
    let cores: String = count(w.cores, "1 core", " cores");
    let events: String = ratio(w.events_hr as u128, 1, 0);
    let tier: String = ratio(w.req_tier as u128, 10, 1);
    let ctx_in: String = dec64(w.ctx_in);
    let ctx_out: String = dec64(w.ctx_out);
    let need: String = dec64(w.freshness_need);
    let active: String = dec64(w.active);
    if md {
        let a: String = cat7(
            cores.as_str(),
            " · ctx ",
            ctx_in.as_str(),
            "/",
            ctx_out.as_str(),
            " tok · ",
            events.as_str(),
        );
        let b: String = cat5(
            a.as_str(),
            " events/h · needs tier ",
            tier.as_str(),
            "+, freshness ≤ ",
            need.as_str(),
        );
        cat4(b.as_str(), "s · ", active.as_str(), " h/day\n")
    } else {
        let a: String = cat7(
            cores.as_str(),
            ", ctx ",
            ctx_in.as_str(),
            "/",
            ctx_out.as_str(),
            " tok, ",
            events.as_str(),
        );
        let b: String = cat5(
            a.as_str(),
            " events/h, needs tier ",
            tier.as_str(),
            "+, freshness <= ",
            need.as_str(),
        );
        cat4(b.as_str(), "s, ", active.as_str(), " h/day\n")
    }
}

pub open spec fn acc_text(o: OutcomeView) -> Seq<char> {
    ratio_text(o.accuracy, 1000, 0)
}

/// A stability to two places. What lies halfway between two goes to the even
/// one where it is a whole number of eighths, and to the lower otherwise: half
/// a part of it is taken off, which moves nothing else.
pub open spec fn stab_text(s: int) -> Seq<char> {
    if s <= 0 {
        ratio_text(0, 8000, 2)
    } else if s % 1000 == 0 {
        ratio_text(s as nat, 8000, 2)
    } else {
        ratio_text((2 * s - 1) as nat, 16_000, 2)
    }
}

fn steadiness(s: u64) -> (r: String)
    ensures
        r@ == stab_text(s as int),
{
    if s == 0 {
        ratio(0, 8000, 2)
    } else if s % 1000 == 0 {
        ratio(s as u128, 8000, 2)
    } else {
        ratio(2 * s as u128 - 1, 16_000, 2)
    }
}

pub open spec fn stale_text(o: OutcomeView) -> Seq<char> {
    ratio_text(o.stale.0, o.stale.1, 0)
}

pub open spec fn cba_text(o: OutcomeView) -> Seq<char> {
    ratio_text(o.cba_num as nat, (o.cba_den * 20_000_000) as nat, 3)
}

pub open spec fn pass_text(pass: bool) -> Seq<char> {
    if pass {
        "yes"@
    } else {
        "NO"@
    }
}

/// A row of the results: its place and a model with what comes of it.
pub open spec fn result_row(place: nat, r: (ModelView, OutcomeView), md: bool) -> Seq<char> {
    let cells = seq![
        left_cell(id_text(r.0.id, md), 40, md),
        right_cell(acc_text(r.1), 4, md),
        right_cell(stab_text(r.1.stability), 6, md),
        right_cell(stale_text(r.1), 5, md) + "s"@,
        right_cell(money_text(r.1.cost_day), 8, md),
        right_cell(cba_text(r.1), 6, md),
    ];
    if md {
        "| "@ + decimal(place) + " | "@ + joined(cells, " | "@) + " | "@ + pass_text(r.1.pass)
            + " |"@
    } else {
        "  "@ + joined(cells, " "@) + "  "@ + pass_text(r.1.pass)
    }
}

fn show_result(place: u64, r: &Ranked, md: bool) -> (s: String)
    requires
        outcome_fits(r.out@),
    ensures
        s@ == result_row(place as nat, pair_view(*r), md),
{
    let o: &Outcome = &r.out;
    let mut c: Vec<String> = Vec::new();
    push_text(&mut c, left(show_id(r.model.id, md).as_str(), 40, md));
    push_text(&mut c, right(ratio(o.accuracy as u128, 1000, 0).as_str(), 4, md));
    push_text(&mut c, right(steadiness(o.stability).as_str(), 6, md));
    push_text(
        &mut c,
        cat2(
            right(ratio(o.stale_num as u128, o.stale_den as u128, 0).as_str(), 5, md).as_str(),
            "s",
        ),
    );
    push_text(&mut c, right(money(o.cost_day).as_str(), 8, md));
    push_text(&mut c, right(ratio(o.cba_num as u128, o.cba_den * 20_000_000, 3).as_str(), 6, md));
    let ghost cells = seq![
        left_cell(id_text(r.model@.id, md), 40, md),
        right_cell(acc_text(o@), 4, md),
        right_cell(stab_text(o@.stability), 6, md),
        right_cell(stale_text(o@), 5, md) + "s"@,
        right_cell(money_text(o@.cost_day), 8, md),
        right_cell(cba_text(o@), 6, md),
    ];
    assert(texts(c@) =~= cells);
    let pass: &str = if o.pass {
        "yes"
    } else {
        "NO"
    };
    if md {
        cat7(
            "| ",
            dec64(place).as_str(),
            " | ",
            join(&c, " | ").as_str(),
            " | ",
            pass,
            " |",
        )
    } else {
        cat4("  ", join(&c, " ").as_str(), "  ", pass)
    }
}

/// The rows of the best four.
pub open spec fn result_rows(list: Seq<(ModelView, OutcomeView)>, md: bool) -> Seq<Seq<char>> {
    let n = if list.len() > 4 {
        4
    } else {
        list.len()
    };
    Seq::new(n, |i: int| result_row((i + 1) as nat, list[i], md))
}

fn result_lines(list: &Vec<Ranked>, md: bool) -> (r: Vec<String>)
    requires
        forall|i: int| 0 <= i < list@.len() ==> outcome_fits((#[trigger] list@[i]).out@),
    ensures
        texts(r@) == result_rows(pair_views(list@), md),
{
    let n: usize = if list.len() > 4 {
        4
    } else {
        list.len()
    };
    let ghost all = pair_views(list@);
    let ghost want = result_rows(all, md);
    let mut out: Vec<String> = Vec::new();
    let mut i: usize = 0;
    assert(texts(out@) =~= want.take(0));
    while i < n
        invariant
            i <= n <= list@.len(),
            n <= 4,
            n == want.len(),
            all == pair_views(list@),
            want == result_rows(all, md),
            forall|j: int| 0 <= j < list@.len() ==> outcome_fits((#[trigger] list@[j]).out@),
            texts(out@) == want.take(i as int),
        decreases n - i,
    {
        assert(all[i as int] == pair_view(list@[i as int]));
        push_text(&mut out, show_result(i as u64 + 1, &list[i], md));
        proof {
            assert(want.take(i as int + 1) =~= want.take(i as int).push(want[i as int]));
        }
        i = i + 1;
    }
    assert(want.take(i as int) =~= want);
    out
}

pub open spec fn result_head(md: bool) -> Seq<Seq<char>> {
    if md {
        seq![
            "| # | model | acc | stable | stale | $/day | cba | pass |"@,
            "|--:|-------|----:|-------:|------:|------:|----:|:----:|"@,
        ]
    } else {
        seq!["  model                                     acc stable  stale    $/day    cba  pass"@]
    }
}

/// The results of an architecture under a workload.
pub open spec fn arch_section(
    list: Seq<ModelView>,
    w: WorkloadView,
    arch: Arch,
    md: bool,
) -> Seq<Seq<char>> {
    let rows = seq!["["@ + arch.name() + "] calls/h: "@ + decimal(calls_of(w, arch))]
        + result_head(md) + result_rows(ranking(list, w, arch), md);
    if md {
        rows.push(""@)
    } else {
        rows
    }
}

fn arch_part(list: &Vec<Model>, w: &Workload, arch: Arch, md: bool) -> (r: Vec<String>)
    requires
        models_tabled(model_views(list@)),
        load_tabled(w@),
    ensures
        texts(r@) == arch_section(model_views(list@), w@, arch, md),
{
    proof {
        lemma_trials_tabled(model_views(list@), w@, arch);
    }
    let best: Vec<Ranked> = rank(list, w, arch);
    let calls: u64 = match arch {
        Arch::CachedNonStream => if w.events_hr > 24 {
            w.events_hr + 6
        } else {
            30
        },
        Arch::Streaming => 450,
    };
    let mut out: Vec<String> = Vec::new();
    push_text(&mut out, cat4("[", arch.label(), "] calls/h: ", dec64(calls).as_str()));
    let ghost first = seq!["["@ + arch.name() + "] calls/h: "@ + decimal(calls_of(w@, arch))];
    assert(texts(out@) =~= first);
    if md {
        push_text(
            &mut out,
            owned("| # | model | acc | stable | stale | $/day | cba | pass |"),
        );
        push_text(
            &mut out,
            owned("|--:|-------|----:|-------:|------:|------:|----:|:----:|"),
        );
    } else {
        push_text(
            &mut out,
            owned("  model                                     acc stable  stale    $/day    cba  pass"),
        );
    }
    assert(texts(out@) =~= first + result_head(md));
    push_all(&mut out, &result_lines(&best, md));
    if md {
        push_text(&mut out, owned(""));
    }
    out
}

/// The results under a workload.
pub open spec fn workload_section(list: Seq<ModelView>, w: WorkloadView, md: bool) -> Seq<
    Seq<char>,
> {
    seq![
        h2_text(
            w.name + " — "@ + count_text(w.agents, "1 agent"@, " agents"@)
                + ", faux ps snapshot"@,
            md,
        ),
        code_text(w.procs, md),
        shape_text(w, md),
    ] + arch_section(list, w, Arch::CachedNonStream, md) + arch_section(
        list,
        w,
        Arch::Streaming,
        md,
    )
}

fn workload_part(list: &Vec<Model>, w: &Workload, md: bool) -> (r: Vec<String>)
    requires
        models_tabled(model_views(list@)),
        load_tabled(w@),
    ensures
        texts(r@) == workload_section(model_views(list@), w@, md),
{
    let mut out: Vec<String> = Vec::new();
    let agents: String = count(w.agents, "1 agent", " agents");
    let title: String = cat4(w.name, " — ", agents.as_str(), ", faux ps snapshot");
    push_text(&mut out, h2(title.as_str(), md));
    push_text(&mut out, code(w.procs, md));
    push_text(&mut out, shape(w, md));
    assert(texts(out@) =~= seq![
        h2_text(
            w@.name + " — "@ + count_text(w@.agents, "1 agent"@, " agents"@)
                + ", faux ps snapshot"@,
            md,
        ),
        code_text(w@.procs, md),
        shape_text(w@, md),
    ]);
    push_all(&mut out, &arch_part(list, w, Arch::CachedNonStream, md));
    push_all(&mut out, &arch_part(list, w, Arch::Streaming, md));
    out
}

pub open spec fn workload_sections(
    list: Seq<ModelView>,
    loads: Seq<WorkloadView>,
    md: bool,
) -> Seq<Seq<char>>
    decreases loads.len(),
{
    if loads.len() == 0 {
        Seq::empty()
    } else {
        workload_sections(list, loads.drop_last(), md) + workload_section(list, loads.last(), md)
    }
}

fn workload_parts(list: &Vec<Model>, loads: &Vec<Workload>, md: bool) -> (r: Vec<String>)
    requires
        models_tabled(model_views(list@)),
        loads_tabled(workload_views(loads@)),
    ensures
        texts(r@) == workload_sections(model_views(list@), workload_views(loads@), md),
{
    let ghost views = model_views(list@);
    let ghost all = workload_views(loads@);
    let mut out: Vec<String> = Vec::new();
    let mut i: usize = 0;
    assert(texts(out@) =~= workload_sections(views, all.take(0), md));
    while i < loads.len()
        invariant
            i <= loads.len(),
            views == model_views(list@),
            all == workload_views(loads@),
            models_tabled(views),
            loads_tabled(all),
            texts(out@) == workload_sections(views, all.take(i as int), md),
        decreases loads.len() - i,
    {
        proof {
            assert(all.take(i as int + 1).drop_last() =~= all.take(i as int));
            assert(all.take(i as int + 1).last() == loads@[i as int]@);
            assert(load_tabled(all[i as int]));
        }
        push_all(&mut out, &workload_part(list, &loads[i], md));
        i = i + 1;
    }
    assert(all.take(i as int) =~= all);
    out
}

// ------------------------------------------------------------ the cliff

/// The name of a choice, or a word that there is none.
pub open spec fn choice_id(c: Option<(ModelView, OutcomeView)>, md: bool) -> Seq<char> {
    match c {
        Some(r) => id_text(r.0.id, md),
        None => "none"@,
    }
}

pub open spec fn choice_cost(c: Option<(ModelView, OutcomeView)>) -> Seq<char> {
    match c {
        Some(r) => money_text(r.1.cost_day),
        None => "-"@,
    }
}

pub open spec fn cliff_row(list: Seq<ModelView>, w: WorkloadView, md: bool) -> Seq<char> {
    let a = cheapest_of(list, w, Arch::CachedNonStream);
    let b = cheapest_of(list, w, Arch::Streaming);
    let tier = ratio_text(w.req_tier, 10, 1);
    if md {
        row_text(
            seq![
                w.name,
                tier,
                choice_id(a, md),
                choice_cost(a),
                choice_id(b, md),
                choice_cost(b),
            ],
            md,
        )
    } else {
        let start = padded_right(w.name, 12) + " "@ + padded_left(tier, 4, ' ') + "  "@;
        start + padded_right(choice_id(a, md), 40) + " "@ + padded_left(choice_cost(a), 8, ' ')
            + "  "@ + padded_right(choice_id(b, md), 40) + " "@ + padded_left(
            choice_cost(b),
            8,
            ' ',
        )
    }
}

pub open spec fn as_pair(c: Option<Ranked>) -> Option<(ModelView, OutcomeView)> {
    match c {
        Some(r) => Some(pair_view(r)),
        None => None,
    }
}

fn show_choice(c: &Option<Ranked>, md: bool) -> (r: (String, String))
    ensures
        r.0@ == choice_id(as_pair(*c), md),
        r.1@ == choice_cost(as_pair(*c)),
{
    match c {
        Some(x) => (show_id(x.model.id, md), money(x.out.cost_day)),
        None => (owned("none"), owned("-")),
    }
}

fn show_cliff(list: &Vec<Model>, w: &Workload, md: bool) -> (r: String)
    requires
        models_tabled(model_views(list@)),
        load_tabled(w@),
    ensures
        r@ == cliff_row(model_views(list@), w@, md),
{
    proof {
        lemma_trials_tabled(model_views(list@), w@, Arch::CachedNonStream);
        lemma_trials_tabled(model_views(list@), w@, Arch::Streaming);
    }
    let a: Option<Ranked> = cheapest_pass(list, w, Arch::CachedNonStream);
    let b: Option<Ranked> = cheapest_pass(list, w, Arch::Streaming);
    let (a_id, a_cost): (String, String) = show_choice(&a, md);
    let (b_id, b_cost): (String, String) = show_choice(&b, md);
    let tier: String = ratio(w.req_tier as u128, 10, 1);
    if md {
        let mut c: Vec<String> = Vec::new();
        push_text(&mut c, owned(w.name));
        push_text(&mut c, tier);
        push_text(&mut c, a_id);
        push_text(&mut c, a_cost);
        push_text(&mut c, b_id);
        push_text(&mut c, b_cost);
        assert(texts(c@) =~= seq![w@.name, tier@, a_id@, a_cost@, b_id@, b_cost@]);
        row(&c, md)
    } else {
        let start: String = cat4(
            pad_right(w.name, 12).as_str(),
            " ",
            pad_left(tier.as_str(), 4, ' ').as_str(),
            "  ",
        );
        let middle: String = cat5(
            start.as_str(),
            pad_right(a_id.as_str(), 40).as_str(),
            " ",
            pad_left(a_cost.as_str(), 8, ' ').as_str(),
            "  ",
        );
        cat4(
            middle.as_str(),
            pad_right(b_id.as_str(), 40).as_str(),
            " ",
            pad_left(b_cost.as_str(), 8, ' ').as_str(),
        )
    }
}

pub open spec fn cliff_rows(list: Seq<ModelView>, loads: Seq<WorkloadView>, md: bool) -> Seq<
    Seq<char>,
> {
    loads.map_values(|w: WorkloadView| cliff_row(list, w, md))
}

pub open spec fn cliff_head(md: bool) -> Seq<Seq<char>> {
    let h = h1_text("Accuracy cliff — cheapest passing model per workload"@, md);
    if md {
        seq![
            h,
            "| workload | req tier | cached-nonstream | $/day | streaming | $/day |"@,
            "|----------|---------:|------------------|------:|-----------|------:|"@,
        ]
    } else {
        seq![
            h,
            "workload      req  cached-nonstream                            $/day  streaming                                   $/day"@,
        ]
    }
}

fn cliff_part(list: &Vec<Model>, loads: &Vec<Workload>, md: bool) -> (r: Vec<String>)
    requires
        models_tabled(model_views(list@)),
        loads_tabled(workload_views(loads@)),
    ensures
        texts(r@) == cliff_head(md) + cliff_rows(model_views(list@), workload_views(loads@), md),
{
    let mut out: Vec<String> = Vec::new();
    push_text(&mut out, h1("Accuracy cliff — cheapest passing model per workload", md));
    if md {
        push_text(
            &mut out,
            owned("| workload | req tier | cached-nonstream | $/day | streaming | $/day |"),
        );
        push_text(
            &mut out,
            owned("|----------|---------:|------------------|------:|-----------|------:|"),
        );
    } else {
        push_text(
            &mut out,
            owned(
                "workload      req  cached-nonstream                            $/day  streaming                                   $/day",
            ),
        );
    }
    assert(texts(out@) =~= cliff_head(md));
    let ghost views = model_views(list@);
    let ghost all = workload_views(loads@);
    let ghost want = cliff_rows(views, all, md);
    let mut i: usize = 0;
    assert(cliff_head(md) + want.take(0) =~= cliff_head(md));
    while i < loads.len()
        invariant
            i <= loads.len(),
            views == model_views(list@),
            all == workload_views(loads@),
            want == cliff_rows(views, all, md),
            models_tabled(views),
            loads_tabled(all),
            texts(out@) == cliff_head(md) + want.take(i as int),
        decreases loads.len() - i,
    {
        proof {
            assert(all[i as int] == loads@[i as int]@);
            assert(load_tabled(all[i as int]));
        }
        push_text(&mut out, show_cliff(list, &loads[i], md));
        assert(texts(out@) =~= cliff_head(md) + want.take(i as int + 1));
        i = i + 1;
    }
    assert(want.take(i as int) =~= want);
    out
}

// ------------------------------------------------------------ head to head

/// How much more streaming costs than caching, as a fraction: the costs of one
/// model compare as the calls do.
pub open spec fn cost_ratio(w: WorkloadView) -> (nat, nat) {
    (calls_of(w, Arch::Streaming), calls_of(w, Arch::CachedNonStream))
}

pub open spec fn duel_row(r: (ModelView, OutcomeView), w: WorkloadView, md: bool) -> Seq<char> {
    let b = simulated(r.0, w, Arch::Streaming);
    let times = ratio_text(cost_ratio(w).0, cost_ratio(w).1, 1);
    let front = seq![
        left_cell(w.name, 12, md),
        left_cell(id_text(r.0.id, md), 38, md),
        right_cell(money_text(r.1.cost_day), 8, md),
        right_cell(money_text(b.cost_day), 8, md),
        right_cell(times, 5, md) + "x"@,
        right_cell(stab_text(r.1.stability), 7, md),
        right_cell(stab_text(b.stability), 7, md),
        right_cell(stale_text(r.1), 7, md) + "s ("@ + decimal(w.freshness_need) + "s)"@,
    ];
    row_text(front, md)
}

fn show_duel(r: &Ranked, w: &Workload, md: bool) -> (s: String)
    requires
        model_tabled(r.model@),
        load_tabled(w@),
        r.out@ == simulated(r.model@, w@, Arch::CachedNonStream),
        outcome_fits(r.out@),
    ensures
        s@ == duel_row(pair_view(*r), w@, md),
{
    let a: &Outcome = &r.out;
    proof {
        lemma_tabled(r.model@, w@, Arch::Streaming);
    }
    let b: Outcome = simulate(&r.model, w, Arch::Streaming);
    let times: String = ratio(b.calls_hr as u128, a.calls_hr as u128, 1);
    let mut c: Vec<String> = Vec::new();
    push_text(&mut c, left(w.name, 12, md));
    push_text(&mut c, left(show_id(r.model.id, md).as_str(), 38, md));
    push_text(&mut c, right(money(a.cost_day).as_str(), 8, md));
    push_text(&mut c, right(money(b.cost_day).as_str(), 8, md));
    push_text(&mut c, cat2(right(times.as_str(), 5, md).as_str(), "x"));
    push_text(&mut c, right(steadiness(a.stability).as_str(), 7, md));
    push_text(&mut c, right(steadiness(b.stability).as_str(), 7, md));
    push_text(
        &mut c,
        cat4(
            right(ratio(a.stale_num as u128, a.stale_den as u128, 0).as_str(), 7, md).as_str(),
            "s (",
            dec64(w.freshness_need).as_str(),
            "s)",
        ),
    );
    let ghost bo = simulated(r.model@, w@, Arch::Streaming);
    assert(texts(c@) =~= seq![
        left_cell(w@.name, 12, md),
        left_cell(id_text(r.model@.id, md), 38, md),
        right_cell(money_text(a@.cost_day), 8, md),
        right_cell(money_text(bo.cost_day), 8, md),
        right_cell(ratio_text(cost_ratio(w@).0, cost_ratio(w@).1, 1), 5, md) + "x"@,
        right_cell(stab_text(a@.stability), 7, md),
        right_cell(stab_text(bo.stability), 7, md),
        right_cell(stale_text(a@), 7, md) + "s ("@ + decimal(w@.freshness_need) + "s)"@,
    ]);
    row(&c, md)
}

/// What the duels come to.
pub struct Tally {
    pub rows: Vec<String>,
    /// The sum of the cost ratios, as a fraction.
    pub ratio_num: u128,
    pub ratio_den: u128,
    /// The sum of the gains in stability.
    pub gain: u64,
    /// Whether cached advice is fresh enough everywhere.
    pub fresh: bool,
}

#[verifier::ext_equal]
pub struct TallyView {
    pub rows: Seq<Seq<char>>,
    pub ratio: (nat, nat),
    pub gain: int,
    pub fresh: bool,
}

impl View for Tally {
    type V = TallyView;

    open spec fn view(&self) -> TallyView {
        TallyView {
            rows: texts(self.rows@),
            ratio: (self.ratio_num as nat, self.ratio_den as nat),
            gain: self.gain as int,
            fresh: self.fresh,
        }
    }
}

/// The sum of two fractions.
pub open spec fn plus(a: (nat, nat), b: (nat, nat)) -> (nat, nat) {
    (a.0 * b.1 + b.0 * a.1, a.1 * b.1)
}

/// The duels, one for each workload for which a cached model passes.
pub open spec fn duels(list: Seq<ModelView>, loads: Seq<WorkloadView>, md: bool) -> TallyView
    decreases loads.len(),
{
    if loads.len() == 0 {
        TallyView { rows: Seq::empty(), ratio: (0, 1), gain: 0, fresh: true }
    } else {
        let before = duels(list, loads.drop_last(), md);
        let w = loads.last();
        match cheapest_of(list, w, Arch::CachedNonStream) {
            None => before,
            Some(r) => TallyView {
                rows: before.rows.push(duel_row(r, w, md)),
                ratio: plus(before.ratio, cost_ratio(w)),
                gain: before.gain + r.1.stability - steadiness_of(r.0, w, Arch::Streaming),
                fresh: before.fresh && r.1.stale.0 <= w.freshness_need * r.1.stale.1,
            },
        }
    }
}

/// A hundred and six to the power of `n`: no denominator of a ratio is larger.
pub open spec fn den_cap(n: nat) -> nat
    decreases n,
{
    if n == 0 {
        1
    } else {
        106 * den_cap((n - 1) as nat)
    }
}

pub open spec fn tally_fits(t: TallyView, n: nat) -> bool {
    0 < t.ratio.1 <= den_cap(n) && t.ratio.0 <= 450 * n * t.ratio.1 && 0 <= t.gain <= 7680 * n
}

proof fn lemma_plus_fits(t: TallyView, n: nat, calls: nat)
    requires
        tally_fits(t, n),
        1 <= calls <= 106,
    ensures
        ({
            let s = plus(t.ratio, (450, calls));
            &&& 0 < s.1 <= den_cap(n + 1)
            &&& s.0 <= 450 * (n + 1) * s.1
        }),
{
    let d = t.ratio.1;
    assert(0 < d * calls <= 106 * den_cap(n)) by (nonlinear_arith)
        requires
            0 < d <= den_cap(n),
            1 <= calls <= 106,
    ;
    assert(t.ratio.0 * calls <= 450 * n * d * calls) by (nonlinear_arith)
        requires
            t.ratio.0 <= 450 * n * d,
    ;
    assert(450 * d <= 450 * (d * calls)) by (nonlinear_arith)
        requires
            calls >= 1,
            d >= 0,
    ;
    assert(450 * n * d * calls + 450 * (d * calls) == 450 * (n + 1) * (d * calls))
        by (nonlinear_arith);
}

fn duel_all(list: &Vec<Model>, loads: &Vec<Workload>, md: bool) -> (r: Tally)
    requires
        models_tabled(model_views(list@)),
        loads_tabled(workload_views(loads@)),
        loads@.len() == 5,
    ensures
        r@ == duels(model_views(list@), workload_views(loads@), md),
        tally_fits(r@, 5),
{
    let ghost views = model_views(list@);
    let ghost all = workload_views(loads@);
    let mut rows: Vec<String> = Vec::new();
    let mut num: u128 = 0;
    let mut den: u128 = 1;
    let mut gain: u64 = 0;
    let mut fresh: bool = true;
    let mut i: usize = 0;
    assert(texts(rows@) =~= Seq::empty());
    while i < loads.len()
        invariant
            i <= loads.len(),
            loads@.len() == 5,
            views == model_views(list@),
            all == workload_views(loads@),
            models_tabled(views),
            loads_tabled(all),
            (TallyView {
                rows: texts(rows@),
                ratio: (num as nat, den as nat),
                gain: gain as int,
                fresh,
            }) == duels(views, all.take(i as int), md),
            tally_fits(duels(views, all.take(i as int), md), i as nat),
        decreases loads.len() - i,
    {
        let ghost before = duels(views, all.take(i as int), md);
        proof {
            assert(all.take(i as int + 1).drop_last() =~= all.take(i as int));
            assert(all.take(i as int + 1).last() == loads@[i as int]@);
            assert(load_tabled(all[i as int]));
            lemma_trials_tabled(views, all[i as int], Arch::CachedNonStream);
            reveal_with_fuel(den_cap, 7);
            assert(den_cap(i as nat) <= den_cap(5));
            assert(den_cap(i as nat + 1) == 106 * den_cap(i as nat));
        }
        let w: Workload = loads[i];
        match cheapest_pass(list, &w, Arch::CachedNonStream) {
            None => {
                proof {
                    assert(450 * i * den <= 450 * (i + 1) * den) by (nonlinear_arith)
                        requires
                            den > 0,
                    ;
                }
            },
            Some(a) => {
                proof {
                    lemma_tabled(a.model@, w@, Arch::CachedNonStream);
                    lemma_tabled(a.model@, w@, Arch::Streaming);
                }
                let b: Outcome = simulate(&a.model, &w, Arch::Streaming);
                proof {
                    lemma_plus_fits(before, i as nat, a.out.calls_hr as nat);
                    assert(450 * i * den <= 450 * 5 * 20_000_000_000) by (nonlinear_arith)
                        requires
                            i <= 5,
                            den <= 20_000_000_000,
                    ;
                    assert(num * a.out.calls_hr <= 450 * 5 * 20_000_000_000 * 106)
                        by (nonlinear_arith)
                        requires
                            num <= 450 * 5 * 20_000_000_000,
                            a.out.calls_hr <= 106,
                    ;
                    assert(450 * den <= 450 * 20_000_000_000);
                    assert(den * a.out.calls_hr <= 20_000_000_000 * 106) by (nonlinear_arith)
                        requires
                            den <= 20_000_000_000,
                            a.out.calls_hr <= 106,
                    ;
                    assert(w.freshness_need * a.out.stale_den <= 1000 * 100) by (nonlinear_arith)
                        requires
                            w.freshness_need <= 1000,
                            a.out.stale_den <= 100,
                    ;
                }
                push_text(&mut rows, show_duel(&a, &w, md));
                num = num * a.out.calls_hr as u128 + b.calls_hr as u128 * den;
                den = den * a.out.calls_hr as u128;
                gain = gain + a.out.stability - b.stability;
                if a.out.stale_num > w.freshness_need * a.out.stale_den {
                    fresh = false;
                }
            },
        }
        i = i + 1;
    }
    assert(all.take(i as int) =~= all);
    Tally { rows, ratio_num: num, ratio_den: den, gain, fresh }
}

/// The mean of the cost ratios.
pub open spec fn mean_ratio(t: TallyView) -> Seq<char> {
    ratio_text(t.ratio.0, t.ratio.1 * 5, 1)
}

/// The mean gain in stability.
pub open spec fn mean_gain(t: TallyView) -> Seq<char> {
    ratio_text(t.gain as nat, 40_000, 2)
}

pub open spec fn duel_head(md: bool) -> Seq<Seq<char>> {
    let h = h1_text(
        "Head-to-head: cached-nonstream vs streaming (each workload's cheapest passer)"@,
        md,
    );
    if md {
        seq![
            h,
            "| workload | model | $A/day | $B/day | B/A cost | stab A | stab B | stale A (need) |"@,
            "|----------|-------|-------:|-------:|---------:|-------:|-------:|----------------|"@,
        ]
    } else {
        seq![
            h,
            "workload     model                                    $A/day   $B/day    B/A   stabA   stabB   staleA(need)"@,
        ]
    }
}

pub open spec fn duel_section(t: TallyView, md: bool) -> Seq<Seq<char>> {
    (duel_head(md) + t.rows).push(""@).push(
        "mean cost ratio B/A: "@ + mean_ratio(t) + "x — mean stability delta (A-B): +"@
            + mean_gain(t),
    )
}

fn show_means(t: &Tally) -> (r: (String, String))
    requires
        tally_fits(t@, 5),
    ensures
        r.0@ == mean_ratio(t@),
        r.1@ == mean_gain(t@),
{
    proof {
        reveal_with_fuel(den_cap, 6);
        assert(450 * 5 * t.ratio_den <= 2250 * 13_382_255_776);
    }
    (
        ratio(t.ratio_num, t.ratio_den * 5, 1),
        ratio(t.gain as u128, 40_000, 2),
    )
}

fn duel_part(t: &Tally, md: bool) -> (r: Vec<String>)
    requires
        tally_fits(t@, 5),
    ensures
        texts(r@) == duel_section(t@, md),
{
    let mut out: Vec<String> = Vec::new();
    push_text(
        &mut out,
        h1(
            "Head-to-head: cached-nonstream vs streaming (each workload's cheapest passer)",
            md,
        ),
    );
    if md {
        push_text(
            &mut out,
            owned(
                "| workload | model | $A/day | $B/day | B/A cost | stab A | stab B | stale A (need) |",
            ),
        );
        push_text(
            &mut out,
            owned(
                "|----------|-------|-------:|-------:|---------:|-------:|-------:|----------------|",
            ),
        );
    } else {
        push_text(
            &mut out,
            owned(
                "workload     model                                    $A/day   $B/day    B/A   stabA   stabB   staleA(need)",
            ),
        );
    }
    assert(texts(out@) =~= duel_head(md));
    push_all(&mut out, &t.rows);
    push_text(&mut out, owned(""));
    let (times, gain): (String, String) = show_means(t);
    push_text(
        &mut out,
        cat4(
            "mean cost ratio B/A: ",
            times.as_str(),
            "x — mean stability delta (A-B): +",
            gain.as_str(),
        ),
    );
    out
}

// ------------------------------------------------------------ the verdict

pub open spec fn verdict_section(t: TallyView, md: bool) -> Seq<Seq<char>> {
    if t.fresh {
        seq![
            h1_text("Verdict"@, md),
            "CACHED NON-STREAMING IS STABLE ENOUGH TO COMPETE — and wins on cost."@,
            "Event-driven refires keep staleness under every workload's freshness"@,
            "need while costing "@ + mean_ratio(t) + "x less on average, with ~"@ + mean_gain(t)
                + " higher display"@,
            "stability (no token flicker, no rephrase churn). Streaming only pays"@,
            "when decisions must react in <8 s — agentic loops act in seconds,"@,
            "so they never enter that regime."@,
        ]
    } else {
        seq![
            h1_text("Verdict"@, md),
            "CACHED NON-STREAMING VIOLATES a freshness need — streaming required"@,
            "for the flagged workloads above."@,
        ]
    }
}

fn verdict_part(t: &Tally, md: bool) -> (r: Vec<String>)
    requires
        tally_fits(t@, 5),
    ensures
        texts(r@) == verdict_section(t@, md),
{
    let mut out: Vec<String> = Vec::new();
    push_text(&mut out, h1("Verdict", md));
    if t.fresh {
        let (times, gain): (String, String) = show_means(t);
        push_text(
            &mut out,
            owned("CACHED NON-STREAMING IS STABLE ENOUGH TO COMPETE — and wins on cost."),
        );
        push_text(
            &mut out,
            owned("Event-driven refires keep staleness under every workload's freshness"),
        );
        push_text(
            &mut out,
            cat5(
                "need while costing ",
                times.as_str(),
                "x less on average, with ~",
                gain.as_str(),
                " higher display",
            ),
        );
        push_text(
            &mut out,
            owned("stability (no token flicker, no rephrase churn). Streaming only pays"),
        );
        push_text(
            &mut out,
            owned("when decisions must react in <8 s — agentic loops act in seconds,"),
        );
        push_text(&mut out, owned("so they never enter that regime."));
    } else {
        push_text(
            &mut out,
            owned("CACHED NON-STREAMING VIOLATES a freshness need — streaming required"),
        );
        push_text(&mut out, owned("for the flagged workloads above."));
    }
    assert(texts(out@) =~= verdict_section(t@, md));
    out
}

// ------------------------------------------------------------ the baseline

/// The line of a recommendation.
pub open spec fn pick_line(what: Seq<char>, c: Option<(ModelView, OutcomeView)>) -> Seq<char> {
    match c {
        Some(r) => "  "@ + padded_right(what, 14) + " "@ + padded_right(r.0.id, 40) + " (acc "@
            + acc_text(r.1) + ", "@ + money_text(r.1.cost_day) + "/day)"@,
        None => "  "@ + padded_right(what, 14) + " none pass"@,
    }
}

fn show_pick(what: &str, c: &Option<Ranked>) -> (r: String)
    ensures
        r@ == pick_line(what@, as_pair(*c)),
{
    match c {
        Some(x) => {
            let start: String = cat5(
                "  ",
                pad_right(what, 14).as_str(),
                " ",
                pad_right(x.model.id, 40).as_str(),
                " (acc ",
            );
            let acc: String = ratio(x.out.accuracy as u128, 1000, 0);
            cat5(
                start.as_str(),
                acc.as_str(),
                ", ",
                money(x.out.cost_day).as_str(),
                "/day)",
            )
        },
        None => cat3("  ", pad_right(what, 14).as_str(), " none pass"),
    }
}

pub open spec fn fence(md: bool) -> Seq<Seq<char>> {
    if md {
        seq!["```"@]
    } else {
        Seq::empty()
    }
}

pub open spec fn picks(list: Seq<ModelView>, loads: Seq<WorkloadView>) -> Seq<Seq<char>> {
    let single = cheapest_of(list, loads[0], Arch::CachedNonStream);
    let dual = cheapest_of(list, loads[1], Arch::CachedNonStream);
    seq![
        pick_line(
            "default"@,
            if dual is Some {
                dual
            } else {
                single
            },
        ),
        pick_line("fallback"@, single),
        pick_line("quad+"@, cheapest_of(list, loads[2], Arch::CachedNonStream)),
        pick_line("octo"@, cheapest_of(list, loads[3], Arch::CachedNonStream)),
        pick_line("12-core"@, cheapest_of(list, loads[4], Arch::CachedNonStream)),
    ]
}

pub open spec fn baseline_notes() -> Seq<Seq<char>> {
    seq![
        ""@,
        "  architecture : cached-nonstream (event + 120s heartbeat), atomic swap"@,
        "  escalation   : move up one row when req tier exceeds the row's model"@,
        "  pv live note : pv's own narration panel is a single-core-class task —"@,
        "                 llama-3.1-8b-instant stays the right default there; the"@,
        "                 rows above govern *agentic workflow supervision*."@,
    ]
}

pub open spec fn baseline_section(
    list: Seq<ModelView>,
    loads: Seq<WorkloadView>,
    md: bool,
) -> Seq<Seq<char>> {
    seq![h1_text("RECOMMENDED BASELINE"@, md)] + fence(md) + picks(list, loads) + baseline_notes()
        + fence(md)
}

fn pick(list: &Vec<Model>, loads: &Vec<Workload>, i: usize) -> (r: Option<Ranked>)
    requires
        models_tabled(model_views(list@)),
        loads_tabled(workload_views(loads@)),
        i < loads@.len(),
    ensures
        as_pair(r) == cheapest_of(
            model_views(list@),
            workload_views(loads@)[i as int],
            Arch::CachedNonStream,
        ),
{
    proof {
        let w = workload_views(loads@)[i as int];
        assert(w == loads@[i as int]@);
        assert(load_tabled(w));
        lemma_trials_tabled(model_views(list@), w, Arch::CachedNonStream);
    }
    cheapest_pass(list, &loads[i], Arch::CachedNonStream)
}

fn line_for(list: &Vec<Model>, loads: &Vec<Workload>, i: usize, what: &str) -> (r: String)
    requires
        models_tabled(model_views(list@)),
        loads_tabled(workload_views(loads@)),
        i < loads@.len(),
    ensures
        r@ == pick_line(
            what@,
            cheapest_of(
                model_views(list@),
                workload_views(loads@)[i as int],
                Arch::CachedNonStream,
            ),
        ),
{
    show_pick(what, &pick(list, loads, i))
}

fn default_line(list: &Vec<Model>, loads: &Vec<Workload>) -> (r: String)
    requires
        models_tabled(model_views(list@)),
        loads_tabled(workload_views(loads@)),
        loads@.len() == 5,
    ensures
        r@ == picks(model_views(list@), workload_views(loads@))[0],
{
    let dual: Option<Ranked> = pick(list, loads, 1);
    if dual.is_some() {
        show_pick("default", &dual)
    } else {
        line_for(list, loads, 0, "default")
    }
}

fn pick_part(list: &Vec<Model>, loads: &Vec<Workload>) -> (r: Vec<String>)
    requires
        models_tabled(model_views(list@)),
        loads_tabled(workload_views(loads@)),
        loads@.len() == 5,
    ensures
        texts(r@) == picks(model_views(list@), workload_views(loads@)),
{
    let ghost want = picks(model_views(list@), workload_views(loads@));
    let mut out: Vec<String> = Vec::new();
    push_text(&mut out, default_line(list, loads));
    push_text(&mut out, line_for(list, loads, 0, "fallback"));
    push_text(&mut out, line_for(list, loads, 2, "quad+"));
    push_text(&mut out, line_for(list, loads, 3, "octo"));
    push_text(&mut out, line_for(list, loads, 4, "12-core"));
    assert(texts(out@) =~= want);
    out
}

fn note_part() -> (r: Vec<String>)
    ensures
        texts(r@) == baseline_notes(),
{
    let mut out: Vec<String> = Vec::new();
    push_text(&mut out, owned(""));
    push_text(
        &mut out,
        owned("  architecture : cached-nonstream (event + 120s heartbeat), atomic swap"),
    );
    push_text(
        &mut out,
        owned("  escalation   : move up one row when req tier exceeds the row's model"),
    );
    push_text(
        &mut out,
        owned("  pv live note : pv's own narration panel is a single-core-class task —"),
    );
    push_text(
        &mut out,
        owned("                 llama-3.1-8b-instant stays the right default there; the"),
    );
    push_text(
        &mut out,
        owned("                 rows above govern *agentic workflow supervision*."),
    );
    assert(texts(out@) =~= baseline_notes());
    out
}

fn fence_part(md: bool) -> (r: Vec<String>)
    ensures
        texts(r@) == fence(md),
{
    let mut out: Vec<String> = Vec::new();
    if md {
        push_text(&mut out, owned("```"));
    }
    assert(texts(out@) =~= fence(md));
    out
}

/// The parts of the report.
pub open spec fn report_lines(
    list: Seq<ModelView>,
    loads: Seq<WorkloadView>,
    md: bool,
) -> Seq<Seq<char>> {
    let top = opening(md) + model_section(list, md);
    let middle = top.push(h1_text("Architectures & assumptions"@, md)).push(
        code_text(ASSUMPTIONS@, md),
    ).push(h1_text("Workload results"@, md));
    middle + workload_sections(list, loads, md) + (cliff_head(md) + cliff_rows(list, loads, md))
        + duel_section(duels(list, loads, md), md) + verdict_section(
        duels(list, loads, md),
        md,
    ) + baseline_section(list, loads, md)
}

fn baseline_part(list: &Vec<Model>, loads: &Vec<Workload>, md: bool) -> (r: Vec<String>)
    requires
        models_tabled(model_views(list@)),
        loads_tabled(workload_views(loads@)),
        loads@.len() == 5,
    ensures
        texts(r@) == baseline_section(model_views(list@), workload_views(loads@), md),
{
    let mut out: Vec<String> = Vec::new();
    push_text(&mut out, h1("RECOMMENDED BASELINE", md));
    assert(texts(out@) =~= seq![h1_text("RECOMMENDED BASELINE"@, md)]);
    push_all(&mut out, &fence_part(md));
    push_all(&mut out, &pick_part(list, loads));
    push_all(&mut out, &note_part());
    push_all(&mut out, &fence_part(md));
    out
}

fn report_part(list: &Vec<Model>, loads: &Vec<Workload>, md: bool) -> (r: Vec<String>)
    requires
        models_tabled(model_views(list@)),
        loads_tabled(workload_views(loads@)),
        loads@.len() == 5,
    ensures
        texts(r@) == report_lines(model_views(list@), workload_views(loads@), md),
{
    let mut out: Vec<String> = open_report(md);
    push_all(&mut out, &model_part(list, md));
    push_text(&mut out, h1("Architectures & assumptions", md));
    push_text(&mut out, code(ASSUMPTIONS, md));
    push_text(&mut out, h1("Workload results", md));
    push_all(&mut out, &workload_parts(list, loads, md));
    push_all(&mut out, &cliff_part(list, loads, md));
    let tally: Tally = duel_all(list, loads, md);
    push_all(&mut out, &duel_part(&tally, md));
    push_all(&mut out, &verdict_part(&tally, md));
    push_all(&mut out, &baseline_part(list, loads, md));
    out
}

/// The whole report, in markdown or plain.
pub fn build_report(md: bool) -> (r: String)
    ensures
        r@ == written(report_lines(model_table(), workload_table(), md)),
{
    let list: Vec<Model> = models();
    let loads: Vec<Workload> = workloads();
    assert(workload_views(loads@).len() == loads@.len());
    write_all(&report_part(&list, &loads, md))
}

// ------------------------------------------------------------ laws

/// Whatever the model, streaming costs more than caching, in proportion to the
/// calls: the costs of one model compare as the calls do, as long as there are
/// fewer events than streaming calls.
pub proof fn costs_compare_as_the_calls(m: ModelView, w: WorkloadView)
    requires
        w.events_hr < 444,
    ensures
        cost_of(m, w, Arch::Streaming) * cost_ratio(w).1 == cost_of(m, w, Arch::CachedNonStream)
            * cost_ratio(w).0,
        cost_of(m, w, Arch::CachedNonStream) > 0 ==> cost_of(m, w, Arch::Streaming) > cost_of(
            m,
            w,
            Arch::CachedNonStream,
        ),
{
    let each = cost_of_call(m, w.ctx_in, w.ctx_out);
    let (x, y) = cost_ratio(w);
    assert(x * w.active * each * y == y * w.active * each * x) by (nonlinear_arith);
    if cost_of(m, w, Arch::CachedNonStream) > 0 {
        let unit = w.active * each;
        assert(y * w.active * each == y * unit) by (nonlinear_arith)
            requires
                unit == w.active * each,
        ;
        assert(x * w.active * each == x * unit) by (nonlinear_arith)
            requires
                unit == w.active * each,
        ;
        assert(x * unit > y * unit) by (nonlinear_arith)
            requires
                x > y,
                y * unit > 0,
                y >= 0,
                unit >= 0,
        ;
    }
}

/// What is recommended passes, and nothing that passes costs less.
pub proof fn the_choice_is_the_cheapest_that_passes(
    list: Seq<ModelView>,
    w: WorkloadView,
    arch: Arch,
    i: int,
)
    requires
        0 <= i < list.len(),
        accuracy_of(list[i], w.req_tier) >= needed_at(w.req_tier),
    ensures
        cheapest_of(list, w, arch) matches Some(r) && r.1.pass && r.1.cost_day <= cost_of(
            list[i],
            w,
            arch,
        ),
{
    let all = trials(list, w, arch);
    lemma_cheapest(all);
    assert(all[i].1.pass);
}

/// A cached answer never asks for fresher advice than a heartbeat gives: it is
/// at most a minute old on average.
pub proof fn cached_advice_is_at_most_a_minute_old(m: ModelView, w: WorkloadView)
    ensures
        staleness_of(m, w, Arch::CachedNonStream).0 <= 60 * staleness_of(
            m,
            w,
            Arch::CachedNonStream,
        ).1,
{
}

/// A capable model is never less accurate than its quality allows, and a
/// harder requirement never makes a model more accurate.
pub proof fn harder_work_is_never_easier(m: ModelView, low: nat, high: nat)
    requires
        low <= high,
    ensures
        accuracy_of(m, high) <= accuracy_of(m, low),
        needed_at(low) <= needed_at(high),
{
    let a = fit_at(m, high);
    let b = fit_at(m, low);
    assert(m.quality * a <= m.quality * b) by (nonlinear_arith)
        requires
            a <= b,
            m.quality >= 0,
    ;
}

proof fn lemma_by_score()
    ensures
        is_order(by_score()),
{
    let f = by_score();
    assert forall|a: (ModelView, OutcomeView), b: (ModelView, OutcomeView), c: (ModelView, OutcomeView)|
        #[trigger] f(a, b) && #[trigger] f(b, c) implies f(a, c) by {
        if a.1.cba_den > 0 && b.1.cba_den > 0 && c.1.cba_den > 0 {
            lemma_fractions(
                a.1.cba_num,
                a.1.cba_den,
                b.1.cba_num,
                b.1.cba_den,
                c.1.cba_num,
                c.1.cba_den,
            );
        }
    }
    assert forall|a: (ModelView, OutcomeView), b: (ModelView, OutcomeView), c: (ModelView, OutcomeView)|
        !#[trigger] f(a, b) && !#[trigger] f(b, c) implies !f(a, c) by {
        if a.1.cba_den > 0 && b.1.cba_den > 0 && c.1.cba_den > 0 {
            lemma_fractions(
                c.1.cba_num,
                c.1.cba_den,
                b.1.cba_num,
                b.1.cba_den,
                a.1.cba_num,
                a.1.cba_den,
            );
        }
    }
}

proof fn lemma_fractions(a: int, x: int, b: int, y: int, c: int, z: int)
    requires
        x > 0,
        y > 0,
        z > 0,
    ensures
        a * y > b * x && b * z > c * y ==> a * z > c * x,
        a * y >= b * x && b * z >= c * y ==> a * z >= c * x,
{
    if a * y >= b * x && b * z >= c * y {
        assert(a * y * z >= b * x * z) by (nonlinear_arith)
            requires
                a * y >= b * x,
                z > 0,
        ;
        assert(b * z * x >= c * y * x) by (nonlinear_arith)
            requires
                b * z >= c * y,
                x > 0,
        ;
        assert((a * z) * y >= (c * x) * y) by (nonlinear_arith)
            requires
                a * y * z >= b * x * z,
                b * z * x >= c * y * x,
        ;
        assert(a * z >= c * x) by (nonlinear_arith)
            requires
                (a * z) * y >= (c * x) * y,
                y > 0,
        ;
        if a * y > b * x && b * z > c * y {
            assert(a * y * z > b * x * z) by (nonlinear_arith)
                requires
                    a * y > b * x,
                    z > 0,
            ;
            assert((a * z) * y > (c * x) * y) by (nonlinear_arith)
                requires
                    a * y * z > b * x * z,
                    b * z * x >= c * y * x,
            ;
            assert(a * z > c * x) by (nonlinear_arith)
                requires
                    (a * z) * y > (c * x) * y,
                    y > 0,
            ;
        }
    }
}

/// A ranking loses no model, and none stands before one that scores above it.
pub proof fn rankings_are_in_order(list: Seq<ModelView>, w: WorkloadView, arch: Arch)
    ensures
        ranking(list, w, arch).len() == list.len(),
        forall|i: int, j: int|
            0 <= i < j < list.len() ==> !scores_above(
                (#[trigger] ranking(list, w, arch)[j]).1,
                (#[trigger] ranking(list, w, arch)[i]).1,
            ),
{
    let all = trials(list, w, arch);
    let r = ranked(all, by_score());
    lemma_by_score();
    ranked_is_a_ranking(all, by_score());
    assert(is_ranking(all, by_score(), r));
    assert forall|i: int, j: int| 0 <= i < j < list.len() implies !scores_above(
        (#[trigger] ranking(list, w, arch)[j]).1,
        (#[trigger] ranking(list, w, arch)[i]).1,
    ) by {
        assert(!by_score()(all[r[j]], all[r[i]]));
    }
}

/// The bar is 40 points at the first tier and 8 points higher with each.
pub proof fn the_bar_rises_with_the_tier(req_tier: nat)
    ensures
        needed_at(10) == 40_000,
        needed_at(req_tier + 10) == needed_at(req_tier) + 8_000,
        needed_at(req_tier + 1) == needed_at(req_tier) + 800,
{
}

/// A model that is capable enough is as accurate as its quality, up to 97
/// points; one that is not loses 15 percent with each missing tier, and keeps
/// a fifth.
pub proof fn accuracy_falls_with_missing_tiers(m: ModelView, req_tier: nat)
    requires
        m.quality <= 97,
    ensures
        req_tier <= m.tier ==> accuracy_of(m, req_tier) == m.quality * 1000,
        m.tier < req_tier && 15 * (req_tier - m.tier) <= 800 ==> accuracy_of(m, req_tier)
            == m.quality * 1000 - m.quality * (15 * (req_tier - m.tier)),
        m.tier < req_tier && 15 * (req_tier - m.tier) >= 800 ==> accuracy_of(m, req_tier)
            == m.quality * 200,
{
    let f = fit_at(m, req_tier);
    assert(m.quality * f <= 97_000) by (nonlinear_arith)
        requires
            m.quality <= 97,
            f <= 1000,
    ;
    if m.tier < req_tier && 15 * (req_tier - m.tier) <= 800 {
        let lost = 15 * (req_tier - m.tier);
        assert(f == 1000 - lost);
        assert(m.quality * f == m.quality * 1000 - m.quality * lost) by (nonlinear_arith)
            requires
                f == 1000 - lost,
        ;
    }
}

/// No model is more than 97 points accurate.
pub proof fn accuracy_is_capped(m: ModelView, req_tier: nat)
    ensures
        accuracy_of(m, req_tier) <= 97_000,
        m.quality * fit_at(m, req_tier) >= 97_000 ==> accuracy_of(m, req_tier) == 97_000,
{
}

/// A call is paid by the token: a million of input cost the price of input,
/// a million of output that of output for a terse model, and what it says
/// more in proportion.
pub proof fn calls_are_paid_by_the_token(m: ModelView, a: nat, b: nat, c: nat, d: nat)
    ensures
        cost_of_call(m, a + b, c + d) == cost_of_call(m, a, c) + cost_of_call(m, b, d),
        cost_of_call(m, 1_000_000, 0) == m.price_in * 10_000_000,
        m.verbosity == 10 ==> cost_of_call(m, 0, 1_000_000) == m.price_out * 10_000_000,
        cost_of_call(m, 0, 1_000_000) * 10 == m.price_out * m.verbosity * 10_000_000,
{
    assert((a + b) * m.price_in * 10 == a * m.price_in * 10 + b * m.price_in * 10)
        by (nonlinear_arith);
    assert((c + d) * m.verbosity * m.price_out == c * m.verbosity * m.price_out + d * m.verbosity
        * m.price_out) by (nonlinear_arith);
    assert(0 * m.verbosity * m.price_out == 0) by (nonlinear_arith);
    assert(0 * m.price_in * 10 == 0) by (nonlinear_arith);
    assert(1_000_000 * m.verbosity * m.price_out * 10 == m.price_out * m.verbosity * 10_000_000)
        by (nonlinear_arith);
    assert(1_000_000 * m.price_in * 10 == m.price_in * 10_000_000) by (nonlinear_arith);
}

/// What is cached is asked for at each event and at those heartbeats, thirty
/// an hour, that fall together with none; what streams, every eight seconds.
pub proof fn calls_follow_events_and_heartbeats(w: WorkloadView)
    ensures
        w.events_hr <= 24 ==> calls_of(w, Arch::CachedNonStream) == 30,
        w.events_hr >= 24 ==> calls_of(w, Arch::CachedNonStream) == w.events_hr + 6,
        calls_of(w, Arch::Streaming) * 8 == 3600,
{
}

/// Cached advice is half a gap between events old, a minute at most, and
/// streamed advice four seconds and the time to the first token.
pub proof fn advice_ages_by_half_a_gap(m: ModelView, w: WorkloadView)
    ensures
        ({
            let a = staleness_of(m, w, Arch::CachedNonStream);
            let b = staleness_of(m, w, Arch::Streaming);
            &&& w.events_hr >= 30 ==> a.0 * w.events_hr == 1800 * a.1
            &&& w.events_hr <= 30 ==> a.0 == 60 * a.1
            &&& a.1 > 0 && b.1 > 0
            &&& b.0 * 100 == (400 + m.ttft) * b.1
        }),
{
    if w.events_hr > 30 {
        assert(1800 * w.events_hr == 1800 * w.events_hr);
    }
}

/// A display is steadier where answers differ less, most of all where it
/// streams, and cached ones change with the events, up to 64 an hour.
pub proof fn steadiness_falls_with_variance_and_events(m: ModelView, w: WorkloadView)
    ensures
        w.events_hr <= 64 ==> stability_of(m, w, Arch::CachedNonStream) == 7680 - 10 * w.events_hr
            - 24 * m.variance,
        w.events_hr >= 64 ==> stability_of(m, w, Arch::CachedNonStream) == 7040 - 24 * m.variance,
        stability_of(m, w, Arch::Streaming) == 5920 - 80 * m.variance,
        stability_of(m, w, Arch::CachedNonStream) > stability_of(m, w, Arch::Streaming),
{
}

/// What is shown of the stability lies between nothing and 99 percent.
pub proof fn steadiness_is_shown_within_bounds(m: ModelView, w: WorkloadView, arch: Arch)
    ensures
        ({
            let s = stability_of(m, w, arch);
            let r = steadiness_of(m, w, arch);
            &&& s <= 0 ==> r == 0
            &&& 0 <= s <= 7920 ==> r == s
            &&& s >= 7920 ==> r == 7920
        }),
{
}

/// A day costs its hours, an hour its calls.
pub proof fn days_cost_their_calls(m: ModelView, w: WorkloadView)
    ensures
        cost_of(m, w, Arch::Streaming) == 450 * (w.active * cost_of_call(m, w.ctx_in, w.ctx_out)),
        w.events_hr <= 24 ==> cost_of(m, w, Arch::CachedNonStream) == 30 * (w.active * cost_of_call(
            m,
            w.ctx_in,
            w.ctx_out,
        )),
{
    let each = cost_of_call(m, w.ctx_in, w.ctx_out);
    assert(450 * w.active * each == 450 * (w.active * each)) by (nonlinear_arith);
    assert(30 * w.active * each == 30 * (w.active * each)) by (nonlinear_arith);
}

/// Advice that is no older than needed is wholly fresh, and older advice in
/// proportion.
pub proof fn freshness_is_the_need_by_the_age(age: nat, den: nat, need: nat)
    requires
        den > 0,
    ensures
        ({
            let f = freshness_of((age, den), need);
            &&& age <= need * den ==> f.0 == f.1 && f.1 > 0
            &&& age > need * den ==> f.0 * age == f.1 * (need * den) && f.0 < f.1
        }),
{
    if age > need * den {
        assert((need * den) * age == age * (need * den)) by (nonlinear_arith);
    }
}

/// The score is made of 45 parts of accuracy, 25 of stability, 15 of freshness
/// and 15 of cost, which counts half where a day costs half a dollar.
pub proof fn scores_weigh_their_parts(m: ModelView, w: WorkloadView, arch: Arch)
    ensures
        ({
            let fresh = freshness_of(staleness_of(m, w, arch), w.freshness_need);
            let day = 5_000_000_000 + cost_of(m, w, arch);
            let steady = 45 * (2 * accuracy_of(m, w.req_tier)) + 25 * (25 * stability_of(
                m,
                w,
                arch,
            ));
            &&& score_den(m, w, arch) == fresh.1 * day
            &&& score_num(m, w, arch) == steady * (fresh.1 * day) + 15 * (200_000 * fresh.0 * day)
                + 15 * (1_000_000_000_000_000 * fresh.1)
        }),
{
    let fresh = freshness_of(staleness_of(m, w, arch), w.freshness_need);
    let day = 5_000_000_000 + cost_of(m, w, arch);
    let s = steady_part(m, w, arch);
    assert(s * fresh.1 * day == s * (fresh.1 * day)) by (nonlinear_arith);
    assert(3_000_000 * fresh.0 * day == 15 * (200_000 * fresh.0 * day)) by (nonlinear_arith);
}

/// Of two trials that are as accurate, as steady and as fresh, the costlier
/// never scores above the cheaper.
pub proof fn cost_never_raises_a_score(
    m: ModelView,
    w: WorkloadView,
    n: ModelView,
    v: WorkloadView,
    arch: Arch,
)
    requires
        accuracy_of(m, w.req_tier) == accuracy_of(n, v.req_tier),
        stability_of(m, w, arch) == stability_of(n, v, arch),
        freshness_of(staleness_of(m, w, arch), w.freshness_need) == freshness_of(
            staleness_of(n, v, arch),
            v.freshness_need,
        ),
        cost_of(m, w, arch) <= cost_of(n, v, arch),
    ensures
        !scores_above(simulated(n, v, arch), simulated(m, w, arch)),
{
    let fresh = freshness_of(staleness_of(m, w, arch), w.freshness_need);
    let f = fresh.1 as int;
    let x = 5_000_000_000 + cost_of(m, w, arch);
    let y = 5_000_000_000 + cost_of(n, v, arch);
    let s = steady_part(m, w, arch);
    let k = s * f + 3_000_000 * fresh.0;
    let h = 15_000_000_000_000_000 * f;
    let a = score_num(m, w, arch);
    let b = score_num(n, v, arch);
    assert(a == k * x + h) by (nonlinear_arith)
        requires
            a == s * f * x + 3_000_000 * fresh.0 * x + h,
            k == s * f + 3_000_000 * fresh.0,
    ;
    assert(b == k * y + h) by (nonlinear_arith)
        requires
            b == s * f * y + 3_000_000 * fresh.0 * y + h,
            k == s * f + 3_000_000 * fresh.0,
    ;
    assert(a * y == k * x * y + h * y) by (nonlinear_arith)
        requires
            a == k * x + h,
    ;
    assert(b * x == k * x * y + h * x) by (nonlinear_arith)
        requires
            b == k * y + h,
    ;
    assert(h * y >= h * x) by (nonlinear_arith)
        requires
            h >= 0,
            y >= x,
    ;
    assert(f * (a * y) >= f * (b * x)) by (nonlinear_arith)
        requires
            f >= 0,
            a * y >= b * x,
    ;
    assert(a * (f * y) == f * (a * y)) by (nonlinear_arith);
    assert(b * (f * x) == f * (b * x)) by (nonlinear_arith);
    assert(score_den(m, w, arch) == f * x);
    assert(score_den(n, v, arch) == f * y);
    let o = simulated(m, w, arch);
    let p = simulated(n, v, arch);
    assert(p.cba_num * o.cba_den == b * (f * x));
    assert(o.cba_num * p.cba_den == a * (f * y));
    if f > 0 {
        assert(f * x > 0) by (nonlinear_arith)
            requires
                f > 0,
                x > 0,
        ;
    } else {
        assert(f * y == 0) by (nonlinear_arith)
            requires
                f == 0,
        ;
    }
}

/// A trial passes exactly where the accuracy reaches the bar, and tells what
/// the parts of the simulation come to.
pub proof fn trials_tell_what_comes_of_a_model(m: ModelView, w: WorkloadView, arch: Arch)
    ensures
        ({
            let o = simulated(m, w, arch);
            &&& o.pass <==> accuracy_of(m, w.req_tier) >= needed_at(w.req_tier)
            &&& o.accuracy == accuracy_of(m, w.req_tier)
            &&& o.calls_hr == calls_of(w, arch)
            &&& o.cost_day == cost_of(m, w, arch)
            &&& o.stale == staleness_of(m, w, arch)
            &&& o.stability == steadiness_of(m, w, arch)
            &&& o.cba_num == score_num(m, w, arch) && o.cba_den == score_den(m, w, arch)
        }),
{
}

/// Of the models that clear the bar, the one whose call costs least is taken,
/// the first of equals; and none where none clears it.
pub proof fn the_cheapest_caller_clears_the_bar(
    list: Seq<ModelView>,
    req_tier: nat,
    ctx_in: nat,
    ctx_out: nat,
)
    ensures
        cheapest_caller(list, req_tier, ctx_in, ctx_out) matches Some(k) ==> 0 <= k < list.len()
            && accuracy_of(list[k], req_tier) >= needed_at(req_tier),
        forall|i: int|
            0 <= i < list.len() && accuracy_of(#[trigger] list[i], req_tier) >= needed_at(req_tier)
                ==> (cheapest_caller(list, req_tier, ctx_in, ctx_out) matches Some(k)
                && cost_of_call(list[k], ctx_in, ctx_out) <= cost_of_call(list[i], ctx_in, ctx_out)
                && (i < k ==> cost_of_call(list[k], ctx_in, ctx_out) < cost_of_call(
                list[i],
                ctx_in,
                ctx_out,
            ))),
    decreases list.len(),
{
    if list.len() > 0 {
        let head = list.drop_last();
        the_cheapest_caller_clears_the_bar(head, req_tier, ctx_in, ctx_out);
        match cheapest_caller(head, req_tier, ctx_in, ctx_out) {
            Some(k) => {
                assert(head[k] == list[k]);
            },
            None => {},
        }
        assert forall|i: int|
            0 <= i < list.len() && accuracy_of(#[trigger] list[i], req_tier) >= needed_at(
                req_tier,
            ) implies (cheapest_caller(list, req_tier, ctx_in, ctx_out) matches Some(k)
            && cost_of_call(list[k], ctx_in, ctx_out) <= cost_of_call(list[i], ctx_in, ctx_out) && (i
            < k ==> cost_of_call(list[k], ctx_in, ctx_out) < cost_of_call(
            list[i],
            ctx_in,
            ctx_out,
        ))) by {
            if i < head.len() {
                assert(head[i] == list[i]);
            }
        }
    }
}

/// Where the benchmark finds no fault, each workload has a cached model that
/// passes, costs less than streaming and is fresh enough.
pub proof fn a_sound_benchmark_has_a_choice_for_each_load(
    list: Seq<ModelView>,
    loads: Seq<WorkloadView>,
    i: int,
)
    requires
        fault_in(list, loads) is None,
        0 <= i < loads.len(),
    ensures
        cheapest_of(list, loads[i], Arch::CachedNonStream) matches Some(a) && cost_of(
            a.0,
            loads[i],
            Arch::Streaming,
        ) > a.1.cost_day && a.1.stale.0 <= loads[i].freshness_need * a.1.stale.1 && a.1.accuracy
            >= needed_at(loads[i].req_tier),
    decreases loads.len(),
{
    if i > 0 {
        let rest = loads.drop_first();
        assert(rest[i - 1] == loads[i]);
        a_sound_benchmark_has_a_choice_for_each_load(list, rest, i - 1);
    }
}

/// A workload that no cached model passes is a fault, and it is named.
pub proof fn a_load_without_a_choice_is_a_fault(list: Seq<ModelView>, loads: Seq<WorkloadView>)
    requires
        loads.len() > 0,
        forall|i: int|
            0 <= i < list.len() ==> accuracy_of(#[trigger] list[i], loads[0].req_tier) < needed_at(
                loads[0].req_tier,
            ),
    ensures
        fault_in(list, loads) == Some(loads[0].name + ": no cached-nonstream model passes"@),
{
    let w = loads[0];
    let all = trials(list, w, Arch::CachedNonStream);
    lemma_cheapest(all);
    match cheapest_at(all) {
        Some(k) => {
            assert(all[k].1.pass);
            assert(accuracy_of(list[k], w.req_tier) < needed_at(w.req_tier));
        },
        None => {},
    }
}

/// Whether the table holds a model of a tier, a quality and prices.
pub open spec fn lists(id: Seq<char>, tier: nat, quality: nat, input: nat, output: nat) -> bool {
    exists|i: int|
        0 <= i < model_table().len() && (#[trigger] model_table()[i]).id == id
            && model_table()[i].tier == tier && model_table()[i].quality == quality
            && model_table()[i].price_in == input && model_table()[i].price_out == output
}

/// The models with their tier, their quality and their prices.
pub proof fn models_are_listed_with_their_prices()
    ensures
        model_table().len() == 8,
        lists("llama-3.1-8b-instant"@, 10, 42, 50, 80),
        lists("meta-llama/llama-4-scout-17b-16e-instruct"@, 20, 55, 110, 340),
        lists("openai/gpt-oss-20b"@, 25, 65, 75, 300),
        lists("qwen/qwen3-32b"@, 30, 63, 290, 590),
        lists("qwen/qwen3.6-27b"@, 30, 66, 600, 3000),
        lists("llama-3.3-70b-versatile"@, 30, 57, 590, 790),
        lists("openai/gpt-oss-120b"@, 40, 76, 150, 600),
        lists("moonshotai/kimi-k2-instruct-0905"@, 40, 79, 1000, 3000),
{
    let t = model_table();
    assert(t[0].tier == 10 && t[1].tier == 20 && t[2].tier == 25 && t[3].tier == 30);
    assert(t[4].tier == 30 && t[5].tier == 30 && t[6].tier == 40 && t[7].tier == 40);
}

/// The workloads grow in every respect and need fresher and better advice.
pub proof fn workloads_grow(i: int, j: int)
    requires
        0 <= i < j < workload_table().len(),
    ensures
        workload_table().len() == 5,
        ({
            let a = workload_table()[i];
            let b = workload_table()[j];
            &&& a.cores < b.cores && a.agents < b.agents && a.cores == a.agents
            &&& a.ctx_in < b.ctx_in && a.ctx_out < b.ctx_out && a.events_hr < b.events_hr
            &&& a.req_tier < b.req_tier && a.freshness_need > b.freshness_need && a.active
                < b.active
        }),
{
    let t = workload_table();
    assert(i == 0 || i == 1 || i == 2 || i == 3);
    assert(j == 1 || j == 2 || j == 3 || j == 4);
}

/// The results list the best four, each with its place.
pub proof fn results_list_the_best_four(list: Seq<(ModelView, OutcomeView)>, md: bool, i: int)
    requires
        0 <= i < list.len(),
    ensures
        list.len() >= 4 ==> result_rows(list, md).len() == 4,
        list.len() <= 4 ==> result_rows(list, md).len() == list.len(),
        i < 4 ==> result_rows(list, md)[i] == result_row((i + 1) as nat, list[i], md),
{
}

/// A duel adds the ratio of the costs, the gain in stability, and whether the
/// advice is fresh, where a cached model passes.
pub proof fn duels_add_up(list: Seq<ModelView>, loads: Seq<WorkloadView>, w: WorkloadView, md: bool)
    ensures
        ({
            let before = duels(list, loads, md);
            let after = duels(list, loads.push(w), md);
            let choice = cheapest_of(list, w, Arch::CachedNonStream);
            &&& choice is None ==> after == before
            &&& choice matches Some(r) ==> {
                let calls = calls_of(w, Arch::CachedNonStream);
                &&& after.rows.len() == before.rows.len() + 1
                &&& after.ratio.0 == before.ratio.0 * calls + 450 * before.ratio.1
                &&& after.ratio.1 == before.ratio.1 * calls
                &&& after.gain == before.gain + r.1.stability - steadiness_of(
                    r.0,
                    w,
                    Arch::Streaming,
                )
                &&& after.fresh <==> before.fresh && r.1.stale.0 <= w.freshness_need * r.1.stale.1
            }
        }),
{
    assert(loads.push(w).drop_last() =~= loads);
}

/// The verdict is for caching exactly where the advice is fresh everywhere.
pub proof fn the_verdict_follows_freshness(t: TallyView, md: bool)
    ensures
        t.fresh ==> verdict_section(t, md)[1]
            == "CACHED NON-STREAMING IS STABLE ENOUGH TO COMPETE — and wins on cost."@,
        !t.fresh ==> verdict_section(t, md)[1]
            == "CACHED NON-STREAMING VIOLATES a freshness need — streaming required"@,
{
}

/// The report ends each line, and loses none.
pub proof fn reports_end_each_line(list: Seq<Seq<char>>, line: Seq<char>)
    ensures
        written(Seq::empty()).len() == 0,
        written(list.push(line)) == written(list) + line + "\n"@,
{
    assert(list.push(line).drop_last() =~= list);
}

/// Money is written in dollars and cents to the nearest cent, and what is
/// less than a cent to the nearest hundredth of one.
pub proof fn money_is_written_to_the_nearest_cent(cost: nat) -> (units: nat)
    ensures
        cost >= 100_000_000 ==> {
            &&& money_text(cost) == "$"@ + (decimal(units / 100) + "."@ + padded_left(
                decimal(units % 100),
                2,
                '0',
            ))
            &&& -100_000_000 <= 2 * (units * 100_000_000) - 2 * cost <= 100_000_000
        },
        cost < 100_000_000 ==> {
            &&& money_text(cost) == "$"@ + (decimal(units / 10_000) + "."@ + padded_left(
                decimal(units % 10_000),
                4,
                '0',
            ))
            &&& -1_000_000 <= 2 * (units * 1_000_000) - 2 * cost <= 1_000_000
        },
{
    if cost < 100_000_000 {
        ratios_are_written_to_the_nearest_place(2 * cost + 1, 20_000_000_000, 4)
    } else if cost % 1_250_000_000 == 0 {
        ratios_are_written_to_the_nearest_place(cost, 10_000_000_000, 2)
    } else {
        ratios_are_written_to_the_nearest_place(2 * cost + 1, 20_000_000_000, 2)
    }
}

/// The benchmark is sound where it finds no fault and the largest workload
/// needs a larger model than the smallest.
pub proof fn a_sound_benchmark_escalates(list: Seq<ModelView>, loads: Seq<WorkloadView>)
    requires
        loads.len() == 5,
    ensures
        ({
            let small = cheapest_of(list, loads[0], Arch::CachedNonStream)->0;
            let large = cheapest_of(list, loads[4], Arch::CachedNonStream)->0;
            check_error(list, loads) is None <==> fault_in(list, loads) is None && large.0.tier
                > small.0.tier
        }),
        fault_in(list, loads) is Some ==> check_error(list, loads) == fault_in(list, loads),
{
}

/// The default is what two cores need, or what one does where nothing passes
/// for two; each larger workload has its own.
pub proof fn baselines_are_picked_by_workload(list: Seq<ModelView>, loads: Seq<WorkloadView>)
    requires
        loads.len() == 5,
    ensures
        ({
            let p = picks(list, loads);
            let best = |i: int| cheapest_of(list, loads[i], Arch::CachedNonStream);
            &&& p.len() == 5
            &&& best(1) is Some ==> p[0] == pick_line("default"@, best(1))
            &&& best(1) is None ==> p[0] == pick_line("default"@, best(0))
            &&& p[1] == pick_line("fallback"@, best(0))
            &&& p[2] == pick_line("quad+"@, best(2))
            &&& p[3] == pick_line("octo"@, best(3))
            &&& p[4] == pick_line("12-core"@, best(4))
        }),
{
}

/// A result says whether it passes, and the first rows are plain or in
/// markdown as asked.
pub proof fn results_say_whether_they_pass()
    ensures
        pass_text(true) == "yes"@ && pass_text(false) == "NO"@,
        Arch::CachedNonStream.name() == "cached-nonstream"@ && Arch::Streaming.name()
            == "streaming"@,
{
}

/// The cliff names the cheapest model of both architectures for a workload.
pub proof fn the_cliff_names_the_cheapest(list: Seq<ModelView>, w: WorkloadView)
    ensures
        ({
            let a = cheapest_of(list, w, Arch::CachedNonStream);
            let b = cheapest_of(list, w, Arch::Streaming);
            &&& cliff_row(list, w, true) == row_text(
                seq![
                    w.name,
                    ratio_text(w.req_tier, 10, 1),
                    choice_id(a, true),
                    choice_cost(a),
                    choice_id(b, true),
                    choice_cost(b),
                ],
                true,
            )
            &&& a matches Some(r) ==> choice_id(a, true) == "`"@ + r.0.id + "`"@ && choice_cost(a)
                == money_text(r.1.cost_day)
            &&& a is None ==> choice_id(a, true) == "none"@ && choice_cost(a) == "-"@
        }),
{
}

} // verus!
