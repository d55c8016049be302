//! The benchmark, held against the same formulas in floating point.

use pv::bench::{
    accuracy_at, build_report, call_cost, cheapest_pass, cheapest_passing, check, models, money,
    rank, req_accuracy_tier, simulate, workloads, Arch, Model, Outcome, Workload,
};

const ARCHES: [Arch; 2] = [Arch::CachedNonStream, Arch::Streaming];

struct Floats {
    calls_hr: f64,
    accuracy: f64,
    stability: f64,
    staleness_s: f64,
    cost_day: f64,
    cba: f64,
    pass: bool,
}

fn dollars(thousandths: u64) -> f64 {
    thousandths as f64 / 1000.0
}

fn in_floats(m: &Model, w: &Workload, arch: Arch) -> Floats {
    let (tier, req) = (m.tier as f64 / 10.0, w.req_tier as f64 / 10.0);
    let variance = m.variance as f64 / 100.0;
    let events = w.events_hr as f64;
    let (calls_hr, staleness_s, stability) = match arch {
        Arch::CachedNonStream => (
            events + 30.0 * (1.0 - (events / 30.0).min(0.8)),
            (1800.0 / events).min(60.0),
            0.96 - (events / 800.0).min(0.08) - variance * 0.3,
        ),
        Arch::Streaming => (
            3600.0 / 8.0,
            8.0 / 2.0 + m.ttft as f64 / 100.0,
            0.78 - variance - 0.04,
        ),
    };
    let out_tokens = w.ctx_out as f64 * (m.verbosity as f64 / 10.0);
    let cost_hr = calls_hr
        * (w.ctx_in as f64 * dollars(m.price_in) + out_tokens * dollars(m.price_out))
        / 1e6;
    let cost_day = cost_hr * w.active as f64;
    let fit = if tier >= req { 1.0 } else { (1.0 - 0.15 * (req - tier)).max(0.2) };
    let accuracy = (m.quality as f64 * fit).min(97.0);
    let need = w.freshness_need as f64;
    let fresh = if staleness_s <= need { 1.0 } else { (need / staleness_s).clamp(0.0, 1.0) };
    let cost_score = 1.0 / (1.0 + cost_day / 0.50);
    Floats {
        calls_hr,
        accuracy,
        stability: stability.clamp(0.0, 0.99),
        staleness_s,
        cost_day,
        cba: 0.45 * (accuracy / 100.0) + 0.25 * stability + 0.15 * fresh + 0.15 * cost_score,
        pass: accuracy >= 40.0 + 8.0 * (req - 1.0),
    }
}

fn cba(o: &Outcome) -> f64 {
    o.cba_num as f64 / o.cba_den as f64 / 2e7
}

fn near(a: f64, b: f64) -> bool {
    (a - b).abs() < 1e-9
}

#[test]
fn outcomes_agree_with_floating_point() {
    for w in workloads() {
        for m in models() {
            for arch in ARCHES {
                let o = simulate(&m, &w, arch);
                let f = in_floats(&m, &w, arch);
                assert!(near(o.calls_hr as f64, f.calls_hr), "{} {}", m.id, w.name);
                assert!(near(o.accuracy as f64 / 1000.0, f.accuracy), "{} {}", m.id, w.name);
                assert!(near(o.stability as f64 / 8000.0, f.stability), "{} {}", m.id, w.name);
                assert!(near(o.stale_num as f64 / o.stale_den as f64, f.staleness_s));
                assert!(near(o.cost_day as f64 / 1e10, f.cost_day), "{} {}", m.id, w.name);
                assert!(near(cba(&o), f.cba), "{} {}", m.id, w.name);
                assert_eq!(o.pass, f.pass);
            }
        }
    }
}

#[test]
fn rankings_follow_the_score() {
    let list = models();
    for w in workloads() {
        for arch in ARCHES {
            let ranked = rank(&list, &w, arch);
            assert_eq!(ranked.len(), list.len());
            for pair in ranked.windows(2) {
                assert!(cba(&pair[0].out) >= cba(&pair[1].out));
            }
        }
    }
}

#[test]
fn the_cheapest_that_passes_is_chosen() {
    let list = models();
    let picked: Vec<&str> = workloads()
        .iter()
        .map(|w| cheapest_pass(&list, w, Arch::CachedNonStream).expect("one passes").model.id)
        .collect();
    for (w, id) in workloads().iter().zip(&picked) {
        let best = list
            .iter()
            .filter(|m| in_floats(m, w, Arch::CachedNonStream).pass)
            .map(|m| in_floats(m, w, Arch::CachedNonStream).cost_day)
            .fold(f64::INFINITY, f64::min);
        let chosen = list.iter().find(|m| m.id == *id).unwrap();
        assert!(near(in_floats(chosen, w, Arch::CachedNonStream).cost_day, best));
    }
    assert_eq!(picked[0], "llama-3.1-8b-instant");
    // a call of the first workload: 1800 tokens in, 220 out
    let k = cheapest_passing(&list, 10, 1800, 220).expect("one passes");
    assert_eq!(list[k].id, "llama-3.1-8b-instant");
    assert_eq!(cheapest_passing(&vec![], 10, 1800, 220), None);
}

#[test]
fn the_bar_rises_with_the_tier() {
    assert_eq!(req_accuracy_tier(10), 40_000);
    assert_eq!(req_accuracy_tier(40), 64_000);
    assert_eq!(req_accuracy_tier(5), 36_000);
    let small = models()[0];
    assert_eq!(accuracy_at(&small, 10), 42_000);
    // three tiers below: 45 percent less
    assert_eq!(accuracy_at(&small, 40), 23_100);
    // never less than a fifth
    assert_eq!(accuracy_at(&small, 1000), 8_400);
    // (1800 * 0.05 + 220 * 0.9 * 0.08) / 1e6 dollars
    assert_eq!(call_cost(&small, 1800, 220), 1_058_400);
}

#[test]
fn streaming_always_costs_more() {
    for w in workloads() {
        for m in models() {
            let a = simulate(&m, &w, Arch::CachedNonStream);
            let b = simulate(&m, &w, Arch::Streaming);
            assert!(b.cost_day > a.cost_day);
            assert_eq!(b.cost_day * a.calls_hr, a.cost_day * b.calls_hr);
            assert!(a.stale_num <= 60 * a.stale_den);
        }
    }
}

#[test]
fn the_benchmark_holds() {
    assert_eq!(check(), Ok(()));
}

#[test]
fn amounts_are_shown_to_the_cent() {
    assert_eq!(money(99_999_999), "$0.0100");
    assert_eq!(money(100_000_000), "$0.01");
    assert_eq!(money(12_345_000_000), "$1.23");
    assert_eq!(money(0), "$0.0000");
    // halfway goes up, but eighths of a dollar go to the even cent
    assert_eq!(money(1_250_000_000), "$0.12");
    assert_eq!(money(3_750_000_000), "$0.38");
    assert_eq!(money(279_450_000_000), "$27.95");
    assert_eq!(money(279_449_999_999), "$27.94");
}

#[test]
fn the_report_shows_what_was_computed() {
    let plain = build_report(false);
    assert!(plain.starts_with("pv bench — Groq model CBA under simulated agentic workloads\n"));
    assert!(plain.contains(&format!("\n== Verdict {}\n\n", "=".repeat(53))));
    for m in models() {
        let row = format!(
            "{:<40} {:>4.1} {:>6} {:>4.2}s {:>8.3} {:>7.2} {:>5.0} {:>3.1}x\n",
            m.id,
            m.tier as f64 / 10.0,
            m.tok_s,
            m.ttft as f64 / 100.0,
            dollars(m.price_in),
            dollars(m.price_out),
            m.quality as f64,
            m.verbosity as f64 / 10.0
        );
        assert!(plain.contains(&row), "{row}");
    }
    let list = models();
    for w in workloads() {
        for arch in ARCHES {
            let ranked = rank(&list, &w, arch);
            assert!(plain.contains(&format!(
                "[{}] calls/h: {:.0}\n",
                arch.label(),
                in_floats(&ranked[0].model, &w, arch).calls_hr
            )));
            for r in ranked.iter().take(4) {
                let f = in_floats(&r.model, &w, arch);
                let row = format!(
                    "  {:<40} {:>4.0} {:>6.2} {:>5.0}s {:>8} {:>6.3}  {}\n",
                    r.model.id,
                    f.accuracy,
                    f.stability,
                    f.staleness_s,
                    shown(f.cost_day),
                    f.cba,
                    if f.pass { "yes" } else { "NO" }
                );
                assert!(plain.contains(&row), "{row}");
            }
        }
    }
    assert!(plain.contains("CACHED NON-STREAMING IS STABLE ENOUGH TO COMPETE"));
}

fn shown(cost: f64) -> String {
    if cost < 0.01 {
        format!("${cost:.4}")
    } else {
        format!("${cost:.2}")
    }
}

#[test]
fn the_report_sets_the_architectures_against_each_other() {
    let plain = build_report(false);
    let list = models();
    let (mut ratios, mut deltas) = (0.0, 0.0);
    for w in workloads() {
        let a = cheapest_pass(&list, &w, Arch::CachedNonStream).expect("one passes");
        let b = cheapest_pass(&list, &w, Arch::Streaming).expect("one passes");
        let fa = in_floats(&a.model, &w, Arch::CachedNonStream);
        let fb = in_floats(&a.model, &w, Arch::Streaming);
        let row = format!(
            "{:<12} {:>4.1}  {:<40} {:>8}  {:<40} {:>8}\n",
            w.name,
            w.req_tier as f64 / 10.0,
            a.model.id,
            shown(fa.cost_day),
            b.model.id,
            shown(in_floats(&b.model, &w, Arch::Streaming).cost_day)
        );
        assert!(plain.contains(&row), "{row}");
        let ratio = fb.cost_day / fa.cost_day;
        let row = format!(
            "{:<12} {:<38} {:>8} {:>8} {:>5.1}x {:>7.2} {:>7.2} {:>7.0}s ({:.0}s)\n",
            w.name,
            a.model.id,
            shown(fa.cost_day),
            shown(fb.cost_day),
            ratio,
            fa.stability,
            fb.stability,
            fa.staleness_s,
            w.freshness_need as f64
        );
        assert!(plain.contains(&row), "{row}");
        ratios += ratio;
        deltas += fa.stability - fb.stability;
    }
    assert!(plain.contains(&format!(
        "\nmean cost ratio B/A: {:.1}x — mean stability delta (A-B): +{:.2}\n",
        ratios / 5.0,
        deltas / 5.0
    )));
}

#[test]
fn the_report_can_be_markdown() {
    let md = build_report(true);
    assert!(md.starts_with("# pv bench — Groq model CBA under simulated agentic workloads\n\n"));
    assert!(md.contains("\n## Verdict\n\n"));
    assert!(md.contains("### single-core — 1 agent, faux ps snapshot\n"));
    assert!(md.contains("| `llama-3.1-8b-instant` | 1.0 | 840 | 0.22s | $0.050 | $0.08 | 42 | 0.9x |\n"));
    assert!(md.contains("1 core · ctx 1800/220 tok · 18 events/h · needs tier 1.0+, freshness ≤ 120s · 6 h/day\n"));
    assert!(md.ends_with("```\n"));
}

#[test]
fn models_and_workloads_beyond_the_tables() {
    let wild = Model {
        id: "wild",
        tier: 1,
        tok_s: 1,
        ttft: 90_000,
        price_in: 400_000,
        price_out: 900_000,
        quality: 3,
        verbosity: 80,
        variance: 10_000,
    };
    let calm = Model { id: "calm", variance: 9_999, ..wild };
    let dear = Model { id: "dear", price_out: 950_000, ..wild };
    let busy = Workload {
        ctx_in: 90_000,
        ctx_out: 20_000,
        events_hr: 5_000,
        req_tier: 400,
        freshness_need: 2,
        active: 24,
        ..workloads()[0]
    };
    for arch in ARCHES {
        for m in [wild, calm, dear] {
            let (o, f) = (simulate(&m, &busy, arch), in_floats(&m, &busy, arch));
            // answers that differ this much leave nothing of the stability
            assert_eq!(o.stability, 0);
            assert!(cba(&o) < 0.0 && (cba(&o) - f.cba).abs() < 1e-9);
            assert!((o.cost_day as f64 / 1e10 - f.cost_day).abs() < f.cost_day * 1e-12);
            assert_eq!(o.pass, f.pass);
        }
        // scores below nothing are ranked like any other
        let ranked = rank(&vec![wild, dear, calm], &busy, arch);
        let ids: Vec<&str> = ranked.iter().map(|r| r.model.id).collect();
        assert_eq!(ids, ["calm", "wild", "dear"]);
        assert!(cheapest_pass(&vec![wild, calm], &busy, arch).is_none());
    }
    assert_eq!(cheapest_passing(&vec![wild, calm], 400, 90_000, 20_000), None);
}
