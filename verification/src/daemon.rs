//! Daemon mode: continuous observation, habit learning, and valve rules.
//!
//! The one-shot commands answer "what is happening?"; the daemon answers
//! "what is happening, what usually happens, and what is about to happen?"

use std::collections::VecDeque;

use vstd::prelude::*;

use crate::display::{bar, bar_text, painted, Theme};
use crate::fixed::{
    dec2, dec64, decimal, isqrt, ratio, ratio_text, root, two_digits, UNIT,
};
use crate::intent::{category_tag, find_intent, intent_for, Intent};
use crate::label::{LabelView, Labels};
use crate::notify::{
    may_fire, notice_views, push_notice, Cooldowns, Level, Notice, NoticeView,
};
use crate::order::{arranged, by_size, descending, descending_is_a_ranking, indices, rank};
use crate::pressure::{
    eta_text, fmt_eta, fmt_kb, kb_text, least, thermal_score, total_of, PressureReport,
};
use crate::procfs::{hottest_of, hottest_thermal, xdg, xdg_dir, App, Battery, MemInfo};
use crate::recommend::{
    find_suspendable, first_suspendable, rec_views, recommend_with_labels, recommended, Action,
    RecView, Recommendation,
};
use crate::scan::begins;
use crate::text::{
    cat2, cat3, cat4, cat5, join, joined, joined_path, lower, lower_of, opt_text, owned, pad_left,
    padded_left, path_join, push_text, same, texts, upper, upper_of,
};

verus! {

// ------------------------------------------------------------ history

/// Samples kept: ten minutes at five seconds each.
pub const WINDOW: usize = 120;

/// The last samples of used memory, used swap and load, the load in
/// thousandths.
pub struct History {
    pub mem_used_kb: VecDeque<u64>,
    pub swap_used_kb: VecDeque<u64>,
    pub load1: VecDeque<u32>,
}

#[verifier::ext_equal]
pub struct HistoryView {
    pub mem: Seq<u64>,
    pub swap: Seq<u64>,
    pub load: Seq<u32>,
}

impl View for History {
    type V = HistoryView;

    open spec fn view(&self) -> HistoryView {
        HistoryView { mem: self.mem_used_kb@, swap: self.swap_used_kb@, load: self.load1@ }
    }
}

/// A change over a time: `kb` in `secs` seconds.
#[derive(Clone, Copy)]
pub struct Slope {
    pub kb: i128,
    pub secs: u128,
}

/// The load over a window: its sum in thousandths, the number of samples,
/// and the variance times the square of that number.
///
/// The mean is `sum / (1000 * count)` and the coefficient of variation is
/// `sqrt(spread) / sum`, or nothing where the mean is at most a hundredth.
#[derive(Clone, Copy)]
pub struct LoadStats {
    pub sum: u64,
    pub count: u64,
    pub spread: u128,
}

/// The newest samples, no more than the window holds.
pub open spec fn newest<T>(s: Seq<T>) -> Seq<T> {
    if s.len() > WINDOW {
        s.skip(s.len() - WINDOW)
    } else {
        s
    }
}

pub open spec fn sum_of(s: Seq<u32>) -> nat
    decreases s.len(),
{
    if s.len() == 0 {
        0
    } else {
        sum_of(s.drop_last()) + s.last() as nat
    }
}

pub open spec fn square_sum(s: Seq<u32>) -> nat
    decreases s.len(),
{
    if s.len() == 0 {
        0
    } else {
        square_sum(s.drop_last()) + s.last() as nat * s.last() as nat
    }
}

/// The sum of the squared deviations from the mean, times the number of
/// samples.
pub open spec fn spread_of(s: Seq<u32>) -> int {
    s.len() * square_sum(s) - sum_of(s) * sum_of(s)
}

pub open spec fn slope_of(h: HistoryView, interval_secs: nat) -> (int, nat) {
    if h.mem.len() < 2 || interval_secs == 0 {
        (0, 1)
    } else {
        (
            h.mem.last() as int - h.mem[0] as int,
            ((h.mem.len() - 1) as nat) * interval_secs,
        )
    }
}

pub open spec fn swap_growth(h: HistoryView) -> int {
    if h.swap.len() < 2 {
        0
    } else {
        h.swap.last() as int - h.swap[0] as int
    }
}

/// The mean load as a sum and a count, and the spread.
pub open spec fn stats_of(s: Seq<u32>) -> (nat, nat, nat) {
    if s.len() < 2 {
        (0, 1, 0)
    } else if sum_of(s) <= 10 * s.len() {
        (sum_of(s), s.len(), 0)
    } else {
        (sum_of(s), s.len(), spread_of(s) as nat)
    }
}

/// The square of a sum is at most the number of samples times the sum of
/// their squares.
proof fn lemma_spread(s: Seq<u32>)
    ensures
        spread_of(s) >= 0,
    decreases s.len(),
{
    if s.len() > 0 {
        let t = s.drop_last();
        lemma_spread(t);
        let n = t.len() as int;
        let q = square_sum(t) as int;
        let m = sum_of(t) as int;
        let x = s.last() as int;
        lemma_square_sum(t, x);
        assert((n + 1) * (q + x * x) - (m + x) * (m + x) == (n * q - m * m) + (q - 2 * m * x + n
            * (x * x))) by (nonlinear_arith);
    }
}

/// The squared distances from any value add up to no less than nothing.
proof fn lemma_square_sum(s: Seq<u32>, x: int)
    ensures
        square_sum(s) - 2 * sum_of(s) * x + s.len() * (x * x) >= 0,
    decreases s.len(),
{
    if s.len() > 0 {
        let t = s.drop_last();
        lemma_square_sum(t, x);
        let y = s.last() as int;
        let q = square_sum(t) as int;
        let m = sum_of(t) as int;
        let n = t.len() as int;
        assert((q + y * y) - 2 * (m + y) * x + (n + 1) * (x * x) == (q - 2 * m * x + n * (x * x))
            + (y - x) * (y - x)) by (nonlinear_arith);
        assert((y - x) * (y - x) >= 0) by (nonlinear_arith);
    } else {
        let m = sum_of(s) as int;
        let n = s.len() as int;
        assert(2 * m * x == 0 && n * (x * x) == 0) by (nonlinear_arith)
            requires
                m == 0,
                n == 0,
        ;
    }
}

/// The squares add up to no more than the square of the sum.
proof fn lemma_square_of_sum(s: Seq<u32>)
    ensures
        square_sum(s) <= sum_of(s) * sum_of(s),
    decreases s.len(),
{
    if s.len() > 0 {
        lemma_square_of_sum(s.drop_last());
        let m = sum_of(s.drop_last()) as int;
        let x = s.last() as int;
        assert((m + x) * (m + x) >= m * m + x * x) by (nonlinear_arith)
            requires
                m >= 0,
                x >= 0,
        ;
    }
}

impl History {
    /// Whether the three series have one length, within the window.
    pub open spec fn wf(&self) -> bool {
        &&& self@.mem.len() == self@.swap.len()
        &&& self@.mem.len() == self@.load.len()
        &&& self@.mem.len() <= WINDOW
    }

    pub fn new() -> (r: Self)
        ensures
            r.wf(),
            r@ == (HistoryView { mem: Seq::empty(), swap: Seq::empty(), load: Seq::empty() }),
    {
        History { mem_used_kb: VecDeque::new(), swap_used_kb: VecDeque::new(), load1: VecDeque::new() }
    }

    /// Record one sample.
    pub fn push(&mut self, r: &PressureReport, load1: u32)
        requires
            old(self).wf(),
            r.mem.available_kb <= r.mem.total_kb,
            r.mem.swap_free_kb <= r.mem.swap_total_kb,
        ensures
            final(self).wf(),
            final(self)@ == (HistoryView {
                mem: newest(old(self)@.mem.push((r.mem.total_kb - r.mem.available_kb) as u64)),
                swap: newest(
                    old(self)@.swap.push((r.mem.swap_total_kb - r.mem.swap_free_kb) as u64),
                ),
                load: newest(old(self)@.load.push(load1)),
            }),
    {
        self.mem_used_kb.push_back(r.mem.total_kb - r.mem.available_kb);
        self.swap_used_kb.push_back(r.mem.swap_total_kb - r.mem.swap_free_kb);
        self.load1.push_back(load1);
        if self.mem_used_kb.len() > WINDOW {
            let ghost m = self.mem_used_kb@;
            let ghost s = self.swap_used_kb@;
            let ghost l = self.load1@;
            let _ = self.mem_used_kb.pop_front();
            let _ = self.swap_used_kb.pop_front();
            let _ = self.load1.pop_front();
            proof {
                assert(self.mem_used_kb@ =~= m.skip(1));
                assert(self.swap_used_kb@ =~= s.skip(1));
                assert(self.load1@ =~= l.skip(1));
            }
        }
    }

    pub fn len(&self) -> (r: usize)
        ensures
            r == self@.mem.len(),
    {
        self.mem_used_kb.len()
    }

    /// Slope of used memory over the window, positive where it grows.
    pub fn mem_slope_kb_s(&self, interval_secs: u64) -> (r: Slope)
        requires
            self.wf(),
        ensures
            (r.kb as int, r.secs as nat) == slope_of(self@, interval_secs as nat),
            r.secs > 0,
            -(u64::MAX as int) <= r.kb <= u64::MAX,
            r.secs <= 119 * u64::MAX,
    {
        let n: usize = self.mem_used_kb.len();
        if n < 2 || interval_secs == 0 {
            return Slope { kb: 0, secs: 1 };
        }
        let first: u64 = self.mem_used_kb[0];
        let last: u64 = self.mem_used_kb[n - 1];
        assert(0 < (n - 1) * interval_secs <= 119 * u64::MAX) by (nonlinear_arith)
            requires
                2 <= n <= 120,
                0 < interval_secs <= u64::MAX,
        ;
        Slope {
            kb: last as i128 - first as i128,
            secs: (n - 1) as u128 * interval_secs as u128,
        }
    }

    pub fn swap_growth_kb(&self) -> (r: i128)
        ensures
            r == swap_growth(self@),
            -(u64::MAX as int) <= r <= u64::MAX,
    {
        let n: usize = self.swap_used_kb.len();
        if n < 2 {
            return 0;
        }
        self.swap_used_kb[n - 1] as i128 - self.swap_used_kb[0] as i128
    }

    /// Mean and spread of the load over the window.
    pub fn load_stats(&self) -> (r: LoadStats)
        requires
            self.wf(),
        ensures
            (r.sum as nat, r.count as nat, r.spread as nat) == stats_of(self@.load),
            0 < r.count <= WINDOW,
            r.sum <= 120 * u32::MAX,
            r.spread <= 14_400 * (u32::MAX * u32::MAX),
            r.spread <= 119 * (r.sum * r.sum),
    {
        let n: usize = self.load1.len();
        if n < 2 {
            return LoadStats { sum: 0, count: 1, spread: 0 };
        }
        let ghost all = self.load1@;
        let mut sum: u64 = 0;
        let mut squares: u128 = 0;
        let mut i: usize = 0;
        while i < n
            invariant
                i <= n,
                n <= 120,
                all == self.load1@,
                n == all.len(),
                sum == sum_of(all.take(i as int)),
                squares == square_sum(all.take(i as int)),
                sum <= i * u32::MAX,
                squares <= i * (u32::MAX * u32::MAX),
            decreases n - i,
        {
            proof {
                assert(all.take(i as int + 1).drop_last() =~= all.take(i as int));
            }
            let x: u32 = self.load1[i];
            assert(x * x <= u32::MAX * u32::MAX) by (nonlinear_arith)
                requires
                    x <= u32::MAX,
            ;
            sum = sum + x as u64;
            squares = squares + x as u128 * x as u128;
            i = i + 1;
        }
        proof {
            assert(all.take(i as int) =~= all);
            lemma_spread(all);
        }
        if sum <= 10 * n as u64 {
            return LoadStats { sum, count: n as u64, spread: 0 };
        }
        assert(n * squares <= 120 * (120 * (u32::MAX * u32::MAX))) by (nonlinear_arith)
            requires
                n <= 120,
                squares <= n * (u32::MAX * u32::MAX),
        ;
        assert(sum * sum <= n * squares) by {
            assert(all.len() * square_sum(all) >= sum_of(all) * sum_of(all));
        }
        proof {
            lemma_square_of_sum(all);
            let q = squares as int;
            let m = sum as int;
            assert(n * q - m * m <= 119 * (m * m)) by (nonlinear_arith)
                requires
                    0 <= n <= 120,
                    0 <= q <= m * m,
            ;
        }
        let total: u128 = n as u128 * squares;
        LoadStats { sum, count: n as u64, spread: total - sum as u128 * sum as u128 }
    }
}

impl Default for History {
    fn default() -> (r: Self)
        ensures
            r.wf(),
            r@ == (HistoryView { mem: Seq::empty(), swap: Seq::empty(), load: Seq::empty() }),
    {
        History::new()
    }
}

/// Whether a number of billionths is the nearest to a coefficient of variation:
/// the root of the spread over the sum lies within half a billionth of it.
pub open spec fn is_nearest_cv(c: nat, spread: nat, sum: nat) -> bool {
    let scaled = 4_000_000_000_000_000_000 * spread;
    let low = (2 * c - 1) * sum;
    let high = (2 * c + 1) * sum;
    (c == 0 || low * low <= scaled) && scaled < high * high
}

/// The coefficient of variation, to the nearest billionth.
pub open spec fn cv_of(spread: nat, sum: nat) -> nat {
    if spread == 0 {
        0
    } else {
        choose|c: nat| is_nearest_cv(c, spread, sum)
    }
}

/// The coefficient of variation in percent, rounded down.
pub open spec fn cv_whole(spread: nat, sum: nat) -> nat {
    if spread == 0 {
        0
    } else {
        root(spread * 10_000) / sum
    }
}

/// The coefficient of variation in percent, rounded to the nearest, a half to
/// the even one.
pub open spec fn cv_percent(spread: nat, sum: nat) -> nat {
    let q = cv_whole(spread, sum);
    let half = (2 * q + 1) * sum;
    if spread > 0 && (spread * 40_000 > half * half || (spread * 40_000 == half * half && q % 2
        == 1)) {
        q + 1
    } else {
        q
    }
}

proof fn lemma_nearest_cv(a: nat, b: nat, spread: nat, sum: nat)
    requires
        is_nearest_cv(a, spread, sum),
        is_nearest_cv(b, spread, sum),
    ensures
        a == b,
{
    let (m, x, y) = (sum as int, a as int, b as int);
    if x < y {
        assert(((2 * x + 1) * m) * ((2 * x + 1) * m) <= ((2 * y - 1) * m) * ((2 * y - 1) * m))
            by (nonlinear_arith)
            requires
                0 <= x < y,
                m >= 0,
        ;
    }
    if y < x {
        assert(((2 * y + 1) * m) * ((2 * y + 1) * m) <= ((2 * x - 1) * m) * ((2 * x - 1) * m))
            by (nonlinear_arith)
            requires
                0 <= y < x,
                m >= 0,
        ;
    }
}

/// Where `q` sums make up the root of the spread in millionths but for a rest
/// of its square, `2000 q + h` half billionths are compared with the root over
/// that rest alone, without the large products.
proof fn lemma_refined(spread: int, m: int, q: int, rest: int, h: int)
    requires
        spread * 1_000_000_000_000 == (q * m) * (q * m) + rest,
    ensures
        ({
            let g = h * m;
            let v = (2000 * q + h) * m;
            v * v <= 4_000_000_000_000_000_000 * spread <==> 4000 * (q * m) * g + g * g
                <= 4_000_000 * rest
        }),
{
    let a = q * m;
    let g = h * m;
    let v = (2000 * q + h) * m;
    assert(v == 2000 * a + g) by (nonlinear_arith)
        requires
            a == q * m,
            g == h * m,
            v == (2000 * q + h) * m,
    ;
    assert(v * v == 4_000_000 * (a * a) + 4000 * a * g + g * g) by (nonlinear_arith)
        requires
            v == 2000 * a + g,
    ;
}

impl LoadStats {
    pub open spec fn wf(&self) -> bool {
        &&& 0 < self.count <= WINDOW
        &&& self.sum <= 120 * u32::MAX
        &&& self.spread <= 14_400 * (u32::MAX * u32::MAX)
        &&& self.spread <= 119 * (self.sum * self.sum)
    }

    proof fn lemma_sum(&self)
        requires
            self.wf(),
            self.spread > 0,
        ensures
            self.sum > 0,
    {
        let m = self.sum as int;
        assert(m > 0) by (nonlinear_arith)
            requires
                0 <= m,
                0 < self.spread <= 119 * (m * m),
        ;
    }

    /// The coefficient of variation in billionths.
    pub fn cv(&self) -> (r: u64)
        requires
            self.wf(),
        ensures
            r == cv_of(self.spread as nat, self.sum as nat),
            r <= 11_000_001_000,
    {
        if self.spread == 0 {
            return 0;
        }
        assert(14_400 * (u32::MAX * u32::MAX) * 1_000_000_000_000
            < 0x100_0000_0000_0000_0000_0000_0000_0000) by (nonlinear_arith);
        let n: u128 = self.spread * 1_000_000_000_000;
        let w: u64 = isqrt(n);
        let ghost m = self.sum as int;
        proof {
            self.lemma_sum();
            let wi = w as int;
            assert(wi <= 11_000_000 * m) by (nonlinear_arith)
                requires
                    wi * wi <= 119_000_000_000_000 * (m * m),
                    m > 0,
                    wi >= 0,
            ;
            assert(wi / m <= 11_000_000) by (nonlinear_arith)
                requires
                    wi <= 11_000_000 * m,
                    m > 0,
            ;
            assert(wi <= 515_396_075_400_000_000) by (nonlinear_arith)
                requires
                    wi * wi <= 14_400 * (0xffff_ffff * 0xffff_ffff) * 1_000_000_000_000,
                    wi >= 0,
            ;
        }
        let q: u64 = w / self.sum;
        proof {
            let (wi, qi) = (w as int, q as int);
            assert(qi * m <= wi < qi * m + m) by (nonlinear_arith)
                requires
                    qi == wi / m,
                    m > 0,
            ;
            let a = qi * m;
            assert(a * a <= n) by (nonlinear_arith)
                requires
                    0 <= a <= wi,
                    wi * wi <= n,
            ;
            assert(n < (a + m) * (a + m)) by (nonlinear_arith)
                requires
                    n < (wi + 1) * (wi + 1),
                    0 <= wi + 1 <= a + m,
            ;
            assert((a + m) * (a + m) == a * a + 2 * (a * m) + m * m) by (nonlinear_arith);
            assert(0 <= a * m <= 515_396_075_400_000_000 * 515_396_075_400) by (nonlinear_arith)
                requires
                    0 <= a <= 515_396_075_400_000_000,
                    0 <= m <= 515_396_075_400,
            ;
            assert(0 <= m * m <= 515_396_075_400 * 515_396_075_400) by (nonlinear_arith)
                requires
                    0 <= m <= 515_396_075_400,
            ;
        }
        let a: u128 = q as u128 * self.sum as u128;
        let rest: u128 = n - a * a;
        let mut k: u64 = 0;
        proof {
            // the first bound holds at `q` itself
            if q > 0 {
                let low = (2000 * q - 1) * m;
                let mid = 2000 * (q * m);
                assert(0 <= low <= mid) by (nonlinear_arith)
                    requires
                        low == (2000 * q - 1) * m,
                        mid == 2000 * (q * m),
                        q > 0,
                        m > 0,
                ;
                assert(low * low <= mid * mid) by (nonlinear_arith)
                    requires
                        0 <= low <= mid,
                ;
                assert(mid * mid == 4_000_000 * ((q * m) * (q * m))) by (nonlinear_arith)
                    requires
                        mid == 2000 * (q * m),
                ;
            }
        }
        while k < 1000 && self.reaches(a, rest, 2 * k + 1)
            invariant
                k <= 1000,
                self.wf(),
                m == self.sum,
                m > 0,
                a == q * m,
                q <= 11_000_000,
                a <= 515_396_075_400_000_000,
                rest <= 2 * (a * m) + m * m,
                0 <= a * m <= 515_396_075_400_000_000 * 515_396_075_400,
                0 <= m * m <= 515_396_075_400 * 515_396_075_400,
                self.spread * 1_000_000_000_000 == (q * m) * (q * m) + rest,
                1000 * q + k == 0 || ((2 * (1000 * q + k) - 1) * m) * ((2 * (1000 * q + k) - 1) * m)
                    <= 4_000_000_000_000_000_000 * self.spread,
            decreases 1000 - k,
        {
            proof {
                lemma_refined(self.spread as int, m, q as int, rest as int, 2 * k + 1);
                assert(2000 * q + (2 * k + 1) == 2 * (1000 * q + (k + 1)) - 1);
            }
            k = k + 1;
        }
        let c: u64 = 1000 * q + k;
        proof {
            let s4 = 4_000_000_000_000_000_000 * self.spread as int;
            let high = (2 * c + 1) * m;
            assert(2 * c + 1 == 2000 * q + (2 * k + 1));
            if k < 1000 {
                lemma_refined(self.spread as int, m, q as int, rest as int, 2 * k + 1);
            } else {
                let top = 2000 * (a + m);
                assert(high >= top) by (nonlinear_arith)
                    requires
                        high == (2 * c + 1) * m,
                        2 * c + 1 == 2000 * q + 2001,
                        a == q * m,
                        top == 2000 * (a + m),
                        m > 0,
                ;
                assert(top * top == 4_000_000 * ((a + m) * (a + m))) by (nonlinear_arith)
                    requires
                        top == 2000 * (a + m),
                ;
                assert(high * high >= top * top) by (nonlinear_arith)
                    requires
                        high >= top,
                        top >= 0,
                ;
            }
            assert(s4 < high * high);
            assert(is_nearest_cv(c as nat, self.spread as nat, self.sum as nat));
            lemma_nearest_cv(
                c as nat,
                cv_of(self.spread as nat, self.sum as nat),
                self.spread as nat,
                self.sum as nat,
            );
        }
        c
    }

    /// Whether the rest of the spread beyond the square of `a` holds `h` more
    /// half billionths of the sum.
    fn reaches(&self, a: u128, rest: u128, h: u64) -> (r: bool)
        requires
            self.wf(),
            h <= 2001,
            a <= 515_396_075_400_000_000,
            0 <= a * self.sum <= 515_396_075_400_000_000 * 515_396_075_400,
            rest <= 2 * (a * self.sum) + self.sum * self.sum,
            0 <= self.sum * self.sum <= 515_396_075_400 * 515_396_075_400,
        ensures
            r == ({
                let g = h * self.sum;
                4000 * a * g + g * g <= 4_000_000 * rest
            }),
    {
        assert(h * self.sum <= 2001 * 515_396_075_400) by (nonlinear_arith)
            requires
                h <= 2001,
                self.sum <= 515_396_075_400,
        ;
        let g: u128 = h as u128 * self.sum as u128;
        assert(4000 * a * g <= 4000 * 515_396_075_400_000_000 * (2001 * 515_396_075_400))
            by (nonlinear_arith)
            requires
                a <= 515_396_075_400_000_000,
                g <= 2001 * 515_396_075_400,
        ;
        assert(g * g <= (2001 * 515_396_075_400) * (2001 * 515_396_075_400)) by (nonlinear_arith)
            requires
                g <= 2001 * 515_396_075_400,
        ;
        4000 * a * g + g * g <= 4_000_000 * rest
    }

    /// The coefficient of variation in percent, rounded down.
    fn whole(&self) -> (r: u64)
        requires
            self.wf(),
        ensures
            r == cv_whole(self.spread as nat, self.sum as nat),
            r * self.sum < 0x4_0000_0000_0000,
    {
        if self.spread == 0 {
            return 0;
        }
        assert(14_400 * (u32::MAX * u32::MAX) * 10_000 < 0x1_0000_0000_0000_0000_0000_0000) by (
        nonlinear_arith);
        let w: u64 = isqrt(self.spread * 10_000);
        proof {
            self.lemma_sum();
            let d = self.spread as nat * 10_000;
            let wn = w as nat;
            assert(wn < 0x4_0000_0000_0000) by (nonlinear_arith)
                requires
                    wn * wn <= d,
                    d < 0x1_0000_0000_0000_0000_0000_0000,
            ;
            let q = w / self.sum;
            assert(q * self.sum <= w) by (nonlinear_arith)
                requires
                    q == w / self.sum,
                    self.sum > 0,
            ;
        }
        w / self.sum
    }

    fn swing(&self) -> (r: u64)
        requires
            self.wf(),
        ensures
            r == cv_percent(self.spread as nat, self.sum as nat),
    {
        if self.spread == 0 {
            return 0;
        }
        assert(14_400 * (u32::MAX * u32::MAX) * 40_000 < 0x4_0000_0000_0000_0000_0000_0000) by (
        nonlinear_arith);
        let q: u64 = self.whole();
        proof {
            self.lemma_sum();
            assert((2 * q + 1) * self.sum == 2 * (q * self.sum) + self.sum) by (nonlinear_arith);
            assert(q <= q * self.sum) by (nonlinear_arith)
                requires
                    self.sum > 0,
                    q >= 0,
            ;
        }
        let half: u128 = (2 * q as u128 + 1) * self.sum as u128;
        assert(half * half <= 0x10_0000_0000_0000 * 0x10_0000_0000_0000) by (nonlinear_arith)
            requires
                half <= 0x10_0000_0000_0000,
        ;
        let full: u128 = self.spread * 40_000;
        if full > half * half || (full == half * half && q % 2 == 1) {
            q + 1
        } else {
            q
        }
    }
}

/// The window never holds more than its samples, and always the newest one,
/// and what has left it makes no difference to it later.
pub proof fn window_keeps_the_newest<T>(s: Seq<T>, x: T)
    ensures
        newest(s.push(x)).len() <= WINDOW,
        newest(s.push(x)).last() == x,
        newest(newest(s).push(x)) == newest(s.push(x)),
{
    assert(newest(newest(s).push(x)) =~= newest(s.push(x)));
}

// ------------------------------------------------------------ habits

/// What is usual in one hour of the day. The averages are in billionths: of
/// a percent for load and memory, of one for the variation.
pub struct HabitSlot {
    pub samples: u64,
    pub cpu_ema: u64,
    pub mem_ema: u64,
    pub var_ema: u64,
    /// The categories seen most, with how often.
    pub top: Vec<(String, u32)>,
}

#[verifier::ext_equal]
pub struct SlotView {
    pub samples: u64,
    pub cpu_ema: u64,
    pub mem_ema: u64,
    pub var_ema: u64,
    pub top: Seq<(Seq<char>, u32)>,
}

/// What a list of counted names says.
pub open spec fn counts(v: Seq<(String, u32)>) -> Seq<(Seq<char>, u32)> {
    v.map_values(|e: (String, u32)| (e.0@, e.1))
}

impl View for HabitSlot {
    type V = SlotView;

    open spec fn view(&self) -> SlotView {
        SlotView {
            samples: self.samples,
            cpu_ema: self.cpu_ema,
            mem_ema: self.mem_ema,
            var_ema: self.var_ema,
            top: counts(self.top@),
        }
    }
}

pub open spec fn fresh_slot() -> SlotView {
    SlotView { samples: 0, cpu_ema: 0, mem_ema: 0, var_ema: 0, top: Seq::empty() }
}

impl Default for HabitSlot {
    fn default() -> (r: Self)
        ensures
            r@ == fresh_slot(),
    {
        let r: HabitSlot = HabitSlot {
            samples: 0,
            cpu_ema: 0,
            mem_ema: 0,
            var_ema: 0,
            top: Vec::new(),
        };
        assert(r@.top =~= Seq::empty());
        r
    }
}

/// One slot for each hour of the day.
pub struct Habits {
    pub slots: Vec<HabitSlot>,
    pub last_save: u64,
}

/// What the slots say.
pub open spec fn slot_views(v: Seq<HabitSlot>) -> Seq<SlotView> {
    v.map_values(|s: HabitSlot| s@)
}

/// A moving average, to the nearest billionth: the first sample, then a fifth
/// of each new one, and after fifty samples a twentieth.
pub open spec fn learned(old: u64, x: u64, samples: u64) -> u64 {
    if samples == 0 {
        x
    } else if samples < 50 {
        ((4 * old + x + 2) / 5) as u64
    } else {
        ((19 * old + x + 10) / 20) as u64
    }
}

/// The position of a name.
pub open spec fn count_index(top: Seq<(Seq<char>, u32)>, c: Seq<char>) -> Option<int>
    decreases top.len(),
{
    if top.len() == 0 {
        None
    } else {
        match count_index(top.drop_last(), c) {
            Some(i) => Some(i),
            None => if top.last().0 == c {
                Some(top.len() - 1)
            } else {
                None
            },
        }
    }
}

/// The counts with one more of a name.
pub open spec fn counted(top: Seq<(Seq<char>, u32)>, c: Seq<char>) -> Seq<(Seq<char>, u32)> {
    match count_index(top, c) {
        Some(i) => top.update(i, (top[i].0, (top[i].1 + 1) as u32)),
        None => top.push((c, 1)),
    }
}

/// The counts with one more of each name of a list.
pub open spec fn counted_all(
    top: Seq<(Seq<char>, u32)>,
    list: Seq<Seq<char>>,
) -> Seq<(Seq<char>, u32)>
    decreases list.len(),
{
    if list.len() == 0 {
        top
    } else {
        counted(counted_all(top, list.drop_last()), list.last())
    }
}

/// The three names counted most.
pub open spec fn top_three(top: Seq<(Seq<char>, u32)>) -> Seq<(Seq<char>, u32)> {
    let sorted = arranged(
        top,
        descending(top.map_values(|e: (Seq<char>, u32)| (e.1 as u64, 0u64))),
    );
    if sorted.len() > 3 {
        sorted.take(3)
    } else {
        sorted
    }
}

/// A slot with one more sample.
pub open spec fn observed(
    s: SlotView,
    cpu_pct: u64,
    mem_pct: u64,
    cv: u64,
    categories: Seq<Seq<char>>,
) -> SlotView {
    SlotView {
        samples: (s.samples + 1) as u64,
        cpu_ema: learned(s.cpu_ema, cpu_pct, s.samples),
        mem_ema: learned(s.mem_ema, mem_pct, s.samples),
        var_ema: learned(s.var_ema, cv, s.samples),
        top: top_three(counted_all(s.top, categories)),
    }
}

pub open spec fn samples_sum(s: Seq<SlotView>) -> nat
    decreases s.len(),
{
    if s.len() == 0 {
        0
    } else {
        samples_sum(s.drop_last()) + s.last().samples as nat
    }
}

fn learn(old: u64, x: u64, samples: u64) -> (r: u64)
    ensures
        r == learned(old, x, samples),
{
    if samples == 0 {
        x
    } else if samples < 50 {
        ((4 * old as u128 + x as u128 + 2) / 5) as u64
    } else {
        ((19 * old as u128 + x as u128 + 10) / 20) as u64
    }
}

proof fn lemma_count_index(top: Seq<(Seq<char>, u32)>, c: Seq<char>)
    ensures
        count_index(top, c) matches Some(i) ==> 0 <= i < top.len() && top[i].0 == c
            && forall|j: int| 0 <= j < i ==> (#[trigger] top[j]).0 != c,
        count_index(top, c) is None ==> forall|j: int|
            0 <= j < top.len() ==> (#[trigger] top[j]).0 != c,
    decreases top.len(),
{
    if top.len() > 0 {
        lemma_count_index(top.drop_last(), c);
        assert forall|j: int| 0 <= j < top.len() - 1 implies top.drop_last()[j]
            == #[trigger] top[j] by {}
    }
}

fn count_one(top: &mut Vec<(String, u32)>, c: &str)
    requires
        forall|i: int| 0 <= i < old(top)@.len() ==> (#[trigger] old(top)@[i]).1 < u32::MAX,
    ensures
        counts(final(top)@) == counted(counts(old(top)@), c@),
{
    let ghost before = counts(top@);
    let mut i: usize = 0;
    while i < top.len()
        invariant
            i <= top.len(),
            *top == *old(top),
            before == counts(top@),
            forall|j: int| 0 <= j < top@.len() ==> (#[trigger] top@[j]).1 < u32::MAX,
            forall|j: int| 0 <= j < i ==> (#[trigger] before[j]).0 != c@,
        decreases top.len() - i,
    {
        assert(before[i as int] == (top@[i as int].0@, top@[i as int].1));
        if same(top[i].0.as_str(), c) {
            proof {
                lemma_count_index(before, c@);
            }
            let n: u32 = top[i].1;
            let name: String = top[i].0.clone();
            top.set(i, (name, n + 1));
            assert(counts(top@) =~= before.update(
                i as int,
                (before[i as int].0, (before[i as int].1 + 1) as u32),
            ));
            return ;
        }
        i = i + 1;
    }
    proof {
        lemma_count_index(before, c@);
    }
    top.push((owned(c), 1));
    assert(counts(top@) =~= before.push((c@, 1)));
}

/// The counts once a list of names is counted: none grows past the list.
proof fn lemma_counted_bound(top: Seq<(Seq<char>, u32)>, c: Seq<char>, n: nat)
    requires
        forall|i: int| 0 <= i < top.len() ==> (#[trigger] top[i]).1 + n + 1 <= u32::MAX,
        n + 1 <= u32::MAX,
    ensures
        forall|i: int|
            0 <= i < counted(top, c).len() ==> (#[trigger] counted(top, c)[i]).1 + n <= u32::MAX,
{
    lemma_count_index(top, c);
    assert forall|i: int| 0 <= i < counted(top, c).len() implies (#[trigger] counted(
        top,
        c,
    )[i]).1 + n <= u32::MAX by {
        if i < top.len() {
            assert(top[i].1 + n + 1 <= u32::MAX);
        }
    }
}

fn rank_counts(top: &Vec<(String, u32)>) -> (r: Vec<(String, u32)>)
    ensures
        counts(r@) == top_three(counts(top@)),
{
    let mut keys: Vec<(u64, u64)> = Vec::new();
    let mut i: usize = 0;
    while i < top.len()
        invariant
            i <= top.len(),
            keys@.len() == i,
            forall|j: int| 0 <= j < i ==> #[trigger] keys@[j] == (top@[j].1 as u64, 0u64),
        decreases top.len() - i,
    {
        keys.push((top[i].1 as u64, 0));
        i = i + 1;
    }
    let ghost views = counts(top@);
    assert(keys@ =~= views.map_values(|e: (Seq<char>, u32)| (e.1 as u64, 0u64)));
    let order: Vec<usize> = rank(&keys);
    let ghost sorted = arranged(views, indices(order@));
    let mut out: Vec<(String, u32)> = Vec::new();
    let mut k: usize = 0;
    while k < order.len() && k < 3
        invariant
            k <= order.len(),
            k <= 3,
            views == counts(top@),
            order@.len() == top@.len(),
            sorted == arranged(views, indices(order@)),
            forall|j: int| 0 <= j < order@.len() ==> 0 <= #[trigger] order@[j] < top@.len(),
            counts(out@) == sorted.take(k as int),
        decreases order.len() - k,
    {
        let at: usize = order[k];
        let ghost before = counts(out@);
        out.push((top[at].0.clone(), top[at].1));
        proof {
            assert(sorted[k as int] == views[order@[k as int] as int]);
            assert(counts(out@) =~= before.push(views[at as int]));
            assert(sorted.take(k as int + 1) =~= sorted.take(k as int).push(sorted[k as int]));
        }
        k = k + 1;
    }
    assert(sorted.take(sorted.len() as int) =~= sorted);
    out
}

/// The slots of the habits that were found, cut or filled up to one for each
/// hour.
pub open spec fn loaded_slots(found: Option<Habits>) -> Seq<SlotView> {
    match found {
        Some(h) => Seq::new(
            24,
            |i: int|
                if i < h.slots@.len() {
                    h.slots@[i]@
                } else {
                    fresh_slot()
                },
        ),
        None => Seq::new(24, |i: int| fresh_slot()),
    }
}

impl Habits {
    /// One slot for each hour.
    pub open spec fn wf(&self) -> bool {
        self.slots@.len() == 24
    }

    /// Whether the slot of an hour can count one more sample and `n` more
    /// names.
    pub open spec fn room(&self, hour: usize, n: nat) -> bool {
        let s = self.slots@[hour as int % 24];
        &&& s.samples < u64::MAX
        &&& n <= u32::MAX
        &&& forall|i: int| 0 <= i < s.top@.len() ==> (#[trigger] s.top@[i]).1 + n <= u32::MAX
    }

    /// Whether the slot of an hour can count one more sample and `n` more
    /// names.
    pub fn has_room(&self, hour: usize, n: usize) -> (r: bool)
        requires
            self.wf(),
        ensures
            r == self.room(hour, n as nat),
    {
        let s: &HabitSlot = &self.slots[hour % 24];
        if s.samples == u64::MAX || n as u64 > u32::MAX as u64 {
            return false;
        }
        let mut i: usize = 0;
        while i < s.top.len()
            invariant
                i <= s.top.len(),
                n <= u32::MAX,
                *s == self.slots@[hour as int % 24],
                forall|j: int| 0 <= j < i ==> (#[trigger] s.top@[j]).1 + n <= u32::MAX,
            decreases s.top.len() - i,
        {
            if s.top[i].1 as u64 + n as u64 > u32::MAX as u64 {
                return false;
            }
            i = i + 1;
        }
        true
    }

    pub fn new() -> (r: Self)
        ensures
            r.wf(),
            slot_views(r.slots@) == Seq::new(24, |i: int| fresh_slot()),
            r.last_save == 0,
    {
        Habits::load(None)
    }

    /// What was read from disk, cut or filled up to a slot for each hour.
    pub fn load(found: Option<Habits>) -> (r: Self)
        ensures
            r.wf(),
            slot_views(r.slots@) == loaded_slots(found),
            r.last_save == 0,
    {
        let ghost given = found;
        let mut slots: Vec<HabitSlot> = match found {
            Some(h) => h.slots,
            None => Vec::new(),
        };
        if slots.len() > 24 {
            slots.truncate(24);
        }
        let ghost have = slots@;
        while slots.len() < 24
            invariant
                have.len() <= slots@.len() <= 24,
                forall|i: int| 0 <= i < have.len() ==> #[trigger] slots@[i] == have[i],
                forall|i: int| have.len() <= i < slots@.len() ==> (#[trigger] slots@[i])@
                    == fresh_slot(),
            decreases 24 - slots.len(),
        {
            slots.push(HabitSlot::default());
        }
        let r: Habits = Habits { slots, last_save: 0 };
        assert(slot_views(r.slots@) =~= loaded_slots(given));
        r
    }

    /// Whether a minute has passed since the habits were last saved.
    pub fn save_due(&self, now: u64) -> (r: bool)
        ensures
            r == (now > self.last_save + 60),
    {
        let since: u64 = if now >= self.last_save {
            now - self.last_save
        } else {
            0
        };
        since > 60
    }

    /// Note when the habits were saved.
    pub fn save(&mut self, now: u64)
        ensures
            final(self).slots == old(self).slots,
            final(self).last_save == now,
    {
        self.last_save = now;
    }

    /// Record one sample into the slot for `hour`.
    pub fn observe_at(
        &mut self,
        hour: usize,
        cpu_pct: u64,
        mem_pct: u64,
        cv: u64,
        categories: &Vec<String>,
    )
        requires
            old(self).wf(),
            old(self).room(hour, categories@.len()),
        ensures
            final(self).wf(),
            slot_views(final(self).slots@) == slot_views(old(self).slots@).update(
                hour as int % 24,
                observed(
                    old(self).slots@[hour as int % 24]@,
                    cpu_pct,
                    mem_pct,
                    cv,
                    texts(categories@),
                ),
            ),
            final(self).last_save == old(self).last_save,
    {
        let h: usize = hour % 24;
        let ghost slots0 = self.slots@;
        let s: &HabitSlot = &self.slots[h];
        let mut top: Vec<(String, u32)> = Vec::new();
        let mut k: usize = 0;
        while k < s.top.len()
            invariant
                k <= s.top.len(),
                top@.len() == k,
                forall|j: int|
                    0 <= j < k ==> (#[trigger] top@[j]).0@ == s.top@[j].0@ && top@[j].1
                        == s.top@[j].1,
            decreases s.top.len() - k,
        {
            top.push((s.top[k].0.clone(), s.top[k].1));
            k = k + 1;
        }
        let ghost start = counts(s.top@);
        assert(counts(top@) =~= start);
        let ghost all = texts(categories@);
        let mut i: usize = 0;
        proof {
            assert(all.take(0) =~= Seq::empty());
            assert forall|j: int| 0 <= j < counts(top@).len() implies (#[trigger] counts(
                top@,
            )[j]).1 + categories@.len() <= u32::MAX by {
                assert(s.top@[j].1 + categories@.len() <= u32::MAX);
            }
        }
        while i < categories.len()
            invariant
                i <= categories.len(),
                all == texts(categories@),
                categories@.len() <= u32::MAX,
                counts(top@) == counted_all(start, all.take(i as int)),
                forall|j: int|
                    0 <= j < counts(top@).len() ==> (#[trigger] counts(top@)[j]).1 + (
                    categories@.len() - i) <= u32::MAX,
            decreases categories.len() - i,
        {
            proof {
                assert(all.take(i as int + 1).drop_last() =~= all.take(i as int));
                assert(all.take(i as int + 1).last() == categories@[i as int]@);
                assert forall|j: int| 0 <= j < top@.len() implies (#[trigger] top@[j]).1
                    < u32::MAX by {
                    assert(counts(top@)[j].1 + (categories@.len() - i) <= u32::MAX);
                }
                lemma_counted_bound(
                    counts(top@),
                    categories@[i as int]@,
                    (categories@.len() - i - 1) as nat,
                );
            }
            count_one(&mut top, categories[i].as_str());
            i = i + 1;
        }
        assert(all.take(i as int) =~= all);
        let next: HabitSlot = HabitSlot {
            samples: s.samples + 1,
            cpu_ema: learn(s.cpu_ema, cpu_pct, s.samples),
            mem_ema: learn(s.mem_ema, mem_pct, s.samples),
            var_ema: learn(s.var_ema, cv, s.samples),
            top: rank_counts(&top),
        };
        self.slots.set(h, next);
        assert(slot_views(self.slots@) =~= slot_views(slots0).update(h as int, next@));
    }

    pub fn slot(&self, hour: usize) -> (r: &HabitSlot)
        requires
            self.wf(),
        ensures
            *r == self.slots@[hour as int % 24],
    {
        &self.slots[hour % 24]
    }

    pub fn total_samples(&self) -> (r: u64)
        requires
            samples_sum(slot_views(self.slots@)) <= u64::MAX,
        ensures
            r == samples_sum(slot_views(self.slots@)),
    {
        let ghost all = slot_views(self.slots@);
        let mut sum: u64 = 0;
        let mut i: usize = 0;
        while i < self.slots.len()
            invariant
                i <= self.slots.len(),
                all == slot_views(self.slots@),
                samples_sum(all) <= u64::MAX,
                sum == samples_sum(all.take(i as int)),
            decreases self.slots.len() - i,
        {
            proof {
                assert(all.take(i as int + 1).drop_last() =~= all.take(i as int));
                assert(all.take(i as int + 1).last() == self.slots@[i as int]@);
                lemma_samples_grow(all, i as int + 1);
            }
            sum = sum + self.slots[i].samples;
            i = i + 1;
        }
        assert(all.take(i as int) =~= all);
        sum
    }
}

proof fn lemma_samples_grow(s: Seq<SlotView>, n: int)
    requires
        0 <= n <= s.len(),
    ensures
        samples_sum(s.take(n)) <= samples_sum(s),
    decreases s.len(),
{
    if n < s.len() {
        assert(s.drop_last().take(n) =~= s.take(n));
        lemma_samples_grow(s.drop_last(), n);
    } else {
        assert(s.take(n) =~= s);
    }
}

proof fn lemma_samples_update(s: Seq<SlotView>, h: int, v: SlotView)
    requires
        0 <= h < s.len(),
    ensures
        samples_sum(s.update(h, v)) == samples_sum(s) - s[h].samples + v.samples,
    decreases s.len(),
{
    if h == s.len() - 1 {
        assert(s.update(h, v).drop_last() =~= s.drop_last());
    } else {
        assert(s.update(h, v).drop_last() =~= s.drop_last().update(h, v));
        lemma_samples_update(s.drop_last(), h, v);
    }
}

/// An hour remembers three categories at most, those seen most often first.
pub proof fn the_most_seen_categories_are_kept(top: Seq<(Seq<char>, u32)>, a: int, b: int)
    ensures
        top_three(top).len() <= 3,
        0 <= a < b < top_three(top).len() ==> top_three(top)[a].1 >= top_three(top)[b].1,
{
    let keys = top.map_values(|e: (Seq<char>, u32)| (e.1 as u64, 0u64));
    let order = descending(keys);
    descending_is_a_ranking(keys);
    if 0 <= a < b < top_three(top).len() {
        assert(0 <= order[a] < keys.len() && 0 <= order[b] < keys.len());
        assert(!by_size()(keys[order[b]], keys[order[a]]));
        assert(keys[order[a]] == (top[order[a]].1 as u64, 0u64));
        assert(keys[order[b]] == (top[order[b]].1 as u64, 0u64));
    }
}

/// A sample counts once, changes no other hour, and hours wrap as the clock
/// does.
pub proof fn hours_learn_independently(
    slots: Seq<SlotView>,
    hour: nat,
    cpu_pct: u64,
    mem_pct: u64,
    cv: u64,
    categories: Seq<Seq<char>>,
)
    requires
        slots.len() == 24,
        slots[hour as int % 24].samples < u64::MAX,
    ensures
        ({
            let h = hour as int % 24;
            let next = slots.update(h, observed(slots[h], cpu_pct, mem_pct, cv, categories));
            &&& samples_sum(next) == samples_sum(slots) + 1
            &&& forall|other: int| 0 <= other < 24 && other != h ==> #[trigger] next[other]
                == slots[other]
            &&& next[h].top.len() <= 3
            &&& (hour + 24) as int % 24 == h
        }),
{
    let h = hour as int % 24;
    lemma_samples_update(slots, h, observed(slots[h], cpu_pct, mem_pct, cv, categories));
}

/// An average stays between what it was and the new sample.
pub proof fn averages_stay_between(old: u64, x: u64, samples: u64)
    requires
        samples > 0,
    ensures
        old <= x ==> old <= learned(old, x, samples) <= x,
        x <= old ==> x <= learned(old, x, samples) <= old,
{
}

// ------------------------------------------------------------ valves

/// Ambient system readings the valves consult, sampled once per tick, so that
/// the decision is a function of observed state and habits. Load and stall
/// are in thousandths, the temperature in thousandths of a degree.
#[derive(Clone, Copy)]
pub struct SysSample {
    pub ncpu: u32,
    pub load1: u32,
    pub psi_mem_some_avg10: u32,
    pub hottest_thermal: Option<u32>,
    pub hour: usize,
}

/// Used memory in KiB, below nothing where more is available than there is.
pub open spec fn committed(m: MemInfo) -> int {
    total_of(m) - m.available_kb
}

/// Used memory in percent, without digits.
pub open spec fn used_text(r: PressureReport) -> Seq<char> {
    let used = committed(r.mem);
    if used < 0 {
        "-"@ + ratio_text((-used * 100) as nat, total_of(r.mem), 0)
    } else {
        ratio_text((used * 100) as nat, total_of(r.mem), 0)
    }
}

/// The first suspension among recommendations.
pub open spec fn first_suspend(recs: Seq<RecView>) -> Option<RecView>
    decreases recs.len(),
{
    if recs.len() == 0 {
        None
    } else if recs[0].action == Action::Suspend {
        Some(recs[0])
    } else {
        first_suspend(recs.drop_first())
    }
}

pub open spec fn listed(o: Option<NoticeView>) -> Seq<NoticeView> {
    match o {
        Some(n) => seq![n],
        None => Seq::empty(),
    }
}

pub open spec fn notice_of(o: Option<Notice>) -> Option<NoticeView> {
    match o {
        Some(n) => Some(n@),
        None => None,
    }
}

pub open spec fn one_if<T>(b: bool, x: T) -> Seq<T> {
    if b {
        seq![x]
    } else {
        Seq::empty()
    }
}

/// Memory: at least 85 percent committed, or exhaustion within ten minutes.
pub open spec fn overpressure(r: PressureReport, reclaim: Option<RecView>) -> Option<NoticeView> {
    if committed(r.mem) * 100 >= 85 * total_of(r.mem) || (r.oom_eta_secs matches Some(e) && e < 600) {
        Some(
            NoticeView {
                level: Level::Critical,
                valve: "V-01"@,
                title: "MEMORY OVERPRESSURE"@,
                gauge: Some(
                    (
                        "RAM"@,
                        if committed(r.mem) < 0 {
                            0u8
                        } else {
                            ((committed(r.mem) * 200 + total_of(r.mem)) / (2
                                * total_of(r.mem) as int)) as u8
                        },
                    ),
                ),
                obs: seq![used_text(r) + "% of physical memory committed"@] + one_if(
                    r.oom_eta_secs is Some,
                    "projected exhaustion in "@ + eta_text(r.oom_eta_secs->0 as nat),
                ) + one_if(
                    reclaim is Some,
                    "largest reclaimable reserve: "@ + reclaim->0.target,
                ),
                suggest: match reclaim {
                    Some(rec) => Some("pv suspend "@ + rec.target),
                    None => None,
                },
            },
        )
    } else {
        None
    }
}

/// An app that could be suspended.
pub open spec fn reserve(r: PressureReport, reclaim: Option<RecView>) -> Option<NoticeView> {
    match reclaim {
        Some(rec) => Some(
            NoticeView {
                level: Level::Advisory,
                valve: "V-03"@,
                title: "RECLAIMABLE RESERVE: "@ + upper_of(rec.target),
                gauge: Some(("RAM"@, r.memory.score)),
                obs: seq![
                    rec.target + " sits idle — "@ + kb_text(rec.benefit_kb as nat)
                        + " recoverable"@,
                    "confidence "@ + decimal(rec.confidence as nat) + "%"@,
                ],
                suggest: Some("pv suspend "@ + rec.target),
            },
        ),
        None => None,
    }
}

/// The names of the apps whose work could move.
pub open spec fn movable(apps: Seq<App>, intents: Seq<(String, Intent)>) -> Seq<Seq<char>>
    decreases apps.len(),
{
    if apps.len() == 0 {
        Seq::empty()
    } else {
        let before = movable(apps.drop_last(), intents);
        match intent_for(intents, apps.last().key@) {
            Some(i) if i.can_migrate => before.push(apps.last().display@),
            _ => before,
        }
    }
}

/// A discharging battery at 15 percent or less.
pub open spec fn low_battery(b: Option<Battery>, builds: Seq<Seq<char>>) -> Option<NoticeView> {
    match b {
        Some(b) if b.discharging && b.capacity <= 15 => Some(
            NoticeView {
                level: if b.capacity <= 8 {
                    Level::Critical
                } else {
                    Level::Warning
                },
                valve: "V-07"@,
                title: "BATTERY VENTING"@,
                gauge: Some(("BAT"@, (100 - b.capacity) as u8)),
                obs: seq![
                    decimal(b.capacity as nat) + "% remaining, discharging"@,
                    if builds.len() == 0 {
                        "no migratable workloads running"@
                    } else {
                        "migratable workloads: "@ + joined(builds, ", "@)
                    },
                ],
                suggest: if builds.len() == 0 {
                    None
                } else {
                    Some("pv migrate "@ + lower_of(builds[0]))
                },
            },
        ),
        _ => None,
    }
}

/// Whether an app may be stopped to cool the machine.
pub open spec fn may_cool(app: App, intents: Seq<(String, Intent)>) -> bool {
    intent_for(intents, app.key@) matches Some(i) ==> !i.never_suspend
}

/// The last of the apps with the most load, among all or among those that
/// may be stopped.
pub open spec fn busiest(apps: Seq<App>, intents: Seq<(String, Intent)>, all: bool) -> Option<int>
    decreases apps.len(),
{
    if apps.len() == 0 {
        None
    } else {
        let before = busiest(apps.drop_last(), intents, all);
        if (all || may_cool(apps.last(), intents)) && (before is None || apps.last().cpu_pct
            >= apps[before->0].cpu_pct) {
            Some(apps.len() - 1)
        } else {
            before
        }
    }
}

pub open spec fn display_at(apps: Seq<App>, i: Option<int>) -> Option<Seq<char>> {
    match i {
        Some(k) => Some(apps[k].display@),
        None => None,
    }
}

/// A zone at 82 degrees or more.
pub open spec fn too_hot(temp: Option<u32>, hog: Option<Seq<char>>) -> Option<NoticeView> {
    match temp {
        Some(t) if t >= 82_000 => Some(
            NoticeView {
                level: if t >= 90_000 {
                    Level::Critical
                } else {
                    Level::Warning
                },
                valve: "V-08"@,
                title: "THERMAL OVERPRESSURE"@,
                gauge: Some(("TEMP"@, thermal_score(t as nat) as u8)),
                obs: seq![ratio_text(t as nat, 1000, 0) + "°C hottest zone"@] + one_if(
                    hog is Some,
                    "largest heat source: "@ + hog->0,
                ),
                suggest: match hog {
                    Some(h) => Some("pv suspend "@ + lower_of(h)),
                    None => None,
                },
            },
        ),
        _ => None,
    }
}

/// The valves that need only the current moment.
pub open spec fn moment_notices(
    apps: Seq<App>,
    intents: Seq<(String, Intent)>,
    report: PressureReport,
    temp: Option<u32>,
    labels: Seq<LabelView>,
    now: u64,
) -> Seq<NoticeView> {
    let reclaim = first_suspend(recommended(apps, intents, report, labels, now));
    listed(overpressure(report, reclaim)) + listed(reserve(report, reclaim)) + listed(
        low_battery(report.battery_info, movable(apps, intents)),
    ) + listed(too_hot(temp, display_at(apps, busiest(apps, intents, false))))
}

fn find_reclaim(recs: &Vec<Recommendation>) -> (r: Option<usize>)
    ensures
        match r {
            Some(i) => i < recs@.len() && first_suspend(rec_views(recs@)) == Some(
                recs@[i as int]@,
            ),
            None => first_suspend(rec_views(recs@)) is None,
        },
{
    let ghost all = rec_views(recs@);
    let mut i: usize = 0;
    assert(all.skip(0) =~= all);
    while i < recs.len()
        invariant
            i <= recs.len(),
            all == rec_views(recs@),
            first_suspend(all) == first_suspend(all.skip(i as int)),
        decreases recs.len() - i,
    {
        proof {
            assert(all.skip(i as int).drop_first() =~= all.skip(i as int + 1));
            assert(all.skip(i as int)[0] == recs@[i as int]@);
        }
        if recs[i].action == Action::Suspend {
            return Some(i);
        }
        i = i + 1;
    }
    None
}

pub open spec fn rec_of(o: Option<&Recommendation>) -> Option<RecView> {
    match o {
        Some(r) => Some(r@),
        None => None,
    }
}

fn used_percent(r: &PressureReport) -> (s: String)
    ensures
        s@ == used_text(*r),
{
    let (used, total) = shares(r);
    if used < 0 {
        cat2("-", ratio((-used * 100) as u128, total, 0).as_str())
    } else {
        ratio((used * 100) as u128, total, 0)
    }
}

fn shares(r: &PressureReport) -> (s: (i128, u128))
    ensures
        s.0 == committed(r.mem),
        s.1 == total_of(r.mem),
        0 < s.1 <= u64::MAX,
        -(u64::MAX as int) <= s.0 <= s.1,
{
    let total: u64 = if r.mem.total_kb == 0 {
        1
    } else {
        r.mem.total_kb
    };
    (total as i128 - r.mem.available_kb as i128, total as u128)
}

fn note_overpressure(r: &PressureReport, reclaim: Option<&Recommendation>) -> (n: Option<Notice>)
    ensures
        notice_of(n) == overpressure(*r, rec_of(reclaim)),
{
    let (used, total) = shares(r);
    let soon: bool = match r.oom_eta_secs {
        Some(e) => e < 600,
        None => false,
    };
    if !(used * 100 >= 85 * total as i128 || soon) {
        return None;
    }
    let mut obs: Vec<String> = Vec::new();
    push_text(&mut obs, cat2(used_percent(r).as_str(), "% of physical memory committed"));
    if let Some(eta) = r.oom_eta_secs {
        push_text(&mut obs, cat2("projected exhaustion in ", fmt_eta(eta).as_str()));
    }
    if let Some(rec) = reclaim {
        push_text(&mut obs, cat2("largest reclaimable reserve: ", rec.target.as_str()));
    }
    let share: u8 = if used < 0 {
        0
    } else {
        assert((used * 200 + total) / (2 * total) <= 101) by (nonlinear_arith)
            requires
                0 < total,
                0 <= used <= total,
        ;
        ((used as u128 * 200 + total) / (2 * total)) as u8
    };
    let n: Notice = Notice {
        level: Level::Critical,
        valve: "V-01",
        title: owned("MEMORY OVERPRESSURE"),
        gauge: Some((owned("RAM"), share)),
        obs,
        suggest: match reclaim {
            Some(rec) => Some(cat2("pv suspend ", rec.target.as_str())),
            None => None,
        },
    };
    assert(n@.obs =~= overpressure(*r, rec_of(reclaim))->0.obs);
    Some(n)
}

fn note_reserve(r: &PressureReport, reclaim: Option<&Recommendation>) -> (n: Option<Notice>)
    ensures
        notice_of(n) == reserve(*r, rec_of(reclaim)),
{
    match reclaim {
        Some(rec) => {
            let mut obs: Vec<String> = Vec::new();
            push_text(
                &mut obs,
                cat4(
                    rec.target.as_str(),
                    " sits idle — ",
                    fmt_kb(rec.benefit_kb).as_str(),
                    " recoverable",
                ),
            );
            push_text(
                &mut obs,
                cat3("confidence ", dec64(rec.confidence as u64).as_str(), "%"),
            );
            let n: Notice = Notice {
                level: Level::Advisory,
                valve: "V-03",
                title: cat2("RECLAIMABLE RESERVE: ", upper(rec.target.as_str()).as_str()),
                gauge: Some((owned("RAM"), r.memory.score)),
                obs,
                suggest: Some(cat2("pv suspend ", rec.target.as_str())),
            };
            assert(n@.obs =~= reserve(*r, rec_of(reclaim))->0.obs);
            Some(n)
        },
        None => None,
    }
}

fn movable_apps(apps: &Vec<App>, intents: &Vec<(String, Intent)>) -> (r: Vec<String>)
    ensures
        texts(r@) == movable(apps@, intents@),
{
    let mut out: Vec<String> = Vec::new();
    let mut i: usize = 0;
    assert(texts(out@) =~= movable(apps@.take(0), intents@));
    while i < apps.len()
        invariant
            i <= apps.len(),
            texts(out@) == movable(apps@.take(i as int), intents@),
        decreases apps.len() - i,
    {
        assert(apps@.take(i as int + 1).drop_last() =~= apps@.take(i as int));
        if let Some(intent) = find_intent(intents, apps[i].key.as_str()) {
            if intent.can_migrate {
                push_text(&mut out, apps[i].display.clone());
            }
        }
        i = i + 1;
    }
    assert(apps@.take(i as int) =~= apps@);
    out
}

fn note_battery(b: Option<Battery>, builds: &Vec<String>) -> (n: Option<Notice>)
    ensures
        notice_of(n) == low_battery(b, texts(builds@)),
{
    assert(texts(builds@).len() == builds@.len());
    match b {
        Some(b) => {
            if !(b.discharging && b.capacity <= 15) {
                return None;
            }
            let mut obs: Vec<String> = Vec::new();
            push_text(
                &mut obs,
                cat2(dec64(b.capacity as u64).as_str(), "% remaining, discharging"),
            );
            push_text(
                &mut obs,
                if builds.len() == 0 {
                    owned("no migratable workloads running")
                } else {
                    cat2("migratable workloads: ", join(builds, ", ").as_str())
                },
            );
            let suggest: Option<String> = if builds.len() == 0 {
                None
            } else {
                assert(texts(builds@)[0] == builds@[0]@);
                Some(cat2("pv migrate ", lower(builds[0].as_str()).as_str()))
            };
            let n: Notice = Notice {
                level: if b.capacity <= 8 {
                    Level::Critical
                } else {
                    Level::Warning
                },
                valve: "V-07",
                title: owned("BATTERY VENTING"),
                gauge: Some((owned("BAT"), (100 - b.capacity) as u8)),
                obs,
                suggest,
            };
            assert(n@.obs =~= low_battery(Some(b), texts(builds@))->0.obs);
            Some(n)
        },
        None => None,
    }
}

fn find_busiest(apps: &Vec<App>, intents: &Vec<(String, Intent)>, all: bool) -> (r: Option<String>)
    ensures
        opt_text(r) == display_at(apps@, busiest(apps@, intents@, all)),
{
    let mut best: Option<usize> = None;
    let mut i: usize = 0;
    while i < apps.len()
        invariant
            i <= apps.len(),
            best is Some <==> busiest(apps@.take(i as int), intents@, all) is Some,
            best matches Some(b) ==> busiest(apps@.take(i as int), intents@, all) == Some(b as int)
                && b < i,
        decreases apps.len() - i,
    {
        assert(apps@.take(i as int + 1).drop_last() =~= apps@.take(i as int));
        let fit: bool = all || match find_intent(intents, apps[i].key.as_str()) {
            Some(intent) => !intent.never_suspend,
            None => true,
        };
        if fit {
            match best {
                None => {
                    best = Some(i);
                },
                Some(b) => {
                    if apps[i].cpu_pct >= apps[b].cpu_pct {
                        best = Some(i);
                    }
                },
            }
        }
        i = i + 1;
    }
    assert(apps@.take(i as int) =~= apps@);
    match best {
        Some(b) => Some(apps[b].display.clone()),
        None => None,
    }
}

fn note_heat(temp: Option<u32>, hog: &Option<String>) -> (n: Option<Notice>)
    ensures
        notice_of(n) == too_hot(temp, opt_text(*hog)),
{
    match temp {
        Some(t) => {
            if t < 82_000 {
                return None;
            }
            let mut obs: Vec<String> = Vec::new();
            push_text(
                &mut obs,
                cat2(ratio(t as u128, 1000, 0).as_str(), "°C hottest zone"),
            );
            if let Some(h) = hog {
                push_text(&mut obs, cat2("largest heat source: ", h.as_str()));
            }
            let share: u32 = (t - 40_000) / 600;
            let n: Notice = Notice {
                level: if t >= 90_000 {
                    Level::Critical
                } else {
                    Level::Warning
                },
                valve: "V-08",
                title: owned("THERMAL OVERPRESSURE"),
                gauge: Some(
                    (
                        owned("TEMP"),
                        if share >= 100 {
                            100
                        } else {
                            share as u8
                        },
                    ),
                ),
                obs,
                suggest: match hog {
                    Some(h) => Some(cat2("pv suspend ", lower(h.as_str()).as_str())),
                    None => None,
                },
            };
            assert(n@.obs =~= too_hot(temp, opt_text(*hog))->0.obs);
            Some(n)
        },
        None => None,
    }
}

fn push_opt(out: &mut Vec<Notice>, n: Option<Notice>)
    ensures
        notice_views(final(out)@) == notice_views(old(out)@) + listed(notice_of(n)),
{
    let ghost before = notice_views(out@);
    match n {
        Some(x) => {
            push_notice(out, x);
            assert(notice_views(out@) =~= before + seq![x@]);
        },
        None => {
            assert(notice_views(out@) =~= before + Seq::empty());
        },
    }
}

/// The valves that need only the current moment, with the thermal reading
/// passed in.
pub fn oneshot_notices_at(
    apps: &Vec<App>,
    intents: &Vec<(String, Intent)>,
    report: &PressureReport,
    hottest_thermal: Option<u32>,
    labels: &Labels,
    now: u64,
) -> (r: Vec<Notice>)
    ensures
        notice_views(r@) == moment_notices(
            apps@,
            intents@,
            *report,
            hottest_thermal,
            labels@.app,
            now,
        ),
{
    let recs: Vec<Recommendation> = recommend_with_labels(apps, intents, report, labels, now);
    let reclaim: Option<&Recommendation> = match find_reclaim(&recs) {
        Some(i) => Some(&recs[i]),
        None => None,
    };
    let mut out: Vec<Notice> = Vec::new();
    assert(notice_views(out@) =~= Seq::empty());
    push_opt(&mut out, note_overpressure(report, reclaim));
    push_opt(&mut out, note_reserve(report, reclaim));
    push_opt(&mut out, note_battery(report.battery_info, &movable_apps(apps, intents)));
    push_opt(&mut out, note_heat(hottest_thermal, &find_busiest(apps, intents, false)));
    assert(notice_views(out@) =~= moment_notices(
        apps@,
        intents@,
        *report,
        hottest_thermal,
        labels@.app,
        now,
    ));
    out
}

/// The valves that `pv notify` consults.
pub fn oneshot_notices(
    apps: &Vec<App>,
    intents: &Vec<(String, Intent)>,
    report: &PressureReport,
    readings: &Vec<i64>,
    labels: &Labels,
    now: u64,
) -> (r: Vec<Notice>)
    ensures
        notice_views(r@) == moment_notices(
            apps@,
            intents@,
            *report,
            hottest_of(readings@),
            labels@.app,
            now,
        ),
{
    oneshot_notices_at(apps, intents, report, hottest_thermal(readings), labels, now)
}

// ------------------------------------------------------------ valves over time

/// Memory between 72 and 85 percent that has climbed by more than 2 MB a
/// second over at least twelve samples.
pub open spec fn rising(
    h: HistoryView,
    interval: nat,
    r: PressureReport,
    pause: Option<Seq<char>>,
) -> Option<NoticeView> {
    let (kb, secs) = slope_of(h, interval);
    let used = committed(r.mem) * 100;
    let total = total_of(r.mem);
    if 72 * total <= used && used < 85 * total && kb > 2048 * secs && h.mem.len() >= 12 {
        Some(
            NoticeView {
                level: Level::Warning,
                valve: "V-01"@,
                title: "MEMORY PRESSURE RISING"@,
                gauge: Some(("RAM"@, (used / total as int) as u8)),
                obs: seq![
                    used_text(r) + "% committed and climbing +"@ + ratio_text(
                        kb as nat,
                        1024 * secs,
                        1,
                    ) + " MB/s"@,
                    "trend sustained across the observation window"@,
                ],
                suggest: match pause {
                    Some(key) => Some("pv suspend "@ + key),
                    None => None,
                },
            },
        )
    } else {
        None
    }
}

/// Load that is high and far above what is usual in this hour.
pub open spec fn unusual(
    slot: SlotView,
    load1: nat,
    ncpu: nat,
    hog: Option<Seq<char>>,
) -> Option<NoticeView> {
    if slot.samples >= 20 && slot.cpu_ema > 5 * UNIT && load1 * UNIT >= 18 * slot.cpu_ema * ncpu
        && load1 > 400 * ncpu {
        Some(
            NoticeView {
                level: Level::Advisory,
                valve: "V-02"@,
                title: "UNUSUAL DEMAND FOR THIS HOUR"@,
                gauge: Some(("CPU"@, least(load1 / (10 * ncpu), 100) as u8)),
                obs: seq![
                    "load "@ + ratio_text(load1, 10 * ncpu, 0) + "% — your usual here is "@
                        + ratio_text(slot.cpu_ema as nat, UNIT as nat, 0) + "%"@,
                ] + one_if(hog is Some, "primary source: "@ + hog->0),
                suggest: None,
            },
        )
    } else {
        None
    }
}

/// Swap that has grown by more than 50 MB while memory stalls.
pub open spec fn thrashing(h: HistoryView, psi: nat) -> Option<NoticeView> {
    if swap_growth(h) > 50_000 && psi > 1000 {
        Some(
            NoticeView {
                level: Level::Warning,
                valve: "V-04"@,
                title: "SWAP THRASH RISK"@,
                gauge: Some(("MEM-PSI"@, (least(psi, 100_000) / 1000) as u8)),
                obs: seq![
                    "swap grew "@ + kb_text(swap_growth(h) as nat) + " across the window"@,
                    "memory stall "@ + ratio_text(psi, 1000, 0)
                        + "% — the kernel is paging under load"@,
                ],
                suggest: Some("relieve pressure or expect stalls"@),
            },
        )
    } else {
        None
    }
}

/// Load that varies by more than 55 percent around a mean above one.
pub open spec fn erratic(h: HistoryView) -> Option<NoticeView> {
    let (sum, count, spread) = stats_of(h.load);
    if h.mem.len() >= 24 && spread * 10_000 > 3025 * (sum * sum) && sum > 1000 * count {
        Some(
            NoticeView {
                level: Level::Advisory,
                valve: "V-05"@,
                title: "ERRATIC DEMAND PATTERN"@,
                gauge: Some(("VAR"@, least(cv_whole(spread, sum), 100) as u8)),
                obs: seq![
                    "load swinging ±"@ + decimal(cv_percent(spread, sum)) + "% around mean "@
                        + ratio_text(sum, 1000 * count, 1),
                    "bursty workloads thrash caches and scheduler"@,
                ],
                suggest: Some("stagger heavy jobs instead of firing them together"@),
            },
        )
    } else {
        None
    }
}

pub open spec fn names_of(top: Seq<(Seq<char>, u32)>) -> Seq<Seq<char>> {
    top.map_values(|e: (Seq<char>, u32)| e.0)
}

/// The next hour usually takes over 15 points more memory than is used.
pub open spec fn front(next: SlotView, hour: nat, r: PressureReport) -> Option<NoticeView> {
    let used = committed(r.mem) * 100;
    let total = total_of(r.mem);
    if next.samples >= 20 && next.mem_ema * total > (15 * total + used) * UNIT {
        Some(
            NoticeView {
                level: Level::Advisory,
                valve: "V-06"@,
                title: "DEMAND FRONT INCOMING"@,
                gauge: Some(("RAM"@, least(next.mem_ema as nat / UNIT as nat, 255) as u8)),
                obs: seq![
                    "your "@ + decimal((hour + 1) % 24) + ":00 block usually runs ~"@ + ratio_text(
                        next.mem_ema as nat,
                        UNIT as nat,
                        0,
                    ) + "% RAM (now "@ + used_text(r) + "%)"@,
                ] + one_if(
                    next.top.len() > 0,
                    "usual suspects: "@ + joined(names_of(next.top), ", "@),
                ),
                suggest: Some("run heavy jobs now, or plan a migration"@),
            },
        )
    } else {
        None
    }
}

pub open spec fn key_at(apps: Seq<App>, i: Option<int>) -> Option<Seq<char>> {
    match i {
        Some(k) => Some(apps[k].key@),
        None => None,
    }
}

/// The valves that need history and habits.
pub open spec fn trend_notices(
    apps: Seq<App>,
    intents: Seq<(String, Intent)>,
    report: PressureReport,
    hist: HistoryView,
    slots: Seq<SlotView>,
    interval: nat,
    sys: SysSample,
) -> Seq<NoticeView> {
    listed(
        rising(
            hist,
            interval,
            report,
            key_at(apps, first_suspendable(apps, intents, Seq::empty(), 0)),
        ),
    ) + listed(
        unusual(
            slots[sys.hour as int % 24],
            sys.load1 as nat,
            sys.ncpu as nat,
            display_at(apps, busiest(apps, intents, true)),
        ),
    ) + listed(thrashing(hist, sys.psi_mem_some_avg10 as nat)) + listed(erratic(hist)) + listed(
        front(slots[(sys.hour + 1) % 24], sys.hour as nat, report),
    )
}

fn note_rising(
    hist: &History,
    interval: u64,
    r: &PressureReport,
    pause: &Option<String>,
) -> (n: Option<Notice>)
    requires
        hist.wf(),
    ensures
        notice_of(n) == rising(hist@, interval as nat, *r, opt_text(*pause)),
{
    let (used, total) = shares(r);
    let slope: Slope = hist.mem_slope_kb_s(interval);
    if !(72 * total as i128 <= used * 100 && used * 100 < 85 * total as i128 && slope.kb > 2048
        * slope.secs as i128 && hist.len() >= 12) {
        return None;
    }
    assert((used * 100) / (total as int) <= 100) by (nonlinear_arith)
        requires
            0 < total,
            0 <= used <= total,
    ;
    let mut obs: Vec<String> = Vec::new();
    push_text(
        &mut obs,
        cat4(
            used_percent(r).as_str(),
            "% committed and climbing +",
            ratio(slope.kb as u128, 1024 * slope.secs, 1).as_str(),
            " MB/s",
        ),
    );
    push_text(&mut obs, owned("trend sustained across the observation window"));
    let n: Notice = Notice {
        level: Level::Warning,
        valve: "V-01",
        title: owned("MEMORY PRESSURE RISING"),
        gauge: Some((owned("RAM"), (used as u128 * 100 / total) as u8)),
        obs,
        suggest: match pause {
            Some(key) => Some(cat2("pv suspend ", key.as_str())),
            None => None,
        },
    };
    assert(n@.obs =~= rising(hist@, interval as nat, *r, opt_text(*pause))->0.obs);
    Some(n)
}

fn note_unusual(slot: &HabitSlot, load1: u32, ncpu: u32, hog: &Option<String>) -> (n: Option<
    Notice,
>)
    requires
        ncpu > 0,
    ensures
        notice_of(n) == unusual(slot@, load1 as nat, ncpu as nat, opt_text(*hog)),
{
    assert(18 * slot.cpu_ema * ncpu <= 18 * u64::MAX * u32::MAX) by (nonlinear_arith)
        requires
            slot.cpu_ema <= u64::MAX,
            ncpu <= u32::MAX,
    ;
    if !(slot.samples >= 20 && slot.cpu_ema > 5 * UNIT && load1 as u128 * UNIT as u128 >= 18
        * slot.cpu_ema as u128 * ncpu as u128 && load1 as u64 > 400 * ncpu as u64) {
        return None;
    }
    let mut obs: Vec<String> = Vec::new();
    push_text(
        &mut obs,
        cat5(
            "load ",
            ratio(load1 as u128, 10 * ncpu as u128, 0).as_str(),
            "% — your usual here is ",
            ratio(slot.cpu_ema as u128, UNIT as u128, 0).as_str(),
            "%",
        ),
    );
    if let Some(h) = hog {
        push_text(&mut obs, cat2("primary source: ", h.as_str()));
    }
    let share: u64 = load1 as u64 / (10 * ncpu as u64);
    let n: Notice = Notice {
        level: Level::Advisory,
        valve: "V-02",
        title: owned("UNUSUAL DEMAND FOR THIS HOUR"),
        gauge: Some(
            (
                owned("CPU"),
                if share <= 100 {
                    share as u8
                } else {
                    100
                },
            ),
        ),
        obs,
        suggest: None,
    };
    assert(n@.obs =~= unusual(slot@, load1 as nat, ncpu as nat, opt_text(*hog))->0.obs);
    Some(n)
}

fn note_thrashing(hist: &History, psi: u32) -> (n: Option<Notice>)
    ensures
        notice_of(n) == thrashing(hist@, psi as nat),
{
    let growth: i128 = hist.swap_growth_kb();
    if !(growth > 50_000 && psi > 1000) {
        return None;
    }
    let mut obs: Vec<String> = Vec::new();
    push_text(
        &mut obs,
        cat3("swap grew ", fmt_kb(growth as u64).as_str(), " across the window"),
    );
    push_text(
        &mut obs,
        cat3(
            "memory stall ",
            ratio(psi as u128, 1000, 0).as_str(),
            "% — the kernel is paging under load",
        ),
    );
    let n: Notice = Notice {
        level: Level::Warning,
        valve: "V-04",
        title: owned("SWAP THRASH RISK"),
        gauge: Some(
            (
                owned("MEM-PSI"),
                if psi <= 100_000 {
                    (psi / 1000) as u8
                } else {
                    100
                },
            ),
        ),
        obs,
        suggest: Some(owned("relieve pressure or expect stalls")),
    };
    assert(n@.obs =~= thrashing(hist@, psi as nat)->0.obs);
    Some(n)
}

fn note_erratic(hist: &History) -> (n: Option<Notice>)
    requires
        hist.wf(),
    ensures
        notice_of(n) == erratic(hist@),
{
    let st: LoadStats = hist.load_stats();
    assert(st.sum * st.sum <= (120 * u32::MAX) * (120 * u32::MAX)) by (nonlinear_arith)
        requires
            st.sum <= 120 * u32::MAX,
    ;
    if !(hist.len() >= 24 && st.spread * 10_000 > 3025 * (st.sum as u128 * st.sum as u128)
        && st.sum > 1000 * st.count) {
        return None;
    }
    let mut obs: Vec<String> = Vec::new();
    push_text(
        &mut obs,
        cat4(
            "load swinging ±",
            dec64(st.swing()).as_str(),
            "% around mean ",
            ratio(st.sum as u128, 1000 * st.count as u128, 1).as_str(),
        ),
    );
    push_text(&mut obs, owned("bursty workloads thrash caches and scheduler"));
    let share: u64 = st.whole();
    let n: Notice = Notice {
        level: Level::Advisory,
        valve: "V-05",
        title: owned("ERRATIC DEMAND PATTERN"),
        gauge: Some(
            (
                owned("VAR"),
                if share <= 100 {
                    share as u8
                } else {
                    100
                },
            ),
        ),
        obs,
        suggest: Some(owned("stagger heavy jobs instead of firing them together")),
    };
    assert(n@.obs =~= erratic(hist@)->0.obs);
    Some(n)
}

fn names(top: &Vec<(String, u32)>) -> (r: Vec<String>)
    ensures
        texts(r@) == names_of(counts(top@)),
{
    let ghost all = names_of(counts(top@));
    let mut out: Vec<String> = Vec::new();
    let mut i: usize = 0;
    while i < top.len()
        invariant
            i <= top.len(),
            all == names_of(counts(top@)),
            texts(out@) == all.take(i as int),
        decreases top.len() - i,
    {
        push_text(&mut out, top[i].0.clone());
        i = i + 1;
        assert(texts(out@) =~= all.take(i as int));
    }
    assert(texts(out@) =~= all);
    out
}

fn note_front(next: &HabitSlot, hour: usize, r: &PressureReport) -> (n: Option<Notice>)
    requires
        hour < usize::MAX,
    ensures
        notice_of(n) == front(next@, hour as nat, *r),
{
    let (used, total) = shares(r);
    assert(next.mem_ema * total <= u64::MAX * u64::MAX) by (nonlinear_arith)
        requires
            next.mem_ema <= u64::MAX,
            total <= u64::MAX,
    ;
    let mark: i128 = (15 * total as i128 + used * 100) * UNIT as i128;
    if !(next.samples >= 20 && (mark < 0 || next.mem_ema as u128 * total > mark as u128)) {
        return None;
    }
    let mut obs: Vec<String> = Vec::new();
    let head: String = cat5(
        "your ",
        dec64(((hour + 1) % 24) as u64).as_str(),
        ":00 block usually runs ~",
        ratio(next.mem_ema as u128, UNIT as u128, 0).as_str(),
        "% RAM (now ",
    );
    push_text(&mut obs, cat3(head.as_str(), used_percent(r).as_str(), "%)"));
    assert(counts(next.top@).len() == next.top@.len());
    if next.top.len() > 0 {
        push_text(
            &mut obs,
            cat2("usual suspects: ", join(&names(&next.top), ", ").as_str()),
        );
    }
    let share: u64 = next.mem_ema / UNIT;
    let n: Notice = Notice {
        level: Level::Advisory,
        valve: "V-06",
        title: owned("DEMAND FRONT INCOMING"),
        gauge: Some(
            (
                owned("RAM"),
                if share <= 255 {
                    share as u8
                } else {
                    255
                },
            ),
        ),
        obs,
        suggest: Some(owned("run heavy jobs now, or plan a migration")),
    };
    assert(n@.obs =~= front(next@, hour as nat, *r)->0.obs);
    Some(n)
}

/// The valves that need history and habits. Every ambient reading arrives in
/// `sys`.
pub fn history_notices(
    apps: &Vec<App>,
    intents: &Vec<(String, Intent)>,
    report: &PressureReport,
    hist: &History,
    habits: &Habits,
    interval: u64,
    sys: &SysSample,
) -> (r: Vec<Notice>)
    requires
        hist.wf(),
        habits.wf(),
        sys.ncpu > 0,
        sys.hour < usize::MAX,
    ensures
        notice_views(r@) == trend_notices(
            apps@,
            intents@,
            *report,
            hist@,
            slot_views(habits.slots@),
            interval as nat,
            *sys,
        ),
{
    let none: Labels = Labels::default();
    let pause: Option<String> = match find_suspendable(apps, intents, &none, 0) {
        Some(i) => Some(apps[i].key.clone()),
        None => None,
    };
    let hog: Option<String> = find_busiest(apps, intents, true);
    let here: &HabitSlot = habits.slot(sys.hour);
    let next: &HabitSlot = habits.slot(sys.hour + 1);
    let mut out: Vec<Notice> = Vec::new();
    assert(notice_views(out@) =~= Seq::empty());
    push_opt(&mut out, note_rising(hist, interval, report, &pause));
    push_opt(&mut out, note_unusual(here, sys.load1, sys.ncpu, &hog));
    push_opt(&mut out, note_thrashing(hist, sys.psi_mem_some_avg10));
    push_opt(&mut out, note_erratic(hist));
    push_opt(&mut out, note_front(next, sys.hour, report));
    assert(notice_views(out@) =~= trend_notices(
        apps@,
        intents@,
        *report,
        hist@,
        slot_views(habits.slots@),
        interval as nat,
        *sys,
    ));
    out
}

/// The daemon's decision: observed state and learned habits in, planned
/// notices out.
pub fn plan_notices(
    apps: &Vec<App>,
    intents: &Vec<(String, Intent)>,
    report: &PressureReport,
    hist: &History,
    habits: &Habits,
    interval: u64,
    sys: &SysSample,
    labels: &Labels,
    now: u64,
) -> (r: Vec<Notice>)
    requires
        hist.wf(),
        habits.wf(),
        sys.ncpu > 0,
        sys.hour < usize::MAX,
    ensures
        notice_views(r@) == moment_notices(
            apps@,
            intents@,
            *report,
            sys.hottest_thermal,
            labels@.app,
            now,
        ) + trend_notices(
            apps@,
            intents@,
            *report,
            hist@,
            slot_views(habits.slots@),
            interval as nat,
            *sys,
        ),
{
    let mut out: Vec<Notice> = oneshot_notices_at(
        apps,
        intents,
        report,
        sys.hottest_thermal,
        labels,
        now,
    );
    let more: Vec<Notice> = history_notices(apps, intents, report, hist, habits, interval, sys);
    let ghost first = notice_views(out@);
    let mut i: usize = 0;
    assert(first + notice_views(more@).take(0) =~= first);
    while i < more.len()
        invariant
            i <= more.len(),
            notice_views(out@) == first + notice_views(more@).take(i as int),
        decreases more.len() - i,
    {
        push_notice(&mut out, more[i].copy());
        i = i + 1;
        assert(notice_views(out@) =~= first + notice_views(more@).take(i as int));
    }
    assert(notice_views(more@).take(i as int) =~= notice_views(more@));
    out
}

// ------------------------------------------------------------ one tick

/// The first app with a key.
pub open spec fn app_index(apps: Seq<App>, key: Seq<char>) -> Option<int>
    decreases apps.len(),
{
    if apps.len() == 0 {
        None
    } else {
        match app_index(apps.drop_last(), key) {
            Some(i) => Some(i),
            None => if apps.last().key@ == key {
                Some(apps.len() - 1)
            } else {
                None
            },
        }
    }
}

proof fn lemma_app_index(apps: Seq<App>, key: Seq<char>)
    ensures
        app_index(apps, key) matches Some(i) ==> 0 <= i < apps.len() && apps[i].key@ == key
            && forall|j: int| 0 <= j < i ==> (#[trigger] apps[j]).key@ != key,
        app_index(apps, key) is None ==> forall|j: int|
            0 <= j < apps.len() ==> (#[trigger] apps[j]).key@ != key,
    decreases apps.len(),
{
    if apps.len() > 0 {
        lemma_app_index(apps.drop_last(), key);
        assert forall|j: int| 0 <= j < apps.len() - 1 implies apps.drop_last()[j]
            == #[trigger] apps[j] by {}
    }
}

/// The first app with a key.
pub fn find_key(apps: &Vec<App>, key: &str) -> (r: Option<usize>)
    ensures
        match r {
            Some(i) => i < apps@.len() && app_index(apps@, key@) == Some(i as int),
            None => app_index(apps@, key@) is None,
        },
{
    let mut i: usize = 0;
    while i < apps.len()
        invariant
            i <= apps.len(),
            forall|j: int| 0 <= j < i ==> (#[trigger] apps@[j]).key@ != key@,
        decreases apps.len() - i,
    {
        if same(apps[i].key.as_str(), key) {
            proof {
                lemma_app_index(apps@, key@);
            }
            return Some(i);
        }
        i = i + 1;
    }
    proof {
        lemma_app_index(apps@, key@);
    }
    None
}

/// Whether the app with a key is busy or large enough to shape a habit.
pub open spec fn shapes_habit(apps: Seq<App>, key: Seq<char>) -> bool {
    app_index(apps, key) matches Some(i) && (apps[i].cpu_pct > 5 * UNIT || apps[i].rss_kb
        > 200_000)
}

/// The categories at work, intent by intent.
pub open spec fn categories_at_work(apps: Seq<App>, intents: Seq<(String, Intent)>) -> Seq<
    Seq<char>,
>
    decreases intents.len(),
{
    if intents.len() == 0 {
        Seq::empty()
    } else {
        let before = categories_at_work(apps, intents.drop_last());
        if shapes_habit(apps, intents.last().0@) {
            before.push(category_tag(intents.last().1.category))
        } else {
            before
        }
    }
}

/// The categories at work now.
pub fn active_categories(apps: &Vec<App>, intents: &Vec<(String, Intent)>) -> (r: Vec<String>)
    ensures
        texts(r@) == categories_at_work(apps@, intents@),
        r@.len() <= intents@.len(),
{
    let mut out: Vec<String> = Vec::new();
    let mut i: usize = 0;
    assert(texts(out@) =~= categories_at_work(apps@, intents@.take(0)));
    while i < intents.len()
        invariant
            i <= intents.len(),
            out@.len() <= i,
            texts(out@) == categories_at_work(apps@, intents@.take(i as int)),
        decreases intents.len() - i,
    {
        assert(intents@.take(i as int + 1).drop_last() =~= intents@.take(i as int));
        assert(texts(out@).len() == out@.len());
        if let Some(k) = find_key(apps, intents[i].0.as_str()) {
            if apps[k].cpu_pct > 5 * UNIT || apps[k].rss_kb > 200_000 {
                push_text(&mut out, owned(intents[i].1.category.tag()));
                assert(texts(out@).len() == out@.len());
            }
        }
        i = i + 1;
    }
    assert(intents@.take(i as int) =~= intents@);
    out
}

pub open spec fn valve_key(n: NoticeView) -> Seq<char> {
    n.valve + ":"@ + n.title
}

/// The notices that the cooldowns let through, and the cooldowns after that.
pub open spec fn passed(
    past: Map<Seq<char>, (u64, Level)>,
    list: Seq<NoticeView>,
    now_ns: u64,
) -> (Map<Seq<char>, (u64, Level)>, Seq<NoticeView>)
    decreases list.len(),
{
    if list.len() == 0 {
        (past, Seq::empty())
    } else {
        let (then_past, out) = passed(past, list.drop_last(), now_ns);
        let n = list.last();
        if may_fire(then_past, valve_key(n), n.level, now_ns) {
            (then_past.insert(valve_key(n), (now_ns, n.level)), out.push(n))
        } else {
            (then_past, out)
        }
    }
}

/// Hold back the notices whose valves are still cooling down.
pub fn gate(cooldowns: &mut Cooldowns, list: &Vec<Notice>, now_ns: u64) -> (r: Vec<Notice>)
    ensures
        (final(cooldowns)@, notice_views(r@)) == passed(
            old(cooldowns)@,
            notice_views(list@),
            now_ns,
        ),
{
    let ghost past = cooldowns@;
    let ghost all = notice_views(list@);
    let mut out: Vec<Notice> = Vec::new();
    let mut i: usize = 0;
    assert(notice_views(out@) =~= Seq::empty());
    while i < list.len()
        invariant
            i <= list.len(),
            all == notice_views(list@),
            (cooldowns@, notice_views(out@)) == passed(past, all.take(i as int), now_ns),
        decreases list.len() - i,
    {
        proof {
            assert(all.take(i as int + 1).drop_last() =~= all.take(i as int));
            assert(all.take(i as int + 1).last() == list@[i as int]@);
        }
        let n: &Notice = &list[i];
        let key: String = cat3(n.valve, ":", n.title.as_str());
        if cooldowns.allow(key.as_str(), n.level, now_ns) {
            push_notice(&mut out, n.copy());
        }
        i = i + 1;
    }
    assert(all.take(i as int) =~= all);
    out
}

/// What the daemon remembers from tick to tick.
pub struct Daemon {
    pub hist: History,
    pub habits: Habits,
    pub cooldowns: Cooldowns,
}

/// The load as a share of all cores, to the nearest billionth of a percent.
pub open spec fn cpu_share(load1: nat, ncpu: nat) -> u64 {
    ((load1 * 200_000_000 + ncpu) / (2 * ncpu)) as u64
}

/// Used memory, to the nearest billionth of a percent.
pub open spec fn mem_share(r: PressureReport) -> u64 {
    let total = total_of(r.mem) as int;
    ((committed(r.mem) * 200 * UNIT + total) / (2 * total)) as u64
}

/// The history with one more sample.
pub open spec fn recorded(h: HistoryView, r: PressureReport, load1: u32) -> HistoryView {
    HistoryView {
        mem: newest(h.mem.push((r.mem.total_kb - r.mem.available_kb) as u64)),
        swap: newest(h.swap.push((r.mem.swap_total_kb - r.mem.swap_free_kb) as u64)),
        load: newest(h.load.push(load1)),
    }
}

/// The variation of the load over a history, in billionths.
pub open spec fn variation(h: HistoryView) -> u64 {
    let (sum, count, spread) = stats_of(h.load);
    cv_of(spread, sum) as u64
}

/// The slots once the current hour has learned from a tick.
pub open spec fn slots_after(
    slots: Seq<SlotView>,
    apps: Seq<App>,
    intents: Seq<(String, Intent)>,
    report: PressureReport,
    hist: HistoryView,
    sys: SysSample,
) -> Seq<SlotView> {
    slots.update(
        sys.hour as int % 24,
        observed(
            slots[sys.hour as int % 24],
            cpu_share(sys.load1 as nat, sys.ncpu as nat),
            mem_share(report),
            variation(hist),
            categories_at_work(apps, intents),
        ),
    )
}

impl Daemon {
    pub fn new(habits: Habits) -> (r: Self)
        requires
            habits.wf(),
        ensures
            r.hist.wf(),
            r.hist@ == (HistoryView { mem: Seq::empty(), swap: Seq::empty(), load: Seq::empty() }),
            r.habits == habits,
            r.cooldowns@ == Map::<Seq<char>, (u64, Level)>::empty(),
    {
        Daemon { hist: History::new(), habits, cooldowns: Cooldowns::new() }
    }

    /// One tick: record the sample, learn from it, and decide which valves
    /// vent.
    pub fn tick(
        &mut self,
        apps: &Vec<App>,
        intents: &Vec<(String, Intent)>,
        report: &PressureReport,
        interval: u64,
        sys: &SysSample,
        labels: &Labels,
        now: u64,
        now_ns: u64,
    ) -> (r: Vec<Notice>)
        requires
            old(self).hist.wf(),
            old(self).habits.wf(),
            old(self).habits.room(sys.hour, intents@.len()),
            report.mem.available_kb <= report.mem.total_kb,
            report.mem.swap_free_kb <= report.mem.swap_total_kb,
            sys.ncpu > 0,
            sys.hour < usize::MAX,
        ensures
            final(self).hist.wf(),
            final(self).habits.wf(),
            final(self).hist@ == recorded(old(self).hist@, *report, sys.load1),
            slot_views(final(self).habits.slots@) == slots_after(
                slot_views(old(self).habits.slots@),
                apps@,
                intents@,
                *report,
                final(self).hist@,
                *sys,
            ),
            final(self).habits.last_save == old(self).habits.last_save,
            (final(self).cooldowns@, notice_views(r@)) == passed(
                old(self).cooldowns@,
                moment_notices(
                    apps@,
                    intents@,
                    *report,
                    sys.hottest_thermal,
                    labels@.app,
                    now,
                ) + trend_notices(
                    apps@,
                    intents@,
                    *report,
                    final(self).hist@,
                    slot_views(final(self).habits.slots@),
                    interval as nat,
                    *sys,
                ),
                now_ns,
            ),
    {
        self.hist.push(report, sys.load1);
        let (used, total) = shares(report);
        let cpu: u64 = (sys.load1 as u64 * 200_000_000 + sys.ncpu as u64) / (2 * sys.ncpu as u64);
        assert((used * 200 * 1_000_000_000 + total) / (2 * total as int) <= 100_000_000_001) by (
        nonlinear_arith)
            requires
                0 < total,
                0 <= used <= total,
        ;
        let mem: u64 = ((used as u128 * 200 * UNIT as u128 + total) / (2 * total)) as u64;
        let st: LoadStats = self.hist.load_stats();
        let cv: u64 = st.cv();
        let cats: Vec<String> = active_categories(apps, intents);
        let ghost slots0 = slot_views(self.habits.slots@);
        assert(slots0[sys.hour as int % 24] == self.habits.slots@[sys.hour as int % 24]@);
        self.habits.observe_at(sys.hour, cpu, mem, cv, &cats);
        let plan: Vec<Notice> = plan_notices(
            apps,
            intents,
            report,
            &self.hist,
            &self.habits,
            interval,
            sys,
            labels,
            now,
        );
        gate(&mut self.cooldowns, &plan, now_ns)
    }
}

// ------------------------------------------------------------ views

/// The line that the daemon greets with.
pub fn banner(interval: u64, samples: u64) -> (r: String)
    ensures
        r@ == "┌─[ PV-DAEMON ]── online · 8 valves armed · interval "@ + decimal(interval as nat)
            + "s · habits: "@ + decimal(samples as nat) + " samples"@,
{
    cat5(
        "┌─[ PV-DAEMON ]── online · 8 valves armed · interval ",
        dec64(interval).as_str(),
        "s · habits: ",
        dec64(samples).as_str(),
        " samples",
    )
}

/// A bar for an average in billionths of a percent.
pub open spec fn ema_bar(ema: u64) -> Seq<char> {
    bar_text(least(ema as nat / UNIT as nat, 100) as u8, 8)
}

/// One hour of the profile.
pub open spec fn hour_line(t: Theme, hour: nat, s: SlotView, current: bool) -> Seq<char> {
    let cats = if s.top.len() == 0 {
        Seq::empty()
    } else {
        "  "@ + joined(names_of(s.top), ", "@)
    };
    "  "@ + (if current {
        painted(t, "36"@, "→"@)
    } else {
        " "@
    }) + " "@ + two_digits(hour) + ":00  cpu "@ + padded_left(
        ratio_text(s.cpu_ema as nat, UNIT as nat, 0),
        4,
        ' ',
    ) + "% "@ + painted(t, "2"@, ema_bar(s.cpu_ema)) + "  mem "@ + padded_left(
        ratio_text(s.mem_ema as nat, UNIT as nat, 0),
        4,
        ' ',
    ) + "% "@ + painted(t, "2"@, ema_bar(s.mem_ema)) + "  var "@ + ratio_text(
        s.var_ema as nat,
        UNIT as nat,
        2,
    ) + painted(t, "2"@, cats)
}

/// The hours that have samples, in order.
pub open spec fn hour_lines(t: Theme, slots: Seq<SlotView>, current: nat) -> Seq<Seq<char>>
    decreases slots.len(),
{
    if slots.len() == 0 {
        Seq::empty()
    } else {
        let before = hour_lines(t, slots.drop_last(), current);
        let hour = (slots.len() - 1) as nat;
        if slots.last().samples == 0 {
            before
        } else {
            before.push(hour_line(t, hour, slots.last(), hour == current))
        }
    }
}

/// The learned profile, or a word where nothing has been learned.
pub open spec fn profile(t: Theme, slots: Seq<SlotView>, current: nat) -> Seq<Seq<char>> {
    if samples_sum(slots) == 0 {
        seq![
            painted(
                t,
                "2"@,
                "No habit data yet — run `pv daemon` for a while and it will learn your rhythm."@,
            ),
        ]
    } else {
        seq![painted(t, "1"@, "Learned demand profile (per hour, local time)"@)] + hour_lines(
            t,
            slots,
            current,
        ) + seq![
            painted(
                t,
                "2"@,
                "\n"@ + decimal(samples_sum(slots))
                    + " samples — profile strengthens as the daemon keeps watching."@,
            ),
        ]
    }
}

fn small_bar(ema: u64) -> (r: String)
    ensures
        r@ == ema_bar(ema),
{
    let share: u64 = ema / UNIT;
    bar(
        if share <= 100 {
            share as u8
        } else {
            100
        },
        8,
    )
}

fn print_hour(t: &Theme, hour: usize, s: &HabitSlot, current: bool) -> (r: String)
    ensures
        r@ == hour_line(*t, hour as nat, s@, current),
{
    let marker: String = if current {
        t.cyan("→")
    } else {
        owned(" ")
    };
    assert(counts(s.top@).len() == s.top@.len());
    let cats: String = if s.top.len() == 0 {
        String::new()
    } else {
        cat2("  ", join(&names(&s.top), ", ").as_str())
    };
    let head: String = cat5("  ", marker.as_str(), " ", dec2(hour as u64).as_str(), ":00  cpu ");
    let cpu: String = cat4(
        head.as_str(),
        pad_left(ratio(s.cpu_ema as u128, UNIT as u128, 0).as_str(), 4, ' ').as_str(),
        "% ",
        t.dim(small_bar(s.cpu_ema).as_str()).as_str(),
    );
    let mem: String = cat5(
        cpu.as_str(),
        "  mem ",
        pad_left(ratio(s.mem_ema as u128, UNIT as u128, 0).as_str(), 4, ' ').as_str(),
        "% ",
        t.dim(small_bar(s.mem_ema).as_str()).as_str(),
    );
    cat4(
        mem.as_str(),
        "  var ",
        ratio(s.var_ema as u128, UNIT as u128, 2).as_str(),
        t.dim(cats.as_str()).as_str(),
    )
}

/// The lines that show what has been learned.
pub fn print_habits(t: &Theme, h: &Habits, current: usize) -> (r: Vec<String>)
    requires
        samples_sum(slot_views(h.slots@)) <= u64::MAX,
    ensures
        texts(r@) == profile(*t, slot_views(h.slots@), current as nat),
{
    let ghost all = slot_views(h.slots@);
    let total: u64 = h.total_samples();
    let mut out: Vec<String> = Vec::new();
    if total == 0 {
        push_text(
            &mut out,
            t.dim("No habit data yet — run `pv daemon` for a while and it will learn your rhythm."),
        );
        assert(texts(out@) =~= profile(*t, all, current as nat));
        return out;
    }
    push_text(&mut out, t.bold("Learned demand profile (per hour, local time)"));
    let ghost head = texts(out@);
    let mut i: usize = 0;
    assert(head + hour_lines(*t, all.take(0), current as nat) =~= head);
    while i < h.slots.len()
        invariant
            i <= h.slots.len(),
            all == slot_views(h.slots@),
            texts(out@) == head + hour_lines(*t, all.take(i as int), current as nat),
        decreases h.slots.len() - i,
    {
        let ghost before = texts(out@);
        let s: &HabitSlot = &h.slots[i];
        proof {
            assert(all.take(i as int + 1).drop_last() =~= all.take(i as int));
            assert(all.take(i as int + 1).last() == s@);
        }
        if s.samples != 0 {
            push_text(&mut out, print_hour(t, i, s, i == current));
            assert(texts(out@) =~= head + hour_lines(
                *t,
                all.take(i as int + 1),
                current as nat,
            ));
        }
        i = i + 1;
    }
    assert(all.take(i as int) =~= all);
    push_text(
        &mut out,
        t.dim(
            cat3(
                "\n",
                dec64(total).as_str(),
                " samples — profile strengthens as the daemon keeps watching.",
            ).as_str(),
        ),
    );
    assert(texts(out@) =~= profile(*t, all, current as nat));
    out
}

/// What is said when no valve vents.
pub open spec fn nominal(r: PressureReport, load1: nat) -> NoticeView {
    NoticeView {
        level: Level::Advisory,
        valve: "V-00"@,
        title: "ALL VALVES NOMINAL"@,
        gauge: Some(("SYS"@, r.overall)),
        obs: seq![
            "RAM "@ + used_text(r) + "% · load "@ + ratio_text(load1, 1000, 2)
                + " · no reclaimable reserves"@,
            "no action suggested at this time"@,
        ],
        suggest: None,
    }
}

/// What `pv notify` shows: the notices, or that there are none.
pub fn run_notify(notices: Vec<Notice>, report: &PressureReport, load1: u32) -> (r: Vec<Notice>)
    ensures
        notice_views(r@) == (if notices@.len() == 0 {
            seq![nominal(*report, load1 as nat)]
        } else {
            notice_views(notices@)
        }),
{
    if notices.len() > 0 {
        return notices;
    }
    let mut obs: Vec<String> = Vec::new();
    push_text(
        &mut obs,
        cat5(
            "RAM ",
            used_percent(report).as_str(),
            "% · load ",
            ratio(load1 as u128, 1000, 2).as_str(),
            " · no reclaimable reserves",
        ),
    );
    push_text(&mut obs, owned("no action suggested at this time"));
    let n: Notice = Notice {
        level: Level::Advisory,
        valve: "V-00",
        title: owned("ALL VALVES NOMINAL"),
        gauge: Some((owned("SYS"), report.overall)),
        obs,
        suggest: None,
    };
    assert(n@.obs =~= nominal(*report, load1 as nat).obs);
    let mut out: Vec<Notice> = Vec::new();
    push_notice(&mut out, n);
    assert(notice_views(out@) =~= seq![nominal(*report, load1 as nat)]);
    out
}

/// Where the habits are kept, by the data and home directories.
pub fn habits_path(data_home: &Option<String>, home: &Option<String>) -> (r: String)
    ensures
        r@ == joined_path(
            xdg_dir(opt_text(*data_home), opt_text(*home), ".local/share"@),
            "pv/habits.toml"@,
        ),
{
    path_join(xdg(data_home, home, ".local/share").as_str(), "pv/habits.toml")
}

/// The systemd unit that runs the daemon from a given executable.
pub fn install_service(exe: &str) -> (r: String)
    ensures
        r@
            == "[Unit]\nDescription=Pressure Valve daemon\nAfter=default.target\n\n[Service]\nExecStart="@
            + exe@
            + " daemon --desktop\nRestart=on-failure\nRestartSec=10\n\n[Install]\nWantedBy=default.target\n"@,
{
    cat3(
        "[Unit]\nDescription=Pressure Valve daemon\nAfter=default.target\n\n[Service]\nExecStart=",
        exe,
        " daemon --desktop\nRestart=on-failure\nRestartSec=10\n\n[Install]\nWantedBy=default.target\n",
    )
}

/// Where the unit is kept, by the home directory.
pub fn service_path(home: &Option<String>) -> (r: String)
    ensures
        r@ == joined_path(
            joined_path(
                match *home {
                    Some(h) => h@,
                    None => "/tmp"@,
                },
                ".config/systemd/user"@,
            ),
            "pv-daemon.service"@,
        ),
{
    let base: String = match home {
        Some(h) => path_join(h.as_str(), ".config/systemd/user"),
        None => path_join("/tmp", ".config/systemd/user"),
    };
    path_join(base.as_str(), "pv-daemon.service")
}

// ------------------------------------------------------------ laws of the valves

/// What a tick plans: the valves of the moment, and those over time.
pub open spec fn planned(
    apps: Seq<App>,
    intents: Seq<(String, Intent)>,
    report: PressureReport,
    hist: HistoryView,
    slots: Seq<SlotView>,
    interval: nat,
    sys: SysSample,
    labels: Seq<LabelView>,
    now: u64,
) -> Seq<NoticeView> {
    moment_notices(apps, intents, report, sys.hottest_thermal, labels, now) + trend_notices(
        apps,
        intents,
        report,
        hist,
        slots,
        interval,
        sys,
    )
}

/// Whether a valve is among planned notices under a title.
pub open spec fn vents(plan: Seq<NoticeView>, valve: Seq<char>, title: Seq<char>) -> bool {
    exists|k: int| 0 <= k < plan.len() && (#[trigger] plan[k]).valve == valve && plan[k].title == title
}

/// Memory in KiB, at least one.
pub open spec fn physical(r: PressureReport) -> int {
    if r.mem.total_kb == 0 {
        1
    } else {
        r.mem.total_kb as int
    }
}

/// A hundred times the memory that is not available, in KiB.
pub open spec fn used_hundredfold(r: PressureReport) -> int {
    100 * (physical(r) - r.mem.available_kb)
}

proof fn lemma_cat<T>(a: Seq<T>, b: Seq<T>, x: T)
    ensures
        (a + b).contains(x) <==> a.contains(x) || b.contains(x),
{
    let s = a + b;
    if a.contains(x) {
        let i = choose|i: int| 0 <= i < a.len() && a[i] == x;
        assert(s[i] == x);
    }
    if b.contains(x) {
        let i = choose|i: int| 0 <= i < b.len() && b[i] == x;
        assert(s[a.len() + i] == x);
    }
    if s.contains(x) {
        let i = choose|i: int| 0 <= i < s.len() && s[i] == x;
        if i < a.len() {
            assert(a[i] == x);
        } else {
            assert(b[i - a.len()] == x);
        }
    }
}

proof fn lemma_listed(o: Option<NoticeView>, x: NoticeView)
    ensures
        listed(o).contains(x) <==> o == Some(x),
{
    if o is Some {
        assert(listed(o)[0] == o->0);
    }
}

proof fn lemma_planned(
    apps: Seq<App>,
    intents: Seq<(String, Intent)>,
    report: PressureReport,
    hist: HistoryView,
    slots: Seq<SlotView>,
    interval: nat,
    sys: SysSample,
    labels: Seq<LabelView>,
    now: u64,
    x: NoticeView,
)
    ensures
        planned(apps, intents, report, hist, slots, interval, sys, labels, now).contains(x) <==> ({
            let reclaim = first_suspend(recommended(apps, intents, report, labels, now));
            ||| overpressure(report, reclaim) == Some(x)
            ||| reserve(report, reclaim) == Some(x)
            ||| low_battery(report.battery_info, movable(apps, intents)) == Some(x)
            ||| too_hot(
                sys.hottest_thermal,
                display_at(apps, busiest(apps, intents, false)),
            ) == Some(x)
            ||| rising(
                hist,
                interval,
                report,
                key_at(apps, first_suspendable(apps, intents, Seq::empty(), 0)),
            ) == Some(x)
            ||| unusual(
                slots[sys.hour as int % 24],
                sys.load1 as nat,
                sys.ncpu as nat,
                display_at(apps, busiest(apps, intents, true)),
            ) == Some(x)
            ||| thrashing(hist, sys.psi_mem_some_avg10 as nat) == Some(x)
            ||| erratic(hist) == Some(x)
            ||| front(slots[(sys.hour + 1) % 24], sys.hour as nat, report) == Some(x)
        }),
{
    let reclaim = first_suspend(recommended(apps, intents, report, labels, now));
    let a1 = overpressure(report, reclaim);
    let a2 = reserve(report, reclaim);
    let a3 = low_battery(report.battery_info, movable(apps, intents));
    let a4 = too_hot(sys.hottest_thermal, display_at(apps, busiest(apps, intents, false)));
    let b1 = rising(
        hist,
        interval,
        report,
        key_at(apps, first_suspendable(apps, intents, Seq::empty(), 0)),
    );
    let b2 = unusual(
        slots[sys.hour as int % 24],
        sys.load1 as nat,
        sys.ncpu as nat,
        display_at(apps, busiest(apps, intents, true)),
    );
    let b3 = thrashing(hist, sys.psi_mem_some_avg10 as nat);
    let b4 = erratic(hist);
    let b5 = front(slots[(sys.hour + 1) % 24], sys.hour as nat, report);
    lemma_listed(a1, x);
    lemma_listed(a2, x);
    lemma_listed(a3, x);
    lemma_listed(a4, x);
    lemma_listed(b1, x);
    lemma_listed(b2, x);
    lemma_listed(b3, x);
    lemma_listed(b4, x);
    lemma_listed(b5, x);
    lemma_cat(listed(a1), listed(a2), x);
    lemma_cat(listed(a1) + listed(a2), listed(a3), x);
    lemma_cat(listed(a1) + listed(a2) + listed(a3), listed(a4), x);
    lemma_cat(listed(b1), listed(b2), x);
    lemma_cat(listed(b1) + listed(b2), listed(b3), x);
    lemma_cat(listed(b1) + listed(b2) + listed(b3), listed(b4), x);
    lemma_cat(listed(b1) + listed(b2) + listed(b3) + listed(b4), listed(b5), x);
    lemma_cat(
        listed(a1) + listed(a2) + listed(a3) + listed(a4),
        listed(b1) + listed(b2) + listed(b3) + listed(b4) + listed(b5),
        x,
    );
}

proof fn lemma_valves_apart()
    ensures
        "V-01"@ != "V-02"@ && "V-01"@ != "V-03"@ && "V-01"@ != "V-04"@ && "V-01"@ != "V-05"@
            && "V-01"@ != "V-06"@ && "V-01"@ != "V-07"@ && "V-01"@ != "V-08"@,
        "V-02"@ != "V-03"@ && "V-02"@ != "V-04"@ && "V-02"@ != "V-05"@ && "V-02"@ != "V-06"@
            && "V-02"@ != "V-07"@ && "V-02"@ != "V-08"@,
        "V-03"@ != "V-04"@ && "V-03"@ != "V-05"@ && "V-03"@ != "V-06"@ && "V-03"@ != "V-07"@
            && "V-03"@ != "V-08"@,
        "V-04"@ != "V-05"@ && "V-04"@ != "V-06"@ && "V-04"@ != "V-07"@ && "V-04"@ != "V-08"@,
        "V-05"@ != "V-06"@ && "V-05"@ != "V-07"@ && "V-05"@ != "V-08"@,
        "V-06"@ != "V-07"@ && "V-06"@ != "V-08"@,
        "V-07"@ != "V-08"@,
        "MEMORY OVERPRESSURE"@ != "MEMORY PRESSURE RISING"@,
{
    reveal_strlit("V-01");
    reveal_strlit("V-02");
    reveal_strlit("V-03");
    reveal_strlit("V-04");
    reveal_strlit("V-05");
    reveal_strlit("V-06");
    reveal_strlit("V-07");
    reveal_strlit("V-08");
    assert("V-01"@[3] == '1' && "V-02"@[3] == '2' && "V-03"@[3] == '3' && "V-04"@[3] == '4');
    assert("V-05"@[3] == '5' && "V-06"@[3] == '6' && "V-07"@[3] == '7' && "V-08"@[3] == '8');
    reveal_strlit("MEMORY OVERPRESSURE");
    reveal_strlit("MEMORY PRESSURE RISING");
    assert("MEMORY OVERPRESSURE"@.len() != "MEMORY PRESSURE RISING"@.len());
}

/// Memory overpressure vents exactly where at least 85 percent of memory is
/// committed or memory runs out within ten minutes, and is critical.
pub proof fn overpressure_vents_when_memory_is_nearly_gone(
    apps: Seq<App>,
    intents: Seq<(String, Intent)>,
    report: PressureReport,
    hist: HistoryView,
    slots: Seq<SlotView>,
    interval: nat,
    sys: SysSample,
    labels: Seq<LabelView>,
    now: u64,
)
    ensures
        ({
            let plan = planned(apps, intents, report, hist, slots, interval, sys, labels, now);
            &&& vents(plan, "V-01"@, "MEMORY OVERPRESSURE"@) <==> used_hundredfold(report) >= 85
                * physical(report) || (report.oom_eta_secs is Some && report.oom_eta_secs->0 < 600)
            &&& forall|k: int|
                0 <= k < plan.len() && (#[trigger] plan[k]).valve == "V-01"@ && plan[k].title
                    == "MEMORY OVERPRESSURE"@ ==> plan[k].level == Level::Critical
        }),
{
    let plan = planned(apps, intents, report, hist, slots, interval, sys, labels, now);
    lemma_valves_apart();
    let reclaim = first_suspend(recommended(apps, intents, report, labels, now));
    let own = overpressure(report, reclaim);
    if own is Some {
        lemma_planned(apps, intents, report, hist, slots, interval, sys, labels, now, own->0);
        let k = choose|k: int| 0 <= k < plan.len() && plan[k] == own->0;
        assert(plan[k].valve == "V-01"@);
    }
    assert forall|k: int|
        0 <= k < plan.len() && (#[trigger] plan[k]).valve == "V-01"@ && plan[k].title
            == "MEMORY OVERPRESSURE"@ implies own == Some(plan[k]) by {
        assert(plan.contains(plan[k]));
        lemma_planned(apps, intents, report, hist, slots, interval, sys, labels, now, plan[k]);
    }
}

/// Rising memory vents exactly where from 72 to under 85 percent of memory are
/// committed and, over at least twelve samples, more than 2048 KiB were taken
/// in each second. It is a warning.
pub proof fn rising_vents_when_memory_climbs(
    apps: Seq<App>,
    intents: Seq<(String, Intent)>,
    report: PressureReport,
    hist: HistoryView,
    slots: Seq<SlotView>,
    interval: nat,
    sys: SysSample,
    labels: Seq<LabelView>,
    now: u64,
)
    ensures
        ({
            let plan = planned(apps, intents, report, hist, slots, interval, sys, labels, now);
            &&& vents(plan, "V-01"@, "MEMORY PRESSURE RISING"@) <==> 72 * physical(report)
                <= used_hundredfold(report) && used_hundredfold(report) < 85 * physical(report)
                && hist.mem.len() >= 12 && interval > 0 && hist.mem.last() - hist.mem[0] > 2048 * ((
            hist.mem.len() - 1) * interval)
            &&& forall|k: int|
                0 <= k < plan.len() && (#[trigger] plan[k]).valve == "V-01"@ && plan[k].title
                    == "MEMORY PRESSURE RISING"@ ==> plan[k].level == Level::Warning
        }),
{
    let plan = planned(apps, intents, report, hist, slots, interval, sys, labels, now);
    lemma_valves_apart();
    let own = rising(
        hist,
        interval,
        report,
        key_at(apps, first_suspendable(apps, intents, Seq::empty(), 0)),
    );
    if own is Some {
        lemma_planned(apps, intents, report, hist, slots, interval, sys, labels, now, own->0);
        let k = choose|k: int| 0 <= k < plan.len() && plan[k] == own->0;
        assert(plan[k].valve == "V-01"@);
    }
    assert forall|k: int|
        0 <= k < plan.len() && (#[trigger] plan[k]).valve == "V-01"@ && plan[k].title
            == "MEMORY PRESSURE RISING"@ implies own == Some(plan[k]) by {
        assert(plan.contains(plan[k]));
        lemma_planned(apps, intents, report, hist, slots, interval, sys, labels, now, plan[k]);
    }
}

/// Unusual demand vents exactly where at least twenty samples of the hour put
/// its usual load above 5 percent, and the load is above 40 percent and at least
/// 1.8 times the usual. It is an advisory.
pub proof fn unusual_demand_vents_against_the_habit(
    apps: Seq<App>,
    intents: Seq<(String, Intent)>,
    report: PressureReport,
    hist: HistoryView,
    slots: Seq<SlotView>,
    interval: nat,
    sys: SysSample,
    labels: Seq<LabelView>,
    now: u64,
)
    ensures
        ({
            let plan = planned(apps, intents, report, hist, slots, interval, sys, labels, now);
            let usual = slots[sys.hour as int % 24];
            &&& vents(plan, "V-02"@, "UNUSUAL DEMAND FOR THIS HOUR"@) <==> usual.samples >= 20
                && usual.cpu_ema > 5_000_000_000 && 10 * (sys.load1 * 1_000_000_000) >= 18 * (
            usual.cpu_ema * (10 * sys.ncpu)) && sys.load1 > 40 * (10 * sys.ncpu)
            &&& forall|k: int|
                0 <= k < plan.len() && (#[trigger] plan[k]).valve == "V-02"@ ==> plan[k].level
                    == Level::Advisory && plan[k].title == "UNUSUAL DEMAND FOR THIS HOUR"@
        }),
{
    let plan = planned(apps, intents, report, hist, slots, interval, sys, labels, now);
    lemma_valves_apart();
    let usual = slots[sys.hour as int % 24];
    let own = unusual(
        usual,
        sys.load1 as nat,
        sys.ncpu as nat,
        display_at(apps, busiest(apps, intents, true)),
    );
    assert(10 * (usual.cpu_ema * sys.ncpu) == usual.cpu_ema * (10 * sys.ncpu)) by (nonlinear_arith);
    assert(18 * usual.cpu_ema * sys.ncpu == 18 * (usual.cpu_ema * sys.ncpu)) by (nonlinear_arith);
    if own is Some {
        lemma_planned(apps, intents, report, hist, slots, interval, sys, labels, now, own->0);
        let k = choose|k: int| 0 <= k < plan.len() && plan[k] == own->0;
        assert(plan[k].valve == "V-02"@);
    }
    assert forall|k: int| 0 <= k < plan.len() && (#[trigger] plan[k]).valve == "V-02"@ implies own
        == Some(plan[k]) by {
        assert(plan.contains(plan[k]));
        lemma_planned(apps, intents, report, hist, slots, interval, sys, labels, now, plan[k]);
    }
}

/// A reserve is named exactly where a suspension is recommended, by the first
/// one: its app, what it would give back, and the command for it.
pub proof fn a_reserve_is_named_when_one_can_be_had(
    apps: Seq<App>,
    intents: Seq<(String, Intent)>,
    report: PressureReport,
    hist: HistoryView,
    slots: Seq<SlotView>,
    interval: nat,
    sys: SysSample,
    labels: Seq<LabelView>,
    now: u64,
)
    ensures
        ({
            let plan = planned(apps, intents, report, hist, slots, interval, sys, labels, now);
            let recs = recommended(apps, intents, report, labels, now);
            &&& (exists|k: int| 0 <= k < plan.len() && (#[trigger] plan[k]).valve == "V-03"@) <==> (
            exists|i: int| 0 <= i < recs.len() && (#[trigger] recs[i]).action == Action::Suspend)
            &&& forall|k: int, i: int|
                0 <= k < plan.len() && (#[trigger] plan[k]).valve == "V-03"@ && 0 <= i < recs.len()
                    && (#[trigger] recs[i]).action == Action::Suspend && (forall|j: int|
                    0 <= j < i ==> (#[trigger] recs[j]).action != Action::Suspend)
                    ==> plan[k].level == Level::Advisory && plan[k].suggest == Some(
                    "pv suspend "@ + recs[i].target,
                ) && plan[k].title == "RECLAIMABLE RESERVE: "@ + upper_of(recs[i].target)
                    && plan[k].obs[0] == recs[i].target + " sits idle — "@ + kb_text(
                    recs[i].benefit_kb as nat,
                ) + " recoverable"@
        }),
{
    let plan = planned(apps, intents, report, hist, slots, interval, sys, labels, now);
    lemma_valves_apart();
    let recs = recommended(apps, intents, report, labels, now);
    lemma_first_suspend(recs);
    let own = reserve(report, first_suspend(recs));
    if own is Some {
        lemma_planned(apps, intents, report, hist, slots, interval, sys, labels, now, own->0);
        let k = choose|k: int| 0 <= k < plan.len() && plan[k] == own->0;
        assert(plan[k].valve == "V-03"@);
    }
    assert forall|k: int| 0 <= k < plan.len() && (#[trigger] plan[k]).valve == "V-03"@ implies own
        == Some(plan[k]) by {
        assert(plan.contains(plan[k]));
        lemma_planned(apps, intents, report, hist, slots, interval, sys, labels, now, plan[k]);
    }
    assert forall|k: int, i: int|
        0 <= k < plan.len() && (#[trigger] plan[k]).valve == "V-03"@ && 0 <= i < recs.len() && (
        #[trigger] recs[i]).action == Action::Suspend && (forall|j: int|
            0 <= j < i ==> (#[trigger] recs[j]).action != Action::Suspend) implies first_suspend(
        recs,
    ) == Some(recs[i]) by {
        let f = choose|f: int|
            0 <= f < recs.len() && (#[trigger] recs[f]).action == Action::Suspend && first_suspend(
                recs,
            ) == Some(recs[f]) && forall|j: int|
                0 <= j < f ==> (#[trigger] recs[j]).action != Action::Suspend;
        if f < i {
            assert(recs[f].action != Action::Suspend);
        }
        if i < f {
            assert(recs[i].action != Action::Suspend);
        }
    }
}

proof fn lemma_first_suspend(recs: Seq<RecView>)
    ensures
        first_suspend(recs) is None ==> forall|j: int|
            0 <= j < recs.len() ==> (#[trigger] recs[j]).action != Action::Suspend,
        first_suspend(recs) is Some ==> exists|f: int|
            0 <= f < recs.len() && (#[trigger] recs[f]).action == Action::Suspend && first_suspend(
                recs,
            ) == Some(recs[f]) && forall|j: int|
                0 <= j < f ==> (#[trigger] recs[j]).action != Action::Suspend,
    decreases recs.len(),
{
    if recs.len() > 0 {
        let rest = recs.drop_first();
        lemma_first_suspend(rest);
        assert forall|j: int| 1 <= j < recs.len() implies rest[j - 1] == #[trigger] recs[j] by {}
        if recs[0].action == Action::Suspend {
            assert(first_suspend(recs) == Some(recs[0]));
        } else if first_suspend(rest) is Some {
            let f = choose|f: int|
                0 <= f < rest.len() && (#[trigger] rest[f]).action == Action::Suspend
                    && first_suspend(rest) == Some(rest[f]) && forall|j: int|
                    0 <= j < f ==> (#[trigger] rest[j]).action != Action::Suspend;
            assert(recs[f + 1] == rest[f]);
            assert forall|j: int| 0 <= j < f + 1 implies (#[trigger] recs[j]).action
                != Action::Suspend by {
                if j > 0 {
                    assert(rest[j - 1].action != Action::Suspend);
                }
            }
        }
    }
}

/// The risk of thrashing vents exactly where the swap in use has grown by more
/// than 50000 KiB from the first sample to the last and memory stalls for more
/// than 1 percent of the time, so a longer stall never silences it. It is a
/// warning.
pub proof fn thrashing_vents_when_swap_grows_and_memory_stalls(
    apps: Seq<App>,
    intents: Seq<(String, Intent)>,
    report: PressureReport,
    hist: HistoryView,
    slots: Seq<SlotView>,
    interval: nat,
    sys: SysSample,
    labels: Seq<LabelView>,
    now: u64,
)
    ensures
        ({
            let plan = planned(apps, intents, report, hist, slots, interval, sys, labels, now);
            &&& (exists|k: int| 0 <= k < plan.len() && (#[trigger] plan[k]).valve == "V-04"@) <==> (
            hist.swap.len() >= 2 && hist.swap.last() - hist.swap[0] > 50_000
                && sys.psi_mem_some_avg10 > 1000)
            &&& forall|k: int|
                0 <= k < plan.len() && (#[trigger] plan[k]).valve == "V-04"@ ==> plan[k].level
                    == Level::Warning && plan[k].title == "SWAP THRASH RISK"@
        }),
{
    let plan = planned(apps, intents, report, hist, slots, interval, sys, labels, now);
    lemma_valves_apart();
    let own = thrashing(hist, sys.psi_mem_some_avg10 as nat);
    if own is Some {
        lemma_planned(apps, intents, report, hist, slots, interval, sys, labels, now, own->0);
        let k = choose|k: int| 0 <= k < plan.len() && plan[k] == own->0;
        assert(plan[k].valve == "V-04"@);
    }
    assert forall|k: int| 0 <= k < plan.len() && (#[trigger] plan[k]).valve == "V-04"@ implies own
        == Some(plan[k]) by {
        assert(plan.contains(plan[k]));
        lemma_planned(apps, intents, report, hist, slots, interval, sys, labels, now, plan[k]);
    }
}

/// Erratic demand vents exactly where, over at least 24 samples, the mean load
/// is above one and the standard deviation is more than 55 percent of it: in
/// sums, where the squares of the samples, times their number, exceed the square
/// of their sum by more than 0.3025 times that square. It is an advisory.
pub proof fn erratic_demand_vents_on_its_variation(
    apps: Seq<App>,
    intents: Seq<(String, Intent)>,
    report: PressureReport,
    hist: HistoryView,
    slots: Seq<SlotView>,
    interval: nat,
    sys: SysSample,
    labels: Seq<LabelView>,
    now: u64,
)
    ensures
        ({
            let plan = planned(apps, intents, report, hist, slots, interval, sys, labels, now);
            let n = hist.load.len();
            let (sum, squares) = (sum_of(hist.load), square_sum(hist.load));
            &&& (exists|k: int| 0 <= k < plan.len() && (#[trigger] plan[k]).valve == "V-05"@) <==> (
            hist.mem.len() >= 24 && n >= 2 && sum > 1000 * n && 10_000 * (n * squares) > 13_025 * (
            sum * sum))
            &&& forall|k: int|
                0 <= k < plan.len() && (#[trigger] plan[k]).valve == "V-05"@ ==> plan[k].level
                    == Level::Advisory && plan[k].title == "ERRATIC DEMAND PATTERN"@
        }),
{
    let plan = planned(apps, intents, report, hist, slots, interval, sys, labels, now);
    lemma_valves_apart();
    let own = erratic(hist);
    lemma_spread(hist.load);
    if own is Some {
        lemma_planned(apps, intents, report, hist, slots, interval, sys, labels, now, own->0);
        let k = choose|k: int| 0 <= k < plan.len() && plan[k] == own->0;
        assert(plan[k].valve == "V-05"@);
    }
    assert forall|k: int| 0 <= k < plan.len() && (#[trigger] plan[k]).valve == "V-05"@ implies own
        == Some(plan[k]) by {
        assert(plan.contains(plan[k]));
        lemma_planned(apps, intents, report, hist, slots, interval, sys, labels, now, plan[k]);
    }
}

/// The sums of a window grow by each sample and by its square.
pub proof fn sums_grow_by_each_sample(s: Seq<u32>, x: u32)
    ensures
        sum_of(Seq::empty()) == 0 && square_sum(Seq::empty()) == 0,
        sum_of(s.push(x)) == sum_of(s) + x,
        square_sum(s.push(x)) == square_sum(s) + x * x,
{
    assert(s.push(x).drop_last() =~= s);
}

/// A demand front vents exactly where at least twenty samples of the next hour
/// put its usual memory more than 15 points above what is used. It is an
/// advisory.
pub proof fn a_front_vents_before_a_heavier_hour(
    apps: Seq<App>,
    intents: Seq<(String, Intent)>,
    report: PressureReport,
    hist: HistoryView,
    slots: Seq<SlotView>,
    interval: nat,
    sys: SysSample,
    labels: Seq<LabelView>,
    now: u64,
)
    ensures
        ({
            let plan = planned(apps, intents, report, hist, slots, interval, sys, labels, now);
            let next = slots[(sys.hour + 1) % 24];
            &&& (exists|k: int| 0 <= k < plan.len() && (#[trigger] plan[k]).valve == "V-06"@) <==> (
            next.samples >= 20 && next.mem_ema * physical(report) > (15 * physical(report)
                + used_hundredfold(report)) * 1_000_000_000)
            &&& forall|k: int|
                0 <= k < plan.len() && (#[trigger] plan[k]).valve == "V-06"@ ==> plan[k].level
                    == Level::Advisory && plan[k].title == "DEMAND FRONT INCOMING"@
        }),
{
    let plan = planned(apps, intents, report, hist, slots, interval, sys, labels, now);
    lemma_valves_apart();
    let own = front(slots[(sys.hour + 1) % 24], sys.hour as nat, report);
    if own is Some {
        lemma_planned(apps, intents, report, hist, slots, interval, sys, labels, now, own->0);
        let k = choose|k: int| 0 <= k < plan.len() && plan[k] == own->0;
        assert(plan[k].valve == "V-06"@);
    }
    assert forall|k: int| 0 <= k < plan.len() && (#[trigger] plan[k]).valve == "V-06"@ implies own
        == Some(plan[k]) by {
        assert(plan.contains(plan[k]));
        lemma_planned(apps, intents, report, hist, slots, interval, sys, labels, now, plan[k]);
    }
}

/// A low battery vents exactly where it discharges at 15 percent or less,
/// critical at 8 or less and a warning above.
pub proof fn a_low_battery_vents_while_it_drains(
    apps: Seq<App>,
    intents: Seq<(String, Intent)>,
    report: PressureReport,
    hist: HistoryView,
    slots: Seq<SlotView>,
    interval: nat,
    sys: SysSample,
    labels: Seq<LabelView>,
    now: u64,
)
    ensures
        ({
            let plan = planned(apps, intents, report, hist, slots, interval, sys, labels, now);
            let b = report.battery_info;
            &&& (exists|k: int| 0 <= k < plan.len() && (#[trigger] plan[k]).valve == "V-07"@) <==> (b
                is Some && b->0.discharging && b->0.capacity <= 15)
            &&& forall|k: int|
                0 <= k < plan.len() && (#[trigger] plan[k]).valve == "V-07"@ ==> plan[k].level == (
                if b->0.capacity <= 8 {
                    Level::Critical
                } else {
                    Level::Warning
                }) && plan[k].title == "BATTERY VENTING"@ && plan[k].gauge == Some(
                    ("BAT"@, (100 - b->0.capacity) as u8),
                )
        }),
{
    let plan = planned(apps, intents, report, hist, slots, interval, sys, labels, now);
    lemma_valves_apart();
    let own = low_battery(report.battery_info, movable(apps, intents));
    if own is Some {
        lemma_planned(apps, intents, report, hist, slots, interval, sys, labels, now, own->0);
        let k = choose|k: int| 0 <= k < plan.len() && plan[k] == own->0;
        assert(plan[k].valve == "V-07"@);
    }
    assert forall|k: int| 0 <= k < plan.len() && (#[trigger] plan[k]).valve == "V-07"@ implies own
        == Some(plan[k]) by {
        assert(plan.contains(plan[k]));
        lemma_planned(apps, intents, report, hist, slots, interval, sys, labels, now, plan[k]);
    }
}

/// Heat vents exactly where the hottest zone is at 82 degrees or more, critical
/// from 90 on and a warning below.
pub proof fn heat_vents_by_its_degrees(
    apps: Seq<App>,
    intents: Seq<(String, Intent)>,
    report: PressureReport,
    hist: HistoryView,
    slots: Seq<SlotView>,
    interval: nat,
    sys: SysSample,
    labels: Seq<LabelView>,
    now: u64,
)
    ensures
        ({
            let plan = planned(apps, intents, report, hist, slots, interval, sys, labels, now);
            let t = sys.hottest_thermal;
            &&& (exists|k: int| 0 <= k < plan.len() && (#[trigger] plan[k]).valve == "V-08"@) <==> (t
                is Some && t->0 >= 82_000)
            &&& forall|k: int|
                0 <= k < plan.len() && (#[trigger] plan[k]).valve == "V-08"@ ==> plan[k].level == (
                if t->0 >= 90_000 {
                    Level::Critical
                } else {
                    Level::Warning
                }) && plan[k].title == "THERMAL OVERPRESSURE"@
        }),
{
    let plan = planned(apps, intents, report, hist, slots, interval, sys, labels, now);
    lemma_valves_apart();
    let own = too_hot(sys.hottest_thermal, display_at(apps, busiest(apps, intents, false)));
    if own is Some {
        lemma_planned(apps, intents, report, hist, slots, interval, sys, labels, now, own->0);
        let k = choose|k: int| 0 <= k < plan.len() && plan[k] == own->0;
        assert(plan[k].valve == "V-08"@);
    }
    assert forall|k: int| 0 <= k < plan.len() && (#[trigger] plan[k]).valve == "V-08"@ implies own
        == Some(plan[k]) by {
        assert(plan.contains(plan[k]));
        lemma_planned(apps, intents, report, hist, slots, interval, sys, labels, now, plan[k]);
    }
}

/// The busiest app is the one with the most load, the last of several: among
/// all, or among those whose first intent does not forbid to suspend them.
pub proof fn the_busiest_app_has_the_most_load(
    apps: Seq<App>,
    intents: Seq<(String, Intent)>,
    all: bool,
)
    ensures
        ({
            let fits = |a: int| all || !(intent_for(intents, apps[a].key@) is Some && intent_for(
                intents,
                apps[a].key@,
            )->0.never_suspend);
            &&& busiest(apps, intents, all) is Some <==> exists|a: int|
                0 <= a < apps.len() && #[trigger] fits(a)
            &&& busiest(apps, intents, all) matches Some(i) ==> 0 <= i < apps.len() && fits(i)
                && forall|a: int|
                0 <= a < apps.len() && #[trigger] fits(a) ==> apps[a].cpu_pct <= apps[i].cpu_pct
                    && (a > i ==> apps[a].cpu_pct < apps[i].cpu_pct)
        }),
    decreases apps.len(),
{
    let fits = |a: int| all || !(intent_for(intents, apps[a].key@) is Some && intent_for(
        intents,
        apps[a].key@,
    )->0.never_suspend);
    if apps.len() > 0 {
        let less = apps.drop_last();
        let n = apps.len() - 1;
        the_busiest_app_has_the_most_load(less, intents, all);
        let fits_less = |a: int| all || !(intent_for(intents, less[a].key@) is Some && intent_for(
            intents,
            less[a].key@,
        )->0.never_suspend);
        assert forall|a: int| 0 <= a < n implies #[trigger] fits_less(a) == fits(a) by {
            assert(less[a] == apps[a]);
        }
        assert forall|a: int| 0 <= a < n implies #[trigger] fits(a) == fits_less(a) by {
            assert(less[a] == apps[a]);
        }
        let before = busiest(less, intents, all);
        if before is Some {
            assert(less[before->0] == apps[before->0]);
            assert(fits_less(before->0));
            assert forall|a: int| 0 <= a < n && #[trigger] fits(a) implies apps[a].cpu_pct
                <= apps[before->0].cpu_pct && (a > before->0 ==> apps[a].cpu_pct
                < apps[before->0].cpu_pct) by {
                assert(fits_less(a));
                assert(less[a] == apps[a]);
            }
        }
        assert(fits(n) == (all || may_cool(apps.last(), intents)));
    }
}

/// What the notices lend to their app is told by its name: heat and unusual
/// demand name the busiest app.
pub proof fn heat_and_demand_name_the_busiest_app(
    apps: Seq<App>,
    intents: Seq<(String, Intent)>,
    t: u32,
    usual: SlotView,
    load1: nat,
    ncpu: nat,
)
    ensures
        too_hot(Some(t), display_at(apps, busiest(apps, intents, false))) matches Some(n) ==> (match busiest(
            apps,
            intents,
            false,
        ) {
            Some(i) => n.obs.len() == 2 && n.obs[1] == "largest heat source: "@ + apps[i].display@
                && n.suggest == Some("pv suspend "@ + lower_of(apps[i].display@)),
            None => n.obs.len() == 1 && n.suggest is None,
        }),
        unusual(usual, load1, ncpu, display_at(apps, busiest(apps, intents, true))) matches Some(n)
            ==> n.suggest is None && (match busiest(apps, intents, true) {
            Some(i) => n.obs.len() == 2 && n.obs[1] == "primary source: "@ + apps[i].display@,
            None => n.obs.len() == 1,
        }),
{
}

/// The work that could move is listed with a low battery: the names of all the
/// apps whose first intent can migrate, in their order.
pub proof fn movable_work_is_listed(apps: Seq<App>, intents: Seq<(String, Intent)>) -> (at: Seq<int>)
    ensures
        at.len() == movable(apps, intents).len(),
        forall|k: int|
            0 <= k < at.len() ==> 0 <= #[trigger] at[k] < apps.len() && movable(apps, intents)[k]
                == apps[at[k]].display@ && intent_for(intents, apps[at[k]].key@) is Some
                && intent_for(intents, apps[at[k]].key@)->0.can_migrate,
        forall|j: int, k: int| 0 <= j < k < at.len() ==> #[trigger] at[j] < #[trigger] at[k],
        forall|a: int|
            0 <= a < apps.len() && intent_for(intents, (#[trigger] apps[a]).key@) is Some
                && intent_for(intents, apps[a].key@)->0.can_migrate ==> at.contains(a),
    decreases apps.len(),
{
    if apps.len() == 0 {
        Seq::empty()
    } else {
        let less = apps.drop_last();
        let n = apps.len() - 1;
        let before = movable_work_is_listed(less, intents);
        assert(forall|a: int| 0 <= a < n ==> less[a] == apps[a]);
        let i = intent_for(intents, apps.last().key@);
        let at = if i is Some && i->0.can_migrate {
            before.push(n)
        } else {
            before
        };
        assert forall|a: int|
            0 <= a < apps.len() && intent_for(intents, (#[trigger] apps[a]).key@) is Some
                && intent_for(intents, apps[a].key@)->0.can_migrate implies at.contains(a) by {
            if a < n {
                assert(intent_for(intents, less[a].key@) is Some);
                let k = choose|k: int| 0 <= k < before.len() && before[k] == a;
                assert(at[k] == a);
            } else {
                assert(at[at.len() - 1] == a);
            }
        }
        at
    }
}

proof fn lemma_passed(
    past: Map<Seq<char>, (u64, Level)>,
    list: Seq<NoticeView>,
    now_ns: u64,
    key: Seq<char>,
)
    requires
        forall|i: int| 0 <= i < list.len() ==> valve_key(#[trigger] list[i]) != key,
    ensures
        passed(past, list, now_ns).0.dom().contains(key) <==> past.dom().contains(key),
        past.dom().contains(key) ==> passed(past, list, now_ns).0[key] == past[key],
    decreases list.len(),
{
    if list.len() > 0 {
        assert forall|i: int| 0 <= i < list.drop_last().len() implies valve_key(
            #[trigger] list.drop_last()[i],
        ) != key by {
            assert(list[i] == list.drop_last()[i]);
        }
        lemma_passed(past, list.drop_last(), now_ns, key);
        assert(valve_key(list[list.len() - 1]) != key);
    }
}

/// A planned notice is shown exactly where its own valve may fire: notices under
/// other keys neither hold it back nor let it through. What is shown was
/// planned, in the planned order.
pub proof fn notices_are_held_back_by_their_own_valve_alone(
    past: Map<Seq<char>, (u64, Level)>,
    list: Seq<NoticeView>,
    now_ns: u64,
) -> (at: Seq<int>)
    requires
        forall|i: int, j: int|
            0 <= i < j < list.len() ==> valve_key(#[trigger] list[i]) != valve_key(
                #[trigger] list[j],
            ),
    ensures
        at.len() == passed(past, list, now_ns).1.len(),
        forall|k: int|
            0 <= k < at.len() ==> 0 <= #[trigger] at[k] < list.len() && passed(
                past,
                list,
                now_ns,
            ).1[k] == list[at[k]] && may_fire(
                past,
                valve_key(list[at[k]]),
                list[at[k]].level,
                now_ns,
            ),
        forall|j: int, k: int| 0 <= j < k < at.len() ==> #[trigger] at[j] < #[trigger] at[k],
        forall|i: int|
            0 <= i < list.len() && may_fire(
                past,
                valve_key(#[trigger] list[i]),
                list[i].level,
                now_ns,
            ) ==> at.contains(i),
    decreases list.len(),
{
    if list.len() == 0 {
        Seq::empty()
    } else {
        let less = list.drop_last();
        let n = list.len() - 1;
        assert(forall|i: int| 0 <= i < n ==> less[i] == list[i]);
        assert forall|i: int, j: int| 0 <= i < j < less.len() implies valve_key(#[trigger] less[i])
            != valve_key(#[trigger] less[j]) by {
            assert(valve_key(list[i]) != valve_key(list[j]));
        }
        let before = notices_are_held_back_by_their_own_valve_alone(past, less, now_ns);
        let key = valve_key(list[n]);
        assert forall|i: int| 0 <= i < less.len() implies valve_key(#[trigger] less[i]) != key by {
            assert(valve_key(list[i]) != valve_key(list[n]));
        }
        lemma_passed(past, less, now_ns, key);
        let fires = may_fire(past, key, list[n].level, now_ns);
        assert(may_fire(passed(past, less, now_ns).0, key, list[n].level, now_ns) == fires);
        let at = if fires {
            before.push(n)
        } else {
            before
        };
        assert forall|i: int|
            0 <= i < list.len() && may_fire(
                past,
                valve_key(#[trigger] list[i]),
                list[i].level,
                now_ns,
            ) implies at.contains(i) by {
            if i < n {
                assert(may_fire(past, valve_key(less[i]), less[i].level, now_ns));
                let k = choose|k: int| 0 <= k < before.len() && before[k] == i;
                assert(at[k] == i);
            } else {
                assert(at[at.len() - 1] == i);
            }
        }
        at
    }
}

/// What a tick records is the memory and the swap in use and the load, each as
/// the newest sample of its window, in step with the others.
pub proof fn a_tick_records_what_is_in_use(h: HistoryView, r: PressureReport, load1: u32)
    requires
        r.mem.available_kb <= r.mem.total_kb,
        r.mem.swap_free_kb <= r.mem.swap_total_kb,
        h.mem.len() == h.swap.len() == h.load.len(),
    ensures
        ({
            let next = recorded(h, r, load1);
            &&& next.mem.last() + r.mem.available_kb == r.mem.total_kb
            &&& next.swap.last() + r.mem.swap_free_kb == r.mem.swap_total_kb
            &&& next.load.last() == load1
            &&& next.mem.len() == next.swap.len() == next.load.len()
            &&& next.mem.len() == (if h.mem.len() < 120 {
                h.mem.len() + 1
            } else {
                120
            })
        }),
{
}

/// The habit of an hour moves toward each sample: by a fifth of the way at
/// first, by a twentieth from the fiftieth sample on, to the nearest billionth;
/// the first sample is taken as it is.
pub proof fn habits_move_toward_the_sample(
    s: SlotView,
    cpu_pct: u64,
    mem_pct: u64,
    cv: u64,
    categories: Seq<Seq<char>>,
)
    requires
        s.samples < u64::MAX,
    ensures
        ({
            let next = observed(s, cpu_pct, mem_pct, cv, categories);
            &&& next.samples == s.samples + 1
            &&& s.samples == 0 ==> next.cpu_ema == cpu_pct && next.mem_ema == mem_pct
                && next.var_ema == cv
            &&& 0 < s.samples < 50 ==> -5 <= 10 * (next.cpu_ema - s.cpu_ema) - 2 * (cpu_pct
                - s.cpu_ema) <= 5 && -5 <= 10 * (next.mem_ema - s.mem_ema) - 2 * (mem_pct
                - s.mem_ema) <= 5 && -5 <= 10 * (next.var_ema - s.var_ema) - 2 * (cv - s.var_ema)
                <= 5
            &&& 50 <= s.samples ==> -10 <= 20 * (next.cpu_ema - s.cpu_ema) - (cpu_pct - s.cpu_ema)
                <= 10 && -10 <= 20 * (next.mem_ema - s.mem_ema) - (mem_pct - s.mem_ema) <= 10
                && -10 <= 20 * (next.var_ema - s.var_ema) - (cv - s.var_ema) <= 10
        }),
{
}

/// The first count under a name, or nothing.
pub open spec fn count_of(top: Seq<(Seq<char>, u32)>, c: Seq<char>) -> int {
    match count_index(top, c) {
        Some(i) => top[i].1 as int,
        None => 0,
    }
}

/// Counting a category adds one to its own count and leaves the others.
pub proof fn counting_adds_one(top: Seq<(Seq<char>, u32)>, c: Seq<char>, d: Seq<char>)
    requires
        count_of(top, c) < u32::MAX,
    ensures
        count_of(counted(top, c), c) == count_of(top, c) + 1,
        d != c ==> count_of(counted(top, c), d) == count_of(top, d),
{
    let next = counted(top, c);
    lemma_count_index(top, c);
    lemma_count_index(top, d);
    lemma_count_index(next, c);
    lemma_count_index(next, d);
    assert forall|j: int| 0 <= j < top.len() implies (#[trigger] next[j]).0 == top[j].0 by {}
    if count_index(top, c) is None {
        assert(next[top.len() as int] == (c, 1u32));
        let i = count_index(next, c)->0;
        assert(next[i].0 == c);
        if i < top.len() {
            assert(top[i].0 == c);
        }
    } else {
        let i = count_index(top, c)->0;
        let k = count_index(next, c)->0;
        assert(next[i].0 == c);
        if k < i {
            assert(top[k].0 == c);
        }
        if i < k {
            assert(next[i].0 != c);
        }
    }
    if d != c {
        match (count_index(top, d), count_index(next, d)) {
            (Some(i), Some(k)) => {
                if k < i {
                    assert(top[k].0 == d);
                }
                if i < k {
                    assert(next[i].0 == d);
                }
            },
            (Some(i), None) => {
                assert(next[i].0 == d);
            },
            (None, Some(k)) => {
                if k < top.len() {
                    assert(top[k].0 == d);
                }
            },
            _ => {},
        }
    }
}

/// The categories at work are those of all the intents whose app, the first
/// under its key, uses more than 5 percent of a core or holds more than 200000
/// KiB.
pub proof fn busy_or_large_apps_shape_habits(
    apps: Seq<App>,
    intents: Seq<(String, Intent)>,
) -> (at: Seq<int>)
    ensures
        at.len() == categories_at_work(apps, intents).len(),
        forall|k: int|
            0 <= k < at.len() ==> 0 <= #[trigger] at[k] < intents.len() && categories_at_work(
                apps,
                intents,
            )[k] == category_tag(intents[at[k]].1.category) && exists|a: int|
                0 <= a < apps.len() && (#[trigger] apps[a]).key@ == intents[at[k]].0@ && (
                apps[a].cpu_pct > 5_000_000_000 || apps[a].rss_kb > 200_000) && forall|b: int|
                    0 <= b < a ==> (#[trigger] apps[b]).key@ != intents[at[k]].0@,
        forall|j: int, k: int| 0 <= j < k < at.len() ==> #[trigger] at[j] < #[trigger] at[k],
        forall|i: int, a: int|
            0 <= i < intents.len() && 0 <= a < apps.len() && (#[trigger] apps[a]).key@ == (
            #[trigger] intents[i]).0@ && (apps[a].cpu_pct > 5_000_000_000 || apps[a].rss_kb
                > 200_000) && (forall|b: int|
                0 <= b < a ==> (#[trigger] apps[b]).key@ != intents[i].0@) ==> at.contains(i),
    decreases intents.len(),
{
    if intents.len() == 0 {
        Seq::empty()
    } else {
        let less = intents.drop_last();
        let n = intents.len() - 1;
        let before = busy_or_large_apps_shape_habits(apps, less);
        assert(forall|i: int| 0 <= i < n ==> less[i] == intents[i]);
        let key = intents.last().0@;
        lemma_app_index(apps, key);
        let at = if shapes_habit(apps, key) {
            before.push(n)
        } else {
            before
        };
        if shapes_habit(apps, key) {
            let a = app_index(apps, key)->0;
            assert(apps[a].key@ == intents[n].0@);
        }
        assert forall|k: int| 0 <= k < at.len() implies 0 <= #[trigger] at[k] < intents.len()
            && categories_at_work(apps, intents)[k] == category_tag(intents[at[k]].1.category)
            && exists|a: int|
            0 <= a < apps.len() && (#[trigger] apps[a]).key@ == intents[at[k]].0@ && (
            apps[a].cpu_pct > 5_000_000_000 || apps[a].rss_kb > 200_000) && forall|b: int|
                0 <= b < a ==> (#[trigger] apps[b]).key@ != intents[at[k]].0@ by {
            if k < before.len() {
                assert(at[k] == before[k]);
                assert(less[before[k]] == intents[before[k]]);
            }
        }
        assert forall|i: int, a: int|
            0 <= i < intents.len() && 0 <= a < apps.len() && (#[trigger] apps[a]).key@ == (
            #[trigger] intents[i]).0@ && (apps[a].cpu_pct > 5_000_000_000 || apps[a].rss_kb
                > 200_000) && (forall|b: int|
                0 <= b < a ==> (#[trigger] apps[b]).key@ != intents[i].0@) implies at.contains(
            i,
        ) by {
            if i < n {
                assert(less[i] == intents[i]);
                assert(apps[a].key@ == less[i].0@);
                let k = choose|k: int| 0 <= k < before.len() && before[k] == i;
                assert(at[k] == i);
            } else {
                let m = app_index(apps, key)->0;
                if m < a {
                    assert(apps[m].key@ != intents[i].0@);
                }
                if a < m {
                    assert(apps[a].key@ != key);
                }
                assert(at[at.len() - 1] == i);
            }
        }
        at
    }
}

/// Load is a share of all cores and memory a share of what there is, each to
/// the nearest billionth of a percent.
pub proof fn shares_are_learned_to_the_nearest(load1: u32, ncpu: u32, r: PressureReport)
    requires
        ncpu > 0,
        0 < r.mem.total_kb,
        r.mem.available_kb <= r.mem.total_kb,
    ensures
        ({
            let share = cpu_share(load1 as nat, ncpu as nat);
            &&& 2 * (share * ncpu) <= 200_000_000 * load1 + ncpu
            &&& 2 * (share * ncpu) > 200_000_000 * load1 - ncpu
        }),
        ({
            let share = mem_share(r);
            let total = r.mem.total_kb;
            let used = total - r.mem.available_kb;
            &&& 2 * (share * total) <= 200_000_000_000 * used + total
            &&& 2 * (share * total) > 200_000_000_000 * used - total
        }),
{
    let n = ncpu as int;
    let a = load1 * 200_000_000 + n;
    let q = a / (2 * n);
    assert(q * (2 * n) <= a < (q + 1) * (2 * n)) by (nonlinear_arith)
        requires
            n > 0,
            q == a / (2 * n),
    ;
    assert(0 <= q <= a) by (nonlinear_arith)
        requires
            n > 0,
            a >= 0,
            q == a / (2 * n),
    ;
    assert(q * (2 * n) == 2 * (q * n)) by (nonlinear_arith);
    assert((q + 1) * (2 * n) == 2 * (q * n) + 2 * n) by (nonlinear_arith);
    assert(cpu_share(load1 as nat, ncpu as nat) == q);
    let total = r.mem.total_kb as int;
    let used = total - r.mem.available_kb;
    let b = used * 200 * UNIT + total;
    let p = b / (2 * total);
    assert(b == 200_000_000_000 * used + total);
    assert(p * (2 * total) <= b < (p + 1) * (2 * total)) by (nonlinear_arith)
        requires
            total > 0,
            p == b / (2 * total),
    ;
    assert(0 <= p <= 100_000_000_001) by (nonlinear_arith)
        requires
            total > 0,
            0 <= used <= total,
            b == 200_000_000_000 * used + total,
            p == b / (2 * total),
    ;
    assert(p * (2 * total) == 2 * (p * total)) by (nonlinear_arith);
    assert((p + 1) * (2 * total) == 2 * (p * total) + 2 * total) by (nonlinear_arith);
    assert(mem_share(r) == p);
}

/// A tick teaches its own hour and no other.
pub proof fn a_tick_teaches_its_hour_alone(
    slots: Seq<SlotView>,
    apps: Seq<App>,
    intents: Seq<(String, Intent)>,
    report: PressureReport,
    hist: HistoryView,
    sys: SysSample,
    i: int,
)
    requires
        slots.len() == 24,
        sys.hour < 24,
        0 <= i < 24,
        slots[sys.hour as int].samples < u64::MAX,
    ensures
        ({
            let after = slots_after(slots, apps, intents, report, hist, sys);
            &&& after.len() == 24
            &&& i != sys.hour ==> after[i] == slots[i]
            &&& i == sys.hour ==> after[i].samples == slots[i].samples + 1
            &&& i == sys.hour && slots[i].samples == 0 ==> after[i].cpu_ema == cpu_share(
                sys.load1 as nat,
                sys.ncpu as nat,
            ) && after[i].mem_ema == mem_share(report) && after[i].var_ema == variation(hist)
        }),
{
}

/// Habits have a slot for each hour of the day: those that were kept, and
/// empty ones where there are too few.
pub proof fn habits_have_a_slot_for_each_hour(found: Option<Habits>, i: int)
    requires
        0 <= i < 24,
    ensures
        loaded_slots(found).len() == 24,
        found matches Some(h) ==> i < h.slots@.len() ==> loaded_slots(found)[i] == h.slots@[i]@,
        found matches Some(h) ==> i >= h.slots@.len() ==> loaded_slots(found)[i].samples == 0
            && loaded_slots(found)[i].top.len() == 0,
        found is None ==> loaded_slots(found)[i].samples == 0,
{
}

/// The profile has a line for each hour that was seen, marked where it is the
/// current one.
pub proof fn hours_that_were_seen_are_shown(
    t: Theme,
    slots: Seq<SlotView>,
    s: SlotView,
    current: nat,
)
    ensures
        s.samples == 0 ==> hour_lines(t, slots.push(s), current) == hour_lines(t, slots, current),
        s.samples > 0 ==> hour_lines(t, slots.push(s), current) == hour_lines(
            t,
            slots,
            current,
        ).push(hour_line(t, slots.len(), s, slots.len() == current)),
        ({
            let plain = Theme { enabled: false };
            let now = hour_line(plain, slots.len(), s, true);
            let other = hour_line(plain, slots.len(), s, false);
            let clock = two_digits(slots.len()) + ":00  cpu "@ + padded_left(
                ratio_text(s.cpu_ema as nat, 1_000_000_000, 0),
                4,
                ' ',
            ) + "% "@;
            &&& begins(now, "  "@ + "→"@ + " "@ + clock)
            &&& begins(other, "  "@ + " "@ + " "@ + clock)
        }),
{
    assert(slots.push(s).drop_last() =~= slots);
    let plain = Theme { enabled: false };
    let clock = two_digits(slots.len()) + ":00  cpu "@ + padded_left(
        ratio_text(s.cpu_ema as nat, 1_000_000_000, 0),
        4,
        ' ',
    ) + "% "@;
    let now = hour_line(plain, slots.len(), s, true);
    let other = hour_line(plain, slots.len(), s, false);
    let a = "  "@ + "→"@ + " "@ + clock;
    let b = "  "@ + " "@ + " "@ + clock;
    assert(now.take(a.len() as int) =~= a);
    assert(other.take(b.len() as int) =~= b);
}

} // verus!
