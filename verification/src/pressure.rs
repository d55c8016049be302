//! Pressure detection and prediction: stalls, memory trend, time to
//! exhaustion.

use vstd::prelude::*;

use crate::fixed::{
    dec64, decimal, double, double_of, dec2, ratio, ratio_text, two_digits,
};
use crate::procfs::{Battery, MemInfo, Psi};
use crate::text::{cat2, cat3, cat5};

verus! {

pub struct ResourcePressure {
    pub name: &'static str,
    /// From 0 to 100.
    pub score: u8,
    pub detail: String,
}

#[verifier::ext_equal]
pub struct ResourceView {
    pub name: Seq<char>,
    pub score: u8,
    pub detail: Seq<char>,
}

impl View for ResourcePressure {
    type V = ResourceView;

    open spec fn view(&self) -> ResourceView {
        ResourceView { name: self.name@, score: self.score, detail: self.detail@ }
    }
}

/// What an optional pressure says.
pub open spec fn opt_resource(o: Option<ResourcePressure>) -> Option<ResourceView> {
    match o {
        Some(r) => Some(r@),
        None => None,
    }
}

pub struct PressureReport {
    pub cpu: ResourcePressure,
    pub memory: ResourcePressure,
    pub io: ResourcePressure,
    pub battery: Option<ResourcePressure>,
    pub thermal: Option<ResourcePressure>,
    pub mem: MemInfo,
    pub battery_info: Option<Battery>,
    /// How much less memory is available than a window ago, in kB.
    pub mem_drop_kb: i128,
    /// The length of that window in milliseconds.
    pub mem_window_ms: u64,
    pub oom_eta_secs: Option<u64>,
    pub overall: u8,
}

#[verifier::ext_equal]
pub struct ReportView {
    pub cpu: ResourceView,
    pub memory: ResourceView,
    pub io: ResourceView,
    pub battery: Option<ResourceView>,
    pub thermal: Option<ResourceView>,
    pub mem: MemInfo,
    pub battery_info: Option<Battery>,
    pub mem_drop_kb: i128,
    pub mem_window_ms: u64,
    pub oom_eta_secs: Option<u64>,
    pub overall: u8,
}

impl View for PressureReport {
    type V = ReportView;

    open spec fn view(&self) -> ReportView {
        ReportView {
            cpu: self.cpu@,
            memory: self.memory@,
            io: self.io@,
            battery: opt_resource(self.battery),
            thermal: opt_resource(self.thermal),
            mem: self.mem,
            battery_info: self.battery_info,
            mem_drop_kb: self.mem_drop_kb,
            mem_window_ms: self.mem_window_ms,
            oom_eta_secs: self.oom_eta_secs,
            overall: self.overall,
        }
    }
}

/// What is read from the machine: memory at the start and the end of a
/// window of `trend_ms` milliseconds, the load in thousandths, the number of
/// cores, the stalls, the battery, and the hottest zone in thousandths of a
/// degree.
pub struct Readings {
    pub mem0: MemInfo,
    pub mem1: MemInfo,
    pub trend_ms: u64,
    pub load_milli: u32,
    pub ncpu: u32,
    pub psi_cpu: Psi,
    pub psi_mem: Psi,
    pub psi_io: Psi,
    pub battery: Option<Battery>,
    pub thermal_milli: Option<u32>,
}

// ------------------------------------------------------------ scores

pub open spec fn least(a: nat, b: nat) -> nat {
    if a <= b {
        a
    } else {
        b
    }
}

/// Half of the load per core, full at one and a half, and half of the stall
/// share.
pub open spec fn cpu_score(load_milli: nat, ncpu: nat, psi_milli: nat) -> nat {
    let full = 1500 * ncpu;
    (least(load_milli, full) * 100_000 + least(psi_milli, 100_000) * full) / (full * 2000)
}

/// Total memory, taken as at least one kB.
pub open spec fn total_of(m: MemInfo) -> nat {
    if m.total_kb == 0 {
        1
    } else {
        m.total_kb as nat
    }
}

/// Used memory as a share of the total.
pub open spec fn used_of(m: MemInfo) -> nat {
    (total_of(m) - m.available_kb) as nat
}

/// Seven tenths of the used share and three tenths of the stall share.
pub open spec fn mem_score(m: MemInfo, psi_milli: nat) -> nat {
    (used_of(m) * 700_000 + least(psi_milli, 100_000) * 3 * total_of(m)) / (total_of(m) * 10_000)
}

pub open spec fn io_score(psi_milli: nat) -> nat {
    least(psi_milli, 100_000) / 1000
}

/// How close to empty a discharging battery is.
pub open spec fn battery_score(b: Battery) -> nat {
    if !b.discharging || b.capacity % 256 >= 100 {
        0
    } else {
        (100 - b.capacity % 256) as nat
    }
}

/// From nothing at 40 degrees to full at 100.
pub open spec fn thermal_score(milli: nat) -> nat {
    if milli <= 40_000 {
        0
    } else {
        least(100, ((milli - 40_000) as nat) / 600)
    }
}

/// Seconds until memory is exhausted, where it drains by more than 512 kB a
/// second and more than 60 percent of it is used.
pub open spec fn oom_eta(m: MemInfo, drop_kb: int, trend_ms: nat) -> Option<u64> {
    if drop_kb * 1000 > 512 * trend_ms && used_of(m) * 100 > 60 * total_of(m) {
        let secs = (m.available_kb as nat * trend_ms) / ((drop_kb * 1000) as nat);
        Some(least(secs, u64::MAX as nat) as u64)
    } else {
        None
    }
}

pub open spec fn swap_used(m: MemInfo) -> nat {
    if m.swap_total_kb >= m.swap_free_kb {
        (m.swap_total_kb - m.swap_free_kb) as nat
    } else {
        0
    }
}

/// Gigabytes with one digit.
pub open spec fn gb_text(kb: nat) -> Seq<char> {
    ratio_text(double_of(kb), 1_048_576, 1)
}

// ------------------------------------------------------------ the report

pub open spec fn cpu_pressure(r: Readings) -> ResourceView {
    ResourceView {
        name: "CPU"@,
        score: cpu_score(r.load_milli as nat, r.ncpu as nat, r.psi_cpu.some_avg10 as nat) as u8,
        detail: "load "@ + ratio_text(r.load_milli as nat, 1000, 2) + " on "@ + decimal(
            r.ncpu as nat,
        ) + " cores, psi "@ + ratio_text(r.psi_cpu.some_avg10 as nat, 1000, 0) + "%"@,
    }
}

pub open spec fn mem_pressure(r: Readings) -> ResourceView {
    ResourceView {
        name: "RAM"@,
        score: mem_score(r.mem1, r.psi_mem.some_avg10 as nat) as u8,
        detail: gb_text((r.mem1.total_kb - r.mem1.available_kb) as nat) + "/"@ + gb_text(
            r.mem1.total_kb as nat,
        ) + " GB used ("@ + ratio_text(used_of(r.mem1) * 100, total_of(r.mem1), 0) + "%), swap "@
            + gb_text(swap_used(r.mem1)) + " GB in use, psi "@ + ratio_text(
            r.psi_mem.some_avg10 as nat,
            1000,
            0,
        ) + "%"@,
    }
}

pub open spec fn io_pressure(r: Readings) -> ResourceView {
    ResourceView {
        name: "IO"@,
        score: io_score(r.psi_io.some_avg10 as nat) as u8,
        detail: "psi "@ + ratio_text(r.psi_io.some_avg10 as nat, 1000, 0) + "%"@,
    }
}

pub open spec fn battery_pressure(b: Battery) -> ResourceView {
    ResourceView {
        name: "Battery"@,
        score: battery_score(b) as u8,
        detail: decimal(b.capacity as nat) + "%"@ + (if b.discharging {
            ", discharging"@
        } else {
            ", on AC"@
        }),
    }
}

pub open spec fn thermal_pressure(milli: nat) -> ResourceView {
    ResourceView {
        name: "Thermals"@,
        score: thermal_score(milli) as u8,
        detail: ratio_text(milli, 1000, 0) + "°C hottest zone"@,
    }
}

pub open spec fn greater(a: u8, b: u8) -> u8 {
    if a >= b {
        a
    } else {
        b
    }
}

/// The whole report. Thermals do not count toward the overall pressure.
pub open spec fn report_of(r: Readings) -> ReportView {
    let battery = match r.battery {
        Some(b) => Some(battery_pressure(b)),
        None => None,
    };
    ReportView {
        cpu: cpu_pressure(r),
        memory: mem_pressure(r),
        io: io_pressure(r),
        battery,
        thermal: match r.thermal_milli {
            Some(t) => Some(thermal_pressure(t as nat)),
            None => None,
        },
        mem: r.mem1,
        battery_info: r.battery,
        mem_drop_kb: (r.mem0.available_kb - r.mem1.available_kb) as i128,
        mem_window_ms: r.trend_ms,
        oom_eta_secs: oom_eta(
            r.mem1,
            r.mem0.available_kb - r.mem1.available_kb,
            r.trend_ms as nat,
        ),
        overall: greater(
            greater(greater(cpu_pressure(r).score, mem_pressure(r).score), io_pressure(r).score),
            match battery {
                Some(b) => b.score,
                None => 0,
            },
        ),
    }
}

/// All shares are at most a hundred.
pub proof fn scores_are_percentages(r: Readings)
    requires
        r.ncpu > 0,
        r.mem1.available_kb <= r.mem1.total_kb,
    ensures
        cpu_score(r.load_milli as nat, r.ncpu as nat, r.psi_cpu.some_avg10 as nat) <= 100,
        mem_score(r.mem1, r.psi_mem.some_avg10 as nat) <= 100,
        io_score(r.psi_io.some_avg10 as nat) <= 100,
        forall|b: Battery| #[trigger] battery_score(b) <= 100,
        forall|t: nat| #[trigger] thermal_score(t) <= 100,
{
    let full = 1500 * r.ncpu as nat;
    let a = least(r.load_milli as nat, full);
    let p = least(r.psi_cpu.some_avg10 as nat, 100_000);
    assert((a * 100_000 + p * full) / (full * 2000) <= 100) by (nonlinear_arith)
        requires
            0 < full,
            a <= full,
            p <= 100_000,
    ;
    let t = total_of(r.mem1);
    let u = used_of(r.mem1);
    let q = least(r.psi_mem.some_avg10 as nat, 100_000);
    assert((u * 700_000 + q * 3 * t) / (t * 10_000) <= 100) by (nonlinear_arith)
        requires
            0 < t,
            u <= t,
            q <= 100_000,
    ;
}

fn min64(a: u64, b: u64) -> (r: u64)
    ensures
        r == least(a as nat, b as nat),
{
    if a <= b {
        a
    } else {
        b
    }
}

fn percent(psi: u32) -> (r: String)
    ensures
        r@ == ratio_text(psi as nat, 1000, 0),
{
    ratio(psi as u128, 1000, 0)
}

fn gb(kb: u64) -> (r: String)
    ensures
        r@ == gb_text(kb as nat),
{
    ratio(double(kb), 1_048_576, 1)
}

fn cpu_part(r: &Readings) -> (p: ResourcePressure)
    requires
        r.ncpu > 0,
        r.mem1.available_kb <= r.mem1.total_kb,
    ensures
        p@ == cpu_pressure(*r),
{
    let full: u64 = 1500 * r.ncpu as u64;
    let a: u64 = min64(r.load_milli as u64, full);
    let q: u64 = min64(r.psi_cpu.some_avg10 as u64, 100_000);
    assert(q * full <= 100_000 * full) by (nonlinear_arith)
        requires
            q <= 100_000,
    ;
    let score: u64 = (a * 100_000 + q * full) / (full * 2000);
    proof {
        scores_are_percentages(*r);
    }
    let head: String = cat5(
        "load ",
        ratio(r.load_milli as u128, 1000, 2).as_str(),
        " on ",
        dec64(r.ncpu as u64).as_str(),
        " cores, psi ",
    );
    ResourcePressure {
        name: "CPU",
        score: score as u8,
        detail: cat3(head.as_str(), percent(r.psi_cpu.some_avg10).as_str(), "%"),
    }
}

fn mem_part(r: &Readings) -> (p: ResourcePressure)
    requires
        r.ncpu > 0,
        r.mem1.available_kb <= r.mem1.total_kb,
    ensures
        p@ == mem_pressure(*r),
{
    let m: MemInfo = r.mem1;
    let total: u128 = if m.total_kb == 0 {
        1
    } else {
        m.total_kb as u128
    };
    let used: u128 = total - m.available_kb as u128;
    let q: u128 = min64(r.psi_mem.some_avg10 as u64, 100_000) as u128;
    assert(q * 3 * total <= 300_000 * total) by (nonlinear_arith)
        requires
            q <= 100_000,
    ;
    let score: u128 = (used * 700_000 + q * 3 * total) / (total * 10_000);
    proof {
        scores_are_percentages(*r);
    }
    let swap: u64 = if m.swap_total_kb >= m.swap_free_kb {
        m.swap_total_kb - m.swap_free_kb
    } else {
        0
    };
    let head: String = cat5(
        gb(m.total_kb - m.available_kb).as_str(),
        "/",
        gb(m.total_kb).as_str(),
        " GB used (",
        ratio(used * 100, total, 0).as_str(),
    );
    let mid: String = cat3(head.as_str(), "%), swap ", gb(swap).as_str());
    ResourcePressure {
        name: "RAM",
        score: score as u8,
        detail: {
            let tail: String = cat2(mid.as_str(), " GB in use, psi ");
            cat3(tail.as_str(), percent(r.psi_mem.some_avg10).as_str(), "%")
        },
    }
}

fn io_part(r: &Readings) -> (p: ResourcePressure)
    ensures
        p@ == io_pressure(*r),
{
    ResourcePressure {
        name: "IO",
        score: (min64(r.psi_io.some_avg10 as u64, 100_000) / 1000) as u8,
        detail: cat3("psi ", percent(r.psi_io.some_avg10).as_str(), "%"),
    }
}

fn battery_part(b: Battery) -> (p: ResourcePressure)
    ensures
        p@ == battery_pressure(b),
{
    let low: u32 = b.capacity % 256;
    let score: u32 = if !b.discharging || low >= 100 {
        0
    } else {
        100 - low
    };
    ResourcePressure {
        name: "Battery",
        score: score as u8,
        detail: cat3(
            dec64(b.capacity as u64).as_str(),
            "%",
            if b.discharging {
                ", discharging"
            } else {
                ", on AC"
            },
        ),
    }
}

fn thermal_part(milli: u32) -> (p: ResourcePressure)
    ensures
        p@ == thermal_pressure(milli as nat),
{
    let score: u32 = if milli <= 40_000 {
        0
    } else if (milli - 40_000) / 600 >= 100 {
        100
    } else {
        (milli - 40_000) / 600
    };
    ResourcePressure {
        name: "Thermals",
        score: score as u8,
        detail: cat2(ratio(milli as u128, 1000, 0).as_str(), "°C hottest zone"),
    }
}

fn eta_of(m: &MemInfo, drop_kb: i128, trend_ms: u64) -> (r: Option<u64>)
    requires
        m.available_kb <= m.total_kb,
        -(u64::MAX as int) <= drop_kb <= u64::MAX,
    ensures
        r == oom_eta(*m, drop_kb as int, trend_ms as nat),
{
    let total: u128 = if m.total_kb == 0 {
        1
    } else {
        m.total_kb as u128
    };
    let used: u128 = total - m.available_kb as u128;
    if drop_kb * 1000 > 512 * trend_ms as i128 && used * 100 > 60 * total {
        let fall: u128 = (drop_kb * 1000) as u128;
        assert(m.available_kb * trend_ms <= u64::MAX * u64::MAX) by (nonlinear_arith)
            requires
                m.available_kb <= u64::MAX,
                trend_ms <= u64::MAX,
        ;
        let secs: u128 = m.available_kb as u128 * trend_ms as u128 / fall;
        if secs > u64::MAX as u128 {
            Some(u64::MAX)
        } else {
            Some(secs as u64)
        }
    } else {
        None
    }
}

fn max8(a: u8, b: u8) -> (r: u8)
    ensures
        r == greater(a, b),
{
    if a >= b {
        a
    } else {
        b
    }
}

/// Judge the pressure from two looks at the machine.
pub fn measure(r: &Readings) -> (report: PressureReport)
    requires
        r.ncpu > 0,
        r.mem1.available_kb <= r.mem1.total_kb,
    ensures
        report@ == report_of(*r),
{
    let cpu: ResourcePressure = cpu_part(r);
    let memory: ResourcePressure = mem_part(r);
    let io: ResourcePressure = io_part(r);
    let battery: Option<ResourcePressure> = match r.battery {
        Some(b) => Some(battery_part(b)),
        None => None,
    };
    let thermal: Option<ResourcePressure> = match r.thermal_milli {
        Some(t) => Some(thermal_part(t)),
        None => None,
    };
    let drop_kb: i128 = r.mem0.available_kb as i128 - r.mem1.available_kb as i128;
    let charge: u8 = match &battery {
        Some(b) => b.score,
        None => 0,
    };
    let overall: u8 = max8(max8(max8(cpu.score, memory.score), io.score), charge);
    PressureReport {
        cpu,
        memory,
        io,
        battery,
        thermal,
        mem: r.mem1,
        battery_info: r.battery,
        mem_drop_kb: drop_kb,
        mem_window_ms: r.trend_ms,
        oom_eta_secs: eta_of(&r.mem1, drop_kb, r.trend_ms),
        overall,
    }
}

// ------------------------------------------------------------ units

/// A duration in its two largest units.
pub open spec fn eta_text(secs: nat) -> Seq<char> {
    if secs < 60 {
        decimal(secs) + "s"@
    } else if secs < 3600 {
        decimal(secs / 60) + "m "@ + two_digits(secs % 60) + "s"@
    } else {
        decimal(secs / 3600) + "h "@ + two_digits((secs % 3600) / 60) + "m"@
    }
}

pub fn fmt_eta(secs: u64) -> (r: String)
    ensures
        r@ == eta_text(secs as nat),
{
    if secs < 60 {
        cat2(dec64(secs).as_str(), "s")
    } else if secs < 3600 {
        cat2(cat3(dec64(secs / 60).as_str(), "m ", dec2(secs % 60).as_str()).as_str(), "s")
    } else {
        cat2(
            cat3(dec64(secs / 3600).as_str(), "h ", dec2((secs % 3600) / 60).as_str()).as_str(),
            "m",
        )
    }
}

/// An amount of memory in its largest unit.
pub open spec fn kb_text(kb: nat) -> Seq<char> {
    if kb >= 1_048_576 {
        gb_text(kb) + " GB"@
    } else if kb >= 1024 {
        ratio_text(kb, 1024, 0) + " MB"@
    } else {
        decimal(kb) + " kB"@
    }
}

pub fn fmt_kb(kb: u64) -> (r: String)
    ensures
        r@ == kb_text(kb as nat),
{
    if kb >= 1_048_576 {
        cat2(gb(kb).as_str(), " GB")
    } else if kb >= 1024 {
        cat2(ratio(kb as u128, 1024, 0).as_str(), " MB")
    } else {
        cat2(dec64(kb).as_str(), " kB")
    }
}

/// How fast memory is gained, in megabytes a second with its sign, given how
/// much less there is than a window ago: what is level counts as lost.
pub open spec fn rate_text(drop_kb: int, window_ms: nat) -> Seq<char> {
    if drop_kb >= 0 {
        "-"@ + ratio_text((drop_kb * 1000) as nat, window_ms * 1024, 1)
    } else {
        "+"@ + ratio_text((-drop_kb * 1000) as nat, window_ms * 1024, 1)
    }
}

/// Whether the memory trend of a report can be shown: it spans some time.
pub open spec fn has_trend(r: PressureReport) -> bool {
    r.mem_window_ms > 0 && -(u64::MAX as int) <= r.mem_drop_kb <= u64::MAX
}

pub fn fmt_rate(drop_kb: i128, window_ms: u64) -> (r: String)
    requires
        window_ms > 0,
        -(u64::MAX as int) <= drop_kb <= u64::MAX,
    ensures
        r@ == rate_text(drop_kb as int, window_ms as nat),
{
    let den: u128 = window_ms as u128 * 1024;
    if drop_kb >= 0 {
        cat2("-", ratio(drop_kb as u128 * 1000, den, 1).as_str())
    } else {
        cat2("+", ratio((-drop_kb) as u128 * 1000, den, 1).as_str())
    }
}

/// A projected exhaustion means that memory drains by more than half a
/// megabyte a second and more than three fifths of it is used.
pub proof fn exhaustion_is_projected_only_when_draining(r: Readings)
    requires
        report_of(r).oom_eta_secs is Some,
    ensures
        r.mem0.available_kb > r.mem1.available_kb,
        used_of(r.mem1) * 100 > 60 * total_of(r.mem1),
{
}

/// The smaller of a stall share and the whole, in thousandths of a percent.
pub open spec fn stall(p: Psi) -> int {
    if p.some_avg10 < 100_000 {
        p.some_avg10 as int
    } else {
        100_000
    }
}

/// The pressure on memory is seven tenths of the share in use and three tenths of
/// the stall, in whole points: none where nothing is in use or stalls, and a
/// hundred where all is.
pub proof fn memory_pressure_weighs_use_and_stall(r: Readings)
    requires
        r.ncpu > 0,
        0 < r.mem1.total_kb,
        r.mem1.available_kb <= r.mem1.total_kb,
    ensures
        ({
            let total = r.mem1.total_kb as int;
            let used = total - r.mem1.available_kb;
            let score = report_of(r).memory.score as int;
            &&& total * score * 1000 <= used * 70_000 + (stall(r.psi_mem) * total * 3) / 10
            &&& used * 70_000 + (stall(r.psi_mem) * total * 3) / 10 < total * (score + 1) * 1000
            &&& used == 0 && stall(r.psi_mem) == 0 ==> score == 0
            &&& used == total && stall(r.psi_mem) == 100_000 ==> score == 100
        }),
{
    scores_are_percentages(r);
    let total = r.mem1.total_kb as int;
    let used = total - r.mem1.available_kb;
    let st = stall(r.psi_mem);
    let num = used * 700_000 + st * 3 * total;
    let den = total * 10_000;
    let score = num / den;
    assert(report_of(r).memory.score == score);
    assert(den * score <= num < den * (score + 1)) by (nonlinear_arith)
        requires
            score == num / den,
            den > 0,
    ;
    assert(den * score == 10 * (total * score * 1000)) by (nonlinear_arith)
        requires
            den == total * 10_000,
    ;
    assert(den * (score + 1) == 10 * (total * (score + 1) * 1000)) by (nonlinear_arith)
        requires
            den == total * 10_000,
    ;
    assert(st * 3 * total == st * total * 3) by (nonlinear_arith);
    if used == 0 && st == 0 {
        assert(total * 0 * 1000 <= 0);
        assert(score == 0) by (nonlinear_arith)
            requires
                score == num / den,
                num == 0,
                den > 0,
        ;
    }
    if used == total && st == 100_000 {
        assert(score == 100) by (nonlinear_arith)
            requires
                score == num / den,
                num == total * 1_000_000,
                den == total * 10_000,
                total > 0,
        ;
    }
}

/// The pressure on the processor is half the load for each core, full at one and
/// a half, and half the stall, in whole points: none without load and stall, and
/// a hundred at full load and stall.
pub proof fn cpu_pressure_weighs_load_and_stall(r: Readings)
    requires
        r.ncpu > 0,
        r.mem1.available_kb <= r.mem1.total_kb,
    ensures
        ({
            let full = 1500 * r.ncpu;
            let load = if r.load_milli < full {
                r.load_milli as int
            } else {
                full as int
            };
            let score = report_of(r).cpu.score as int;
            &&& full * score * 2000 <= load * 100_000 + stall(r.psi_cpu) * full
            &&& load * 100_000 + stall(r.psi_cpu) * full < full * (score + 1) * 2000
            &&& r.load_milli == 0 && r.psi_cpu.some_avg10 == 0 ==> score == 0
            &&& r.load_milli >= full && r.psi_cpu.some_avg10 >= 100_000 ==> score == 100
        }),
{
    scores_are_percentages(r);
    let full = 1500 * r.ncpu;
    let load = if r.load_milli < full {
        r.load_milli as int
    } else {
        full as int
    };
    let st = stall(r.psi_cpu);
    let num = load * 100_000 + st * full;
    let den = full * 2000;
    let score = num / den;
    assert(report_of(r).cpu.score == score);
    assert(den * score <= num < den * (score + 1)) by (nonlinear_arith)
        requires
            score == num / den,
            den > 0,
    ;
    assert(den * score == full * score * 2000) by (nonlinear_arith)
        requires
            den == full * 2000,
    ;
    assert(den * (score + 1) == full * (score + 1) * 2000) by (nonlinear_arith)
        requires
            den == full * 2000,
    ;
    if r.load_milli == 0 && st == 0 {
        assert(score == 0) by (nonlinear_arith)
            requires
                score == num / den,
                num == 0,
                den > 0,
        ;
    }
    if load == full && st == 100_000 {
        assert(score == 100) by (nonlinear_arith)
            requires
                score == num / den,
                num == full * 200_000,
                den == full * 2000,
                full > 0,
        ;
    }
}

/// The pressure on disks is the stall itself; that on a battery is what it lacks
/// while it discharges and none while it does not; and heat presses from 40
/// degrees on, a point for each 0.6 degrees, up to a hundred.
pub proof fn other_pressures_are_what_they_measure(r: Readings)
    requires
        r.ncpu > 0,
        r.mem1.available_kb <= r.mem1.total_kb,
    ensures
        ({
            let rep = report_of(r);
            &&& 1000 * rep.io.score <= stall(r.psi_io) < 1000 * (rep.io.score + 1)
            &&& rep.battery is Some <==> r.battery is Some
            &&& r.battery is Some && !r.battery->0.discharging ==> rep.battery->0.score == 0
            &&& r.battery is Some && r.battery->0.discharging && r.battery->0.capacity <= 100
                ==> rep.battery->0.score + r.battery->0.capacity == 100
            &&& rep.thermal is Some <==> r.thermal_milli is Some
            &&& r.thermal_milli is Some && r.thermal_milli->0 <= 40_000 ==> rep.thermal->0.score
                == 0
            &&& r.thermal_milli is Some && 40_000 <= r.thermal_milli->0 < 100_000 ==> 600
                * rep.thermal->0.score <= r.thermal_milli->0 - 40_000 < 600 * (
            rep.thermal->0.score + 1)
            &&& r.thermal_milli is Some && r.thermal_milli->0 >= 100_000 ==> rep.thermal->0.score
                == 100
        }),
{
    scores_are_percentages(r);
}

/// The pressure as a whole is the greatest of those on the processor, memory,
/// disks and battery: none of them exceeds it, and it is one of them.
pub proof fn the_greatest_pressure_counts(r: Readings)
    ensures
        ({
            let rep = report_of(r);
            &&& rep.overall >= rep.cpu.score && rep.overall >= rep.memory.score && rep.overall
                >= rep.io.score
            &&& rep.battery is Some ==> rep.overall >= rep.battery->0.score
            &&& rep.overall == rep.cpu.score || rep.overall == rep.memory.score || rep.overall
                == rep.io.score || (rep.battery is Some && rep.overall == rep.battery->0.score)
            &&& rep.mem == r.mem1
            &&& rep.battery_info == r.battery
            &&& rep.mem_window_ms == r.trend_ms
            &&& rep.mem_drop_kb + r.mem1.available_kb == r.mem0.available_kb
            &&& rep.cpu.name == "CPU"@ && rep.memory.name == "RAM"@ && rep.io.name == "IO"@
        }),
{
}

/// The exhaustion of memory is projected exactly where more than 512 KiB a second
/// are taken and more than 60 percent are in use, and is as far off as what is
/// available lasts at that rate, in whole seconds.
pub proof fn exhaustion_is_as_far_off_as_memory_lasts(r: Readings)
    requires
        0 < r.mem1.total_kb,
        r.mem1.available_kb <= r.mem1.total_kb,
        0 < r.trend_ms,
    ensures
        ({
            let drop = r.mem0.available_kb - r.mem1.available_kb;
            let total = r.mem1.total_kb as int;
            let eta = report_of(r).oom_eta_secs;
            &&& eta is Some <==> drop * 1000 > 512 * r.trend_ms && 100 * (total
                - r.mem1.available_kb) > 60 * total
            &&& eta is Some ==> eta->0 * (drop * 1000) <= r.mem1.available_kb * r.trend_ms
            &&& eta is Some && eta->0 < u64::MAX ==> r.mem1.available_kb * r.trend_ms < (eta->0
                + 1) * (drop * 1000)
        }),
{
    let drop = r.mem0.available_kb - r.mem1.available_kb;
    let eta = report_of(r).oom_eta_secs;
    if eta is Some {
        let num = r.mem1.available_kb as int * r.trend_ms as int;
        let den = drop * 1000;
        let secs = num / den;
        assert(num >= 0) by (nonlinear_arith)
            requires
                num == r.mem1.available_kb as int * r.trend_ms as int,
        ;
        assert(secs * den <= num < (secs + 1) * den && secs >= 0) by (nonlinear_arith)
            requires
                secs == num / den,
                den > 0,
                num >= 0,
        ;
        assert(eta->0 <= secs);
        assert(eta->0 * den <= secs * den) by (nonlinear_arith)
            requires
                eta->0 <= secs,
                den > 0,
        ;
    }
}

/// A duration names its two largest units, of which the smaller is less than a
/// whole of the larger: the seconds can be told from it up to the unit left out.
pub proof fn durations_name_their_units(secs: nat)
    ensures
        secs < 60 ==> eta_text(secs) == decimal(secs) + "s"@,
        60 <= secs < 3600 ==> exists|m: nat, s: nat|
            s < 60 && 60 * m + s == secs && #[trigger] (decimal(m) + "m "@ + two_digits(s) + "s"@)
                == eta_text(secs),
        3600 <= secs ==> exists|h: nat, m: nat|
            m < 60 && 3600 * h + 60 * m <= secs < 3600 * h + 60 * m + 60 && #[trigger] (decimal(h)
                + "h "@ + two_digits(m) + "m"@) == eta_text(secs),
{
    if 60 <= secs < 3600 {
        assert((decimal(secs / 60) + "m "@ + two_digits(secs % 60) + "s"@) == eta_text(secs));
    }
    if 3600 <= secs {
        assert((decimal(secs / 3600) + "h "@ + two_digits((secs % 3600) / 60) + "m"@) == eta_text(
            secs,
        ));
    }
}

/// An amount of memory is told in GB from a million KiB on, in MB from a thousand
/// on, and in kB below, each of 1024 of the next smaller.
pub proof fn amounts_name_their_unit(kb: nat)
    ensures
        kb < 1024 ==> kb_text(kb) == decimal(kb) + " kB"@,
        1024 <= kb < 1_048_576 ==> kb_text(kb) == ratio_text(kb, 1024, 0) + " MB"@,
        1_048_576 <= kb ==> kb_text(kb) == gb_text(kb) + " GB"@,
{
}

} // verus!
