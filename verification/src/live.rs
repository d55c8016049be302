//! The live view: when inference is asked again, what it is asked, and the
//! frames that are drawn.

use vstd::prelude::*;
use vstd::utf8::encode_utf8;

use crate::display::{bar, bar_text, painted, score_code, Theme};
use crate::fixed::{dec64, decimal, ratio, ratio_text, UNIT};
use crate::groq::{event_views, EventView, GroqEvent};
use crate::intent::{
    category_name, category_tag, find_intent, intent_for, Category, Intent,
};
use crate::notify::lemma_joined_front;
use crate::pressure::{
    eta_text, fmt_eta, fmt_kb, fmt_rate, has_trend, kb_text, rate_text, total_of, used_of,
    PressureReport,
};
use crate::procfs::{App, Battery};
use crate::scan::{begins, lemma_words_nonempty, mentions, words, words_of};
use crate::suspend::{records, RecordView, SuspendedApp};
use crate::text::{
    byte_len, bytes_in, cat2, cat3, cat4, cat5, cat6, cat7, join, joined, opt_text, owned, pad_left,
    padded_left, push_all, push_text, repeat, repeated, same, texts,
};

verus! {

// ------------------------------------------------------------ inference

/// The state of the inference panel. Moments are in nanoseconds of a clock
/// that never goes back.
pub struct Infer {
    pub text: String,
    pub tokens: u32,
    pub streaming: bool,
    pub note: String,
    pub last_run: i128,
    pub backoff_until: i128,
    pub last_sig: u64,
}

#[verifier::ext_equal]
pub struct InferView {
    pub text: Seq<char>,
    pub tokens: nat,
    pub streaming: bool,
    pub note: Seq<char>,
    pub last_run: int,
    pub backoff_until: int,
    pub last_sig: u64,
}

impl View for Infer {
    type V = InferView;

    open spec fn view(&self) -> InferView {
        InferView {
            text: self.text@,
            tokens: self.tokens as nat,
            streaming: self.streaming,
            note: self.note@,
            last_run: self.last_run as int,
            backoff_until: self.backoff_until as int,
            last_sig: self.last_sig,
        }
    }
}

/// A number of seconds in nanoseconds.
pub open spec fn secs_ns(n: int) -> int {
    n * 1_000_000_000
}

/// What one event makes of the panel.
pub open spec fn heard_event(v: InferView, ev: EventView, hms: Seq<char>, now: int) -> InferView {
    match ev {
        EventView::Token(t) => InferView { tokens: v.tokens + 1, text: v.text + t, ..v },
        EventView::Done => InferView { note: hms + " · "@ + decimal(v.tokens) + " tok"@, ..v },
        EventView::Error(e) => InferView {
            note: "inference error: "@ + e,
            backoff_until: now + secs_ns(60),
            ..v
        },
    }
}

/// What a list of events makes of the panel.
pub open spec fn heard_events(
    v: InferView,
    list: Seq<EventView>,
    hms: Seq<char>,
    now: int,
) -> InferView
    decreases list.len(),
{
    if list.len() == 0 {
        v
    } else {
        heard_event(heard_events(v, list.drop_last(), hms, now), list.last(), hms, now)
    }
}

/// Whether a list of events closes the stream.
pub open spec fn closes(list: Seq<EventView>) -> bool {
    exists|i: int| 0 <= i < list.len() && (#[trigger] list[i]) !is Token
}

/// What the panel is once the events that have come in are heard.
pub open spec fn drained(
    v: InferView,
    list: Seq<EventView>,
    hms: Seq<char>,
    now: int,
) -> InferView {
    let w = heard_events(v, list, hms, now);
    if closes(list) {
        InferView { streaming: false, ..w }
    } else {
        w
    }
}

/// The panel before anything was asked.
pub open spec fn fresh(now: int) -> InferView {
    InferView {
        text: Seq::empty(),
        tokens: 0,
        streaming: false,
        note: "warming up"@,
        last_run: now - secs_ns(3600),
        backoff_until: now,
        last_sig: 0,
    }
}

/// What the panel is once a new inference has begun.
pub open spec fn begun(v: InferView, sig: u64, hms: Seq<char>, now: int) -> InferView {
    InferView {
        text: Seq::empty(),
        tokens: 0,
        streaming: true,
        note: hms + " · streaming"@,
        last_run: now,
        backoff_until: v.backoff_until,
        last_sig: sig,
    }
}

/// Whether a new inference is due: not while one streams or an error is
/// recent, not within 20 seconds of the last, and then where the state has
/// changed or two minutes have gone by.
pub open spec fn due(v: InferView, sig: u64, now: int) -> bool {
    !v.streaming && now >= v.backoff_until && now - v.last_run > secs_ns(20) && (sig != v.last_sig
        || now - v.last_run > secs_ns(120))
}

impl Infer {
    /// Whether the last run is a moment that the clock can tell, or at most an
    /// hour before it started.
    pub open spec fn wf(self) -> bool {
        -secs_ns(3600) <= self.last_run <= u64::MAX
    }

    pub fn new(now_ns: u64) -> (r: Infer)
        ensures
            r.wf(),
            r@ == fresh(now_ns as int),
    {
        let r: Infer = Infer {
            text: String::new(),
            tokens: 0,
            streaming: false,
            note: owned("warming up"),
            last_run: now_ns as i128 - 3_600_000_000_000,
            backoff_until: now_ns as i128,
            last_sig: 0,
        };
        assert(r.text@ =~= Seq::empty());
        r
    }

    /// Hear the events that have come in.
    pub fn drain(&mut self, events: &Vec<GroqEvent>, hms: &str, now_ns: u64)
        requires
            old(self).tokens + events@.len() <= u32::MAX,
        ensures
            final(self)@ == drained(old(self)@, event_views(events@), hms@, now_ns as int),
            old(self).wf() ==> final(self).wf(),
    {
        let ghost start = self@;
        let ghost all = event_views(events@);
        let mut done: bool = false;
        let mut i: usize = 0;
        while i < events.len()
            invariant
                i <= events.len(),
                all == event_views(events@),
                self@ == heard_events(start, all.take(i as int), hms@, now_ns as int),
                self.tokens <= start.tokens + i,
                self.last_run == start.last_run,
                start.tokens + events@.len() <= u32::MAX,
                done == closes(all.take(i as int)),
            decreases events.len() - i,
        {
            let ghost before = self@;
            let ghost now = all.take(i as int + 1);
            proof {
                assert(now.drop_last() =~= all.take(i as int));
                assert(now.last() == events@[i as int]@);
                if closes(all.take(i as int)) {
                    let k = choose|k: int|
                        0 <= k < all.take(i as int).len() && (#[trigger] all.take(i as int)[k])
                            !is Token;
                    assert(now[k] !is Token);
                }
                if closes(now) && !(now.last() !is Token) {
                    let k = choose|k: int| 0 <= k < now.len() && (#[trigger] now[k]) !is Token;
                    assert(all.take(i as int)[k] !is Token);
                }
            }
            match &events[i] {
                GroqEvent::Token(t) => {
                    self.tokens = self.tokens + 1;
                    self.text.append(t.as_str());
                },
                GroqEvent::Done => {
                    assert(now[i as int] !is Token);
                    done = true;
                    self.note = cat4(hms, " · ", dec64(self.tokens as u64).as_str(), " tok");
                },
                GroqEvent::Error(e) => {
                    assert(now[i as int] !is Token);
                    done = true;
                    self.note = cat2("inference error: ", e.as_str());
                    self.backoff_until = now_ns as i128 + 60_000_000_000;
                },
            }
            i = i + 1;
        }
        assert(all.take(i as int) =~= all);
        if done {
            self.streaming = false;
        }
    }

    /// Begin a new inference if one is due, and tell whether it is: `sig`
    /// stands for the state that matters.
    pub fn maybe_fire(&mut self, sig: u64, hms: &str, now_ns: u64) -> (r: bool)
        requires
            old(self).wf(),
        ensures
            final(self).wf(),
            r == due(old(self)@, sig, now_ns as int),
            final(self)@ == (if r {
                begun(old(self)@, sig, hms@, now_ns as int)
            } else {
                old(self)@
            }),
    {
        let now: i128 = now_ns as i128;
        if self.streaming || now < self.backoff_until {
            return false;
        }
        let elapsed: i128 = now - self.last_run;
        let heartbeat: bool = elapsed > 120_000_000_000;
        let changed: bool = sig != self.last_sig;
        let cooldown_ok: bool = elapsed > 20_000_000_000;
        if !(cooldown_ok && (changed || heartbeat)) {
            return false;
        }
        self.last_sig = sig;
        self.last_run = now;
        self.tokens = 0;
        self.text = String::new();
        self.streaming = true;
        self.note = cat2(hms, " · streaming");
        assert(self.text@ =~= Seq::empty());
        true
    }

    /// Say why there is no inference, where none has been heard.
    pub fn fail_offline(&mut self, reason: &str)
        ensures
            final(self)@ == (if old(self)@.text.len() == 0 {
                InferView { note: reason@, ..old(self)@ }
            } else {
                old(self)@
            }),
            old(self).wf() ==> final(self).wf(),
    {
        if self.text.as_str().unicode_len() == 0 {
            self.note = owned(reason);
        }
    }
}

pub const SYSTEM_PROMPT: &'static str =
    "You are PV, a pressure-valve process intelligence inside a Linux system monitor. Given a compact system snapshot, reply with 2-4 short plain-text lines, each under 95 characters: what actually matters right now, what is likely to happen next, and the single best action. Use ONLY facts and numbers present in the snapshot — never invent percentages or processes. No markdown, no bullets, no preamble.";

// ------------------------------------------------------------ the snapshot

/// What the view reads besides the report: the load and the stalls in
/// thousandths, the hottest zone in thousandths of a degree.
#[derive(Debug, Clone, Copy)]
pub struct Extras {
    pub load_milli: u32,
    pub ncpu: u32,
    pub psi_cpu_milli: u32,
    pub psi_io_milli: u32,
    pub thermal_milli: Option<u32>,
    /// Sessions that are running.
    pub running: u64,
}

pub open spec fn oom_part(lead: Seq<char>, eta: Option<u64>) -> Seq<char> {
    match eta {
        Some(e) => lead + eta_text(e as nat),
        None => Seq::empty(),
    }
}

fn oom_note(lead: &str, eta: Option<u64>) -> (r: String)
    ensures
        r@ == oom_part(lead@, eta),
{
    match eta {
        Some(e) => cat2(lead, fmt_eta(e).as_str()),
        None => {
            let s: String = String::new();
            assert(s@ =~= Seq::empty());
            s
        },
    }
}

/// The memory, processor and disk part of a snapshot.
pub open spec fn machine_part(r: PressureReport, x: Extras) -> Seq<char> {
    let mem = "RAM "@ + ratio_text(used_of(r.mem) * 100, total_of(r.mem), 0) + "% ("@ + kb_text(
        (r.mem.total_kb - r.mem.available_kb) as nat,
    ) + "/"@ + kb_text(r.mem.total_kb as nat) + ") swap "@;
    let trend = mem + kb_text((r.mem.swap_total_kb - r.mem.swap_free_kb) as nat) + " trend "@
        + rate_text(r.mem_drop_kb as int, r.mem_window_ms as nat) + "MB/s"@ + oom_part(
        " OOM~"@,
        r.oom_eta_secs,
    );
    let cpu = trend + " | CPU load "@ + ratio_text(x.load_milli as nat, 1000, 2) + "/"@ + decimal(
        x.ncpu as nat,
    ) + " cores psi"@ + ratio_text(x.psi_cpu_milli as nat, 1000, 0);
    cpu + " | IO psi"@ + ratio_text(x.psi_io_milli as nat, 1000, 0)
}

pub open spec fn battery_part(b: Option<Battery>) -> Seq<char> {
    match b {
        Some(b) => " | BAT "@ + decimal(b.capacity as nat) + "%"@ + (if b.discharging {
            " discharging"@
        } else {
            " AC"@
        }),
        None => Seq::empty(),
    }
}

pub open spec fn thermal_part(t: Option<u32>) -> Seq<char> {
    match t {
        Some(m) => " | THERM "@ + ratio_text(m as nat, 1000, 0) + "C"@,
        None => Seq::empty(),
    }
}

/// The category of an application's intent, where it has one.
pub open spec fn category_for(intents: Seq<(String, Intent)>, key: Seq<char>) -> Category {
    match intent_for(intents, key) {
        Some(i) => i.category,
        None => Category::Unknown,
    }
}

pub open spec fn top_part(a: App, intents: Seq<(String, Intent)>) -> Seq<char> {
    " "@ + a.display@ + "("@ + category_name(category_for(intents, a.key@)) + ","@ + ratio_text(
        a.cpu_pct as nat,
        UNIT as nat,
        0,
    ) + "%cpu,"@ + kb_text(a.rss_kb as nat) + ")"@
}

pub open spec fn top_parts(apps: Seq<App>, intents: Seq<(String, Intent)>) -> Seq<char>
    decreases apps.len(),
{
    if apps.len() == 0 {
        Seq::empty()
    } else {
        top_parts(apps.drop_last(), intents) + top_part(apps.last(), intents)
    }
}

/// At most so many of a list.
pub open spec fn up_to<T>(s: Seq<T>, n: int) -> Seq<T> {
    if s.len() > n {
        s.take(n)
    } else {
        s
    }
}

pub open spec fn frozen_names(list: Seq<RecordView>) -> Seq<Seq<char>> {
    list.map_values(|x: RecordView| x.key + "("@ + kb_text(x.rss_kb as nat) + ")"@)
}

pub open spec fn frozen_part(list: Seq<RecordView>) -> Seq<char> {
    if list.len() == 0 {
        Seq::empty()
    } else {
        " | SUSPENDED: "@ + joined(frozen_names(list), ","@)
    }
}

pub open spec fn running_part(n: u64) -> Seq<char> {
    if n > 0 {
        " | PV-SESSIONS: "@ + decimal(n as nat) + " running"@
    } else {
        Seq::empty()
    }
}

/// The snapshot that inference is asked about.
pub open spec fn prompt_text(
    apps: Seq<App>,
    intents: Seq<(String, Intent)>,
    r: PressureReport,
    x: Extras,
    frozen: Seq<RecordView>,
) -> Seq<char> {
    machine_part(r, x) + battery_part(r.battery_info) + thermal_part(x.thermal_milli)
        + " | TOP:"@ + top_parts(up_to(apps, 5), intents) + frozen_part(frozen) + running_part(
        x.running,
    )
}

/// Whether the amounts of a report can be shown: no more is available or free
/// than there is, and the trend spans some time.
pub open spec fn can_show(r: PressureReport) -> bool {
    has_trend(r) && r.mem.available_kb <= r.mem.total_kb && r.mem.swap_free_kb
        <= r.mem.swap_total_kb
}

fn machine(r: &PressureReport, x: &Extras) -> (s: String)
    requires
        can_show(*r),
    ensures
        s@ == machine_part(*r, *x),
{
    let total: u64 = if r.mem.total_kb == 0 {
        1
    } else {
        r.mem.total_kb
    };
    let used: u64 = total - r.mem.available_kb;
    let mem: String = cat7(
        "RAM ",
        ratio(used as u128 * 100, total as u128, 0).as_str(),
        "% (",
        fmt_kb(r.mem.total_kb - r.mem.available_kb).as_str(),
        "/",
        fmt_kb(r.mem.total_kb).as_str(),
        ") swap ",
    );
    let trend: String = cat6(
        mem.as_str(),
        fmt_kb(r.mem.swap_total_kb - r.mem.swap_free_kb).as_str(),
        " trend ",
        fmt_rate(r.mem_drop_kb, r.mem_window_ms).as_str(),
        "MB/s",
        oom_note(" OOM~", r.oom_eta_secs).as_str(),
    );
    let cpu: String = cat7(
        trend.as_str(),
        " | CPU load ",
        ratio(x.load_milli as u128, 1000, 2).as_str(),
        "/",
        dec64(x.ncpu as u64).as_str(),
        " cores psi",
        ratio(x.psi_cpu_milli as u128, 1000, 0).as_str(),
    );
    cat3(cpu.as_str(), " | IO psi", ratio(x.psi_io_milli as u128, 1000, 0).as_str())
}

fn nothing() -> (r: String)
    ensures
        r@ == Seq::<char>::empty(),
{
    let s: String = String::new();
    assert(s@ =~= Seq::<char>::empty());
    s
}

fn battery_note(b: &Option<Battery>) -> (r: String)
    ensures
        r@ == battery_part(*b),
{
    match b {
        Some(b) => cat4(
            " | BAT ",
            dec64(b.capacity as u64).as_str(),
            "%",
            if b.discharging {
                " discharging"
            } else {
                " AC"
            },
        ),
        None => nothing(),
    }
}

fn thermal_note(t: Option<u32>) -> (r: String)
    ensures
        r@ == thermal_part(t),
{
    match t {
        Some(m) => cat3(" | THERM ", ratio(m as u128, 1000, 0).as_str(), "C"),
        None => nothing(),
    }
}

fn category(intents: &Vec<(String, Intent)>, key: &str) -> (r: Category)
    ensures
        r == category_for(intents@, key@),
{
    match find_intent(intents, key) {
        Some(i) => i.category,
        None => Category::Unknown,
    }
}

fn top_note(a: &App, intents: &Vec<(String, Intent)>) -> (r: String)
    ensures
        r@ == top_part(*a, intents@),
{
    let head: String = cat7(
        " ",
        a.display.as_str(),
        "(",
        category(intents, a.key.as_str()).name(),
        ",",
        ratio(a.cpu_pct as u128, UNIT as u128, 0).as_str(),
        "%cpu,",
    );
    cat3(head.as_str(), fmt_kb(a.rss_kb).as_str(), ")")
}

fn top_notes(apps: &Vec<App>, intents: &Vec<(String, Intent)>) -> (r: String)
    ensures
        r@ == top_parts(up_to(apps@, 5), intents@),
{
    let n: usize = if apps.len() > 5 {
        5
    } else {
        apps.len()
    };
    let ghost few = up_to(apps@, 5);
    let mut s: String = nothing();
    let mut i: usize = 0;
    while i < n
        invariant
            i <= n <= apps@.len(),
            few == up_to(apps@, 5),
            n == few.len(),
            s@ == top_parts(few.take(i as int), intents@),
        decreases n - i,
    {
        proof {
            assert(few.take(i as int + 1).drop_last() =~= few.take(i as int));
            assert(few.take(i as int + 1).last() == apps@[i as int]);
        }
        s.append(top_note(&apps[i], intents).as_str());
        i = i + 1;
    }
    assert(few.take(i as int) =~= few);
    s
}

fn frozen_note(list: &Vec<SuspendedApp>) -> (r: String)
    ensures
        r@ == frozen_part(records(list@)),
{
    let ghost all = records(list@);
    if list.len() == 0 {
        assert(all.len() == 0);
        return nothing();
    }
    let mut names: Vec<String> = Vec::new();
    let mut i: usize = 0;
    assert(texts(names@) =~= frozen_names(all.take(0)));
    while i < list.len()
        invariant
            i <= list.len(),
            all == records(list@),
            texts(names@) == frozen_names(all.take(i as int)),
        decreases list.len() - i,
    {
        push_text(
            &mut names,
            cat4(list[i].key.as_str(), "(", fmt_kb(list[i].rss_kb).as_str(), ")"),
        );
        proof {
            assert(all[i as int] == list@[i as int]@);
            assert(texts(names@) =~= frozen_names(all.take(i as int + 1)));
        }
        i = i + 1;
    }
    assert(all.take(i as int) =~= all);
    assert(all.len() > 0);
    cat2(" | SUSPENDED: ", join(&names, ",").as_str())
}

fn running_note(n: u64) -> (r: String)
    ensures
        r@ == running_part(n),
{
    if n > 0 {
        cat3(" | PV-SESSIONS: ", dec64(n).as_str(), " running")
    } else {
        nothing()
    }
}

/// The snapshot that inference is asked about.
pub fn infer_prompt(
    apps: &Vec<App>,
    intents: &Vec<(String, Intent)>,
    r: &PressureReport,
    x: &Extras,
    frozen: &Vec<SuspendedApp>,
) -> (s: String)
    requires
        can_show(*r),
    ensures
        s@ == prompt_text(apps@, intents@, *r, *x, records(frozen@)),
{
    cat7(
        machine(r, x).as_str(),
        battery_note(&r.battery_info).as_str(),
        thermal_note(x.thermal_milli).as_str(),
        " | TOP:",
        top_notes(apps, intents).as_str(),
        frozen_note(frozen).as_str(),
        running_note(x.running).as_str(),
    )
}

// ------------------------------------------------------------ the signature

/// One more number in a signature, in 64 bits.
pub open spec fn mixed(sig: nat, x: nat) -> nat {
    (sig * 31 + x) % 0x1_0000_0000_0000_0000
}

pub open spec fn mixed_bytes(sig: nat, b: Seq<u8>) -> nat
    decreases b.len(),
{
    if b.len() == 0 {
        sig
    } else {
        mixed(mixed_bytes(sig, b.drop_last()), b.last() as nat)
    }
}

pub open spec fn mixed_keys(sig: nat, apps: Seq<App>) -> nat
    decreases apps.len(),
{
    if apps.len() == 0 {
        sig
    } else {
        mixed_bytes(mixed_keys(sig, apps.drop_last()), encode_utf8(apps.last().key@))
    }
}

/// What of a report is mixed into the signature: coarse scores, whether
/// exhaustion is projected, and the coarse charge.
pub open spec fn mixed_report(r: PressureReport) -> nat {
    let a = mixed(0, (r.memory.score / 5) as nat);
    let b = mixed(a, (r.cpu.score / 10) as nat);
    let c = mixed(
        b,
        if r.oom_eta_secs is Some {
            1
        } else {
            0
        },
    );
    mixed(
        c,
        match r.battery_info {
            Some(b) => (b.capacity / 10) as nat,
            None => 0,
        },
    )
}

/// The signature of the state that matters.
pub open spec fn sig_of(apps: Seq<App>, r: PressureReport) -> nat {
    mixed_keys(mixed_report(r), up_to(apps, 3))
}

fn mix(sig: u64, x: u64) -> (r: u64)
    ensures
        r == mixed(sig as nat, x as nat),
{
    ((sig as u128 * 31 + x as u128) % 0x1_0000_0000_0000_0000) as u64
}

fn mix_text(sig: u64, s: &str) -> (r: u64)
    ensures
        r == mixed_bytes(sig as nat, encode_utf8(s@)),
{
    let b: &[u8] = s.as_bytes();
    let n: usize = b.len();
    let mut out: u64 = sig;
    let mut i: usize = 0;
    while i < n
        invariant
            i <= n,
            n == b@.len(),
            out == mixed_bytes(sig as nat, b@.take(i as int)),
        decreases n - i,
    {
        proof {
            assert(b@.take(i as int + 1).drop_last() =~= b@.take(i as int));
        }
        out = mix(out, b[i] as u64);
        i = i + 1;
    }
    assert(b@.take(i as int) =~= b@);
    out
}

/// Signature of the state that matters: inference is asked again when it
/// changes.
pub fn state_sig(apps: &Vec<App>, r: &PressureReport) -> (s: u64)
    ensures
        s == sig_of(apps@, *r),
{
    let a: u64 = mix(0, (r.memory.score / 5) as u64);
    let b: u64 = mix(a, (r.cpu.score / 10) as u64);
    let c: u64 = mix(
        b,
        match r.oom_eta_secs {
            Some(_) => 1,
            None => 0,
        },
    );
    let charge: u64 = match &r.battery_info {
        Some(b) => (b.capacity / 10) as u64,
        None => 0,
    };
    let base: u64 = mix(c, charge);
    let n: usize = if apps.len() > 3 {
        3
    } else {
        apps.len()
    };
    let ghost few = up_to(apps@, 3);
    let mut sig: u64 = base;
    let mut i: usize = 0;
    while i < n
        invariant
            i <= n <= apps@.len(),
            few == up_to(apps@, 3),
            n == few.len(),
            sig == mixed_keys(base as nat, few.take(i as int)),
        decreases n - i,
    {
        proof {
            assert(few.take(i as int + 1).drop_last() =~= few.take(i as int));
            assert(few.take(i as int + 1).last() == apps@[i as int]);
        }
        sig = mix_text(sig, apps[i].key.as_str());
        i = i + 1;
    }
    assert(few.take(i as int) =~= few);
    sig
}

// ------------------------------------------------------------ wrapping

/// The lines that words fill, `line` being begun, by their length in bytes.
pub open spec fn filled(list: Seq<Seq<char>>, line: Seq<char>, width: nat) -> Seq<Seq<char>>
    decreases list.len(),
{
    if list.len() == 0 {
        if line.len() == 0 {
            Seq::empty()
        } else {
            seq![line]
        }
    } else if line.len() == 0 {
        filled(list.drop_first(), list[0], width)
    } else if bytes_in(line) + 1 + bytes_in(list[0]) > width {
        seq![line] + filled(list.drop_first(), list[0], width)
    } else {
        filled(list.drop_first(), line + " "@ + list[0], width)
    }
}

pub fn wrap(text: &str, w: usize) -> (r: Vec<String>)
    ensures
        texts(r@) == filled(words_of(text@), Seq::empty(), w as nat),
{
    let list: Vec<String> = words(text);
    let ghost all = texts(list@);
    let ghost want = filled(all, Seq::empty(), w as nat);
    let mut out: Vec<String> = Vec::new();
    let mut line: String = nothing();
    let mut i: usize = 0;
    assert(all.skip(0) =~= all);
    assert(texts(out@) + filled(all, line@, w as nat) =~= want);
    while i < list.len()
        invariant
            i <= list.len(),
            all == texts(list@),
            texts(out@) + filled(all.skip(i as int), line@, w as nat) == want,
        decreases list.len() - i,
    {
        let ghost rest = all.skip(i as int);
        let ghost before = texts(out@);
        let ghost begun = line@;
        proof {
            assert(rest.drop_first() =~= all.skip(i as int + 1));
            assert(rest[0] == list@[i as int]@);
        }
        if line.as_str().unicode_len() == 0 {
            line = list[i].clone();
        } else if byte_len(line.as_str()) as u128 + 1 + byte_len(list[i].as_str()) as u128
            > w as u128 {
            push_text(&mut out, line);
            line = list[i].clone();
            assert(texts(out@) + filled(rest.drop_first(), line@, w as nat) =~= before + (
            seq![begun] + filled(rest.drop_first(), line@, w as nat)));
        } else {
            line = cat3(line.as_str(), " ", list[i].as_str());
        }
        i = i + 1;
    }
    assert(all.skip(i as int) =~= Seq::empty());
    if line.as_str().unicode_len() > 0 {
        push_text(&mut out, line);
    }
    assert(texts(out@) =~= want);
    out
}

// ------------------------------------------------------------ frames

/// What a frame is drawn for, besides the state of the machine.
pub struct Screen {
    pub theme: Theme,
    pub cols: usize,
    pub rows: usize,
    /// The interval in seconds.
    pub interval: u64,
    pub model: String,
    /// The local time.
    pub hms: String,
    /// Whether there is a key for inference.
    pub key_present: bool,
}

/// The difference where it is positive, and zero otherwise.
pub open spec fn short_of(a: nat, b: nat) -> nat {
    if a > b {
        (a - b) as nat
    } else {
        0
    }
}

pub open spec fn framed(t: Theme, s: Seq<char>) -> Seq<char> {
    painted(t, "36"@, s)
}

/// A text filled up with spaces, given how much of it is seen.
pub open spec fn filled_up(s: Seq<char>, visible: nat, w: nat) -> Seq<char> {
    s + repeated(' ', short_of(w, visible))
}

/// A horizontal line of the frame with a label in it, behind two characters.
pub open spec fn rule_line(
    t: Theme,
    w: nat,
    left: Seq<char>,
    label: Seq<char>,
    dash: char,
    right: Seq<char>,
) -> Seq<char> {
    framed(t, left) + framed(t, label) + framed(
        t,
        repeated(dash, short_of((w - 2) as nat, label.len() + 1)) + right,
    )
}

pub open spec fn title_line(t: Theme, w: nat, title: Seq<char>) -> Seq<char> {
    rule_line(t, w, "╟─"@, "[ "@ + title + " ]"@, '─', "╢"@)
}

/// A line between the borders.
pub open spec fn bordered(t: Theme, w: nat, content: Seq<char>, visible: nat) -> Seq<char> {
    framed(t, "║"@) + " "@ + filled_up(content, visible, short_of(w, 4)) + " "@ + framed(
        t,
        "║"@,
    )
}

/// A dimmed line between the borders.
pub open spec fn dim_line(t: Theme, w: nat, s: Seq<char>) -> Seq<char> {
    bordered(t, w, painted(t, "2"@, s), s.len())
}

pub open spec fn gauge(name: Seq<char>, bar: Seq<char>, score: u8) -> Seq<char> {
    name + bar + " "@ + padded_left(decimal(score as nat), 2, ' ') + "%"@
}

pub open spec fn colored_bar(t: Theme, score: u8) -> Seq<char> {
    painted(t, score_code(score), bar_text(score, 8))
}

pub open spec fn gauges(t: Theme, r: PressureReport) -> Seq<char> {
    gauge("CPU "@, colored_bar(t, r.cpu.score), r.cpu.score) + gauge(
        "  RAM "@,
        colored_bar(t, r.memory.score),
        r.memory.score,
    ) + gauge("  IO "@, colored_bar(t, r.io.score), r.io.score)
}

/// The gauges without colours, whose length the line is filled up by.
pub open spec fn plain_gauges(r: PressureReport) -> Seq<char> {
    gauge("CPU "@, bar_text(r.cpu.score, 8), r.cpu.score) + gauge(
        "  RAM "@,
        bar_text(r.memory.score, 8),
        r.memory.score,
    ) + gauge("  IO "@, bar_text(r.io.score, 8), r.io.score)
}

pub open spec fn charge_text(b: Option<Battery>) -> Seq<char> {
    match b {
        Some(b) => "BAT "@ + decimal(b.capacity as nat) + "%"@ + (if b.discharging {
            "▼"@
        } else {
            "▲"@
        }),
        None => "BAT --"@,
    }
}

pub open spec fn heat_text(t: Option<u32>) -> Seq<char> {
    match t {
        Some(m) => ratio_text(m as nat, 1000, 0) + "°C"@,
        None => "--"@,
    }
}

pub open spec fn vitals(r: PressureReport, x: Extras) -> Seq<char> {
    let load = "LOAD "@ + ratio_text(x.load_milli as nat, 1000, 2) + "/"@ + decimal(
        x.ncpu as nat,
    ) + "  MEM "@ + rate_text(r.mem_drop_kb as int, r.mem_window_ms as nat) + "MB/s"@;
    load + oom_part("  OOM~"@, r.oom_eta_secs) + "  THERM "@ + heat_text(x.thermal_milli) + "  "@
        + charge_text(r.battery_info)
}

/// The memory of an application in the last frame.
pub open spec fn rss_before(prev: Seq<(String, u64)>, key: Seq<char>) -> Option<u64>
    decreases prev.len(),
{
    if prev.len() == 0 {
        None
    } else if prev[0].0@ == key {
        Some(prev[0].1)
    } else {
        rss_before(prev.drop_first(), key)
    }
}

pub open spec fn trend_mark(t: Theme, rss: u64, before: Option<u64>) -> Seq<char> {
    match before {
        Some(p) => if rss > p + 10_000 {
            painted(t, "31"@, "▲"@)
        } else if rss + 10_000 < p {
            painted(t, "32"@, "▼"@)
        } else {
            " "@
        },
        None => " "@,
    }
}

pub open spec fn is_frozen(frozen: Seq<RecordView>, key: Seq<char>) -> bool {
    exists|i: int| 0 <= i < frozen.len() && (#[trigger] frozen[i]).key == key
}

pub open spec fn state_word(a: App, frozen: Seq<RecordView>) -> Seq<char> {
    if is_frozen(frozen, a.key@) {
        "frozen"@
    } else if a.cpu_pct >= UNIT {
        ratio_text(a.cpu_pct as nat, UNIT as nat, 0) + "%"@
    } else {
        "idle"@
    }
}

pub open spec fn state_shown(t: Theme, a: App, frozen: Seq<RecordView>) -> Seq<char> {
    if is_frozen(frozen, a.key@) {
        painted(t, "35"@, "frozen"@)
    } else if a.cpu_pct >= UNIT {
        state_word(a, frozen)
    } else {
        painted(t, "2"@, "idle"@)
    }
}

pub open spec fn tag_for(intents: Seq<(String, Intent)>, key: Seq<char>) -> Seq<char> {
    match intent_for(intents, key) {
        Some(i) => category_tag(i.category),
        None => "?"@,
    }
}

pub open spec fn process_row(
    t: Theme,
    a: App,
    intents: Seq<(String, Intent)>,
    prev: Seq<(String, u64)>,
    frozen: Seq<RecordView>,
) -> Seq<char> {
    let tag = tag_for(intents, a.key@);
    let head = filled_up(a.display@, a.display@.len(), 16) + " "@ + filled_up(tag, tag.len(), 10)
        + " "@ + padded_left(
        filled_up(state_shown(t, a, frozen), state_word(a, frozen).len(), 6),
        6,
        ' ',
    ) + " "@;
    head + padded_left(kb_text(a.rss_kb as nat), 9, ' ') + " "@ + trend_mark(
        t,
        a.rss_kb,
        rss_before(prev, a.key@),
    )
}

/// Whether an application is worth a row.
pub open spec fn worth_a_row(a: App) -> bool {
    a.rss_kb > 8_000 || a.cpu_pct > 2 * UNIT
}

/// How many applications have a row: as many as there is room for, but at
/// least three and at most twelve.
pub open spec fn most_rows(rows: nat) -> nat {
    let room = short_of(rows, 16);
    if room < 3 {
        3
    } else if room > 12 {
        12
    } else {
        room
    }
}

/// The first applications that are worth a row, so many at most.
pub open spec fn shown_apps(apps: Seq<App>, most: nat) -> Seq<App>
    decreases apps.len(),
{
    if apps.len() == 0 {
        Seq::empty()
    } else {
        let before = shown_apps(apps.drop_last(), most);
        if before.len() < most && worth_a_row(apps.last()) {
            before.push(apps.last())
        } else {
            before
        }
    }
}

pub open spec fn process_lines(
    t: Theme,
    w: nat,
    apps: Seq<App>,
    intents: Seq<(String, Intent)>,
    prev: Seq<(String, u64)>,
    frozen: Seq<RecordView>,
) -> Seq<Seq<char>> {
    apps.map_values(|a: App| bordered(t, w, process_row(t, a, intents, prev, frozen), 46))
}

/// The lines of the inference text, with a cursor where it streams.
pub open spec fn spoken(v: InferView, width: nat) -> Seq<Seq<char>> {
    let list = filled(words_of(v.text), Seq::empty(), width);
    if !v.streaming {
        list
    } else if list.len() == 0 {
        seq!["▌"@]
    } else {
        list.update(list.len() - 1, list.last() + "▌"@)
    }
}

/// The five lines of the inference panel.
pub open spec fn panel(v: InferView, width: nat) -> Seq<Seq<char>> {
    let list = spoken(v, width);
    Seq::new(
        5,
        |i: int|
            if i < list.len() {
                list[i]
            } else {
                Seq::empty()
            },
    )
}

pub open spec fn panel_lines(s: Screen, w: nat, v: InferView) -> Seq<Seq<char>> {
    if s.key_present {
        panel(v, short_of(short_of(w, 4), 2)).map_values(
            |l: Seq<char>| dim_line(s.theme, w, l),
        )
    } else {
        seq![
            dim_line(s.theme, w, "GROQ_API_KEY not set — inference offline, metrics live"@),
            dim_line(s.theme, w, "set the env var or write ~/.config/pv/groq_api_key"@),
            bordered(s.theme, w, Seq::empty(), 0),
            bordered(s.theme, w, Seq::empty(), 0),
            bordered(s.theme, w, Seq::empty(), 0),
        ]
    }
}

pub open spec fn note_line(s: Screen, w: nat, v: InferView) -> Seq<char> {
    dim_line(
        s.theme,
        w,
        if s.key_present {
            "infer: "@ + v.note
        } else {
            Seq::empty()
        },
    )
}

pub open spec fn head_label(s: Screen) -> Seq<char> {
    "[ PV::LIVE ]═[ "@ + s.hms@ + " ]═[ "@ + decimal(s.interval as nat) + "s ]"@
}

pub open spec fn head_lines(s: Screen, w: nat, r: PressureReport, x: Extras) -> Seq<Seq<char>> {
    seq![
        rule_line(
            s.theme,
            w,
            "╔═"@,
            head_label(s),
            '═',
            "╗"@,
        ),
        bordered(s.theme, w, gauges(s.theme, r), plain_gauges(r).len()),
        dim_line(s.theme, w, vitals(r, x)),
        title_line(s.theme, w, "processes"@),
    ]
}

/// The lines of a frame.
pub open spec fn frame_lines(
    s: Screen,
    w: nat,
    apps: Seq<App>,
    intents: Seq<(String, Intent)>,
    r: PressureReport,
    x: Extras,
    prev: Seq<(String, u64)>,
    frozen: Seq<RecordView>,
    v: InferView,
) -> Seq<Seq<char>> {
    (head_lines(s, w, r, x) + process_lines(
        s.theme,
        w,
        shown_apps(apps, most_rows(s.rows as nat)),
        intents,
        prev,
        frozen,
    ).push(title_line(s.theme, w, "groq :: "@ + s.model@)) + panel_lines(s, w, v)).push(
        note_line(s, w, v),
    ).push(rule_line(s.theme, w, "╚═"@, "[ q quit ]"@, '═', "╝"@))
}

fn lacking(a: usize, b: usize) -> (r: usize)
    ensures
        r == short_of(a as nat, b as nat),
{
    if a > b {
        a - b
    } else {
        0
    }
}

fn fill_up(s: &str, visible: usize, w: usize) -> (r: String)
    ensures
        r@ == filled_up(s@, visible as nat, w as nat),
{
    cat2(s, repeat(' ', lacking(w, visible)).as_str())
}

fn rule(t: &Theme, w: usize, left: &str, label: &str, dash: char, right: &str) -> (r: String)
    requires
        w >= 2,
    ensures
        r@ == rule_line(*t, w as nat, left@, label@, dash, right@),
{
    // lacking(w - 2, n + 1) without the sum, which need not fit
    let n: usize = label.unicode_len();
    let dashes: usize = if w - 2 > n {
        w - 2 - n - 1
    } else {
        0
    };
    cat3(
        t.cyan(left).as_str(),
        t.cyan(label).as_str(),
        t.cyan(cat2(repeat(dash, dashes).as_str(), right).as_str()).as_str(),
    )
}

fn border(t: &Theme, w: usize, content: &str, visible: usize) -> (r: String)
    ensures
        r@ == bordered(*t, w as nat, content@, visible as nat),
{
    cat5(
        t.cyan("║").as_str(),
        " ",
        fill_up(content, visible, lacking(w, 4)).as_str(),
        " ",
        t.cyan("║").as_str(),
    )
}

fn dimmed(t: &Theme, w: usize, s: &str) -> (r: String)
    ensures
        r@ == dim_line(*t, w as nat, s@),
{
    border(t, w, t.dim(s).as_str(), s.unicode_len())
}

fn title(t: &Theme, w: usize, s: &str) -> (r: String)
    requires
        w >= 2,
    ensures
        r@ == title_line(*t, w as nat, s@),
{
    rule(t, w, "╟─", cat3("[ ", s, " ]").as_str(), '─', "╢")
}

fn show_gauge(name: &str, bar: &str, score: u8) -> (r: String)
    ensures
        r@ == gauge(name@, bar@, score),
{
    cat5(name, bar, " ", pad_left(dec64(score as u64).as_str(), 2, ' ').as_str(), "%")
}

fn show_bar(t: &Theme, score: u8) -> (r: String)
    ensures
        r@ == colored_bar(*t, score),
{
    t.scored(score, bar(score, 8).as_str())
}

fn show_gauges(t: &Theme, r: &PressureReport) -> (s: String)
    ensures
        s@ == gauges(*t, *r),
{
    cat3(
        show_gauge("CPU ", show_bar(t, r.cpu.score).as_str(), r.cpu.score).as_str(),
        show_gauge(
            "  RAM ",
            show_bar(t, r.memory.score).as_str(),
            r.memory.score,
        ).as_str(),
        show_gauge("  IO ", show_bar(t, r.io.score).as_str(), r.io.score).as_str(),
    )
}

fn show_plain_gauges(r: &PressureReport) -> (s: String)
    ensures
        s@ == plain_gauges(*r),
{
    cat3(
        show_gauge("CPU ", bar(r.cpu.score, 8).as_str(), r.cpu.score).as_str(),
        show_gauge("  RAM ", bar(r.memory.score, 8).as_str(), r.memory.score).as_str(),
        show_gauge("  IO ", bar(r.io.score, 8).as_str(), r.io.score).as_str(),
    )
}

fn show_charge(b: &Option<Battery>) -> (r: String)
    ensures
        r@ == charge_text(*b),
{
    match b {
        Some(b) => cat4(
            "BAT ",
            dec64(b.capacity as u64).as_str(),
            "%",
            if b.discharging {
                "▼"
            } else {
                "▲"
            },
        ),
        None => owned("BAT --"),
    }
}

fn show_vitals(r: &PressureReport, x: &Extras) -> (s: String)
    requires
        has_trend(*r),
    ensures
        s@ == vitals(*r, *x),
{
    let load: String = cat7(
        "LOAD ",
        ratio(x.load_milli as u128, 1000, 2).as_str(),
        "/",
        dec64(x.ncpu as u64).as_str(),
        "  MEM ",
        fmt_rate(r.mem_drop_kb, r.mem_window_ms).as_str(),
        "MB/s",
    );
    let heat: String = match x.thermal_milli {
        Some(m) => cat2(ratio(m as u128, 1000, 0).as_str(), "°C"),
        None => owned("--"),
    };
    cat6(
        load.as_str(),
        oom_note("  OOM~", r.oom_eta_secs).as_str(),
        "  THERM ",
        heat.as_str(),
        "  ",
        show_charge(&r.battery_info).as_str(),
    )
}

fn previous(prev: &Vec<(String, u64)>, key: &str) -> (r: Option<u64>)
    ensures
        r == rss_before(prev@, key@),
{
    let mut i: usize = 0;
    assert(prev@.skip(0) =~= prev@);
    while i < prev.len()
        invariant
            i <= prev.len(),
            rss_before(prev@, key@) == rss_before(prev@.skip(i as int), key@),
        decreases prev.len() - i,
    {
        if same(prev[i].0.as_str(), key) {
            return Some(prev[i].1);
        }
        assert(prev@.skip(i as int).drop_first() =~= prev@.skip(i as int + 1));
        i = i + 1;
    }
    None
}

fn show_trend(t: &Theme, rss: u64, before: Option<u64>) -> (r: String)
    ensures
        r@ == trend_mark(*t, rss, before),
{
    match before {
        Some(p) => if rss as u128 > p as u128 + 10_000 {
            t.red("▲")
        } else if (rss as u128 + 10_000) < p as u128 {
            t.green("▼")
        } else {
            owned(" ")
        },
        None => owned(" "),
    }
}

/// Whether an application with a key is suspended.
pub fn frozen_among(list: &Vec<SuspendedApp>, key: &str) -> (r: bool)
    ensures
        r == is_frozen(records(list@), key@),
{
    let ghost all = records(list@);
    let mut i: usize = 0;
    while i < list.len()
        invariant
            i <= list.len(),
            all == records(list@),
            forall|j: int| 0 <= j < i ==> (#[trigger] all[j]).key != key@,
        decreases list.len() - i,
    {
        assert(all[i as int] == list@[i as int]@);
        if same(list[i].key.as_str(), key) {
            assert(all[i as int].key == key@);
            return true;
        }
        i = i + 1;
    }
    assert(all.len() == list@.len());
    false
}

fn show_row(
    t: &Theme,
    a: &App,
    intents: &Vec<(String, Intent)>,
    prev: &Vec<(String, u64)>,
    frozen: &Vec<SuspendedApp>,
) -> (r: String)
    ensures
        r@ == process_row(*t, *a, intents@, prev@, records(frozen@)),
{
    let tag: &str = match find_intent(intents, a.key.as_str()) {
        Some(i) => i.category.tag(),
        None => "?",
    };
    let (word, shown): (String, String) = if frozen_among(frozen, a.key.as_str()) {
        (owned("frozen"), t.magenta("frozen"))
    } else if a.cpu_pct >= UNIT {
        let w: String = cat2(ratio(a.cpu_pct as u128, UNIT as u128, 0).as_str(), "%");
        (w.clone(), w)
    } else {
        (owned("idle"), t.dim("idle"))
    };
    let state: String = fill_up(shown.as_str(), word.as_str().unicode_len(), 6);
    let head: String = cat6(
        fill_up(a.display.as_str(), a.display.as_str().unicode_len(), 16).as_str(),
        " ",
        fill_up(tag, tag.unicode_len(), 10).as_str(),
        " ",
        pad_left(state.as_str(), 6, ' ').as_str(),
        " ",
    );
    cat4(
        head.as_str(),
        pad_left(fmt_kb(a.rss_kb).as_str(), 9, ' ').as_str(),
        " ",
        show_trend(t, a.rss_kb, previous(prev, a.key.as_str())).as_str(),
    )
}

fn process_part(
    t: &Theme,
    w: usize,
    rows: usize,
    apps: &Vec<App>,
    intents: &Vec<(String, Intent)>,
    prev: &Vec<(String, u64)>,
    frozen: &Vec<SuspendedApp>,
) -> (r: Vec<String>)
    ensures
        texts(r@) == process_lines(
            *t,
            w as nat,
            shown_apps(apps@, most_rows(rows as nat)),
            intents@,
            prev@,
            records(frozen@),
        ),
{
    let room: usize = lacking(rows, 16);
    let most: usize = if room < 3 {
        3
    } else if room > 12 {
        12
    } else {
        room
    };
    let ghost views = records(frozen@);
    let mut out: Vec<String> = Vec::new();
    let mut i: usize = 0;
    assert(texts(out@) =~= process_lines(
        *t,
        w as nat,
        shown_apps(apps@.take(0), most as nat),
        intents@,
        prev@,
        views,
    ));
    while i < apps.len()
        invariant
            i <= apps.len(),
            views == records(frozen@),
            texts(out@) == process_lines(
                *t,
                w as nat,
                shown_apps(apps@.take(i as int), most as nat),
                intents@,
                prev@,
                views,
            ),
        decreases apps.len() - i,
    {
        let ghost before = texts(out@);
        let ghost shown = shown_apps(apps@.take(i as int), most as nat);
        proof {
            assert(apps@.take(i as int + 1).drop_last() =~= apps@.take(i as int));
            assert(apps@.take(i as int + 1).last() == apps@[i as int]);
            assert(texts(out@).len() == out@.len());
            assert(out@.len() == shown.len());
        }
        if out.len() < most && (apps[i].rss_kb > 8_000 || apps[i].cpu_pct > 2 * UNIT) {
            let row: String = show_row(t, &apps[i], intents, prev, frozen);
            push_text(&mut out, border(t, w, row.as_str(), 46));
            assert(texts(out@) =~= process_lines(
                *t,
                w as nat,
                shown.push(apps@[i as int]),
                intents@,
                prev@,
                views,
            ));
        }
        i = i + 1;
    }
    assert(apps@.take(i as int) =~= apps@);
    out
}

fn show_panel(v: &Infer, width: usize) -> (r: Vec<String>)
    ensures
        texts(r@) == panel(v@, width as nat),
        r@.len() == 5,
{
    let list: Vec<String> = wrap(v.text.as_str(), width);
    let ghost said = texts(list@);
    let ghost want = spoken(v@, width as nat);
    let mut out: Vec<String> = Vec::new();
    assert(said.len() == list@.len());
    let n: usize = list.len();
    let mut i: usize = 0;
    while i < 5
        invariant
            i <= 5,
            n == list@.len(),
            said == texts(list@),
            said == filled(words_of(v@.text), Seq::empty(), width as nat),
            want == spoken(v@, width as nat),
            out@.len() == i,
            texts(out@) == panel(v@, width as nat).take(i as int),
        decreases 5 - i,
    {
        let ghost before = texts(out@);
        if i < n {
            assert(said[i as int] == list@[i as int]@);
        }
        let line: String = if v.streaming && i < n && i == n - 1 {
            cat2(list[i].as_str(), "▌")
        } else if i < n {
            list[i].clone()
        } else if v.streaming && n == 0 && i == 0 {
            owned("▌")
        } else {
            nothing()
        };
        assert(line@ == panel(v@, width as nat)[i as int]);
        push_text(&mut out, line);
        proof {
            let all = panel(v@, width as nat);
            assert(all.take(i as int + 1) =~= all.take(i as int).push(all[i as int]));
        }
        i = i + 1;
    }
    assert(panel(v@, width as nat).take(5) =~= panel(v@, width as nat));
    out
}

fn panel_part(s: &Screen, w: usize, v: &Infer) -> (r: Vec<String>)
    ensures
        texts(r@) == panel_lines(*s, w as nat, v@),
{
    let t: &Theme = &s.theme;
    let mut out: Vec<String> = Vec::new();
    if !s.key_present {
        push_text(
            &mut out,
            dimmed(t, w, "GROQ_API_KEY not set — inference offline, metrics live"),
        );
        push_text(
            &mut out,
            dimmed(t, w, "set the env var or write ~/.config/pv/groq_api_key"),
        );
        push_text(&mut out, border(t, w, nothing().as_str(), 0));
        push_text(&mut out, border(t, w, nothing().as_str(), 0));
        push_text(&mut out, border(t, w, nothing().as_str(), 0));
        assert(texts(out@) =~= panel_lines(*s, w as nat, v@));
        return out;
    }
    let width: usize = lacking(lacking(w, 4), 2);
    let list: Vec<String> = show_panel(v, width);
    let ghost said = panel(v@, width as nat);
    let ghost want = panel_lines(*s, w as nat, v@);
    let mut i: usize = 0;
    assert(texts(out@) =~= want.take(0));
    while i < 5
        invariant
            i <= 5,
            list@.len() == 5,
            said == texts(list@),
            said.len() == 5,
            *t == s.theme,
            want == said.map_values(|l: Seq<char>| dim_line(s.theme, w as nat, l)),
            texts(out@) == want.take(i as int),
        decreases 5 - i,
    {
        push_text(&mut out, dimmed(t, w, list[i].as_str()));
        proof {
            assert(said[i as int] == list@[i as int]@);
            assert(want.take(i as int + 1) =~= want.take(i as int).push(want[i as int]));
        }
        i = i + 1;
    }
    assert(want.take(5) =~= want);
    out
}

fn head_part(s: &Screen, w: usize, r: &PressureReport, x: &Extras) -> (out: Vec<String>)
    requires
        w >= 2,
        has_trend(*r),
    ensures
        texts(out@) == head_lines(*s, w as nat, *r, *x),
{
    let t: &Theme = &s.theme;
    let mut out: Vec<String> = Vec::new();
    let label: String = cat5(
        "[ PV::LIVE ]═[ ",
        s.hms.as_str(),
        " ]═[ ",
        dec64(s.interval).as_str(),
        "s ]",
    );
    push_text(&mut out, rule(t, w, "╔═", label.as_str(), '═', "╗"));
    push_text(
        &mut out,
        border(
            t,
            w,
            show_gauges(t, r).as_str(),
            show_plain_gauges(r).as_str().unicode_len(),
        ),
    );
    push_text(&mut out, dimmed(t, w, show_vitals(r, x).as_str()));
    push_text(&mut out, title(t, w, "processes"));
    assert(texts(out@) =~= head_lines(*s, w as nat, *r, *x));
    out
}

/// How wide a frame is drawn: as wide as the terminal, up to 110 columns.
pub open spec fn frame_width(cols: usize) -> nat {
    if cols > 110 {
        110
    } else {
        cols as nat
    }
}

/// Draw a frame.
pub fn render(
    s: &Screen,
    apps: &Vec<App>,
    intents: &Vec<(String, Intent)>,
    r: &PressureReport,
    x: &Extras,
    prev: &Vec<(String, u64)>,
    frozen: &Vec<SuspendedApp>,
    infer: &Infer,
) -> (out: String)
    requires
        s.cols >= 2,
        has_trend(*r),
    ensures
        out@ == joined(
            frame_lines(
                *s,
                frame_width(s.cols),
                apps@,
                intents@,
                *r,
                *x,
                prev@,
                records(frozen@),
                infer@,
            ),
            "\n"@,
        ),
{
    let w: usize = if s.cols > 110 {
        110
    } else {
        s.cols
    };
    let t: &Theme = &s.theme;
    let mut lines: Vec<String> = head_part(s, w, r, x);
    let mut rows: Vec<String> = process_part(t, w, s.rows, apps, intents, prev, frozen);
    push_text(&mut rows, title(t, w, cat2("groq :: ", s.model.as_str()).as_str()));
    push_all(&mut lines, &rows);
    push_all(&mut lines, &panel_part(s, w, infer));
    let note: String = if s.key_present {
        cat2("infer: ", infer.note.as_str())
    } else {
        nothing()
    };
    push_text(&mut lines, dimmed(t, w, note.as_str()));
    push_text(&mut lines, rule(t, w, "╚═", "[ q quit ]", '═', "╝"));
    join(&lines, "\n")
}

// ------------------------------------------------------------ the loop

/// Whether a terminal is too small for the live view.
pub fn too_small(cols: usize, rows: usize) -> (r: bool)
    ensures
        r == (cols < 50 || rows < 14),
{
    cols < 50 || rows < 14
}

/// Whether a key ends the live view: `q`, escape, or control and C.
pub fn quits(key: u8) -> (r: bool)
    ensures
        r == (key == 0x71 || key == 0x1b || key == 0x03),
{
    key == 0x71 || key == 0x1b || key == 0x03
}

/// How long to wait before the next frame, in nanoseconds: what is left of the
/// interval up to half a second, and a moment where nothing is.
pub open spec fn pause_of(interval: u64, elapsed_ns: u64) -> int {
    let left = secs_ns(interval as int) - elapsed_ns;
    if left <= 0 {
        10_000_000
    } else if left > 500_000_000 {
        500_000_000
    } else {
        left
    }
}

pub fn pause(interval: u64, elapsed_ns: u64) -> (r: u64)
    ensures
        r == pause_of(interval, elapsed_ns),
{
    let left: i128 = interval as i128 * 1_000_000_000 - elapsed_ns as i128;
    if left <= 0 {
        10_000_000
    } else if left > 500_000_000 {
        500_000_000
    } else {
        left as u64
    }
}

/// The first position of an entry with a key, or the length.
pub open spec fn entry_index(list: Seq<(Seq<char>, u64)>, key: Seq<char>) -> int
    decreases list.len(),
{
    if list.len() == 0 || list[0].0 == key {
        0
    } else {
        1 + entry_index(list.drop_first(), key)
    }
}

/// The memory of each application by the last frame, with those of this one.
pub open spec fn remembered(list: Seq<(Seq<char>, u64)>, apps: Seq<App>) -> Seq<(Seq<char>, u64)>
    decreases apps.len(),
{
    if apps.len() == 0 {
        list
    } else {
        let before = remembered(list, apps.drop_last());
        let a = apps.last();
        let k = entry_index(before, a.key@);
        if k < before.len() {
            before.update(k, (a.key@, a.rss_kb))
        } else {
            before.push((a.key@, a.rss_kb))
        }
    }
}

pub open spec fn entry_views(v: Seq<(String, u64)>) -> Seq<(Seq<char>, u64)> {
    v.map_values(|e: (String, u64)| (e.0@, e.1))
}

fn find_entry(list: &Vec<(String, u64)>, key: &str) -> (r: usize)
    ensures
        r == entry_index(entry_views(list@), key@),
        r <= list@.len(),
{
    let ghost all = entry_views(list@);
    let mut i: usize = 0;
    assert(all.skip(0) =~= all);
    while i < list.len()
        invariant
            i <= list.len(),
            all == entry_views(list@),
            entry_index(all, key@) == i + entry_index(all.skip(i as int), key@),
        decreases list.len() - i,
    {
        assert(all.skip(i as int)[0] == (list@[i as int].0@, list@[i as int].1));
        if same(list[i].0.as_str(), key) {
            return i;
        }
        assert(all.skip(i as int).drop_first() =~= all.skip(i as int + 1));
        i = i + 1;
    }
    i
}

/// Remember the memory of each application for the next frame.
pub fn remember(prev: &mut Vec<(String, u64)>, apps: &Vec<App>)
    ensures
        entry_views(final(prev)@) == remembered(entry_views(old(prev)@), apps@),
{
    let ghost start = entry_views(prev@);
    let mut i: usize = 0;
    while i < apps.len()
        invariant
            i <= apps.len(),
            entry_views(prev@) == remembered(start, apps@.take(i as int)),
        decreases apps.len() - i,
    {
        let ghost before = entry_views(prev@);
        proof {
            assert(apps@.take(i as int + 1).drop_last() =~= apps@.take(i as int));
            assert(apps@.take(i as int + 1).last() == apps@[i as int]);
        }
        let k: usize = find_entry(prev, apps[i].key.as_str());
        let e: (String, u64) = (apps[i].key.clone(), apps[i].rss_kb);
        if k < prev.len() {
            prev.set(k, e);
            assert(entry_views(prev@) =~= before.update(k as int, (e.0@, e.1)));
        } else {
            prev.push(e);
            assert(entry_views(prev@) =~= before.push((e.0@, e.1)));
        }
        i = i + 1;
    }
    assert(apps@.take(i as int) =~= apps@);
}

/// What the view carries from one frame to the next.
pub struct Live {
    pub infer: Infer,
    /// The memory of each application by the last frame.
    pub prev: Vec<(String, u64)>,
}

/// Whether a tick asks for an inference: one can be had, and is due once the
/// events that came in are heard.
pub open spec fn asks(
    v: InferView,
    list: Seq<EventView>,
    hms: Seq<char>,
    able: bool,
    sig: u64,
    now: int,
) -> bool {
    able && due(drained(v, list, hms, now), sig, now)
}

/// What a tick makes of the panel.
pub open spec fn ticked(
    v: InferView,
    list: Seq<EventView>,
    hms: Seq<char>,
    able: bool,
    sig: u64,
    now: int,
) -> InferView {
    let heard = drained(v, list, hms, now);
    if asks(v, list, hms, able, sig, now) {
        begun(heard, sig, hms, now)
    } else {
        heard
    }
}

impl Live {
    /// The view before its first frame.
    pub fn new(key_present: bool, now_ns: u64) -> (r: Live)
        ensures
            r.infer.wf(),
            r.infer@ == (if key_present {
                fresh(now_ns as int)
            } else {
                InferView { note: "offline"@, ..fresh(now_ns as int) }
            }),
            r.prev@.len() == 0,
    {
        let mut infer: Infer = Infer::new(now_ns);
        if !key_present {
            infer.fail_offline("offline");
        }
        Live { infer, prev: Vec::new() }
    }

    /// One round of the loop: hear the events that came in, ask for an
    /// inference if one is due, draw the frame, and remember the memory of each
    /// application. The result is the snapshot to ask about, if any, and the
    /// frame.
    pub fn tick(
        &mut self,
        s: &Screen,
        apps: &Vec<App>,
        intents: &Vec<(String, Intent)>,
        r: &PressureReport,
        x: &Extras,
        frozen: &Vec<SuspendedApp>,
        events: &Vec<GroqEvent>,
        able: bool,
        now_ns: u64,
    ) -> (out: (Option<String>, String))
        requires
            old(self).infer.wf(),
            old(self).infer.tokens + events@.len() <= u32::MAX,
            s.cols >= 2,
            has_trend(*r),
            able ==> can_show(*r),
        ensures
            final(self).infer.wf(),
            final(self).infer@ == ticked(
                old(self).infer@,
                event_views(events@),
                s.hms@,
                able,
                sig_of(apps@, *r) as u64,
                now_ns as int,
            ),
            opt_text(out.0) == (if asks(
                old(self).infer@,
                event_views(events@),
                s.hms@,
                able,
                sig_of(apps@, *r) as u64,
                now_ns as int,
            ) {
                Some(prompt_text(apps@, intents@, *r, *x, records(frozen@)))
            } else {
                None
            }),
            out.1@ == joined(
                frame_lines(
                    *s,
                    frame_width(s.cols),
                    apps@,
                    intents@,
                    *r,
                    *x,
                    old(self).prev@,
                    records(frozen@),
                    final(self).infer@,
                ),
                "\n"@,
            ),
            entry_views(final(self).prev@) == remembered(entry_views(old(self).prev@), apps@),
    {
        self.infer.drain(events, s.hms.as_str(), now_ns);
        let mut prompt: Option<String> = None;
        if able {
            let sig: u64 = state_sig(apps, r);
            if self.infer.maybe_fire(sig, s.hms.as_str(), now_ns) {
                prompt = Some(infer_prompt(apps, intents, r, x, frozen));
            }
        }
        let frame: String = render(s, apps, intents, r, x, &self.prev, frozen, &self.infer);
        remember(&mut self.prev, apps);
        (prompt, frame)
    }
}

// ------------------------------------------------------------ laws

/// One answer streams at a time: a tick never asks while an answer is still
/// coming in.
pub proof fn one_answer_streams_at_a_time(
    v: InferView,
    list: Seq<EventView>,
    hms: Seq<char>,
    able: bool,
    sig: u64,
    now: int,
)
    requires
        v.streaming,
        !closes(list),
    ensures
        !asks(v, list, hms, able, sig, now),
        ticked(v, list, hms, able, sig, now).streaming,
{
    lemma_events_keep_streaming(v, list, hms, now);
}

proof fn lemma_events_keep_streaming(
    v: InferView,
    list: Seq<EventView>,
    hms: Seq<char>,
    now: int,
)
    ensures
        heard_events(v, list, hms, now).streaming == v.streaming,
    decreases list.len(),
{
    if list.len() > 0 {
        lemma_events_keep_streaming(v, list.drop_last(), hms, now);
    }
}

/// Inference is rationed: a new one never begins while one streams, within a
/// minute of an error, or within 20 seconds of the last, and where the state
/// is as it was it waits two minutes.
pub proof fn inference_is_rationed(v: InferView, sig: u64, now: int)
    requires
        due(v, sig, now),
    ensures
        !v.streaming,
        now >= v.backoff_until,
        now - v.last_run > secs_ns(20),
        sig == v.last_sig ==> now - v.last_run > secs_ns(120),
{
}

/// After an error nothing is asked for a minute, whatever changes.
pub proof fn errors_hold_inference_back(
    v: InferView,
    list: Seq<EventView>,
    hms: Seq<char>,
    at: int,
    sig: u64,
    now: int,
)
    requires
        list.len() > 0,
        list.last() is Error,
        now < at + secs_ns(60),
    ensures
        !due(drained(v, list, hms, at), sig, now),
{
}

proof fn lemma_shown(apps: Seq<App>, most: nat)
    ensures
        shown_apps(apps, most).len() <= most,
        forall|i: int|
            0 <= i < shown_apps(apps, most).len() ==> worth_a_row(
                #[trigger] shown_apps(apps, most)[i],
            ),
    decreases apps.len(),
{
    if apps.len() > 0 {
        lemma_shown(apps.drop_last(), most);
    }
}

/// From 15 rows on a frame never has more lines than the terminal, and it
/// always has its panel whole.
pub proof fn frames_fit_the_terminal(
    s: Screen,
    w: nat,
    apps: Seq<App>,
    intents: Seq<(String, Intent)>,
    r: PressureReport,
    x: Extras,
    prev: Seq<(String, u64)>,
    frozen: Seq<RecordView>,
    v: InferView,
)
    ensures
        frame_lines(s, w, apps, intents, r, x, prev, frozen, v).len() == 12 + shown_apps(
            apps,
            most_rows(s.rows as nat),
        ).len(),
        s.rows >= 15 ==> frame_lines(s, w, apps, intents, r, x, prev, frozen, v).len() <= s.rows,
{
    lemma_shown(apps, most_rows(s.rows as nat));
}

/// A text holds no more characters than bytes.
proof fn lemma_chars_within_bytes(s: Seq<char>)
    ensures
        s.len() <= bytes_in(s),
    decreases s.len(),
{
    if s.len() > 0 {
        lemma_chars_within_bytes(s.drop_first());
    }
}

proof fn lemma_filled_within(list: Seq<Seq<char>>, line: Seq<char>, width: nat, most: nat)
    requires
        width <= most,
        line.len() <= most,
        forall|i: int| 0 <= i < list.len() ==> (#[trigger] list[i]).len() <= most,
    ensures
        forall|i: int|
            0 <= i < filled(list, line, width).len() ==> (#[trigger] filled(
                list,
                line,
                width,
            )[i]).len() <= most,
    decreases list.len(),
{
    if list.len() > 0 {
        let rest = list.drop_first();
        assert forall|i: int| 0 <= i < rest.len() implies (#[trigger] rest[i]).len() <= most by {
            assert(rest[i] == list[i + 1]);
        }
        if line.len() == 0 {
            lemma_filled_within(rest, list[0], width, most);
        } else if bytes_in(line) + 1 + bytes_in(list[0]) > width {
            lemma_filled_within(rest, list[0], width, most);
            let tail = filled(rest, list[0], width);
            let all = filled(list, line, width);
            assert(all == seq![line] + tail);
            assert forall|i: int| 0 <= i < all.len() implies (#[trigger] all[i]).len() <= most by {
                if i > 0 {
                    assert(all[i] == tail[i - 1]);
                }
            }
        } else {
            lemma_chars_within_bytes(line);
            lemma_chars_within_bytes(list[0]);
            reveal_strlit(" ");
            let longer = line + " "@ + list[0];
            assert(longer.len() <= bytes_in(line) + 1 + bytes_in(list[0]));
            lemma_filled_within(rest, longer, width, most);
            assert(filled(list, line, width) == filled(rest, longer, width));
        }
    }
}

/// Whether what a row says of an application fits its columns.
pub open spec fn row_fits(a: App, frozen: Seq<RecordView>) -> bool {
    a.display@.len() <= 16 && state_word(a, frozen).len() <= 6 && kb_text(a.rss_kb as nat).len() <= 9
}

/// Whether what a frame says fits between its borders: the label and the
/// model in the rules, the vitals, the rows, the words of the answer, with
/// room for the cursor while it streams, and the note.
pub open spec fn frame_fits(
    s: Screen,
    w: nat,
    apps: Seq<App>,
    r: PressureReport,
    x: Extras,
    frozen: Seq<RecordView>,
    v: InferView,
) -> bool {
    let shown = shown_apps(apps, most_rows(s.rows as nat));
    let cursor: nat = if v.streaming {
        1
    } else {
        0
    };
    &&& w >= 58
    &&& head_label(s).len() + 3 <= w
    &&& s.model@.len() + 15 <= w
    &&& vitals(r, x).len() + 4 <= w
    &&& forall|i: int| 0 <= i < shown.len() ==> row_fits(#[trigger] shown[i], frozen)
    &&& s.key_present ==> v.note.len() + 11 <= w && forall|i: int|
        0 <= i < words_of(v.text).len() ==> (#[trigger] words_of(v.text)[i]).len() + cursor + 4 <= w
}

proof fn lemma_rule_width(
    t: Theme,
    w: nat,
    left: Seq<char>,
    label: Seq<char>,
    dash: char,
    right: Seq<char>,
)
    requires
        !t.enabled,
        left.len() == 2,
        right.len() == 1,
        label.len() + 3 <= w,
    ensures
        rule_line(t, w, left, label, dash, right).len() == w,
{
}

proof fn lemma_bordered_width(t: Theme, w: nat, content: Seq<char>, visible: nat)
    requires
        !t.enabled,
        content.len() == visible,
        visible + 4 <= w,
    ensures
        bordered(t, w, content, visible).len() == w,
{
    reveal_strlit("║");
    reveal_strlit(" ");
}

proof fn lemma_gauge_width(name: Seq<char>, score: u8)
    ensures
        gauge(name, bar_text(score, 8), score).len() <= name.len() + 13,
{
    reveal_strlit(" ");
    reveal_strlit("%");
    reveal_with_fuel(decimal, 3);
    crate::display::bars_keep_their_width(score, score, 8, 0);
}

proof fn lemma_row_width(
    t: Theme,
    a: App,
    intents: Seq<(String, Intent)>,
    prev: Seq<(String, u64)>,
    frozen: Seq<RecordView>,
)
    requires
        !t.enabled,
        row_fits(a, frozen),
    ensures
        process_row(t, a, intents, prev, frozen).len() == 46,
{
    reveal_strlit(" ");
    reveal_strlit("?");
    reveal_strlit("▲");
    reveal_strlit("▼");
    assert(tag_for(intents, a.key@).len() <= 10) by {
        reveal_strlit("build");
        reveal_strlit("browser");
        reveal_strlit("editor");
        reveal_strlit("encode");
        reveal_strlit("llm");
        reveal_strlit("shell");
        reveal_strlit("container");
        reveal_strlit("backup");
        reveal_strlit("download");
        reveal_strlit("database");
        reveal_strlit("system");
        reveal_strlit("desktop");
        reveal_strlit("app");
        reveal_strlit("unknown");
    }
    assert(state_shown(t, a, frozen) == state_word(a, frozen));
}

proof fn lemma_panel_width(s: Screen, w: nat, v: InferView, i: int)
    requires
        !s.theme.enabled,
        w >= 58,
        s.key_present ==> forall|k: int|
            0 <= k < words_of(v.text).len() ==> (#[trigger] words_of(v.text)[k]).len() + (
            if v.streaming {
                1nat
            } else {
                0nat
            }) + 4 <= w,
        0 <= i < 5,
    ensures
        panel_lines(s, w, v).len() == 5,
        panel_lines(s, w, v)[i].len() == w,
{
    if s.key_present {
        let width = short_of(short_of(w, 4), 2);
        let most = (w - 4 - (if v.streaming {
            1int
        } else {
            0
        })) as nat;
        lemma_filled_within(words_of(v.text), Seq::empty(), width, most);
        reveal_strlit("▌");
        let list = spoken(v, width);
        let said = panel(v, width);
        assert(said[i].len() + 4 <= w);
        lemma_bordered_width(s.theme, w, said[i], said[i].len());
    } else {
        let first = "GROQ_API_KEY not set — inference offline, metrics live"@;
        let second = "set the env var or write ~/.config/pv/groq_api_key"@;
        reveal_strlit("GROQ_API_KEY not set — inference offline, metrics live");
        reveal_strlit("set the env var or write ~/.config/pv/groq_api_key");
        lemma_bordered_width(s.theme, w, first, first.len());
        lemma_bordered_width(s.theme, w, second, second.len());
        lemma_bordered_width(s.theme, w, Seq::empty(), 0);
    }
}

proof fn lemma_head_width(s: Screen, w: nat, r: PressureReport, x: Extras, i: int)
    requires
        !s.theme.enabled,
        w >= 58,
        head_label(s).len() + 3 <= w,
        vitals(r, x).len() + 4 <= w,
        0 <= i < 4,
    ensures
        head_lines(s, w, r, x)[i].len() == w,
{
    reveal_strlit("╔═");
    reveal_strlit("╗");
    reveal_strlit("╟─");
    reveal_strlit("╢");
    reveal_strlit("[ ");
    reveal_strlit(" ]");
    reveal_strlit("processes");
    reveal_strlit("CPU ");
    reveal_strlit("  RAM ");
    reveal_strlit("  IO ");
    let t = s.theme;
    lemma_rule_width(t, w, "╔═"@, head_label(s), '═', "╗"@);
    lemma_gauge_width("CPU "@, r.cpu.score);
    lemma_gauge_width("  RAM "@, r.memory.score);
    lemma_gauge_width("  IO "@, r.io.score);
    assert(gauges(t, r) == plain_gauges(r));
    lemma_bordered_width(t, w, gauges(t, r), plain_gauges(r).len());
    lemma_bordered_width(t, w, vitals(r, x), vitals(r, x).len());
    lemma_rule_width(t, w, "╟─"@, "[ "@ + "processes"@ + " ]"@, '─', "╢"@);
}

/// Frames are rectangular: without colours every line is exactly as wide as
/// the frame, where what it says fits.
pub proof fn frames_are_rectangular(
    s: Screen,
    w: nat,
    apps: Seq<App>,
    intents: Seq<(String, Intent)>,
    r: PressureReport,
    x: Extras,
    prev: Seq<(String, u64)>,
    frozen: Seq<RecordView>,
    v: InferView,
    i: int,
)
    requires
        !s.theme.enabled,
        frame_fits(s, w, apps, r, x, frozen, v),
        0 <= i < frame_lines(s, w, apps, intents, r, x, prev, frozen, v).len(),
    ensures
        frame_lines(s, w, apps, intents, r, x, prev, frozen, v)[i].len() == w,
{
    let t = s.theme;
    let shown = shown_apps(apps, most_rows(s.rows as nat));
    let n = shown.len() as int;
    let rows = process_lines(t, w, shown, intents, prev, frozen);
    let all = frame_lines(s, w, apps, intents, r, x, prev, frozen, v);
    lemma_panel_width(s, w, v, 0);
    if i < 4 {
        lemma_head_width(s, w, r, x, i);
        assert(all[i] == head_lines(s, w, r, x)[i]);
    } else if i < 4 + n {
        let a = shown[i - 4];
        assert(row_fits(a, frozen));
        lemma_row_width(t, a, intents, prev, frozen);
        lemma_bordered_width(t, w, process_row(t, a, intents, prev, frozen), 46);
        assert(all[i] == rows[i - 4]);
    } else if i == 4 + n {
        reveal_strlit("╟─");
        reveal_strlit("╢");
        reveal_strlit("[ ");
        reveal_strlit(" ]");
        reveal_strlit("groq :: ");
        lemma_rule_width(t, w, "╟─"@, "[ "@ + ("groq :: "@ + s.model@) + " ]"@, '─', "╢"@);
        assert(all[i] == title_line(t, w, "groq :: "@ + s.model@));
    } else if i < 10 + n {
        lemma_panel_width(s, w, v, i - 5 - n);
        assert(all[i] == panel_lines(s, w, v)[i - 5 - n]);
    } else if i == 10 + n {
        reveal_strlit("infer: ");
        let note = if s.key_present {
            "infer: "@ + v.note
        } else {
            Seq::empty()
        };
        lemma_bordered_width(t, w, note, note.len());
        assert(all[i] == note_line(s, w, v));
    } else {
        reveal_strlit("╚═");
        reveal_strlit("╝");
        reveal_strlit("[ q quit ]");
        lemma_rule_width(t, w, "╚═"@, "[ q quit ]"@, '═', "╝"@);
    }
}

proof fn lemma_filled_keeps(list: Seq<Seq<char>>, line: Seq<char>, width: nat)
    requires
        forall|i: int| 0 <= i < list.len() ==> (#[trigger] list[i]).len() > 0,
    ensures
        line.len() > 0 ==> filled(list, line, width).len() > 0 && joined(
            filled(list, line, width),
            " "@,
        ) == joined(seq![line] + list, " "@),
        line.len() == 0 ==> joined(filled(list, line, width), " "@) == joined(list, " "@),
        list.len() > 0 ==> filled(list, line, width).len() > 0,
    decreases list.len(),
{
    if list.len() == 0 {
        assert(seq![line] + list =~= seq![line]);
    } else {
        let rest = list.drop_first();
        let w = list[0];
        assert forall|i: int| 0 <= i < rest.len() implies (#[trigger] rest[i]).len() > 0 by {
            assert(rest[i] == list[i + 1]);
        }
        assert(list =~= seq![w] + rest);
        if line.len() == 0 {
            lemma_filled_keeps(rest, w, width);
        } else if bytes_in(line) + 1 + bytes_in(w) > width {
            lemma_filled_keeps(rest, w, width);
            lemma_joined_front(line, filled(rest, w, width), " "@);
            lemma_joined_front(line, list, " "@);
        } else {
            let longer = line + " "@ + w;
            lemma_filled_keeps(rest, longer, width);
            lemma_joined_front(line, list, " "@);
            if rest.len() > 0 {
                lemma_joined_front(longer, rest, " "@);
                lemma_joined_front(w, rest, " "@);
                assert(line + " "@ + w + " "@ + joined(rest, " "@) =~= line + " "@ + (w + " "@
                    + joined(rest, " "@)));
            } else {
                assert(seq![longer] + rest =~= seq![longer]);
                assert(list =~= seq![w]);
            }
        }
    }
}

/// The panel loses no word that fits it and reorders none: the lines, joined
/// by spaces, read as the words of the answer do.
pub proof fn the_panel_keeps_the_words(text: Seq<char>, width: nat)
    ensures
        joined(filled(words_of(text), Seq::empty(), width), " "@) == joined(
            words_of(text),
            " "@,
        ),
{
    lemma_words_nonempty(text);
    lemma_filled_keeps(words_of(text), Seq::empty(), width);
}

/// A token goes behind the text and is counted; the end closes the stream and
/// tells the count; an error closes it, is told, and holds inference back for
/// a minute.
pub proof fn events_are_heard_in_turn(
    v: InferView,
    list: Seq<EventView>,
    ev: EventView,
    hms: Seq<char>,
    now: int,
)
    ensures
        ({
            let before = drained(v, list, hms, now);
            let after = drained(v, list.push(ev), hms, now);
            &&& ev matches EventView::Token(t) ==> {
                &&& after.text == before.text + t
                &&& after.tokens == before.tokens + 1
                &&& after.note == before.note
                &&& after.streaming == before.streaming
                &&& after.backoff_until == before.backoff_until
            }
            &&& ev is Done ==> {
                &&& !after.streaming
                &&& after.text == before.text
                &&& after.note == hms + " · "@ + decimal(before.tokens) + " tok"@
                &&& after.backoff_until == before.backoff_until
            }
            &&& ev matches EventView::Error(e) ==> {
                &&& !after.streaming
                &&& after.text == before.text
                &&& after.note == "inference error: "@ + e
                &&& after.backoff_until == now + 60_000_000_000
            }
            &&& after.last_run == before.last_run && after.last_sig == before.last_sig
        }),
        drained(v, Seq::empty(), hms, now) == v,
{
    let all = list.push(ev);
    assert(all.drop_last() =~= list);
    if ev is Token {
        if closes(list) {
            let i = choose|i: int| 0 <= i < list.len() && (#[trigger] list[i]) !is Token;
            assert(all[i] !is Token);
        }
        if closes(all) {
            let i = choose|i: int| 0 <= i < all.len() && (#[trigger] all[i]) !is Token;
            assert(list[i] !is Token);
        }
    } else {
        assert(all[list.len() as int] !is Token);
    }
    assert(!closes(Seq::empty()));
}

/// Inference is due where none streams and no error is recent, 20 seconds
/// after the last where something changed and two minutes after it otherwise;
/// the first is due at once.
pub proof fn inference_is_due_in_time(v: InferView, sig: u64, now: int)
    ensures
        !v.streaming && now >= v.backoff_until && sig != v.last_sig ==> (due(v, sig, now) <==> now
            - v.last_run > 20_000_000_000),
        !v.streaming && now >= v.backoff_until && sig == v.last_sig ==> (due(v, sig, now) <==> now
            - v.last_run > 120_000_000_000),
        v.streaming || now < v.backoff_until ==> !due(v, sig, now),
        due(fresh(now), sig, now),
{
}

/// A new inference starts with no text and remembers what it was asked on.
pub proof fn a_new_inference_starts_empty(v: InferView, sig: u64, hms: Seq<char>, now: int)
    ensures
        ({
            let n = begun(v, sig, hms, now);
            &&& n.text.len() == 0 && n.tokens == 0 && n.streaming
            &&& n.last_run == now && n.last_sig == sig && n.backoff_until == v.backoff_until
            &&& forall|later: int, other: u64| !due(n, other, later)
        }),
{
}

/// The signature changes with each step of five points of memory and of ten
/// of load and of charge, and with a projected exhaustion.
pub proof fn signatures_change_with_the_state(r: PressureReport)
    requires
        r.memory.score <= 100,
        r.cpu.score <= 100,
        r.battery_info matches Some(b) ==> b.capacity <= 100,
    ensures
        mixed_report(r) == (r.memory.score as nat / 5) * 29791 + (r.cpu.score as nat / 10) * 961
            + (if r.oom_eta_secs is Some { 31int } else { 0 }) + (match r.battery_info {
            Some(b) => b.capacity as int / 10,
            None => 0,
        }),
{
    let m = r.memory.score as nat / 5;
    let c = r.cpu.score as nat / 10;
    assert(mixed(0, m) == m);
    assert(mixed(m, c) == m * 31 + c);
}

/// The apps that lead the list count for the signature byte by byte, and
/// only the first three do.
pub proof fn signatures_hold_three_apps(apps: Seq<App>, more: App, r: PressureReport)
    requires
        apps.len() == 3,
    ensures
        sig_of(apps.push(more), r) == sig_of(apps, r),
        sig_of(apps, r) == mixed_bytes(
            mixed_bytes(
                mixed_bytes(mixed_report(r), encode_utf8(apps[0].key@)),
                encode_utf8(apps[1].key@),
            ),
            encode_utf8(apps[2].key@),
        ),
{
    assert(apps.push(more).take(3) =~= apps);
    assert(up_to(apps, 3) == apps);
    let two = apps.drop_last();
    let one = two.drop_last();
    let none = one.drop_last();
    assert(two.last() == apps[1] && one.last() == apps[0]);
    assert(none.len() == 0);
    reveal_with_fuel(mixed_keys, 5);
}

/// A mark tells that an application grew by more than 10 MB since the last
/// frame, or shrank by more.
pub proof fn marks_tell_growth(rss: u64, p: u64)
    ensures
        ({
            let t = Theme { enabled: false };
            &&& rss - p > 10_000 ==> trend_mark(t, rss, Some(p)) == "▲"@
            &&& p - rss > 10_000 ==> trend_mark(t, rss, Some(p)) == "▼"@
            &&& -10_000 <= rss - p <= 10_000 ==> trend_mark(t, rss, Some(p)) == " "@
            &&& trend_mark(t, rss, None) == " "@
        }),
{
}

/// The memory of the last frame is found by key.
pub proof fn last_frames_are_found_by_key(prev: Seq<(String, u64)>, key: Seq<char>, k: int)
    requires
        0 <= k < prev.len(),
        prev[k].0@ == key,
        forall|i: int| 0 <= i < k ==> (#[trigger] prev[i]).0@ != key,
    ensures
        rss_before(prev, key) == Some(prev[k].1),
    decreases k,
{
    if k > 0 {
        let rest = prev.drop_first();
        assert(prev[0].0@ != key);
        assert forall|i: int| 0 <= i < k - 1 implies (#[trigger] rest[i]).0@ != key by {
            assert(rest[i] == prev[i + 1]);
        }
        last_frames_are_found_by_key(rest, key, k - 1);
    }
}

/// The frame shows the first applications that take more than 8 MB or two
/// percent of a core, in order, so many as it has room for.
pub proof fn frames_show_what_is_notable(apps: Seq<App>, most: nat) -> (at: Seq<int>)
    ensures
        ({
            let rows = shown_apps(apps, most);
            &&& rows.len() == at.len()
            &&& rows.len() <= most
            &&& forall|i: int, j: int| 0 <= i < j < at.len() ==> #[trigger] at[i] < #[trigger] at[j]
            &&& forall|i: int|
                0 <= i < at.len() ==> 0 <= #[trigger] at[i] < apps.len() && rows[i] == apps[at[i]]
                    && (rows[i].rss_kb > 8_000 || rows[i].cpu_pct > 2_000_000_000)
            &&& rows.len() < most ==> forall|k: int|
                0 <= k < apps.len() && ((#[trigger] apps[k]).rss_kb > 8_000 || apps[k].cpu_pct
                    > 2_000_000_000) ==> at.contains(k)
        }),
    decreases apps.len(),
{
    if apps.len() == 0 {
        Seq::empty()
    } else {
        let head = apps.drop_last();
        let before = frames_show_what_is_notable(head, most);
        let a = apps.last();
        let n = apps.len() - 1;
        let rows = shown_apps(apps, most);
        let taken = shown_apps(head, most).len() < most && (a.rss_kb > 8_000 || a.cpu_pct
            > 2_000_000_000);
        let at = if taken {
            before.push(n)
        } else {
            before
        };
        assert forall|i: int| 0 <= i < at.len() implies 0 <= #[trigger] at[i] < apps.len()
            && rows[i] == apps[at[i]] && (rows[i].rss_kb > 8_000 || rows[i].cpu_pct
            > 2_000_000_000) by {
            if i < before.len() {
                assert(at[i] == before[i]);
                assert(apps[at[i]] == head[before[i]]);
            }
        }
        if rows.len() < most {
            assert forall|k: int|
                0 <= k < apps.len() && ((#[trigger] apps[k]).rss_kb > 8_000 || apps[k].cpu_pct
                    > 2_000_000_000) implies at.contains(k) by {
                if k < n {
                    assert(head[k] == apps[k]);
                    let j = choose|j: int| 0 <= j < before.len() && before[j] == k;
                    assert(at[j] == k);
                } else {
                    assert(at[before.len() as int] == n);
                }
            }
        }
        at
    }
}

/// A frame leaves sixteen rows to the rest, and shows three applications at
/// least and twelve at most.
pub proof fn rows_are_given_by_the_height(rows: nat)
    ensures
        rows <= 19 ==> most_rows(rows) == 3,
        19 <= rows <= 28 ==> most_rows(rows) + 16 == rows,
        rows >= 28 ==> most_rows(rows) == 12,
{
}

/// The panel shows the first five lines of the answer, and a cursor behind
/// the last while it streams.
pub proof fn panels_show_the_answer(v: InferView, width: nat, i: int)
    requires
        0 <= i < 5,
    ensures
        ({
            let list = filled(words_of(v.text), Seq::empty(), width);
            let shown = panel(v, width);
            &&& shown.len() == 5
            &&& i < list.len() && !v.streaming ==> shown[i] == list[i]
            &&& i < list.len() - 1 ==> shown[i] == list[i]
            &&& i == list.len() - 1 && v.streaming ==> shown[i] == list[i] + "▌"@
            &&& list.len() == 0 && v.streaming ==> shown[0] == "▌"@
            &&& i >= list.len() && i > 0 ==> shown[i].len() == 0
        }),
{
}

/// The next frame comes when the interval is over, but no sooner than ten
/// milliseconds, and after half a second the keys are looked at.
pub proof fn pauses_end_with_the_interval(interval: u64, elapsed_ns: u64)
    ensures
        ({
            let left = interval * 1_000_000_000 - elapsed_ns;
            let p = pause_of(interval, elapsed_ns);
            &&& 0 < left <= 500_000_000 ==> p == left
            &&& left > 500_000_000 ==> p == 500_000_000
            &&& left <= 0 ==> p == 10_000_000
        }),
{
}

proof fn lemma_entry(list: Seq<(Seq<char>, u64)>, key: Seq<char>)
    ensures
        0 <= entry_index(list, key) <= list.len(),
        entry_index(list, key) < list.len() ==> list[entry_index(list, key)].0 == key,
        forall|i: int| 0 <= i < entry_index(list, key) ==> (#[trigger] list[i]).0 != key,
    decreases list.len(),
{
    if list.len() > 0 && list[0].0 != key {
        let rest = list.drop_first();
        lemma_entry(rest, key);
        assert forall|i: int| 0 <= i < entry_index(list, key) implies (#[trigger] list[i]).0
            != key by {
            if i > 0 {
                assert(rest[i - 1] == list[i]);
            }
        }
    }
}

/// A frame remembers the memory of each application, and keeps what it knew
/// of the others.
pub proof fn frames_remember_each_app(list: Seq<(Seq<char>, u64)>, apps: Seq<App>, a: App)
    ensures
        ({
            let before = remembered(list, apps);
            let after = remembered(list, apps.push(a));
            &&& after.contains((a.key@, a.rss_kb))
            &&& forall|i: int|
                0 <= i < before.len() && (#[trigger] before[i]).0 != a.key@ ==> i < after.len()
                    && after[i] == before[i]
        }),
{
    assert(apps.push(a).drop_last() =~= apps);
    let before = remembered(list, apps);
    let after = remembered(list, apps.push(a));
    let k = entry_index(before, a.key@);
    lemma_entry(before, a.key@);
    assert(after[k] == (a.key@, a.rss_kb));
}

/// The snapshot names each application that leads the list, with its kind.
pub proof fn snapshots_name_what_leads(apps: Seq<App>, a: App, intents: Seq<(String, Intent)>)
    ensures
        top_parts(Seq::empty(), intents).len() == 0,
        ({
            let after = top_parts(apps.push(a), intents);
            let before = top_parts(apps, intents);
            let named = " "@ + a.display@ + "("@ + category_name(category_for(intents, a.key@))
                + ","@;
            &&& begins(after, before)
            &&& begins(after.skip(before.len() as int), named)
        }),
{
    assert(apps.push(a).drop_last() =~= apps);
    let before = top_parts(apps, intents);
    let after = top_parts(apps.push(a), intents);
    let named = " "@ + a.display@ + "("@ + category_name(category_for(intents, a.key@)) + ","@;
    assert(after.take(before.len() as int) =~= before);
    let tail = after.skip(before.len() as int);
    assert(tail =~= top_part(a, intents));
    assert(tail.take(named.len() as int) =~= named);
}

/// The charge is told with the way it goes.
pub proof fn charges_are_told_with_their_way(capacity: u32)
    ensures
        battery_part(Some(Battery { capacity, discharging: true })) == " | BAT "@ + decimal(
            capacity as nat,
        ) + "%"@ + " discharging"@,
        battery_part(Some(Battery { capacity, discharging: false })) == " | BAT "@ + decimal(
            capacity as nat,
        ) + "%"@ + " AC"@,
        battery_part(None).len() == 0,
        charge_text(Some(Battery { capacity, discharging: true })) == "BAT "@ + decimal(
            capacity as nat,
        ) + "%"@ + "▼"@,
        charge_text(Some(Battery { capacity, discharging: false })) == "BAT "@ + decimal(
            capacity as nat,
        ) + "%"@ + "▲"@,
{
}

/// An application is frozen where it is recorded, else its load shows from
/// one percent of a core on, and it idles below.
pub proof fn states_show_in_turn(a: App, frozen: Seq<RecordView>)
    ensures
        (exists|i: int| 0 <= i < frozen.len() && (#[trigger] frozen[i]).key == a.key@)
            ==> state_word(a, frozen) == "frozen"@,
        !(exists|i: int| 0 <= i < frozen.len() && (#[trigger] frozen[i]).key == a.key@)
            && a.cpu_pct < 1_000_000_000 ==> state_word(a, frozen) == "idle"@,
        !(exists|i: int| 0 <= i < frozen.len() && (#[trigger] frozen[i]).key == a.key@)
            && a.cpu_pct >= 1_000_000_000 ==> state_word(a, frozen) == ratio_text(
            a.cpu_pct as nat,
            1_000_000_000,
            0,
        ) + "%"@,
{
}

/// The snapshot names the five applications that lead, and no more.
pub proof fn snapshots_hold_five_apps(
    apps: Seq<App>,
    more: App,
    intents: Seq<(String, Intent)>,
    r: PressureReport,
    x: Extras,
    frozen: Seq<RecordView>,
)
    requires
        apps.len() == 5,
    ensures
        prompt_text(apps.push(more), intents, r, x, frozen) == prompt_text(
            apps,
            intents,
            r,
            x,
            frozen,
        ),
        mentions(prompt_text(apps, intents, r, x, frozen), " | TOP:"@ + top_parts(apps, intents)),
{
    assert(apps.push(more).take(5) =~= apps);
    assert(up_to(apps, 5) == apps);
    let a = machine_part(r, x) + battery_part(r.battery_info) + thermal_part(x.thermal_milli);
    let named = " | TOP:"@ + top_parts(apps, intents);
    let b = frozen_part(frozen) + running_part(x.running);
    let p = prompt_text(apps, intents, r, x, frozen);
    assert(p =~= a + named + b);
    assert(p.subrange(a.len() as int, a.len() as int + named.len()) =~= named);
}

/// The snapshot begins with the memory in use, of what there is.
pub proof fn snapshots_begin_with_the_memory(r: PressureReport, x: Extras)
    requires
        r.mem.total_kb > 0,
        r.mem.available_kb <= r.mem.total_kb,
    ensures
        begins(
            machine_part(r, x),
            "RAM "@ + ratio_text(
                (r.mem.total_kb - r.mem.available_kb) as nat * 100,
                r.mem.total_kb as nat,
                0,
            ) + "% ("@ + kb_text((r.mem.total_kb - r.mem.available_kb) as nat) + "/"@ + kb_text(
                r.mem.total_kb as nat,
            ) + ")"@,
        ),
{
    let p = "RAM "@ + ratio_text(
        (r.mem.total_kb - r.mem.available_kb) as nat * 100,
        r.mem.total_kb as nat,
        0,
    ) + "% ("@ + kb_text((r.mem.total_kb - r.mem.available_kb) as nat) + "/"@ + kb_text(
        r.mem.total_kb as nat,
    ) + ")"@;
    reveal_strlit(") swap ");
    reveal_strlit(")");
    assert(machine_part(r, x).take(p.len() as int) =~= p);
}

/// What is suspended and what runs in sessions is told where there is any, and
/// the heat where it is known.
pub proof fn snapshots_tell_what_there_is(list: Seq<RecordView>, n: u64, m: u32)
    ensures
        list.len() == 0 ==> frozen_part(list).len() == 0,
        list.len() > 0 ==> begins(frozen_part(list), " | SUSPENDED: "@),
        n == 0 ==> running_part(n).len() == 0,
        n > 0 ==> running_part(n) == " | PV-SESSIONS: "@ + decimal(n as nat) + " running"@,
        thermal_part(None).len() == 0,
        thermal_part(Some(m)) == " | THERM "@ + ratio_text(m as nat, 1000, 0) + "C"@,
{
    if list.len() > 0 {
        let p = " | SUSPENDED: "@;
        assert(frozen_part(list).take(p.len() as int) =~= p);
    }
}

/// A frame is as wide as the terminal, up to 110 columns.
pub proof fn frames_are_at_most_so_wide(cols: usize)
    ensures
        cols <= 110 ==> frame_width(cols) == cols,
        cols >= 110 ==> frame_width(cols) == 110,
{
}

} // verus!
