//! Log levels and the shape of a log line.
//!
//! The level is controlled by `PV_LOG`, one of off, error, warn, info, debug
//! and trace. It is `info` by default for the daemon and `warn` otherwise.

use vstd::prelude::*;

use crate::fixed::{dec2, two_digits};
use crate::text::{cat2, cat5, cat7, opt_text, owned, pad_right, padded_right, small};

verus! {

/// How much is logged.
#[derive(Debug, Clone, Copy, PartialEq, Eq, Structural)]
pub enum LevelFilter {
    Off,
    Error,
    Warn,
    Info,
    Debug,
    Trace,
}

/// How urgent a record is.
#[derive(Debug, Clone, Copy, PartialEq, Eq, Structural)]
pub enum Level {
    Error,
    Warn,
    Info,
    Debug,
    Trace,
}

/// Whether two texts are equal but for the case of ASCII letters.
pub open spec fn same_but_case(a: Seq<char>, b: Seq<char>) -> bool {
    a.len() == b.len() && forall|i: int|
        0 <= i < a.len() ==> small(#[trigger] a[i]) == small(b[i])
}

/// The level that a text names, in letters of any case.
pub open spec fn level_named(s: Seq<char>) -> Option<LevelFilter> {
    if same_but_case("OFF"@, s) {
        Some(LevelFilter::Off)
    } else if same_but_case("ERROR"@, s) {
        Some(LevelFilter::Error)
    } else if same_but_case("WARN"@, s) {
        Some(LevelFilter::Warn)
    } else if same_but_case("INFO"@, s) {
        Some(LevelFilter::Info)
    } else if same_but_case("DEBUG"@, s) {
        Some(LevelFilter::Debug)
    } else if same_but_case("TRACE"@, s) {
        Some(LevelFilter::Trace)
    } else {
        None
    }
}

/// `log::LevelFilter::from_str` compares the text with the six names of the
/// levels, without regard to the case of ASCII letters, and gives the level
/// of the first that is equal, or an error where none is.
#[verifier::external_body]
fn read_level(s: &str) -> (r: Option<LevelFilter>)
    ensures
        r == level_named(s@),
{
    match s.parse::<::log::LevelFilter>() {
        Ok(::log::LevelFilter::Off) => Some(LevelFilter::Off),
        Ok(::log::LevelFilter::Error) => Some(LevelFilter::Error),
        Ok(::log::LevelFilter::Warn) => Some(LevelFilter::Warn),
        Ok(::log::LevelFilter::Info) => Some(LevelFilter::Info),
        Ok(::log::LevelFilter::Debug) => Some(LevelFilter::Debug),
        Ok(::log::LevelFilter::Trace) => Some(LevelFilter::Trace),
        Err(_) => None,
    }
}

pub fn parse_level(s: &str) -> (r: Option<LevelFilter>)
    ensures
        r == level_named(s@),
{
    read_level(s)
}

/// The level to log at: that of the variable where it names one, that of the
/// default otherwise, and warnings where neither does.
pub open spec fn level_chosen(var: Option<Seq<char>>, default: Seq<char>) -> LevelFilter {
    match var {
        Some(v) if level_named(v) is Some => level_named(v)->0,
        _ => match level_named(default) {
            Some(l) => l,
            None => LevelFilter::Warn,
        },
    }
}

pub fn level_from_env(var: &Option<String>, default: &str) -> (r: LevelFilter)
    ensures
        r == level_chosen(opt_text(*var), default@),
{
    if let Some(v) = var {
        if let Some(l) = parse_level(v.as_str()) {
            return l;
        }
    }
    match parse_level(default) {
        Some(l) => l,
        None => LevelFilter::Warn,
    }
}

/// The level to install a logger at. It is installed once: where one is there
/// already, nothing is to be done.
pub fn init(installed: bool, var: &Option<String>, default: &str) -> (r: Option<LevelFilter>)
    ensures
        r == (if installed {
            None
        } else {
            Some(level_chosen(opt_text(*var), default@))
        }),
{
    if installed {
        None
    } else {
        Some(level_from_env(var, default))
    }
}

impl LevelFilter {
    /// How much is logged, as a number: the more the larger.
    pub open spec fn reach(self) -> int {
        match self {
            LevelFilter::Off => 0,
            LevelFilter::Error => 1,
            LevelFilter::Warn => 2,
            LevelFilter::Info => 3,
            LevelFilter::Debug => 4,
            LevelFilter::Trace => 5,
        }
    }

    fn rank(self) -> (r: u8)
        ensures
            r == self.reach(),
    {
        match self {
            LevelFilter::Off => 0,
            LevelFilter::Error => 1,
            LevelFilter::Warn => 2,
            LevelFilter::Info => 3,
            LevelFilter::Debug => 4,
            LevelFilter::Trace => 5,
        }
    }

    /// Whether a record of a level is logged.
    pub fn enabled(self, level: Level) -> (r: bool)
        ensures
            r == (level.depth() <= self.reach()),
    {
        level.rank() <= self.rank()
    }
}

impl Level {
    /// How much must be logged for a record to be seen, as a number.
    pub open spec fn depth(self) -> int {
        match self {
            Level::Error => 1,
            Level::Warn => 2,
            Level::Info => 3,
            Level::Debug => 4,
            Level::Trace => 5,
        }
    }

    fn rank(self) -> (r: u8)
        ensures
            r == self.depth(),
    {
        match self {
            Level::Error => 1,
            Level::Warn => 2,
            Level::Info => 3,
            Level::Debug => 4,
            Level::Trace => 5,
        }
    }

    pub open spec fn label(self) -> Seq<char> {
        match self {
            Level::Error => "ERROR"@,
            Level::Warn => "WARN"@,
            Level::Info => "INFO"@,
            Level::Debug => "DEBUG"@,
            Level::Trace => "TRACE"@,
        }
    }

    pub fn name(self) -> (r: String)
        ensures
            r@ == self.label(),
    {
        match self {
            Level::Error => owned("ERROR"),
            Level::Warn => owned("WARN"),
            Level::Info => owned("INFO"),
            Level::Debug => owned("DEBUG"),
            Level::Trace => owned("TRACE"),
        }
    }
}

/// The time of day, in the universal time zone.
pub open spec fn clock_text(secs: u64) -> Seq<char> {
    two_digits((secs / 3600 % 24) as nat) + ":"@ + two_digits((secs / 60 % 60) as nat) + ":"@
        + two_digits((secs % 60) as nat)
}

/// The time of day of a moment in seconds since the epoch.
pub fn timestamp(secs: u64) -> (r: String)
    ensures
        r@ == clock_text(secs),
{
    cat5(
        dec2((secs / 3600) % 24).as_str(),
        ":",
        dec2((secs / 60) % 60).as_str(),
        ":",
        dec2(secs % 60).as_str(),
    )
}

/// The line that a record becomes.
pub fn log_line(secs: u64, level: Level, target: &str, message: &str) -> (r: String)
    ensures
        r@ == "[pv "@ + clock_text(secs) + " "@ + padded_right(level.label(), 5) + " "@ + target@
            + "] "@ + message@,
{
    let head: String = cat7(
        "[pv ",
        timestamp(secs).as_str(),
        " ",
        pad_right(level.name().as_str(), 5).as_str(),
        " ",
        target,
        "] ",
    );
    cat2(head.as_str(), message)
}

/// Whether a text is a word, in letters of any case.
pub open spec fn spelled(s: Seq<char>, capitals: Seq<char>, smalls: Seq<char>) -> bool {
    s.len() == capitals.len() && forall|i: int|
        0 <= i < s.len() ==> #[trigger] s[i] == capitals[i] || s[i] == smalls[i]
}

proof fn lemma_spelled(s: Seq<char>, capitals: Seq<char>, smalls: Seq<char>)
    requires
        capitals.len() == smalls.len(),
        forall|i: int|
            0 <= i < capitals.len() ==> 'A' <= #[trigger] capitals[i] <= 'Z' && smalls[i] as int
                == capitals[i] as int + 32,
    ensures
        same_but_case(capitals, s) <==> spelled(s, capitals, smalls),
{
    assert forall|i: int| 0 <= i < capitals.len() implies #[trigger] small(capitals[i])
        == smalls[i] by {}
    if same_but_case(capitals, s) {
        assert forall|i: int| 0 <= i < s.len() implies #[trigger] s[i] == capitals[i] || s[i]
            == smalls[i] by {
            assert(small(capitals[i]) == small(s[i]));
        }
    }
    if spelled(s, capitals, smalls) {
        assert forall|i: int| 0 <= i < capitals.len() implies small(#[trigger] capitals[i])
            == small(s[i]) by {
            assert(s[i] == capitals[i] || s[i] == smalls[i]);
        }
    }
}

/// A level is named by its word, in letters of any case, and by nothing else.
pub proof fn levels_are_named_by_their_word(s: Seq<char>)
    ensures
        spelled(s, "OFF"@, "off"@) <==> level_named(s) == Some(LevelFilter::Off),
        spelled(s, "ERROR"@, "error"@) <==> level_named(s) == Some(LevelFilter::Error),
        spelled(s, "WARN"@, "warn"@) <==> level_named(s) == Some(LevelFilter::Warn),
        spelled(s, "INFO"@, "info"@) <==> level_named(s) == Some(LevelFilter::Info),
        spelled(s, "DEBUG"@, "debug"@) <==> level_named(s) == Some(LevelFilter::Debug),
        spelled(s, "TRACE"@, "trace"@) <==> level_named(s) == Some(LevelFilter::Trace),
{
    reveal_strlit("OFF");
    reveal_strlit("off");
    reveal_strlit("ERROR");
    reveal_strlit("error");
    reveal_strlit("WARN");
    reveal_strlit("warn");
    reveal_strlit("INFO");
    reveal_strlit("info");
    reveal_strlit("DEBUG");
    reveal_strlit("debug");
    reveal_strlit("TRACE");
    reveal_strlit("trace");
    lemma_spelled(s, "OFF"@, "off"@);
    lemma_spelled(s, "ERROR"@, "error"@);
    lemma_spelled(s, "WARN"@, "warn"@);
    lemma_spelled(s, "INFO"@, "info"@);
    lemma_spelled(s, "DEBUG"@, "debug"@);
    lemma_spelled(s, "TRACE"@, "trace"@);
    assert("OFF"@.len() == 3 && "ERROR"@.len() == 5 && "WARN"@.len() == 4);
    assert("INFO"@.len() == 4 && "DEBUG"@.len() == 5 && "TRACE"@.len() == 5);
    if s.len() > 0 {
        let c = s[0];
        assert("ERROR"@[0] == 'E' && "error"@[0] == 'e');
        assert("WARN"@[0] == 'W' && "warn"@[0] == 'w');
        assert("INFO"@[0] == 'I' && "info"@[0] == 'i');
        assert("DEBUG"@[0] == 'D' && "debug"@[0] == 'd');
        assert("TRACE"@[0] == 'T' && "trace"@[0] == 't');
    }
}

/// The variable decides where it names a level, then the default, and
/// warnings are logged where neither does.
pub proof fn levels_are_chosen_in_turn(var: Option<Seq<char>>, default: Seq<char>, l: LevelFilter)
    ensures
        var matches Some(v) ==> level_named(v) == Some(l) ==> level_chosen(var, default) == l,
        (var is None || level_named(var->0) is None) && level_named(default) == Some(l)
            ==> level_chosen(var, default) == l,
        (var is None || level_named(var->0) is None) && level_named(default) is None
            ==> level_chosen(var, default) == LevelFilter::Warn,
{
}

/// Errors are logged unless nothing is, and each more talkative level shows
/// one kind of record more.
pub proof fn levels_show_what_is_as_urgent(f: LevelFilter)
    ensures
        Level::Error.depth() <= f.reach() <==> f != LevelFilter::Off,
        Level::Warn.depth() <= f.reach() <==> f != LevelFilter::Off && f != LevelFilter::Error,
        Level::Info.depth() <= f.reach() <==> f == LevelFilter::Info || f == LevelFilter::Debug || f
            == LevelFilter::Trace,
        Level::Debug.depth() <= f.reach() <==> f == LevelFilter::Debug || f == LevelFilter::Trace,
        Level::Trace.depth() <= f.reach() <==> f == LevelFilter::Trace,
{
}

/// The clock shows the hour, the minute and the second of the day.
pub proof fn log_clocks_show_the_time(secs: u64, day: nat, h: nat, m: nat, s: nat)
    requires
        h < 24,
        m < 60,
        s < 60,
        secs == day * 86_400 + h * 3600 + m * 60 + s,
    ensures
        clock_text(secs) == two_digits(h) + ":"@ + two_digits(m) + ":"@ + two_digits(s),
{
    assert(secs / 3600 == day * 24 + h);
    assert((day * 24 + h) % 24 == h);
    assert(secs / 60 == day * 1440 + h * 60 + m);
    assert((day * 1440 + h * 60 + m) % 60 == m);
    assert(secs % 60 == s);
}

/// A record is labelled with its level.
pub proof fn records_are_labelled()
    ensures
        Level::Error.label() == "ERROR"@ && Level::Warn.label() == "WARN"@,
        Level::Info.label() == "INFO"@ && Level::Debug.label() == "DEBUG"@,
        Level::Trace.label() == "TRACE"@,
{
}

} // verus!
