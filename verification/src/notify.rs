//! Valve notifications: pressure-valve cards and the cooldowns that pace them.
//!
//! Every notice is stamped out of the same die: a heavy plate frame, a
//! stencil level tag, a gauge, observations, and one actionable vent.

use vstd::prelude::*;

use crate::display::{painted, score_code, Theme};
use crate::fixed::{
    all_digits, dec2, dec64, decimal, digit_of, digit_value, digits_value, hex, hexadecimal,
    parse_i32, parsed_signed, two_digits,
};
use crate::procfs::is_ascii_char;
use crate::scan::{lemma_words_nonempty, mentions, trim, trimmed, words, words_of};
use crate::text::{
    cat2, cat3, cat5, cat6, chars_of, copy_texts, join, joined, opt_text, owned, pad_left,
    padded_left, push_all, push_text, repeat, repeated, same, text_between, texts,
};

verus! {

// ------------------------------------------------------------ levels

#[derive(Debug, Clone, Copy, PartialEq, Eq, PartialOrd, Ord, Structural)]
pub enum Level {
    Advisory,
    Warning,
    Critical,
}

/// The place of a level: the more urgent, the higher.
pub open spec fn urgency(l: Level) -> nat {
    match l {
        Level::Advisory => 0,
        Level::Warning => 1,
        Level::Critical => 2,
    }
}

pub open spec fn level_tag(l: Level) -> Seq<char> {
    match l {
        Level::Advisory => "ADVISORY"@,
        Level::Warning => "WARNING"@,
        Level::Critical => "CRITICAL"@,
    }
}

/// A quarter of an hour, ten minutes, or five.
pub open spec fn cooldown_of(l: Level) -> nat {
    match l {
        Level::Advisory => 900,
        Level::Warning => 600,
        Level::Critical => 300,
    }
}

impl Level {
    pub fn tag(&self) -> (r: &'static str)
        ensures
            r@ == level_tag(*self),
    {
        match self {
            Level::Advisory => "ADVISORY",
            Level::Warning => "WARNING",
            Level::Critical => "CRITICAL",
        }
    }

    pub fn cooldown_secs(&self) -> (r: u64)
        ensures
            r == cooldown_of(*self),
    {
        match self {
            Level::Advisory => 900,
            Level::Warning => 600,
            Level::Critical => 300,
        }
    }

    fn place(&self) -> (r: u8)
        ensures
            r == urgency(*self),
    {
        match self {
            Level::Advisory => 0,
            Level::Warning => 1,
            Level::Critical => 2,
        }
    }
}

// ------------------------------------------------------------ cooldowns

/// When a valve last fired, in nanoseconds of a monotonic clock, and how.
pub struct Fired {
    pub key: String,
    pub at_ns: u64,
    pub level: Level,
}

/// Cooldown gate per valve key; escalation re-fires immediately.
pub struct Cooldowns {
    pub list: Vec<Fired>,
}

/// The position of a key.
pub open spec fn fired_index(list: Seq<Fired>, key: Seq<char>) -> Option<int>
    decreases list.len(),
{
    if list.len() == 0 {
        None
    } else {
        match fired_index(list.drop_last(), key) {
            Some(i) => Some(i),
            None => if list.last().key@ == key {
                Some(list.len() - 1)
            } else {
                None
            },
        }
    }
}

impl View for Cooldowns {
    type V = Map<Seq<char>, (u64, Level)>;

    open spec fn view(&self) -> Map<Seq<char>, (u64, Level)> {
        Map::new(
            |k: Seq<char>| fired_index(self.list@, k) is Some,
            |k: Seq<char>|
                {
                    let f = self.list@[fired_index(self.list@, k)->0];
                    (f.at_ns, f.level)
                },
        )
    }
}

/// Whether a valve may fire: it never did, or less urgently, or its cooldown
/// has passed.
pub open spec fn may_fire(
    past: Map<Seq<char>, (u64, Level)>,
    key: Seq<char>,
    level: Level,
    now_ns: u64,
) -> bool {
    past.dom().contains(key) && urgency(level) <= urgency(past[key].1) ==> now_ns - past[key].0
        >= cooldown_of(level) * 1_000_000_000
}

proof fn lemma_fired_index(list: Seq<Fired>, key: Seq<char>)
    ensures
        fired_index(list, key) matches Some(i) ==> 0 <= i < list.len() && list[i].key@ == key
            && forall|j: int| 0 <= j < i ==> (#[trigger] list[j]).key@ != key,
        fired_index(list, key) is None ==> forall|j: int|
            0 <= j < list.len() ==> (#[trigger] list[j]).key@ != key,
    decreases list.len(),
{
    if list.len() > 0 {
        lemma_fired_index(list.drop_last(), key);
        assert forall|j: int| 0 <= j < list.len() - 1 implies list.drop_last()[j]
            == #[trigger] list[j] by {}
    }
}

impl Cooldowns {
    pub fn new() -> (r: Self)
        ensures
            r@ == Map::<Seq<char>, (u64, Level)>::empty(),
    {
        let r: Cooldowns = Cooldowns { list: Vec::new() };
        assert(r@ =~= Map::<Seq<char>, (u64, Level)>::empty());
        r
    }

    fn find(&self, key: &str) -> (r: Option<usize>)
        ensures
            r is Some <==> fired_index(self.list@, key@) is Some,
            r matches Some(i) ==> i < self.list@.len() && fired_index(self.list@, key@) == Some(
                i as int,
            ),
    {
        let mut i: usize = 0;
        while i < self.list.len()
            invariant
                i <= self.list.len(),
                forall|j: int| 0 <= j < i ==> (#[trigger] self.list@[j]).key@ != key@,
            decreases self.list.len() - i,
        {
            if same(self.list[i].key.as_str(), key) {
                proof {
                    lemma_fired_index(self.list@, key@);
                }
                return Some(i);
            }
            i = i + 1;
        }
        proof {
            lemma_fired_index(self.list@, key@);
        }
        None
    }

    /// Whether a valve may fire now. If so, it is noted that it did.
    pub fn allow(&mut self, key: &str, level: Level, now_ns: u64) -> (r: bool)
        ensures
            r == may_fire(old(self)@, key@, level, now_ns),
            final(self)@ == (if r {
                old(self)@.insert(key@, (now_ns, level))
            } else {
                old(self)@
            }),
    {
        let ghost past = self@;
        let ghost before = self.list@;
        match self.find(key) {
            Some(i) => {
                let last: u64 = self.list[i].at_ns;
                let prev: Level = self.list[i].level;
                assert(past.dom().contains(key@));
                if level.place() <= prev.place() {
                    let since: u64 = if now_ns >= last {
                        now_ns - last
                    } else {
                        0
                    };
                    if since / 1_000_000_000 < level.cooldown_secs() {
                        return false;
                    }
                }
                self.list[i].at_ns = now_ns;
                self.list[i].level = level;
                proof {
                    let after = self.list@;
                    assert forall|k: Seq<char>| fired_index(after, k) == #[trigger] fired_index(
                        before,
                        k,
                    ) by {
                        lemma_same_keys(before, after, k);
                    }
                    lemma_fired_index(before, key@);
                    assert forall|k: Seq<char>| k != key@ && #[trigger] fired_index(
                        before,
                        k,
                    ) is Some implies fired_index(before, k)->0 != i by {
                        lemma_fired_index(before, k);
                    }
                    assert forall|k: Seq<char>| #[trigger]
                        fired_index(before, k) is Some implies 0 <= fired_index(before, k)->0
                        < before.len() by {
                        lemma_fired_index(before, k);
                    }
                    assert(self@ =~= past.insert(key@, (now_ns, level)));
                }
                true
            },
            None => {
                self.list.push(Fired { key: owned(key), at_ns: now_ns, level });
                proof {
                    let after = self.list@;
                    assert(after.drop_last() =~= before);
                    assert forall|k: Seq<char>| #[trigger]
                        fired_index(before, k) is Some implies 0 <= fired_index(before, k)->0
                        < before.len() by {
                        lemma_fired_index(before, k);
                    }
                    assert(self@ =~= past.insert(key@, (now_ns, level)));
                }
                true
            },
        }
    }
}

proof fn lemma_same_keys(a: Seq<Fired>, b: Seq<Fired>, key: Seq<char>)
    requires
        a.len() == b.len(),
        forall|i: int| 0 <= i < a.len() ==> (#[trigger] a[i]).key@ == b[i].key@,
    ensures
        fired_index(a, key) == fired_index(b, key),
    decreases a.len(),
{
    if a.len() > 0 {
        assert forall|i: int| 0 <= i < a.len() - 1 implies (#[trigger] a.drop_last()[i]).key@
            == b.drop_last()[i].key@ by {
            assert(a.drop_last()[i] == a[i]);
        }
        lemma_same_keys(a.drop_last(), b.drop_last(), key);
        assert(a[a.len() - 1].key@ == b[a.len() - 1].key@);
    }
}

/// Once a valve has fired it stays silent for its cooldown, unless it fires
/// more urgently than before, which it always may.
pub proof fn cooldown_holds_unless_escalated(
    past: Map<Seq<char>, (u64, Level)>,
    key: Seq<char>,
    fired: Level,
    at_ns: u64,
    level: Level,
    now_ns: u64,
)
    ensures
        ({
            let next = past.insert(key, (at_ns, fired));
            &&& urgency(level) > urgency(fired) ==> may_fire(next, key, level, now_ns)
            &&& urgency(level) <= urgency(fired) && now_ns < at_ns + cooldown_of(level)
                * 1_000_000_000 ==> !may_fire(next, key, level, now_ns)
            &&& now_ns >= at_ns + cooldown_of(level) * 1_000_000_000 ==> may_fire(
                next,
                key,
                level,
                now_ns,
            )
        }),
{
}

/// The valves do not hold each other up.
pub proof fn cooldowns_are_independent(
    past: Map<Seq<char>, (u64, Level)>,
    key: Seq<char>,
    other: Seq<char>,
    fired: Level,
    at_ns: u64,
    level: Level,
    now_ns: u64,
)
    requires
        key != other,
    ensures
        may_fire(past.insert(key, (at_ns, fired)), other, level, now_ns) == may_fire(
            past,
            other,
            level,
            now_ns,
        ),
{
}

// ------------------------------------------------------------ notices

pub struct Notice {
    pub level: Level,
    /// Which valve blew, such as "V-01".
    pub valve: &'static str,
    pub title: String,
    /// A label and a share from 0 to 100.
    pub gauge: Option<(String, u8)>,
    /// Observations.
    pub obs: Vec<String>,
    /// The one thing to do.
    pub suggest: Option<String>,
}

#[verifier::ext_equal]
pub struct NoticeView {
    pub level: Level,
    pub valve: Seq<char>,
    pub title: Seq<char>,
    pub gauge: Option<(Seq<char>, u8)>,
    pub obs: Seq<Seq<char>>,
    pub suggest: Option<Seq<char>>,
}

impl View for Notice {
    type V = NoticeView;

    open spec fn view(&self) -> NoticeView {
        NoticeView {
            level: self.level,
            valve: self.valve@,
            title: self.title@,
            gauge: match self.gauge {
                Some((label, score)) => Some((label@, score)),
                None => None,
            },
            obs: texts(self.obs@),
            suggest: opt_text(self.suggest),
        }
    }
}

/// What a list of notices says.
pub open spec fn notice_views(v: Seq<Notice>) -> Seq<NoticeView> {
    v.map_values(|n: Notice| n@)
}

impl Notice {
    /// A notice that says the same.
    pub fn copy(&self) -> (r: Self)
        ensures
            r@ == self@,
    {
        Notice {
            level: self.level,
            valve: self.valve,
            title: self.title.clone(),
            gauge: match &self.gauge {
                Some((label, score)) => Some((label.clone(), *score)),
                None => None,
            },
            obs: copy_texts(&self.obs),
            suggest: match &self.suggest {
                Some(s) => Some(s.clone()),
                None => None,
            },
        }
    }
}

/// Append one notice to a list.
pub fn push_notice(out: &mut Vec<Notice>, n: Notice)
    ensures
        notice_views(final(out)@) == notice_views(old(out)@).push(n@),
{
    let ghost before = out@;
    out.push(n);
    assert(notice_views(out@) =~= notice_views(before).push(n@));
}

// ------------------------------------------------------------ wrapping

/// The lines that words fill, `line` being begun: a word goes on the line
/// where it fits with a space before it, and on a new line otherwise.
pub open spec fn filled_lines(list: Seq<Seq<char>>, line: Seq<char>, width: nat) -> Seq<Seq<char>>
    decreases list.len(),
{
    if list.len() == 0 {
        if line.len() == 0 {
            Seq::empty()
        } else {
            seq![line]
        }
    } else if line.len() == 0 {
        filled_lines(list.drop_first(), list[0], width)
    } else if line.len() + 1 + list[0].len() > width {
        seq![line] + filled_lines(list.drop_first(), list[0], width)
    } else {
        filled_lines(list.drop_first(), line + " "@ + list[0], width)
    }
}

/// A text in lines of a given width: as it is where it fits.
pub open spec fn wrapped(s: Seq<char>, width: nat) -> Seq<Seq<char>> {
    if s.len() <= width {
        seq![s]
    } else {
        filled_lines(words_of(s), Seq::empty(), width)
    }
}

/// Split a line for people to the card width without cutting a word.
pub fn wrap(s: &str, width: usize) -> (r: Vec<String>)
    ensures
        texts(r@) == wrapped(s@, width as nat),
{
    let mut out: Vec<String> = Vec::new();
    if s.unicode_len() <= width {
        push_text(&mut out, owned(s));
        assert(texts(out@) =~= seq![s@]);
        return out;
    }
    let list: Vec<String> = words(s);
    let ghost all = texts(list@);
    let ghost want = filled_lines(all, Seq::empty(), width as nat);
    let mut line: String = String::new();
    let mut i: usize = 0;
    assert(all.skip(0) =~= all);
    assert(texts(out@) + filled_lines(all, line@, width as nat) =~= want);
    while i < list.len()
        invariant
            i <= list.len(),
            all == texts(list@),
            texts(out@) + filled_lines(all.skip(i as int), line@, width as nat) == want,
        decreases list.len() - i,
    {
        let ghost rest = all.skip(i as int);
        let ghost before = texts(out@);
        proof {
            assert(rest.drop_first() =~= all.skip(i as int + 1));
            assert(rest[0] == list@[i as int]@);
        }
        let n: usize = line.as_str().unicode_len();
        let m: usize = list[i].as_str().unicode_len();
        if n == 0 {
            line = list[i].clone();
        } else if n >= width || m >= width - n {
            let ghost done = line@;
            push_text(&mut out, line);
            line = list[i].clone();
            assert(texts(out@) + filled_lines(all.skip(i as int + 1), line@, width as nat)
                =~= before + (seq![done] + filled_lines(
                all.skip(i as int + 1),
                line@,
                width as nat,
            )));
        } else {
            line = cat3(line.as_str(), " ", list[i].as_str());
        }
        i = i + 1;
    }
    assert(all.skip(i as int) =~= Seq::empty());
    if line.as_str().unicode_len() > 0 {
        let ghost before = texts(out@);
        let ghost done = line@;
        push_text(&mut out, line);
        assert(texts(out@) =~= before + seq![done]);
    } else {
        assert(texts(out@) =~= texts(out@) + Seq::empty());
    }
    out
}

pub proof fn lemma_joined_front(a: Seq<char>, rest: Seq<Seq<char>>, sep: Seq<char>)
    requires
        rest.len() > 0,
    ensures
        joined(seq![a] + rest, sep) == a + sep + joined(rest, sep),
    decreases rest.len(),
{
    let all = seq![a] + rest;
    assert(all.last() == rest.last());
    assert(all.drop_last() =~= seq![a] + rest.drop_last());
    if rest.len() == 1 {
        assert(all.drop_last() =~= seq![a]);
        assert(joined(all.drop_last(), sep) == a);
    } else {
        lemma_joined_front(a, rest.drop_last(), sep);
        assert(a + sep + joined(rest.drop_last(), sep) + sep + rest.last() =~= a + sep + (joined(
            rest.drop_last(),
            sep,
        ) + sep + rest.last()));
    }
}

proof fn lemma_filled_keeps(list: Seq<Seq<char>>, line: Seq<char>, width: nat)
    requires
        forall|i: int| 0 <= i < list.len() ==> (#[trigger] list[i]).len() > 0,
    ensures
        line.len() > 0 ==> filled_lines(list, line, width).len() > 0 && joined(
            filled_lines(list, line, width),
            " "@,
        ) == joined(seq![line] + list, " "@),
        line.len() == 0 ==> joined(filled_lines(list, line, width), " "@) == joined(list, " "@),
        list.len() > 0 ==> filled_lines(list, line, width).len() > 0,
    decreases list.len(),
{
    if list.len() == 0 {
        assert(seq![line] + list =~= seq![line]);
    } else {
        let rest = list.drop_first();
        let w = list[0];
        assert forall|i: int| 0 <= i < rest.len() implies (#[trigger] rest[i]).len() > 0 by {
            assert(rest[i] == list[i + 1]);
        }
        assert(list =~= seq![w] + rest);
        if line.len() == 0 {
            lemma_filled_keeps(rest, w, width);
        } else if line.len() + 1 + w.len() > width {
            lemma_filled_keeps(rest, w, width);
            lemma_joined_front(line, filled_lines(rest, w, width), " "@);
            lemma_joined_front(line, list, " "@);
        } else {
            let longer = line + " "@ + w;
            lemma_filled_keeps(rest, longer, width);
            lemma_joined_front(line, list, " "@);
            if rest.len() > 0 {
                lemma_joined_front(longer, rest, " "@);
                lemma_joined_front(w, rest, " "@);
                assert(line + " "@ + w + " "@ + joined(rest, " "@) =~= line + " "@ + (w + " "@
                    + joined(rest, " "@)));
            } else {
                assert(seq![longer] + rest =~= seq![longer]);
                assert(list =~= seq![w]);
            }
        }
    }
}

/// Wrapping loses no word and reorders none: the lines, joined by spaces,
/// read as the words do.
pub proof fn wrapping_keeps_the_words(s: Seq<char>, width: nat)
    requires
        s.len() > width,
    ensures
        joined(wrapped(s, width), " "@) == joined(words_of(s), " "@),
{
    lemma_words_nonempty(s);
    lemma_filled_keeps(words_of(s), Seq::empty(), width);
}

proof fn lemma_filled_fits(list: Seq<Seq<char>>, line: Seq<char>, width: nat, known: Seq<Seq<char>>)
    requires
        line.len() <= width || known.contains(line),
        forall|i: int| 0 <= i < list.len() ==> known.contains(#[trigger] list[i]),
    ensures
        forall|k: int|
            0 <= k < filled_lines(list, line, width).len() ==> (#[trigger] filled_lines(
                list,
                line,
                width,
            )[k]).len() <= width || known.contains(filled_lines(list, line, width)[k]),
    decreases list.len(),
{
    if list.len() > 0 {
        let rest = list.drop_first();
        let w = list[0];
        assert forall|i: int| 0 <= i < rest.len() implies known.contains(#[trigger] rest[i]) by {
            assert(rest[i] == list[i + 1]);
        }
        if line.len() == 0 || line.len() + 1 + w.len() > width {
            lemma_filled_fits(rest, w, width, known);
            let tail = filled_lines(rest, w, width);
            if line.len() == 0 {
                assert(filled_lines(list, line, width) == tail);
            } else {
                assert(filled_lines(list, line, width) == seq![line] + tail);
                assert forall|k: int| 0 <= k < filled_lines(list, line, width).len() implies (
                #[trigger] filled_lines(list, line, width)[k]).len() <= width || known.contains(
                    filled_lines(list, line, width)[k],
                ) by {
                    if k > 0 {
                        assert(filled_lines(list, line, width)[k] == tail[k - 1]);
                    }
                }
            }
        } else {
            reveal_strlit(" ");
            lemma_filled_fits(rest, line + " "@ + w, width, known);
            assert(filled_lines(list, line, width) == filled_lines(
                rest,
                line + " "@ + w,
                width,
            ));
        }
    }
}

/// A line is longer than the width only where it is a single word that is.
pub proof fn wrapped_lines_fit(s: Seq<char>, width: nat)
    ensures
        forall|k: int|
            0 <= k < wrapped(s, width).len() ==> (#[trigger] wrapped(s, width)[k]).len() <= width
                || words_of(s).contains(wrapped(s, width)[k]),
{
    if s.len() > width {
        let list = words_of(s);
        assert forall|i: int| 0 <= i < list.len() implies list.contains(#[trigger] list[i]) by {}
        lemma_filled_fits(list, Seq::empty(), width, list);
    }
}

// ------------------------------------------------------------ the clock

/// Whether the output of `date +%z` begins with a sign of one byte.
pub open spec fn tz_splits(s: Seq<char>) -> bool {
    trimmed(s).len() > 0 && trimmed(s)[0] as int <= 127
}

/// The offset from UTC in seconds that the output of `date +%z` names, or
/// none where it is no offset.
pub open spec fn tz_of(s: Seq<char>) -> int {
    let t = trimmed(s);
    let rest = t.drop_first();
    if rest.len() < 4 {
        0
    } else {
        match (
            parsed_signed(rest.subrange(0, 2), i32::MAX as nat),
            parsed_signed(rest.subrange(2, 4), i32::MAX as nat),
        ) {
            (Some(h), Some(m)) if -100 < h < 100 && -100 < m < 100 => {
                let secs = h * 3600 + m * 60;
                if t[0] == '-' {
                    -secs
                } else {
                    secs
                }
            },
            _ => 0,
        }
    }
}

pub fn tz_offset(text: &str) -> (r: i64)
    requires
        tz_splits(text@),
    ensures
        r == tz_of(text@),
        -400_000 < r < 400_000,
{
    let t: String = trim(text);
    let v: Vec<char> = chars_of(t.as_str());
    let ghost rest = v@.drop_first();
    if v.len() < 5 {
        return 0;
    }
    let hh: String = text_between(&v, 1, 3);
    let mm: String = text_between(&v, 3, 5);
    proof {
        assert(hh@ =~= rest.subrange(0, 2));
        assert(mm@ =~= rest.subrange(2, 4));
    }
    if let Some(h) = parse_i32(hh.as_str()) {
        if let Some(m) = parse_i32(mm.as_str()) {
            if -100 < h && h < 100 && -100 < m && m < 100 {
                let secs: i64 = h as i64 * 3600 + m as i64 * 60;
                return if v[0] == '-' {
                    -secs
                } else {
                    secs
                };
            }
        }
    }
    0
}

/// The offset that the output of `date +%z` names, where it begins with a sign
/// of one byte at all.
pub fn offset_named(text: &str) -> (r: Option<i64>)
    ensures
        r is Some <==> tz_splits(text@),
        r matches Some(v) ==> v == tz_of(text@),
{
    let t: String = trim(text);
    let s: &str = t.as_str();
    if s.unicode_len() > 0 && is_ascii_char(s.get_char(0)) {
        Some(tz_offset(text))
    } else {
        None
    }
}

/// The second of the local day.
pub open spec fn day_second(unix: int, offset: int) -> nat {
    ((unix + offset) % 86_400) as nat
}

fn second_of_day(unix: i64, offset: i64) -> (r: u64)
    requires
        i64::MIN <= unix + offset <= i64::MAX,
    ensures
        r == day_second(unix as int, offset as int),
        r < 86_400,
{
    let s: i64 = unix + offset;
    if s >= 0 {
        (s % 86_400) as u64
    } else {
        let back: i64 = (-(s + 1)) % 86_400;
        (86_399 - back) as u64
    }
}

/// A clock time.
pub open spec fn hms_text(day: nat) -> Seq<char> {
    two_digits(day / 3600) + ":"@ + two_digits((day % 3600) / 60) + ":"@ + two_digits(day % 60)
}

/// Local wall-clock time, from the seconds since the epoch and the offset.
pub fn local_hms(unix: i64, offset: i64) -> (r: String)
    requires
        i64::MIN <= unix + offset <= i64::MAX,
    ensures
        r@ == hms_text(day_second(unix as int, offset as int)),
{
    let day: u64 = second_of_day(unix, offset);
    cat5(
        dec2(day / 3600).as_str(),
        ":",
        dec2((day % 3600) / 60).as_str(),
        ":",
        dec2(day % 60).as_str(),
    )
}

pub fn local_hour(unix: i64, offset: i64) -> (r: usize)
    requires
        i64::MIN <= unix + offset <= i64::MAX,
    ensures
        r == day_second(unix as int, offset as int) / 3600,
        r < 24,
{
    (second_of_day(unix, offset) / 3600) as usize
}

// ------------------------------------------------------------ cards

/// The width inside the frame.
pub const CARD_WIDTH: usize = 54;

/// The frame colour of a level.
pub open spec fn frame_code(l: Level) -> Seq<char> {
    match l {
        Level::Advisory => "36"@,
        Level::Warning => "33"@,
        Level::Critical => "31"@,
    }
}

/// What is missing to a width.
pub open spec fn missing(width: nat, have: nat) -> nat {
    if have >= width {
        0
    } else {
        (width - have) as nat
    }
}

/// A framed line: `visible` is what `content` shows without its colours.
pub open spec fn framed(t: Theme, l: Level, content: Seq<char>, visible: nat) -> Seq<char> {
    painted(t, frame_code(l), "║"@) + " "@ + (content + repeated(
        ' ',
        missing(CARD_WIDTH as nat, visible),
    )) + " "@ + painted(t, frame_code(l), "║"@)
}

/// A border line that holds a text.
pub open spec fn border(
    t: Theme,
    l: Level,
    left: Seq<char>,
    text: Seq<char>,
    right: Seq<char>,
) -> Seq<char> {
    painted(t, frame_code(l), left) + painted(t, frame_code(l), text) + painted(
        t,
        frame_code(l),
        repeated('═', missing(CARD_WIDTH as nat + 2, text.len() + 1)) + right,
    )
}

pub open spec fn card_head(n: NoticeView) -> Seq<char> {
    "[ PV::VALVE ]═[ "@ + n.valve + " "@ + level_tag(n.level) + " ]"@
}

pub open spec fn card_meta(unix: int, offset: int) -> Seq<char> {
    hms_text(day_second(unix, offset)) + " · local watch · vent 0x"@ + padded_left(
        hexadecimal((unix % 65_536) as nat, true),
        4,
        '0',
    )
}

/// The gauge's bar: one mark for each full tenth.
pub open spec fn gauge_text(score: u8) -> Seq<char> {
    let share = score as nat / 10;
    let filled = if share > 10 {
        10
    } else {
        share
    };
    repeated('▰', filled) + repeated('▱', (10 - filled) as nat)
}

pub open spec fn steam(t: Theme, l: Level) -> Seq<Seq<char>> {
    if l == Level::Critical {
        seq![
            painted(t, "31"@, "   )   (   )   (   )   (   )   (   )   (   )   ("@),
            painted(t, "31"@, "  (   )   (   )   (  STEAM OVERPRESSURE  )   (   )"@),
        ]
    } else {
        Seq::empty()
    }
}

pub open spec fn blank(t: Theme, l: Level) -> Seq<char> {
    framed(t, l, Seq::empty(), 0)
}

pub open spec fn gauge_line(t: Theme, n: NoticeView) -> Seq<Seq<char>> {
    match n.gauge {
        Some((label, score)) => seq![
            framed(
                t,
                n.level,
                label + " "@ + painted(t, score_code(score), gauge_text(score)) + " "@ + decimal(
                    score as nat,
                ) + "%"@,
                (label + " "@ + gauge_text(score) + " "@ + decimal(score as nat) + "%"@).len(),
            ),
        ],
        None => Seq::empty(),
    }
}

/// Lines of a text in a frame, in one style.
pub open spec fn framed_all(
    t: Theme,
    l: Level,
    code: Seq<char>,
    list: Seq<Seq<char>>,
) -> Seq<Seq<char>> {
    list.map_values(|x: Seq<char>| framed(t, l, painted(t, code, x), x.len()))
}

/// The observations, wrapped and framed.
pub open spec fn obs_lines(t: Theme, l: Level, obs: Seq<Seq<char>>) -> Seq<Seq<char>>
    decreases obs.len(),
{
    if obs.len() == 0 {
        Seq::empty()
    } else {
        obs_lines(t, l, obs.drop_last()) + framed_all(
            t,
            l,
            "2"@,
            wrapped(obs.last(), CARD_WIDTH as nat),
        )
    }
}

/// The first line with the vent mark, the others below it.
pub open spec fn marked(list: Seq<Seq<char>>) -> Seq<Seq<char>> {
    Seq::new(
        list.len(),
        |i: int|
            if i == 0 {
                "› "@ + list[i]
            } else {
                "  "@ + list[i]
            },
    )
}

pub open spec fn suggest_lines(t: Theme, n: NoticeView) -> Seq<Seq<char>> {
    match n.suggest {
        Some(s) => seq![blank(t, n.level)] + framed_all(
            t,
            n.level,
            "1"@,
            marked(wrapped(s, (CARD_WIDTH - 2) as nat)),
        ),
        None => Seq::empty(),
    }
}

/// The header of a card: its border, when and where it was issued, a gap, and
/// its title.
pub open spec fn head_lines(t: Theme, n: NoticeView, unix: int, offset: int) -> Seq<Seq<char>> {
    seq![
        border(t, n.level, "╔═"@, card_head(n), "╗"@),
        framed(
            t,
            n.level,
            painted(t, "2"@, card_meta(unix, offset)),
            card_meta(unix, offset).len(),
        ),
        blank(t, n.level),
        framed(t, n.level, painted(t, "1"@, n.title), n.title.len()),
    ]
}

/// The lines of a valve card.
pub open spec fn card_lines(t: Theme, n: NoticeView, unix: int, offset: int) -> Seq<Seq<char>> {
    steam(t, n.level) + head_lines(t, n, unix, offset) + gauge_line(t, n) + seq![blank(t, n.level)] + obs_lines(t, n.level, n.obs) + suggest_lines(
        t,
        n,
    ) + seq![border(t, n.level, "╚═"@, "[ end of line ]"@, "╝"@), Seq::empty()]
}

fn code_of(l: Level) -> (r: &'static str)
    ensures
        r@ == frame_code(l),
{
    match l {
        Level::Advisory => "36",
        Level::Warning => "33",
        Level::Critical => "31",
    }
}

fn frame(t: &Theme, l: Level, content: &str, visible: usize) -> (r: String)
    ensures
        r@ == framed(*t, l, content@, visible as nat),
{
    let code: &str = code_of(l);
    let gap: usize = if visible >= CARD_WIDTH {
        0
    } else {
        CARD_WIDTH - visible
    };
    let side: String = t.paint(code, "║");
    let mid: String = cat2(content, repeat(' ', gap).as_str());
    cat5(side.as_str(), " ", mid.as_str(), " ", side.as_str())
}

fn rule(t: &Theme, l: Level, left: &str, text: &str, right: &str) -> (r: String)
    ensures
        r@ == border(*t, l, left@, text@, right@),
{
    let code: &str = code_of(l);
    let have: usize = text.unicode_len();
    let gap: usize = if have >= CARD_WIDTH + 1 {
        0
    } else {
        CARD_WIDTH + 1 - have
    };
    let tail: String = cat2(repeat('═', gap).as_str(), right);
    cat3(
        t.paint(code, left).as_str(),
        t.paint(code, text).as_str(),
        t.paint(code, tail.as_str()).as_str(),
    )
}

fn gauge_bar(score: u8) -> (r: String)
    ensures
        r@ == gauge_text(score),
{
    let share: usize = score as usize * 10 / 100;
    let filled: usize = if share > 10 {
        10
    } else {
        share
    };
    cat2(repeat('▰', filled).as_str(), repeat('▱', 10 - filled).as_str())
}

fn frame_all(t: &Theme, l: Level, code: &str, list: &Vec<String>) -> (r: Vec<String>)
    ensures
        texts(r@) == framed_all(*t, l, code@, texts(list@)),
{
    let ghost all = texts(list@);
    let mut out: Vec<String> = Vec::new();
    let mut i: usize = 0;
    while i < list.len()
        invariant
            i <= list.len(),
            all == texts(list@),
            texts(out@) == framed_all(*t, l, code@, all.take(i as int)),
        decreases list.len() - i,
    {
        let ghost before = texts(out@);
        let x: &str = list[i].as_str();
        let n: usize = x.unicode_len();
        push_text(&mut out, frame(t, l, t.paint(code, x).as_str(), n));
        proof {
            assert(all.take(i as int + 1) =~= all.take(i as int).push(x@));
            assert(texts(out@) =~= framed_all(*t, l, code@, all.take(i as int + 1)));
        }
        i = i + 1;
    }
    assert(all.take(i as int) =~= all);
    out
}

fn mark(list: &Vec<String>) -> (r: Vec<String>)
    ensures
        texts(r@) == marked(texts(list@)),
{
    let ghost all = texts(list@);
    let mut out: Vec<String> = Vec::new();
    let mut i: usize = 0;
    while i < list.len()
        invariant
            i <= list.len(),
            all == texts(list@),
            texts(out@) == marked(all).take(i as int),
        decreases list.len() - i,
    {
        let x: String = cat2(
            if i == 0 {
                "› "
            } else {
                "  "
            },
            list[i].as_str(),
        );
        assert(x@ == marked(all)[i as int]);
        push_text(&mut out, x);
        assert(texts(out@) =~= marked(all).take(i as int + 1));
        i = i + 1;
    }
    assert(texts(out@) =~= marked(all));
    out
}

fn push_obs(out: &mut Vec<String>, t: &Theme, l: Level, obs: &Vec<String>)
    ensures
        texts(final(out)@) == texts(old(out)@) + obs_lines(*t, l, texts(obs@)),
{
    let ghost all = texts(obs@);
    let ghost start = texts(out@);
    let mut i: usize = 0;
    assert(start + obs_lines(*t, l, all.take(0)) =~= start);
    while i < obs.len()
        invariant
            i <= obs.len(),
            all == texts(obs@),
            texts(out@) == start + obs_lines(*t, l, all.take(i as int)),
        decreases obs.len() - i,
    {
        let lines: Vec<String> = frame_all(t, l, "2", &wrap(obs[i].as_str(), CARD_WIDTH));
        push_all(out, &lines);
        proof {
            assert(all.take(i as int + 1).drop_last() =~= all.take(i as int));
            assert(all.take(i as int + 1).last() == obs@[i as int]@);
            assert(texts(out@) =~= start + obs_lines(*t, l, all.take(i as int + 1)));
        }
        i = i + 1;
    }
    assert(all.take(i as int) =~= all);
}

/// The last two bytes of a time, which number the vent.
fn serial(unix: i64) -> (r: u32)
    requires
        0 <= unix,
    ensures
        r == unix % 65_536,
{
    (unix % 65_536) as u32
}

fn steam_part(t: &Theme, l: Level) -> (r: Vec<String>)
    ensures
        texts(r@) == steam(*t, l),
{
    let mut out: Vec<String> = Vec::new();
    if l == Level::Critical {
        push_text(&mut out, t.red("   )   (   )   (   )   (   )   (   )   (   )   ("));
        push_text(&mut out, t.red("  (   )   (   )   (  STEAM OVERPRESSURE  )   (   )"));
    }
    assert(texts(out@) =~= steam(*t, l));
    out
}

fn head_part(t: &Theme, n: &Notice, unix: i64, offset: i64) -> (r: Vec<String>)
    requires
        0 <= unix,
        unix + offset <= i64::MAX,
    ensures
        texts(r@) == head_lines(*t, n@, unix as int, offset as int),
{
    let l: Level = n.level;
    let mut out: Vec<String> = Vec::new();
    let head: String = cat5("[ PV::VALVE ]═[ ", n.valve, " ", l.tag(), " ]");
    push_text(&mut out, rule(t, l, "╔═", head.as_str(), "╗"));
    let meta: String = cat3(
        local_hms(unix, offset).as_str(),
        " · local watch · vent 0x",
        pad_left(hex(serial(unix), true).as_str(), 4, '0').as_str(),
    );
    push_text(
        &mut out,
        frame(t, l, t.dim(meta.as_str()).as_str(), meta.as_str().unicode_len()),
    );
    push_text(&mut out, blank_line(t, l));
    let title: &str = n.title.as_str();
    push_text(&mut out, frame(t, l, t.bold(title).as_str(), title.unicode_len()));
    assert(texts(out@) =~= head_lines(*t, n@, unix as int, offset as int));
    out
}

fn blank_line(t: &Theme, l: Level) -> (r: String)
    ensures
        r@ == blank(*t, l),
{
    frame(t, l, String::new().as_str(), 0)
}

fn gauge_part(t: &Theme, n: &Notice) -> (r: Vec<String>)
    ensures
        texts(r@) == gauge_line(*t, n@),
{
    let mut out: Vec<String> = Vec::new();
    if let Some((label, score)) = &n.gauge {
        let plain: String = gauge_bar(*score);
        let code: &str = if *score >= 75 {
            "31"
        } else if *score >= 45 {
            "33"
        } else {
            "32"
        };
        let share: String = dec64(*score as u64);
        let shown: String = cat6(
            label.as_str(),
            " ",
            t.paint(code, plain.as_str()).as_str(),
            " ",
            share.as_str(),
            "%",
        );
        let vis: String = cat6(label.as_str(), " ", plain.as_str(), " ", share.as_str(), "%");
        push_text(&mut out, frame(t, n.level, shown.as_str(), vis.as_str().unicode_len()));
    }
    assert(texts(out@) =~= gauge_line(*t, n@));
    out
}

fn suggest_part(t: &Theme, n: &Notice) -> (r: Vec<String>)
    ensures
        texts(r@) == suggest_lines(*t, n@),
{
    let mut out: Vec<String> = Vec::new();
    if let Some(s) = &n.suggest {
        push_text(&mut out, blank_line(t, n.level));
        assert(texts(out@) =~= seq![blank(*t, n.level)]);
        let lines: Vec<String> = frame_all(
            t,
            n.level,
            "1",
            &mark(&wrap(s.as_str(), CARD_WIDTH - 2)),
        );
        push_all(&mut out, &lines);
    }
    assert(texts(out@) =~= suggest_lines(*t, n@));
    out
}

/// Render a notice as a valve card.
pub fn render(t: &Theme, n: &Notice, unix: i64, offset: i64) -> (r: String)
    requires
        0 <= unix,
        unix + offset <= i64::MAX,
    ensures
        r@ == joined(card_lines(*t, n@, unix as int, offset as int), "\n"@) + "\n"@,
{
    let l: Level = n.level;
    let mut out: Vec<String> = steam_part(t, l);
    push_all(&mut out, &head_part(t, n, unix, offset));
    push_all(&mut out, &gauge_part(t, n));
    let mut gap: Vec<String> = Vec::new();
    push_text(&mut gap, blank_line(t, l));
    assert(texts(gap@) =~= seq![blank(*t, l)]);
    push_all(&mut out, &gap);
    push_obs(&mut out, t, l, &n.obs);
    push_all(&mut out, &suggest_part(t, n));
    let mut foot: Vec<String> = Vec::new();
    push_text(&mut foot, rule(t, l, "╚═", "[ end of line ]", "╝"));
    push_text(&mut foot, String::new());
    assert(texts(foot@) =~= seq![
        border(*t, l, "╚═"@, "[ end of line ]"@, "╝"@),
        Seq::empty(),
    ]);
    push_all(&mut out, &foot);
    cat2(join(&out, "\n").as_str(), "\n")
}

/// Whether what a notice says fits its card: the name of the valve, the title,
/// the label of the gauge, and each word of the observations and of the
/// suggestion.
pub open spec fn card_fits(n: NoticeView) -> bool {
    &&& n.valve.len() <= 20
    &&& n.title.len() <= CARD_WIDTH
    &&& n.gauge matches Some((label, score)) ==> label.len() + 16 <= CARD_WIDTH
    &&& forall|i: int, k: int|
        0 <= i < n.obs.len() && 0 <= k < words_of(n.obs[i]).len() ==> (#[trigger] words_of(
            n.obs[i],
        )[k]).len() <= CARD_WIDTH
    &&& n.suggest matches Some(s) ==> forall|k: int|
        0 <= k < words_of(s).len() ==> (#[trigger] words_of(s)[k]).len() + 2 <= CARD_WIDTH
}

/// Whether lines are all as wide as a card.
pub open spec fn all_wide(list: Seq<Seq<char>>) -> bool {
    forall|i: int| 0 <= i < list.len() ==> (#[trigger] list[i]).len() == CARD_WIDTH + 4
}

proof fn lemma_framed_width(l: Level, content: Seq<char>)
    requires
        content.len() <= CARD_WIDTH,
    ensures
        framed(Theme { enabled: false }, l, content, content.len()).len() == CARD_WIDTH + 4,
{
    reveal_strlit("║");
    reveal_strlit(" ");
}

proof fn lemma_framed_all_width(l: Level, code: Seq<char>, list: Seq<Seq<char>>)
    requires
        forall|i: int| 0 <= i < list.len() ==> (#[trigger] list[i]).len() <= CARD_WIDTH,
    ensures
        all_wide(framed_all(Theme { enabled: false }, l, code, list)),
{
    let out = framed_all(Theme { enabled: false }, l, code, list);
    assert forall|i: int| 0 <= i < out.len() implies (#[trigger] out[i]).len() == CARD_WIDTH
        + 4 by {
        lemma_framed_width(l, list[i]);
    }
}

proof fn lemma_obs_width(l: Level, obs: Seq<Seq<char>>)
    requires
        forall|i: int, k: int|
            0 <= i < obs.len() && 0 <= k < words_of(obs[i]).len() ==> (#[trigger] words_of(
                obs[i],
            )[k]).len() <= CARD_WIDTH,
    ensures
        all_wide(obs_lines(Theme { enabled: false }, l, obs)),
    decreases obs.len(),
{
    if obs.len() > 0 {
        let rest = obs.drop_last();
        let last = obs.len() - 1;
        assert forall|i: int, k: int|
            0 <= i < rest.len() && 0 <= k < words_of(rest[i]).len() implies (#[trigger] words_of(
            rest[i],
        )[k]).len() <= CARD_WIDTH by {
            assert(rest[i] == obs[i]);
        }
        lemma_obs_width(l, rest);
        let list = wrapped(obs[last], CARD_WIDTH as nat);
        wrapped_lines_fit(obs[last], CARD_WIDTH as nat);
        assert forall|i: int| 0 <= i < list.len() implies (#[trigger] list[i]).len()
            <= CARD_WIDTH by {
            if words_of(obs[last]).contains(list[i]) {
                let k = choose|k: int|
                    0 <= k < words_of(obs[last]).len() && words_of(obs[last])[k] == list[i];
                assert(words_of(obs[last])[k].len() <= CARD_WIDTH);
            }
        }
        lemma_framed_all_width(l, "2"@, list);
    }
}

proof fn lemma_suggest_width(n: NoticeView)
    requires
        card_fits(n),
    ensures
        all_wide(suggest_lines(Theme { enabled: false }, n)),
{
    if let Some(s) = n.suggest {
        let width = (CARD_WIDTH - 2) as nat;
        let list = wrapped(s, width);
        let out = marked(list);
        wrapped_lines_fit(s, width);
        reveal_strlit("› ");
        reveal_strlit("  ");
        assert forall|i: int| 0 <= i < out.len() implies (#[trigger] out[i]).len()
            <= CARD_WIDTH by {
            assert(list[i].len() <= width) by {
                if words_of(s).contains(list[i]) {
                    let k = choose|k: int|
                        0 <= k < words_of(s).len() && words_of(s)[k] == list[i];
                    assert(words_of(s)[k].len() + 2 <= CARD_WIDTH);
                }
            }
        }
        lemma_framed_all_width(n.level, "1"@, out);
        lemma_framed_width(n.level, Seq::empty());
    }
}

proof fn lemma_meta_width(unix: int, offset: int)
    ensures
        card_meta(unix, offset).len() <= CARD_WIDTH,
{
    reveal_strlit(":");
    reveal_strlit(" · local watch · vent 0x");
    reveal_with_fuel(decimal, 3);
    reveal_with_fuel(hexadecimal, 5);
    let day = day_second(unix, offset);
    assert(decimal(day / 3600).len() <= 2);
    assert(decimal((day % 3600) / 60).len() <= 2);
    assert(decimal(day % 60).len() <= 2);
    assert(hexadecimal((unix % 65_536) as nat, true).len() <= 4);
}

proof fn lemma_border_width(l: Level, left: Seq<char>, text: Seq<char>, right: Seq<char>)
    requires
        left.len() == 2,
        text.len() <= CARD_WIDTH + 1,
        right.len() == 1,
    ensures
        border(Theme { enabled: false }, l, left, text, right).len() == CARD_WIDTH + 4,
{
}

proof fn lemma_card_head_width(n: NoticeView, unix: int, offset: int)
    requires
        card_fits(n),
    ensures
        all_wide(head_lines(Theme { enabled: false }, n, unix, offset)),
        all_wide(gauge_line(Theme { enabled: false }, n)),
{
    reveal_strlit("╔═");
    reveal_strlit("╗");
    reveal_strlit(" ");
    reveal_strlit("%");
    assert(card_head(n).len() <= CARD_WIDTH + 1) by {
        reveal_strlit("[ PV::VALVE ]═[ ");
        reveal_strlit(" ]");
        reveal_strlit("ADVISORY");
        reveal_strlit("WARNING");
        reveal_strlit("CRITICAL");
    }
    lemma_border_width(n.level, "╔═"@, card_head(n), "╗"@);
    lemma_meta_width(unix, offset);
    lemma_framed_width(n.level, card_meta(unix, offset));
    lemma_framed_width(n.level, Seq::empty());
    lemma_framed_width(n.level, n.title);
    if let Some((label, score)) = n.gauge {
        reveal_with_fuel(decimal, 3);
        assert(decimal(score as nat).len() <= 3);
        lemma_framed_width(
            n.level,
            label + " "@ + gauge_text(score) + " "@ + decimal(score as nat) + "%"@,
        );
    }
}

/// Cards are rectangular: without colours every line of the plate, from its
/// head to its foot, is exactly as wide as the card, where what the notice says
/// fits. Above it stands at most the steam, and below it nothing.
pub proof fn cards_are_rectangular(n: NoticeView, unix: int, offset: int)
    requires
        card_fits(n),
    ensures
        ({
            let t = Theme { enabled: false };
            let all = card_lines(t, n, unix, offset);
            let top = steam(t, n.level).len() as int;
            &&& all_wide(all.subrange(top, all.len() - 1))
            &&& all.last().len() == 0
        }),
{
    let t = Theme { enabled: false };
    let all = card_lines(t, n, unix, offset);
    let top = steam(t, n.level).len() as int;
    let head = head_lines(t, n, unix, offset);
    let gauge = gauge_line(t, n);
    let obs = obs_lines(t, n.level, n.obs);
    let more = suggest_lines(t, n);
    let foot = border(t, n.level, "╚═"@, "[ end of line ]"@, "╝"@);
    lemma_card_head_width(n, unix, offset);
    lemma_obs_width(n.level, n.obs);
    lemma_suggest_width(n);
    lemma_framed_width(n.level, Seq::empty());
    reveal_strlit("╚═");
    reveal_strlit("╝");
    reveal_strlit("[ end of line ]");
    lemma_border_width(n.level, "╚═"@, "[ end of line ]"@, "╝"@);
    let plate = head + gauge + seq![blank(t, n.level)] + obs + more + seq![foot];
    assert(all.subrange(top, all.len() - 1) =~= plate);
    assert forall|i: int| 0 <= i < plate.len() implies (#[trigger] plate[i]).len() == CARD_WIDTH
        + 4 by {
        let a = head.len() as int;
        let b = a + gauge.len();
        let c = b + 1;
        let d = c + obs.len();
        let e = d + more.len();
        if i < a {
            assert(plate[i] == head[i]);
        } else if i < b {
            assert(plate[i] == gauge[i - a]);
        } else if i < c {
            assert(plate[i] == blank(t, n.level));
        } else if i < d {
            assert(plate[i] == obs[i - c]);
        } else if i < e {
            assert(plate[i] == more[i - d]);
        } else {
            assert(plate[i] == foot);
        }
    }
}

// ------------------------------------------------------------ the desktop

pub open spec fn urgency_word(l: Level) -> Seq<char> {
    match l {
        Level::Advisory => "low"@,
        Level::Warning => "normal"@,
        Level::Critical => "critical"@,
    }
}

/// The arguments of `notify-send` for a notice.
pub open spec fn desktop_text(n: NoticeView) -> Seq<Seq<char>> {
    seq![
        "-u"@,
        urgency_word(n.level),
        "PV :: "@ + n.title,
        match n.suggest {
            Some(s) => joined(n.obs, "\n"@) + "\n\n› "@ + s,
            None => joined(n.obs, "\n"@),
        },
    ]
}

/// What to hand to `notify-send`.
pub fn desktop(n: &Notice) -> (r: Vec<String>)
    ensures
        texts(r@) == desktop_text(n@),
{
    let word: &str = match n.level {
        Level::Advisory => "low",
        Level::Warning => "normal",
        Level::Critical => "critical",
    };
    let obs: String = join(&n.obs, "\n");
    let body: String = match &n.suggest {
        Some(s) => cat3(obs.as_str(), "\n\n› ", s.as_str()),
        None => obs,
    };
    let mut out: Vec<String> = Vec::new();
    push_text(&mut out, owned("-u"));
    push_text(&mut out, owned(word));
    push_text(&mut out, cat2("PV :: ", n.title.as_str()));
    push_text(&mut out, body);
    assert(texts(out@) =~= desktop_text(n@));
    out
}

/// A notice of the same valve waits a quarter of an hour where it is an
/// advisory, ten minutes where it is a warning that follows no advisory, and
/// five minutes where it follows a critical one. A valve that never fired
/// waits for nothing.
pub proof fn notices_wait_by_their_level(
    past: Map<Seq<char>, (u64, Level)>,
    key: Seq<char>,
    now_ns: u64,
)
    ensures
        !past.dom().contains(key) ==> may_fire(past, key, Level::Advisory, now_ns) && may_fire(
            past,
            key,
            Level::Warning,
            now_ns,
        ) && may_fire(past, key, Level::Critical, now_ns),
        past.dom().contains(key) ==> {
            let waited = now_ns - past[key].0;
            &&& may_fire(past, key, Level::Advisory, now_ns) <==> waited >= 900_000_000_000
            &&& may_fire(past, key, Level::Warning, now_ns) <==> past[key].1 == Level::Advisory
                || waited >= 600_000_000_000
            &&& may_fire(past, key, Level::Critical, now_ns) <==> past[key].1 != Level::Critical
                || waited >= 300_000_000_000
        },
{
}

/// What fired is found under its key, and nothing under another.
pub proof fn firings_are_found_by_key(c: Cooldowns, key: Seq<char>)
    ensures
        c@.dom().contains(key) <==> exists|i: int|
            0 <= i < c.list@.len() && (#[trigger] c.list@[i]).key@ == key,
        c@.dom().contains(key) ==> exists|i: int|
            0 <= i < c.list@.len() && (#[trigger] c.list@[i]).key@ == key && c@[key] == (
                c.list@[i].at_ns,
                c.list@[i].level,
            ),
{
    lemma_fired(c.list@, key);
    if c@.dom().contains(key) {
        let i = fired_index(c.list@, key)->0;
        assert(c.list@[i].key@ == key);
    }
}

proof fn lemma_fired(list: Seq<Fired>, key: Seq<char>)
    ensures
        fired_index(list, key) matches Some(i) ==> 0 <= i < list.len() && list[i].key@ == key,
        fired_index(list, key) is None ==> forall|i: int|
            0 <= i < list.len() ==> (#[trigger] list[i]).key@ != key,
    decreases list.len(),
{
    if list.len() > 0 {
        lemma_fired(list.drop_last(), key);
        if fired_index(list, key) is None {
            assert forall|i: int| 0 <= i < list.len() implies (#[trigger] list[i]).key@ != key by {
                if i < list.len() - 1 {
                    assert(list.drop_last()[i] == list[i]);
                }
            }
        }
    }
}

/// The clock shows the hour, the minute and the second of the local day, with
/// two digits each.
pub proof fn clocks_show_the_local_time(
    unix: int,
    offset: int,
    day: int,
    h: nat,
    m: nat,
    s: nat,
)
    requires
        h < 24,
        m < 60,
        s < 60,
        unix + offset == day * 86_400 + h * 3600 + m * 60 + s,
    ensures
        ({
            let r = hms_text(day_second(unix, offset));
            &&& r.len() == 8
            &&& r[0] as int == '0' as int + h / 10 && r[1] as int == '0' as int + h % 10
            &&& r[2] == ':' && r[5] == ':'
            &&& r[3] as int == '0' as int + m / 10 && r[4] as int == '0' as int + m % 10
            &&& r[6] as int == '0' as int + s / 10 && r[7] as int == '0' as int + s % 10
        }),
        day_second(unix, offset) / 3600 == h,
{
    let rest = h * 3600 + m * 60 + s;
    assert((day * 86_400 + rest) % 86_400 == rest) by (nonlinear_arith)
        requires
            0 <= rest < 86_400,
    ;
    assert(rest / 3600 == h);
    assert(rest % 3600 == m * 60 + s);
    assert((m * 60 + s) / 60 == m);
    assert(rest % 60 == s);
    lemma_two(h);
    lemma_two(m);
    lemma_two(s);
    reveal_strlit(":");
}

proof fn lemma_two(n: nat)
    requires
        n < 100,
    ensures
        two_digits(n).len() == 2,
        two_digits(n)[0] as int == '0' as int + n / 10,
        two_digits(n)[1] as int == '0' as int + n % 10,
{
    if n >= 10 {
        assert(decimal(n) == decimal(n / 10).push(digit_of(n % 10, false)));
        assert(decimal(n / 10) == seq![digit_of(n / 10, false)]);
    } else {
        assert(decimal(n) == seq![digit_of(n, false)]);
        assert(repeated('0', 1) =~= seq!['0']);
    }
}

/// An offset from UTC is a sign, two digits of hours and two of minutes.
pub proof fn offsets_are_hours_and_minutes(text: Seq<char>, h: nat, m: nat)
    requires
        h < 100,
        m < 100,
        trimmed(text).len() == 5,
        trimmed(text).subrange(1, 3) == two_digits(h),
        trimmed(text).subrange(3, 5) == two_digits(m),
    ensures
        trimmed(text)[0] == '+' ==> tz_of(text) == h * 3600 + m * 60,
        trimmed(text)[0] == '-' ==> tz_of(text) == -(h * 3600 + m * 60),
{
    let t = trimmed(text);
    let rest = t.drop_first();
    assert(rest.subrange(0, 2) =~= t.subrange(1, 3));
    assert(rest.subrange(2, 4) =~= t.subrange(3, 5));
    lemma_two_reads_back(h);
    lemma_two_reads_back(m);
}

proof fn lemma_two_reads_back(n: nat)
    requires
        n < 100,
    ensures
        parsed_signed(two_digits(n), i32::MAX as nat) == Some(n as int),
{
    let s = two_digits(n);
    lemma_two(n);
    assert(s[0] != '-' && s[0] != '+');
    assert(digit_value(s[0], 10) == Some(n / 10));
    assert(digit_value(s[1], 10) == Some(n % 10));
    assert(all_digits(s, 10));
    let one = s.drop_last();
    assert(one.len() == 1 && one.last() == s[0]);
    assert(digits_value(one.drop_last(), 10) == 0);
    assert(digits_value(one, 10) == n / 10);
    assert(digits_value(s, 10) == (n / 10) * 10 + n % 10);
}

/// A gauge has ten marks, one of them filled for each full tenth.
pub proof fn gauges_fill_by_tenths(score: u8, i: int)
    requires
        score <= 100,
        0 <= i < 10,
    ensures
        gauge_text(score).len() == 10,
        gauge_text(score)[i] == '▰' <==> (i + 1) * 10 <= score,
        gauge_text(score)[i] == '▱' <==> (i + 1) * 10 > score,
{
    let share = score as nat / 10;
    assert(share <= 10);
    assert(i < share <==> (i + 1) * 10 <= score);
}

/// A level has its tag, its colour and its urgency.
pub proof fn levels_have_their_marks()
    ensures
        level_tag(Level::Advisory) == "ADVISORY"@ && level_tag(Level::Warning) == "WARNING"@
            && level_tag(Level::Critical) == "CRITICAL"@,
        frame_code(Level::Advisory) == "36"@ && frame_code(Level::Warning) == "33"@ && frame_code(
            Level::Critical,
        ) == "31"@,
        urgency_word(Level::Advisory) == "low"@ && urgency_word(Level::Warning) == "normal"@
            && urgency_word(Level::Critical) == "critical"@,
{
}

/// A card names its valve, shows its title, and shows the lines of every
/// observation.
pub proof fn cards_show_what_a_notice_says(
    n: NoticeView,
    unix: int,
    offset: int,
    k: int,
    j: int,
) -> (at: (int, int, int))
    requires
        0 <= k < n.obs.len(),
        0 <= j < wrapped(n.obs[k], 54).len(),
    ensures
        ({
            let list = card_lines(Theme { enabled: false }, n, unix, offset);
            &&& 0 <= at.0 < at.1 < at.2 < list.len()
            &&& mentions(list[at.0], "[ "@ + n.valve + " "@ + level_tag(n.level) + " ]"@)
            &&& mentions(list[at.1], n.title)
            &&& mentions(list[at.2], wrapped(n.obs[k], 54)[j])
        }),
{
    let t = Theme { enabled: false };
    let list = card_lines(t, n, unix, offset);
    let l = n.level;
    let front = steam(t, l).len() as int;
    let head = head_lines(t, n, unix, offset);
    let before = steam(t, l) + head + gauge_line(t, n) + seq![blank(t, l)];
    let after = suggest_lines(t, n) + seq![
        border(t, l, "╚═"@, "[ end of line ]"@, "╝"@),
        Seq::empty(),
    ];
    assert(list =~= before + obs_lines(t, l, n.obs) + after);
    assert(list[front] == head[0]);
    assert(list[front + 3] == head[3]);
    let named = "[ "@ + n.valve + " "@ + level_tag(l) + " ]"@;
    let lead = "[ PV::VALVE ]═"@;
    reveal_strlit("[ PV::VALVE ]═[ ");
    reveal_strlit("[ PV::VALVE ]═");
    reveal_strlit("[ ");
    assert("[ PV::VALVE ]═[ "@ =~= lead + "[ "@);
    assert(card_head(n) =~= lead + named);
    let fill = repeated('═', missing(CARD_WIDTH as nat + 2, card_head(n).len() + 1)) + "╗"@;
    assert(head[0] =~= ("╔═"@ + lead) + named + fill);
    lemma_stands_between("╔═"@ + lead, named, fill);
    lemma_framed_shows(l, n.title);
    let o = lemma_obs_line(l, n.obs, k, j);
    let line = wrapped(n.obs[k], 54)[j];
    assert(list[before.len() + o] == obs_lines(t, l, n.obs)[o]);
    lemma_framed_shows(l, line);
    (front, front + 3, before.len() + o)
}

proof fn lemma_stands_between(a: Seq<char>, s: Seq<char>, b: Seq<char>)
    ensures
        mentions(a + s + b, s),
{
    assert((a + s + b).subrange(a.len() as int, a.len() as int + s.len()) =~= s);
}

proof fn lemma_framed_shows(l: Level, s: Seq<char>)
    ensures
        mentions(framed(Theme { enabled: false }, l, s, s.len()), s),
{
    let fill = repeated(' ', missing(CARD_WIDTH as nat, s.len())) + " "@ + "║"@;
    assert(framed(Theme { enabled: false }, l, s, s.len()) =~= ("║"@ + " "@) + s + fill);
    lemma_stands_between("║"@ + " "@, s, fill);
}

proof fn lemma_obs_line(l: Level, obs: Seq<Seq<char>>, k: int, j: int) -> (o: int)
    requires
        0 <= k < obs.len(),
        0 <= j < wrapped(obs[k], 54).len(),
    ensures
        ({
            let t = Theme { enabled: false };
            let list = obs_lines(t, l, obs);
            let line = wrapped(obs[k], 54)[j];
            &&& 0 <= o < list.len()
            &&& list[o] == framed(t, l, line, line.len())
        }),
    decreases obs.len(),
{
    let t = Theme { enabled: false };
    let before = obs_lines(t, l, obs.drop_last());
    let more = framed_all(t, l, "2"@, wrapped(obs.last(), 54));
    assert(obs_lines(t, l, obs) == before + more);
    if k < obs.len() - 1 {
        let o = lemma_obs_line(l, obs.drop_last(), k, j);
        assert((before + more)[o] == before[o]);
        o
    } else {
        assert((before + more)[before.len() + j] == more[j]);
        before.len() + j
    }
}

/// A desktop notice has the urgency of its level, the title, and all that was
/// observed with the suggestion below.
pub proof fn desktop_notices_say_the_same(n: NoticeView)
    ensures
        ({
            let args = desktop_text(n);
            &&& args.len() == 4
            &&& args[0] == "-u"@
            &&& n.level == Level::Critical ==> args[1] == "critical"@
            &&& n.level == Level::Warning ==> args[1] == "normal"@
            &&& n.level == Level::Advisory ==> args[1] == "low"@
            &&& args[2] == "PV :: "@ + n.title
            &&& n.suggest is None ==> args[3] == joined(n.obs, "\n"@)
            &&& n.suggest matches Some(s) ==> args[3] == joined(n.obs, "\n"@) + "\n\n› "@ + s
        }),
{
}

} // verus!
