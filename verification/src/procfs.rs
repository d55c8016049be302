//! Processes, memory and sensors as the kernel reports them.
//!
//! The functions take the text of the kernel's files, so that reading them is
//! all that is left to the caller.

use vstd::prelude::*;

use crate::fixed::{
    all_digits, decimal, digit_value, number_or, numeral_reads_back, numerals_are_digits, parse_i32,
    parse_u32, parsed, parsed_signed, u32_or, u64_or,
};
use crate::order::{
    arranged, by_size, descending, descending_is_a_ranking, indices, lemma_ranking_lists, rank,
};
use crate::path::{base_name, base_name_of, the_last_name_is_the_base};
use crate::scan::{
    after_prefix, begins, contains, endings_are_taken_off, holds_text, lemma_mentions, lemma_until, lemma_words_nonempty,
    lines, lines_of, mentions, seek, strip_prefix, strip_suffix, trim, trimmed, until, without_suffix, words, words_of,
};
use crate::text::{
    cat2, chars_of, copy_pids, copy_texts, join, joined, joined_path, lemma_texts_push, lossy,
    lossy_of, lower, lower_of, opt_text, owned, path_join, same, text_between, texts, upper_char,
    upper_char_of,
};

verus! {

// ------------------------------------------------------------ processes

pub struct Process {
    pub pid: u32,
    pub ppid: u32,
    pub pgrp: u32,
    pub state: char,
    pub tty: bool,
    pub comm: String,
    /// The file name of the executable.
    pub exe: String,
    /// The arguments, joined by spaces.
    pub cmdline: String,
    /// The raw arguments.
    pub argv: Vec<String>,
    pub uid: u32,
    pub rss_kb: u64,
    pub threads: u32,
    /// Clock ticks in user mode.
    pub utime: u64,
    /// Clock ticks in the kernel.
    pub stime: u64,
    /// The age in nanoseconds.
    pub age_ns: u64,
    /// Whether it holds an open sound device.
    pub has_audio: bool,
    pub kernel_thread: bool,
}

#[verifier::ext_equal]
pub struct ProcessView {
    pub pid: u32,
    pub ppid: u32,
    pub pgrp: u32,
    pub state: char,
    pub tty: bool,
    pub comm: Seq<char>,
    pub exe: Seq<char>,
    pub cmdline: Seq<char>,
    pub argv: Seq<Seq<char>>,
    pub uid: u32,
    pub rss_kb: u64,
    pub threads: u32,
    pub utime: u64,
    pub stime: u64,
    pub age_ns: u64,
    pub has_audio: bool,
    pub kernel_thread: bool,
}

impl View for Process {
    type V = ProcessView;

    open spec fn view(&self) -> ProcessView {
        ProcessView {
            pid: self.pid,
            ppid: self.ppid,
            pgrp: self.pgrp,
            state: self.state,
            tty: self.tty,
            comm: self.comm@,
            exe: self.exe@,
            cmdline: self.cmdline@,
            argv: texts(self.argv@),
            uid: self.uid,
            rss_kb: self.rss_kb,
            threads: self.threads,
            utime: self.utime,
            stime: self.stime,
            age_ns: self.age_ns,
            has_audio: self.has_audio,
            kernel_thread: self.kernel_thread,
        }
    }
}

/// What a list of processes says.
pub open spec fn process_views(v: Seq<Process>) -> Seq<ProcessView> {
    v.map_values(|p: Process| p@)
}

impl Process {
    pub fn cpu_ticks(&self) -> (r: u64)
        requires
            self.utime + self.stime <= u64::MAX,
        ensures
            r == self.utime + self.stime,
    {
        self.utime + self.stime
    }
}

/// A group of processes belonging to one logical application.
pub struct App {
    /// Normalized key, such as "firefox".
    pub key: String,
    /// Display name, such as "Firefox".
    pub display: String,
    pub pids: Vec<u32>,
    /// The oldest, or primary, process.
    pub leader: u32,
    pub rss_kb: u64,
    /// Sampled aggregate load in percent of one core, in billionths.
    pub cpu_pct: u64,
    /// The most active state among the members.
    pub state: char,
    pub tty: bool,
    pub has_audio: bool,
    /// The leader's command line.
    pub cmdline: String,
    /// The leader's raw arguments.
    pub argv: Vec<String>,
    /// The leader's age in nanoseconds.
    pub age_ns: u64,
    pub kernel: bool,
}

#[verifier::ext_equal]
pub struct AppView {
    pub key: Seq<char>,
    pub display: Seq<char>,
    pub pids: Seq<u32>,
    pub leader: u32,
    pub rss_kb: u64,
    pub cpu_pct: u64,
    pub state: char,
    pub tty: bool,
    pub has_audio: bool,
    pub cmdline: Seq<char>,
    pub argv: Seq<Seq<char>>,
    pub age_ns: u64,
    pub kernel: bool,
}

impl View for App {
    type V = AppView;

    open spec fn view(&self) -> AppView {
        AppView {
            key: self.key@,
            display: self.display@,
            pids: self.pids@,
            leader: self.leader,
            rss_kb: self.rss_kb,
            cpu_pct: self.cpu_pct,
            state: self.state,
            tty: self.tty,
            has_audio: self.has_audio,
            cmdline: self.cmdline@,
            argv: texts(self.argv@),
            age_ns: self.age_ns,
            kernel: self.kernel,
        }
    }
}

/// What a list of apps says.
pub open spec fn app_views(v: Seq<App>) -> Seq<AppView> {
    v.map_values(|a: App| a@)
}

impl App {
    /// An app that says the same.
    pub fn copy(&self) -> (r: Self)
        ensures
            r@ == self@,
    {
        App {
            key: self.key.clone(),
            display: self.display.clone(),
            pids: copy_pids(&self.pids),
            leader: self.leader,
            rss_kb: self.rss_kb,
            cpu_pct: self.cpu_pct,
            state: self.state,
            tty: self.tty,
            has_audio: self.has_audio,
            cmdline: self.cmdline.clone(),
            argv: copy_texts(&self.argv),
            age_ns: self.age_ns,
            kernel: self.kernel,
        }
    }
}

/// The directory that an XDG variable names, or the default below the home
/// directory where it is unset or empty.
pub open spec fn xdg_dir(
    value: Option<Seq<char>>,
    home: Option<Seq<char>>,
    default_suffix: Seq<char>,
) -> Seq<char> {
    match value {
        Some(v) if v.len() > 0 => v,
        _ => joined_path(
            match home {
                Some(h) => h,
                None => "/tmp"@,
            },
            default_suffix,
        ),
    }
}

pub fn xdg(value: &Option<String>, home: &Option<String>, default_suffix: &str) -> (r: String)
    ensures
        r@ == xdg_dir(opt_text(*value), opt_text(*home), default_suffix@),
{
    if let Some(v) = value {
        if v.as_str().unicode_len() > 0 {
            return v.clone();
        }
    }
    match home {
        Some(h) => path_join(h.as_str(), default_suffix),
        None => path_join("/tmp", default_suffix),
    }
}

/// The process ids among the names of a directory, in order.
pub open spec fn pids_among(names: Seq<Seq<char>>) -> Seq<u32>
    decreases names.len(),
{
    if names.len() == 0 {
        Seq::empty()
    } else {
        let before = pids_among(names.drop_last());
        match parsed(names.last(), 10, u32::MAX as nat) {
            Some(n) => before.push(n as u32),
            None => before,
        }
    }
}

pub fn list_pids(names: &Vec<String>) -> (r: Vec<u32>)
    ensures
        r@ == pids_among(texts(names@)),
{
    let mut out: Vec<u32> = Vec::new();
    let mut i: usize = 0;
    let ghost all = texts(names@);
    while i < names.len()
        invariant
            i <= names.len(),
            all == texts(names@),
            out@ == pids_among(all.take(i as int)),
        decreases names.len() - i,
    {
        proof {
            assert(all.take(i as int + 1).drop_last() =~= all.take(i as int));
            assert(all.take(i as int + 1).last() == names@[i as int]@);
        }
        if let Some(n) = parse_u32(names[i].as_str()) {
            out.push(n);
        }
        i = i + 1;
    }
    assert(all.take(i as int) =~= all);
    out
}

/// The first word of `/proc/uptime`: the seconds since boot.
pub fn system_uptime(text: &str) -> (r: Option<String>)
    ensures
        opt_text(r) == (if words_of(text@).len() > 0 {
            Some(words_of(text@)[0])
        } else {
            None
        }),
{
    let w: Vec<String> = words(text);
    assert(texts(w@).len() == w@.len());
    if w.len() > 0 {
        assert(texts(w@)[0] == w@[0]@);
        Some(w[0].clone())
    } else {
        None
    }
}

// ------------------------------------------------------------ one process

/// The files of one process: its `stat`, its raw `cmdline`, its `status`
/// where readable, the target of its `exe` link where readable, and the
/// targets of its open descriptors.
pub struct ProcFiles {
    pub stat: String,
    pub cmdline: Vec<u8>,
    pub status: Option<String>,
    pub exe: Option<String>,
    pub fds: Vec<String>,
}

/// The last position of a character, where it occurs.
pub open spec fn last_of(s: Seq<char>, c: char) -> Option<int>
    decreases s.len(),
{
    if s.len() == 0 {
        None
    } else if s.last() == c {
        Some(s.len() - 1)
    } else {
        last_of(s.drop_last(), c)
    }
}

/// The last position of a character.
pub fn rseek(v: &Vec<char>, c: char) -> (r: Option<usize>)
    ensures
        r is Some <==> last_of(v@, c) is Some,
        r is Some ==> r->0 as int == last_of(v@, c)->0 && r->0 < v@.len(),
{
    let mut j: usize = v.len();
    assert(v@.take(j as int) =~= v@);
    while j > 0
        invariant
            j <= v.len(),
            last_of(v@, c) == last_of(v@.take(j as int), c),
        decreases j,
    {
        assert(v@.take(j as int).drop_last() =~= v@.take(j - 1));
        if v[j - 1] == c {
            return Some(j - 1);
        }
        j = j - 1;
    }
    None
}

/// Whether a `stat` line that has both parentheses has them in order, with
/// one ASCII character behind the last.
pub open spec fn stat_splits(s: Seq<char>) -> bool {
    last_of(s, ')') matches Some(close) ==> until(s, '(') < s.len() ==> until(s, '(') < close
        && close + 1 < s.len() && s[close + 1] as int <= 127
}

/// Whether a character is ASCII.
pub fn is_ascii_char(c: char) -> (r: bool)
    ensures
        r == (c as int <= 127),
{
    (c as u32) <= 127
}

/// Whether a `stat` line can be split.
pub fn stat_readable(stat: &str) -> (r: bool)
    ensures
        r == stat_splits(stat@),
{
    let v: Vec<char> = chars_of(stat);
    assert(v@.skip(0) =~= v@);
    match rseek(&v, ')') {
        None => true,
        Some(close) => {
            let open: usize = seek(&v, 0, '(');
            open >= v.len() || (open < close && close + 1 < v.len() && is_ascii_char(v[close + 1]))
        },
    }
}

/// The command name and the fields behind it: the name stands between the
/// first opening and the last closing parenthesis, as it may hold both.
pub open spec fn stat_parts(s: Seq<char>) -> Option<(Seq<char>, Seq<Seq<char>>)> {
    match last_of(s, ')') {
        None => None,
        Some(close) => if until(s, '(') >= s.len() {
            None
        } else {
            Some((s.subrange(until(s, '(') as int + 1, close), words_of(s.skip(close + 2))))
        },
    }
}

fn split_stat(stat: &str) -> (r: Option<(String, Vec<String>)>)
    requires
        stat_splits(stat@),
    ensures
        r is Some <==> stat_parts(stat@) is Some,
        r matches Some((c, f)) ==> stat_parts(stat@) == Some((c@, texts(f@))),
{
    let v: Vec<char> = chars_of(stat);
    assert(v@.skip(0) =~= v@);
    match rseek(&v, ')') {
        None => None,
        Some(close) => {
            let open: usize = seek(&v, 0, '(');
            if open >= v.len() {
                return None;
            }
            let comm: String = text_between(&v, open + 1, close);
            let tail: String = text_between(&v, close + 2, v.len());
            assert(tail@ =~= stat@.skip(close + 2));
            Some((comm, words(tail.as_str())))
        },
    }
}

/// The arguments of a raw command line: what stands between the zero bytes,
/// empty pieces left out.
pub open spec fn args_of(raw: Seq<u8>) -> Seq<Seq<char>>
    decreases raw.len(),
{
    if raw.len() == 0 {
        Seq::empty()
    } else {
        let k = zero_at(raw);
        let head = if k == 0 {
            Seq::empty()
        } else {
            seq![lossy_of(raw.take(k as int))]
        };
        if k >= raw.len() {
            head
        } else {
            head + args_of(raw.skip(k as int + 1))
        }
    }
}

/// The number of bytes before the first zero byte, or of all where none is.
pub open spec fn zero_at(raw: Seq<u8>) -> nat
    decreases raw.len(),
{
    if raw.len() == 0 || raw[0] == 0 {
        0
    } else {
        1 + zero_at(raw.drop_first())
    }
}

fn args(raw: &Vec<u8>) -> (r: Vec<String>)
    ensures
        texts(r@) == args_of(raw@),
{
    let mut out: Vec<String> = Vec::new();
    let mut i: usize = 0;
    assert(raw@.skip(0) =~= raw@);
    assert(texts(out@) + args_of(raw@) =~= args_of(raw@));
    while i < raw.len()
        invariant
            i <= raw.len(),
            texts(out@) + args_of(raw@.skip(i as int)) == args_of(raw@),
        decreases raw.len() - i,
    {
        let ghost rest = raw@.skip(i as int);
        let ghost before = texts(out@);
        let mut piece: Vec<u8> = Vec::new();
        let mut j: usize = i;
        while j < raw.len() && raw[j] != 0
            invariant
                i <= j <= raw.len(),
                rest == raw@.skip(i as int),
                zero_at(rest) == (j - i) + zero_at(raw@.skip(j as int)),
                piece@ == raw@.subrange(i as int, j as int),
            decreases raw.len() - j,
        {
            assert(raw@.skip(j as int).drop_first() =~= raw@.skip(j + 1));
            piece.push(raw[j]);
            j = j + 1;
            assert(piece@ =~= raw@.subrange(i as int, j as int));
        }
        assert(zero_at(rest) == j - i);
        assert(piece@ =~= rest.take(j - i));
        let ghost head = if j == i {
            Seq::<Seq<char>>::empty()
        } else {
            seq![lossy_of(rest.take(j - i))]
        };
        if j > i {
            let arg: String = lossy(&piece);
            proof {
                lemma_texts_push(out@, arg);
            }
            out.push(arg);
        }
        assert(texts(out@) =~= before + head);
        if j < raw.len() {
            assert(rest.skip(j - i + 1) =~= raw@.skip(j as int + 1));
            assert(args_of(rest) == head + args_of(raw@.skip(j as int + 1)));
            assert(texts(out@) + args_of(raw@.skip(j as int + 1)) =~= before + (head + args_of(
                raw@.skip(j as int + 1),
            )));
            i = j + 1;
        } else {
            assert(args_of(rest) == head);
            assert(raw@.skip(j as int) =~= Seq::empty());
            assert(texts(out@) + args_of(raw@.skip(j as int)) =~= before + head);
            i = j;
        }
    }
    assert(raw@.skip(i as int) =~= Seq::empty());
    assert(texts(out@) =~= args_of(raw@));
    out
}

/// What the `status` file says of a process.
pub struct Status {
    pub uid: u32,
    pub rss_kb: u64,
    pub threads: u32,
}

/// What one more line of the `status` file adds, or nothing where a line
/// that must hold a number is empty.
pub open spec fn status_line(line: Seq<char>, st: Status) -> Option<Status> {
    if begins(line, "Uid:"@) {
        let w = words_of(after_prefix(line, "Uid:"@)->0);
        if w.len() == 0 {
            None
        } else {
            Some(Status { uid: number_or(w[0], u32::MAX as nat, 0) as u32, ..st })
        }
    } else if begins(line, "VmRSS:"@) {
        let w = words_of(after_prefix(line, "VmRSS:"@)->0);
        if w.len() == 0 {
            None
        } else {
            Some(Status { rss_kb: number_or(w[0], u64::MAX as nat, 0) as u64, ..st })
        }
    } else if begins(line, "Threads:"@) {
        let v = trimmed(after_prefix(line, "Threads:"@)->0);
        Some(Status { threads: number_or(v, u32::MAX as nat, 1) as u32, ..st })
    } else {
        Some(st)
    }
}

/// What the lines of a `status` file say, starting from `st`.
pub open spec fn status_of(list: Seq<Seq<char>>, st: Status) -> Option<Status>
    decreases list.len(),
{
    if list.len() == 0 {
        Some(st)
    } else {
        match status_line(list[0], st) {
            Some(next) => status_of(list.drop_first(), next),
            None => None,
        }
    }
}

fn read_status_line(line: &str, st: Status) -> (r: Option<Status>)
    ensures
        r == status_line(line@, st),
{
    if let Some(v) = strip_prefix(line, "Uid:") {
        let w: Vec<String> = words(v.as_str());
        assert(texts(w@).len() == w@.len());
        if w.len() == 0 {
            None
        } else {
            assert(texts(w@)[0] == w@[0]@);
            Some(Status { uid: u32_or(w[0].as_str(), 0), rss_kb: st.rss_kb, threads: st.threads })
        }
    } else if let Some(v) = strip_prefix(line, "VmRSS:") {
        let w: Vec<String> = words(v.as_str());
        assert(texts(w@).len() == w@.len());
        if w.len() == 0 {
            None
        } else {
            assert(texts(w@)[0] == w@[0]@);
            Some(Status { uid: st.uid, rss_kb: u64_or(w[0].as_str(), 0), threads: st.threads })
        }
    } else if let Some(v) = strip_prefix(line, "Threads:") {
        Some(
            Status {
                uid: st.uid,
                rss_kb: st.rss_kb,
                threads: u32_or(trim(v.as_str()).as_str(), 1),
            },
        )
    } else {
        Some(st)
    }
}

/// What a `status` file says, where it was readable.
pub open spec fn status_in(text: Option<Seq<char>>) -> Option<Status> {
    let start = Status { uid: 0, rss_kb: 0, threads: 1 };
    match text {
        Some(t) => status_of(lines_of(t), start),
        None => Some(start),
    }
}

fn read_status(text: &Option<String>) -> (r: Option<Status>)
    ensures
        r == status_in(opt_text(*text)),
{
    let mut st: Status = Status { uid: 0, rss_kb: 0, threads: 1 };
    match text {
        None => Some(st),
        Some(t) => {
            let list: Vec<String> = lines(t.as_str());
            let ghost all = texts(list@);
            let ghost start = st;
            let mut i: usize = 0;
            assert(all.skip(0) =~= all);
            while i < list.len()
                invariant
                    i <= list.len(),
                    all == texts(list@),
                    opt_text(*text) == Some(t@),
                    all == lines_of(t@),
                    start == (Status { uid: 0, rss_kb: 0, threads: 1 }),
                    status_of(all, start) == status_of(all.skip(i as int), st),
                decreases list.len() - i,
            {
                proof {
                    assert(all.skip(i as int)[0] == list@[i as int]@);
                    assert(all.skip(i as int).drop_first() =~= all.skip(i as int + 1));
                }
                match read_status_line(list[i].as_str(), st) {
                    Some(next) => {
                        st = next;
                    },
                    None => {
                        return None;
                    },
                }
                i = i + 1;
            }
            Some(st)
        },
    }
}

/// The name of the executable: the file name that its link points to, or the
/// command name where there is none.
pub open spec fn exe_name(link: Option<Seq<char>>, comm: Seq<char>) -> Seq<char> {
    match link {
        None => comm,
        Some(p) => match base_name_of(p) {
            None => comm,
            Some(n) => without_suffix(n, " (deleted)"@),
        },
    }
}

fn exe_of(link: &Option<String>, comm: &str) -> (r: String)
    ensures
        r@ == exe_name(opt_text(*link), comm@),
{
    match link {
        None => owned(comm),
        Some(p) => match base_name(p.as_str()) {
            None => owned(comm),
            Some(n) => {
                proof {
                    reveal_strlit(" (deleted)");
                }
                strip_suffix(n.as_str(), " (deleted)")
            },
        },
    }
}

/// Whether one of the open descriptors is a sound device.
pub open spec fn plays_audio(fds: Seq<Seq<char>>) -> bool {
    exists|i: int| 0 <= i < fds.len() && holds_text(#[trigger] fds[i], "/dev/snd"@)
}

fn holds_audio(fds: &Vec<String>) -> (r: bool)
    ensures
        r == plays_audio(texts(fds@)),
{
    let ghost all = texts(fds@);
    let mut i: usize = 0;
    while i < fds.len()
        invariant
            i <= fds.len(),
            all == texts(fds@),
            forall|j: int| 0 <= j < i ==> !holds_text(#[trigger] all[j], "/dev/snd"@),
        decreases fds.len() - i,
    {
        assert(all[i as int] == fds@[i as int]@);
        if contains(fds[i].as_str(), "/dev/snd") {
            return true;
        }
        i = i + 1;
    }
    false
}

/// The age of a process that started `start` ticks after boot, in
/// nanoseconds, and none where it would start after now.
pub open spec fn age_at(uptime_ns: u64, start: nat, tps: nat) -> u64 {
    let born = start * 1_000_000_000 / tps;
    if born >= uptime_ns {
        0
    } else {
        (uptime_ns - born) as u64
    }
}

fn age(uptime_ns: u64, start: u64, tps: u32) -> (r: u64)
    requires
        tps > 0,
    ensures
        r == age_at(uptime_ns, start as nat, tps as nat),
{
    assert(start * 1_000_000_000 <= u64::MAX * 1_000_000_000) by (nonlinear_arith)
        requires
            start <= u64::MAX,
    ;
    let born: u128 = start as u128 * 1_000_000_000 / tps as u128;
    if born >= uptime_ns as u128 {
        0
    } else {
        uptime_ns - born as u64
    }
}

/// The record of a process, read from its files: nothing where its `stat`
/// line is cut short or holds no parent or group, or where its `status`
/// misses a number.
pub open spec fn process_of(
    pid: u32,
    uptime_ns: u64,
    tps: nat,
    files: ProcFiles,
) -> Option<ProcessView> {
    match stat_parts(files.stat@) {
        None => None,
        Some((comm, f)) => {
            if f.len() < 22 || parsed(f[1], 10, u32::MAX as nat) is None || parsed(
                f[2],
                10,
                u32::MAX as nat,
            ) is None {
                None
            } else {
                match status_in(opt_text(files.status)) {
                    None => None,
                    Some(st) => Some(
                        ProcessView {
                            pid,
                            ppid: parsed(f[1], 10, u32::MAX as nat)->0 as u32,
                            pgrp: parsed(f[2], 10, u32::MAX as nat)->0 as u32,
                            state: f[0][0],
                            tty: parsed_signed(f[4], i32::MAX as nat) is Some && parsed_signed(
                                f[4],
                                i32::MAX as nat,
                            )->0 != 0,
                            comm,
                            exe: exe_name(opt_text(files.exe), comm),
                            cmdline: joined(args_of(files.cmdline@), " "@),
                            argv: args_of(files.cmdline@),
                            uid: st.uid,
                            rss_kb: st.rss_kb,
                            threads: st.threads,
                            utime: number_or(f[11], u64::MAX as nat, 0) as u64,
                            stime: number_or(f[12], u64::MAX as nat, 0) as u64,
                            age_ns: age_at(uptime_ns, number_or(f[19], u64::MAX as nat, 0), tps),
                            has_audio: plays_audio(texts(files.fds@)),
                            kernel_thread: files.cmdline@.len() == 0,
                        },
                    ),
                }
            }
        },
    }
}

pub fn read_process(pid: u32, uptime_ns: u64, tps: u32, files: &ProcFiles) -> (r: Option<Process>)
    requires
        tps > 0,
        stat_splits(files.stat@),
    ensures
        r is Some <==> process_of(pid, uptime_ns, tps as nat, *files) is Some,
        r is Some ==> r->0@ == process_of(pid, uptime_ns, tps as nat, *files)->0,
{
    let (comm, f) = match split_stat(files.stat.as_str()) {
        Some(parts) => parts,
        None => {
            return None;
        },
    };
    let ghost fs = texts(f@);
    assert(fs.len() == f@.len());
    if f.len() < 22 {
        return None;
    }
    proof {
        assert forall|i: int| 0 <= i < f@.len() implies fs[i] == (#[trigger] f@[i])@ by {}
        lemma_words_nonempty(files.stat@.skip(last_of(files.stat@, ')')->0 + 2));
        assert(fs[0].len() > 0);
    }
    let state: char = f[0].as_str().get_char(0);
    let ppid: u32 = match parse_u32(f[1].as_str()) {
        Some(n) => n,
        None => {
            return None;
        },
    };
    let pgrp: u32 = match parse_u32(f[2].as_str()) {
        Some(n) => n,
        None => {
            return None;
        },
    };
    let tty_nr: i32 = match parse_i32(f[4].as_str()) {
        Some(n) => n,
        None => 0,
    };
    let utime: u64 = u64_or(f[11].as_str(), 0);
    let stime: u64 = u64_or(f[12].as_str(), 0);
    let starttime: u64 = u64_or(f[19].as_str(), 0);
    let argv: Vec<String> = args(&files.cmdline);
    let cmdline: String = join(&argv, " ");
    let st: Status = match read_status(&files.status) {
        Some(st) => st,
        None => {
            return None;
        },
    };
    let exe: String = exe_of(&files.exe, comm.as_str());
    Some(
        Process {
            pid,
            ppid,
            pgrp,
            state,
            tty: tty_nr != 0,
            comm,
            exe,
            cmdline,
            argv,
            uid: st.uid,
            rss_kb: st.rss_kb,
            threads: st.threads,
            utime,
            stime,
            age_ns: age(uptime_ns, starttime, tps),
            has_audio: holds_audio(&files.fds),
            kernel_thread: files.cmdline.len() == 0,
        },
    )
}

// ------------------------------------------------------------ sampling

/// The ticks noted last for a process, where any were.
pub open spec fn ticks_of(first: Seq<(u32, u64)>, pid: u32) -> Option<u64>
    decreases first.len(),
{
    if first.len() == 0 {
        None
    } else if first.last().0 == pid {
        Some(first.last().1)
    } else {
        ticks_of(first.drop_last(), pid)
    }
}

fn find_ticks(first: &Vec<(u32, u64)>, pid: u32) -> (r: Option<u64>)
    ensures
        r == ticks_of(first@, pid),
{
    let mut j: usize = first.len();
    assert(first@.take(j as int) =~= first@);
    while j > 0
        invariant
            j <= first.len(),
            ticks_of(first@, pid) == ticks_of(first@.take(j as int), pid),
        decreases j,
    {
        assert(first@.take(j as int).drop_last() =~= first@.take(j - 1));
        if first[j - 1].0 == pid {
            return Some(first[j - 1].1);
        }
        j = j - 1;
    }
    None
}

/// A process whose user ticks are those spent since the first look, where
/// there was one.
pub open spec fn sampled(first: Seq<(u32, u64)>, p: ProcessView) -> ProcessView {
    match ticks_of(first, p.pid) {
        Some(t0) => ProcessView {
            utime: if p.utime + p.stime >= t0 {
                (p.utime + p.stime - t0) as u64
            } else {
                0
            },
            stime: 0,
            ..p
        },
        None => p,
    }
}

/// A second look at the processes, with the ticks of the first look taken off.
pub fn snapshot(first: &Vec<(u32, u64)>, later: Vec<Process>) -> (r: Vec<Process>)
    requires
        forall|i: int|
            0 <= i < later@.len() ==> (#[trigger] later@[i]).utime + later@[i].stime <= u64::MAX,
    ensures
        process_views(r@) == process_views(later@).map_values(
            |p: ProcessView| sampled(first@, p),
        ),
{
    let mut procs: Vec<Process> = later;
    let mut i: usize = 0;
    while i < procs.len()
        invariant
            i <= procs.len(),
            procs@.len() == later@.len(),
            forall|j: int|
                0 <= j < later@.len() ==> (#[trigger] later@[j]).utime + later@[j].stime
                    <= u64::MAX,
            forall|j: int| 0 <= j < i ==> (#[trigger] procs@[j])@ == sampled(first@, later@[j]@),
            forall|j: int| i <= j < procs@.len() ==> #[trigger] procs@[j] == later@[j],
        decreases procs.len() - i,
    {
        assert(procs@[i as int] == later@[i as int]);
        if let Some(t0) = find_ticks(first, procs[i].pid) {
            let now: u64 = procs[i].cpu_ticks();
            let spent: u64 = if now >= t0 {
                now - t0
            } else {
                0
            };
            procs[i].utime = spent;
            procs[i].stime = 0;
        }
        i = i + 1;
    }
    assert(process_views(procs@) =~= process_views(later@).map_values(
        |p: ProcessView| sampled(first@, p),
    ));
    procs
}

// ------------------------------------------------------------ apps

/// The key of the app that a process belongs to: its lower-cased executable
/// name, and none for a kernel thread or the first process.
pub open spec fn app_key(p: Process) -> Option<Seq<char>> {
    if p.kernel_thread || p.pid <= 1 {
        None
    } else {
        Some(lower_of(p.exe@))
    }
}

/// The processes of one app, in order.
pub open spec fn group_of(procs: Seq<Process>, key: Seq<char>) -> Seq<Process>
    decreases procs.len(),
{
    if procs.len() == 0 {
        Seq::empty()
    } else {
        let before = group_of(procs.drop_last(), key);
        if app_key(procs.last()) == Some(key) {
            before.push(procs.last())
        } else {
            before
        }
    }
}

/// The keys of all apps, each where it first occurs.
pub open spec fn keys_of(procs: Seq<Process>) -> Seq<Seq<char>>
    decreases procs.len(),
{
    if procs.len() == 0 {
        Seq::empty()
    } else {
        let before = keys_of(procs.drop_last());
        match app_key(procs.last()) {
            Some(k) if !before.contains(k) => before.push(k),
            _ => before,
        }
    }
}

pub open spec fn rss_sum(g: Seq<Process>) -> nat
    decreases g.len(),
{
    if g.len() == 0 {
        0
    } else {
        rss_sum(g.drop_last()) + g.last().rss_kb as nat
    }
}

pub open spec fn ticks_sum(g: Seq<Process>) -> nat
    decreases g.len(),
{
    if g.len() == 0 {
        0
    } else {
        ticks_sum(g.drop_last()) + g.last().utime as nat
    }
}

/// The last of the oldest processes.
pub open spec fn oldest(g: Seq<Process>) -> int
    decreases g.len(),
{
    if g.len() <= 1 {
        0
    } else {
        let j = oldest(g.drop_last());
        if g.last().age_ns >= g[j].age_ns {
            g.len() - 1
        } else {
            j
        }
    }
}

pub open spec fn any_state(g: Seq<Process>, c: char) -> bool {
    exists|i: int| 0 <= i < g.len() && (#[trigger] g[i]).state == c
}

pub open spec fn any_tty(g: Seq<Process>) -> bool {
    exists|i: int| 0 <= i < g.len() && (#[trigger] g[i]).tty
}

pub open spec fn any_audio(g: Seq<Process>) -> bool {
    exists|i: int| 0 <= i < g.len() && (#[trigger] g[i]).has_audio
}

/// The state of an app: running, sleeping, stopped or waiting if any process
/// is, in that order, and otherwise that of its first process.
pub open spec fn state_of(g: Seq<Process>) -> char {
    if any_state(g, 'R') {
        'R'
    } else if any_state(g, 'S') {
        'S'
    } else if any_state(g, 'T') {
        'T'
    } else if any_state(g, 'D') {
        'D'
    } else {
        g[0].state
    }
}

/// The load of `ticks` clock ticks in `sample_ms` milliseconds, to the nearest
/// billionth of a percent of one core.
pub open spec fn load_of(ticks: nat, tps: nat, sample_ms: nat) -> u64 {
    let whole = tps * sample_ms;
    let pct = (ticks * 200_000_000_000_000 + whole) / (2 * whole);
    if pct > u64::MAX {
        u64::MAX
    } else {
        pct as u64
    }
}

/// The key with its first letter in upper case.
pub open spec fn pretty(key: Seq<char>) -> Seq<char> {
    if key.len() == 0 {
        key
    } else {
        upper_char_of(key[0]) + key.drop_first()
    }
}

/// The app that a group of processes forms.
pub open spec fn app_of(key: Seq<char>, g: Seq<Process>, tps: nat, sample_ms: nat) -> AppView {
    AppView {
        key,
        display: pretty(key),
        pids: g.map_values(|p: Process| p.pid),
        leader: g[oldest(g)].pid,
        rss_kb: rss_sum(g) as u64,
        cpu_pct: load_of(ticks_sum(g), tps, sample_ms),
        state: state_of(g),
        tty: any_tty(g),
        has_audio: any_audio(g),
        cmdline: g[oldest(g)].cmdline@,
        argv: texts(g[oldest(g)].argv@),
        age_ns: g[oldest(g)].age_ns,
        kernel: false,
    }
}

/// The apps that the processes form, each where its first process stands.
pub open spec fn apps_of(procs: Seq<Process>, tps: nat, sample_ms: nat) -> Seq<AppView> {
    keys_of(procs).map_values(|k: Seq<char>| app_of(k, group_of(procs, k), tps, sample_ms))
}

/// The apps with the largest first.
pub open spec fn largest_first(apps: Seq<AppView>) -> Seq<AppView> {
    arranged(apps, descending(apps.map_values(|a: AppView| (a.rss_kb, 0u64))))
}

fn pretty_name(key: &str) -> (r: String)
    ensures
        r@ == pretty(key@),
{
    let v: Vec<char> = chars_of(key);
    if v.len() == 0 {
        return owned(key);
    }
    let rest: String = text_between(&v, 1, v.len());
    assert(rest@ =~= key@.drop_first());
    cat2(upper_char(v[0]).as_str(), rest.as_str())
}

fn load(ticks: u64, tps: u32, sample_ms: u64) -> (r: u64)
    requires
        tps > 0,
        sample_ms > 0,
    ensures
        r == load_of(ticks as nat, tps as nat, sample_ms as nat),
{
    assert(0 < tps * sample_ms <= u32::MAX * u64::MAX) by (nonlinear_arith)
        requires
            0 < tps <= u32::MAX,
            0 < sample_ms <= u64::MAX,
    ;
    let whole: u128 = tps as u128 * sample_ms as u128;
    let pct: u128 = (ticks as u128 * 200_000_000_000_000 + whole) / (2 * whole);
    if pct > u64::MAX as u128 {
        u64::MAX
    } else {
        pct as u64
    }
}

fn key_of(p: &Process) -> (r: Option<String>)
    ensures
        opt_text(r) == app_key(*p),
{
    if p.kernel_thread || p.pid <= 1 {
        None
    } else {
        Some(lower(p.exe.as_str()))
    }
}

fn is_listed(list: &Vec<String>, s: &str) -> (r: bool)
    ensures
        r == texts(list@).contains(s@),
{
    let ghost all = texts(list@);
    let mut i: usize = 0;
    while i < list.len()
        invariant
            i <= list.len(),
            all == texts(list@),
            forall|j: int| 0 <= j < i ==> all[j] != s@,
        decreases list.len() - i,
    {
        assert(all[i as int] == list@[i as int]@);
        if same(list[i].as_str(), s) {
            return true;
        }
        i = i + 1;
    }
    false
}

/// The key of each process.
pub open spec fn each_key(procs: Seq<Process>) -> Seq<Option<Seq<char>>> {
    procs.map_values(|p: Process| app_key(p))
}

pub open spec fn opt_texts(v: Seq<Option<String>>) -> Seq<Option<Seq<char>>> {
    v.map_values(|o: Option<String>| opt_text(o))
}

fn keys_each(procs: &Vec<Process>) -> (r: Vec<Option<String>>)
    ensures
        opt_texts(r@) == each_key(procs@),
{
    let mut out: Vec<Option<String>> = Vec::new();
    let mut i: usize = 0;
    while i < procs.len()
        invariant
            i <= procs.len(),
            out@.len() == i,
            forall|j: int| 0 <= j < i ==> opt_text(#[trigger] out@[j]) == app_key(procs@[j]),
        decreases procs.len() - i,
    {
        out.push(key_of(&procs[i]));
        i = i + 1;
    }
    assert(opt_texts(out@) =~= each_key(procs@));
    out
}

fn distinct_keys(procs: &Vec<Process>, each: &Vec<Option<String>>) -> (r: Vec<String>)
    requires
        opt_texts(each@) == each_key(procs@),
    ensures
        texts(r@) == keys_of(procs@),
{
    let mut out: Vec<String> = Vec::new();
    let mut i: usize = 0;
    assert(opt_texts(each@).len() == procs@.len());
    assert(texts(out@) =~= keys_of(procs@.take(0)));
    while i < procs.len()
        invariant
            i <= procs.len(),
            each@.len() == procs@.len(),
            opt_texts(each@) == each_key(procs@),
            texts(out@) == keys_of(procs@.take(i as int)),
        decreases procs.len() - i,
    {
        let ghost now = procs@.take(i as int + 1);
        proof {
            assert(now.drop_last() =~= procs@.take(i as int));
            assert(now.last() == procs@[i as int]);
            assert(opt_texts(each@)[i as int] == opt_text(each@[i as int]));
            assert(each_key(procs@)[i as int] == app_key(procs@[i as int]));
        }
        if let Some(k) = &each[i] {
            if !is_listed(&out, k.as_str()) {
                let s: String = k.clone();
                proof {
                    lemma_texts_push(out@, s);
                }
                out.push(s);
            }
        }
        i = i + 1;
    }
    assert(procs@.take(i as int) =~= procs@);
    out
}

proof fn lemma_group_grows(procs: Seq<Process>, key: Seq<char>, i: int)
    requires
        0 <= i <= procs.len(),
    ensures
        rss_sum(group_of(procs.take(i), key)) <= rss_sum(group_of(procs, key)),
        ticks_sum(group_of(procs.take(i), key)) <= ticks_sum(group_of(procs, key)),
    decreases procs.len(),
{
    if i < procs.len() {
        lemma_group_grows(procs.drop_last(), key, i);
        assert(procs.drop_last().take(i) =~= procs.take(i));
        let before = group_of(procs.drop_last(), key);
        assert(before.push(procs.last()).drop_last() =~= before);
    } else {
        assert(procs.take(i) =~= procs);
    }
}

/// Every listed key has a process.
proof fn lemma_key_has_group(procs: Seq<Process>, key: Seq<char>)
    ensures
        keys_of(procs).contains(key) ==> group_of(procs, key).len() > 0,
        group_of(procs, key).len() > 0 ==> keys_of(procs).contains(key),
    decreases procs.len(),
{
    if procs.len() > 0 {
        let before = keys_of(procs.drop_last());
        lemma_key_has_group(procs.drop_last(), key);
        match app_key(procs.last()) {
            Some(k) if !before.contains(k) => {
                let all = before.push(k);
                assert(all[before.len() as int] == k);
                if before.contains(key) {
                    let i = choose|i: int| 0 <= i < before.len() && before[i] == key;
                    assert(all[i] == key);
                }
                if all.contains(key) && key != k {
                    let i = choose|i: int| 0 <= i < all.len() && all[i] == key;
                    assert(before[i] == key);
                }
            },
            _ => {},
        }
    }
}

proof fn lemma_push_facts(g: Seq<Process>, p: Process)
    ensures
        g.push(p).drop_last() == g,
        forall|c: char| #[trigger]
            any_state(g.push(p), c) == (any_state(g, c) || p.state == c),
        any_tty(g.push(p)) == (any_tty(g) || p.tty),
        any_audio(g.push(p)) == (any_audio(g) || p.has_audio),
{
    let n = g.push(p);
    assert(n.drop_last() =~= g);
    assert(n[g.len() as int] == p);
    assert forall|i: int| 0 <= i < g.len() implies n[i] == #[trigger] g[i] by {}
    assert forall|c: char| #[trigger]
        any_state(n, c) == (any_state(g, c) || p.state == c) by {
        if any_state(g, c) {
            let i = choose|i: int| 0 <= i < g.len() && (#[trigger] g[i]).state == c;
            assert(n[i].state == c);
        }
        if any_state(n, c) && p.state != c {
            let i = choose|i: int| 0 <= i < n.len() && (#[trigger] n[i]).state == c;
            assert(g[i].state == c);
        }
    }
    if any_tty(g) {
        let i = choose|i: int| 0 <= i < g.len() && (#[trigger] g[i]).tty;
        assert(n[i].tty);
    }
    if any_tty(n) && !p.tty {
        let i = choose|i: int| 0 <= i < n.len() && (#[trigger] n[i]).tty;
        assert(g[i].tty);
    }
    if any_audio(g) {
        let i = choose|i: int| 0 <= i < g.len() && (#[trigger] g[i]).has_audio;
        assert(n[i].has_audio);
    }
    if any_audio(n) && !p.has_audio {
        let i = choose|i: int| 0 <= i < n.len() && (#[trigger] n[i]).has_audio;
        assert(g[i].has_audio);
    }
}

proof fn lemma_oldest(g: Seq<Process>)
    requires
        g.len() > 0,
    ensures
        0 <= oldest(g) < g.len(),
    decreases g.len(),
{
    if g.len() > 1 {
        lemma_oldest(g.drop_last());
    }
}

#[verifier::rlimit(40)]
fn make_app(
    key: &str,
    procs: &Vec<Process>,
    each: &Vec<Option<String>>,
    tps: u32,
    sample_ms: u64,
) -> (r: App)
    requires
        tps > 0,
        sample_ms > 0,
        opt_texts(each@) == each_key(procs@),
        group_of(procs@, key@).len() > 0,
        rss_sum(group_of(procs@, key@)) <= u64::MAX,
        ticks_sum(group_of(procs@, key@)) <= u64::MAX,
    ensures
        r@ == app_of(key@, group_of(procs@, key@), tps as nat, sample_ms as nat),
{
    let ghost whole = group_of(procs@, key@);
    let ghost mut g: Seq<Process> = Seq::empty();
    let mut pids: Vec<u32> = Vec::new();
    let mut leader: usize = 0;
    let mut first: usize = 0;
    let mut rss: u64 = 0;
    let mut ticks: u64 = 0;
    let mut run: bool = false;
    let mut sleep: bool = false;
    let mut stop: bool = false;
    let mut wait: bool = false;
    let mut tty: bool = false;
    let mut audio: bool = false;
    let mut i: usize = 0;
    assert(opt_texts(each@).len() == procs@.len());
    assert(g =~= group_of(procs@.take(0), key@));
    while i < procs.len()
        invariant
            i <= procs.len(),
            each@.len() == procs@.len(),
            opt_texts(each@) == each_key(procs@),
            whole == group_of(procs@, key@),
            rss_sum(whole) <= u64::MAX,
            ticks_sum(whole) <= u64::MAX,
            g == group_of(procs@.take(i as int), key@),
            pids@ == g.map_values(|p: Process| p.pid),
            rss == rss_sum(g),
            ticks == ticks_sum(g),
            run == any_state(g, 'R'),
            sleep == any_state(g, 'S'),
            stop == any_state(g, 'T'),
            wait == any_state(g, 'D'),
            tty == any_tty(g),
            audio == any_audio(g),
            g.len() > 0 ==> leader < procs@.len() && first < procs@.len() && g[oldest(g)]
                == procs@[leader as int] && g[0] == procs@[first as int],
        decreases procs.len() - i,
    {
        let ghost now = procs@.take(i as int + 1);
        proof {
            assert(now.drop_last() =~= procs@.take(i as int));
            assert(now.last() == procs@[i as int]);
            assert(opt_texts(each@)[i as int] == opt_text(each@[i as int]));
            assert(each_key(procs@)[i as int] == app_key(procs@[i as int]));
        }
        let mine: bool = match &each[i] {
            Some(k) => same(k.as_str(), key),
            None => false,
        };
        if mine {
            let p: &Process = &procs[i];
            let ghost next = g.push(*p);
            proof {
                lemma_push_facts(g, *p);
                assert(next == group_of(now, key@));
                lemma_group_grows(procs@, key@, i as int + 1);
                if g.len() > 0 {
                    lemma_oldest(g);
                }
            }
            if pids.len() == 0 {
                first = i;
                leader = i;
            } else if p.age_ns >= procs[leader].age_ns {
                leader = i;
            }
            pids.push(p.pid);
            rss = rss + p.rss_kb;
            ticks = ticks + p.utime;
            run = run || p.state == 'R';
            sleep = sleep || p.state == 'S';
            stop = stop || p.state == 'T';
            wait = wait || p.state == 'D';
            tty = tty || p.tty;
            audio = audio || p.has_audio;
            proof {
                assert(pids@ =~= next.map_values(|p: Process| p.pid));
                g = next;
            }
        }
        i = i + 1;
    }
    assert(procs@.take(i as int) =~= procs@);
    let state: char = if run {
        'R'
    } else if sleep {
        'S'
    } else if stop {
        'T'
    } else if wait {
        'D'
    } else {
        procs[first].state
    };
    let lead: &Process = &procs[leader];
    App {
        key: owned(key),
        display: pretty_name(key),
        pids,
        leader: lead.pid,
        rss_kb: rss,
        cpu_pct: load(ticks, tps, sample_ms),
        state,
        tty,
        has_audio: audio,
        cmdline: lead.cmdline.clone(),
        argv: copy_texts(&lead.argv),
        age_ns: lead.age_ns,
        kernel: false,
    }
}

/// Put apps in order, the largest first.
fn sort_apps(apps: &Vec<App>) -> (r: Vec<App>)
    ensures
        app_views(r@) == largest_first(app_views(apps@)),
{
    let mut keys: Vec<(u64, u64)> = Vec::new();
    let mut i: usize = 0;
    while i < apps.len()
        invariant
            i <= apps.len(),
            keys@.len() == i,
            forall|j: int| 0 <= j < i ==> #[trigger] keys@[j] == (apps@[j].rss_kb, 0u64),
        decreases apps.len() - i,
    {
        keys.push((apps[i].rss_kb, 0));
        i = i + 1;
    }
    let ghost views = app_views(apps@);
    assert(keys@ =~= views.map_values(|a: AppView| (a.rss_kb, 0u64)));
    let order: Vec<usize> = rank(&keys);
    let mut out: Vec<App> = Vec::new();
    let mut k: usize = 0;
    while k < order.len()
        invariant
            k <= order.len(),
            out@.len() == k,
            forall|j: int| 0 <= j < order@.len() ==> 0 <= #[trigger] order@[j] < apps@.len(),
            forall|j: int| 0 <= j < k ==> (#[trigger] out@[j])@ == apps@[order@[j] as int]@,
        decreases order.len() - k,
    {
        out.push(apps[order[k]].copy());
        k = k + 1;
    }
    proof {
        let r = indices(order@);
        assert(app_views(out@) =~= arranged(views, r));
    }
    out
}

/// Group processes into logical applications and attach the sampled load.
pub fn group_apps(procs: &Vec<Process>, tps: u32, sample_ms: u64) -> (r: Vec<App>)
    requires
        tps > 0,
        sample_ms > 0,
        forall|k: Seq<char>| rss_sum(#[trigger] group_of(procs@, k)) <= u64::MAX,
        forall|k: Seq<char>| ticks_sum(#[trigger] group_of(procs@, k)) <= u64::MAX,
    ensures
        app_views(r@) == largest_first(apps_of(procs@, tps as nat, sample_ms as nat)),
{
    let each: Vec<Option<String>> = keys_each(procs);
    let keys: Vec<String> = distinct_keys(procs, &each);
    let ghost all = apps_of(procs@, tps as nat, sample_ms as nat);
    let mut apps: Vec<App> = Vec::new();
    let mut i: usize = 0;
    while i < keys.len()
        invariant
            i <= keys.len(),
            tps > 0,
            sample_ms > 0,
            texts(keys@) == keys_of(procs@),
            opt_texts(each@) == each_key(procs@),
            all == apps_of(procs@, tps as nat, sample_ms as nat),
            forall|k: Seq<char>| rss_sum(#[trigger] group_of(procs@, k)) <= u64::MAX,
            forall|k: Seq<char>| ticks_sum(#[trigger] group_of(procs@, k)) <= u64::MAX,
            apps@.len() == i,
            forall|j: int| 0 <= j < i ==> (#[trigger] apps@[j])@ == all[j],
        decreases keys.len() - i,
    {
        proof {
            assert(texts(keys@)[i as int] == keys@[i as int]@);
            lemma_key_has_group(procs@, keys@[i as int]@);
            assert(keys_of(procs@).contains(keys@[i as int]@));
        }
        apps.push(make_app(keys[i].as_str(), procs, &each, tps, sample_ms));
        i = i + 1;
    }
    assert(texts(keys@).len() == keys@.len());
    assert(app_views(apps@) =~= all);
    sort_apps(&apps)
}

proof fn lemma_keys_distinct(procs: Seq<Process>)
    ensures
        keys_of(procs).no_duplicates(),
    decreases procs.len(),
{
    if procs.len() > 0 {
        lemma_keys_distinct(procs.drop_last());
    }
}

proof fn lemma_member_has_key(procs: Seq<Process>, i: int)
    requires
        0 <= i < procs.len(),
        app_key(procs[i]) is Some,
    ensures
        keys_of(procs).contains(app_key(procs[i])->0),
    decreases procs.len(),
{
    let before = keys_of(procs.drop_last());
    let all = keys_of(procs);
    let k = app_key(procs[i])->0;
    if i < procs.len() - 1 {
        lemma_member_has_key(procs.drop_last(), i);
        let j = choose|j: int| 0 <= j < before.len() && before[j] == k;
        assert(all[j] == k);
    } else if !before.contains(k) {
        assert(all[before.len() as int] == k);
    }
}

/// Every process that is neither a kernel thread nor the first belongs to
/// one app, no two apps share a key, and the apps come largest first.
pub proof fn apps_partition_the_processes(procs: Seq<Process>, tps: nat, sample_ms: nat)
    ensures
        ({
            let r = largest_first(apps_of(procs, tps, sample_ms));
            &&& forall|i: int, j: int|
                0 <= i < j < r.len() ==> (#[trigger] r[i]).rss_kb >= (#[trigger] r[j]).rss_kb
                    && r[i].key != r[j].key
            &&& forall|p: int|
                0 <= p < procs.len() && app_key(#[trigger] procs[p]) is Some ==> exists|i: int|
                    0 <= i < r.len() && (#[trigger] r[i]).key == app_key(procs[p])->0
        }),
{
    let apps = apps_of(procs, tps, sample_ms);
    let sizes = apps.map_values(|a: AppView| (a.rss_kb, 0u64));
    let order = descending(sizes);
    let r = largest_first(apps);
    descending_is_a_ranking(sizes);
    lemma_keys_distinct(procs);
    assert forall|i: int, j: int| 0 <= i < j < r.len() implies (#[trigger] r[i]).rss_kb >= (
    #[trigger] r[j]).rss_kb && r[i].key != r[j].key by {
        let a = order[i];
        let b = order[j];
        assert(a != b);
        assert(sizes[a] == (apps[a].rss_kb, 0u64) && sizes[b] == (apps[b].rss_kb, 0u64));
        assert(keys_of(procs)[a] != keys_of(procs)[b]);
    }
    assert forall|p: int|
        0 <= p < procs.len() && app_key(#[trigger] procs[p]) is Some implies exists|i: int|
        0 <= i < r.len() && (#[trigger] r[i]).key == app_key(procs[p])->0 by {
        lemma_member_has_key(procs, p);
        let k = app_key(procs[p])->0;
        let j = choose|j: int| 0 <= j < keys_of(procs).len() && keys_of(procs)[j] == k;
        lemma_ranking_lists(sizes, by_size(), order, j);
        let i = choose|i: int| 0 <= i < order.len() && order[i] == j;
        assert(r[i] == apps[j]);
    }
}

// ------------------------------------------------------------ memory

#[derive(Debug, Clone, Copy)]
pub struct MemInfo {
    pub total_kb: u64,
    pub available_kb: u64,
    pub swap_total_kb: u64,
    pub swap_free_kb: u64,
}

impl Default for MemInfo {
    fn default() -> (r: Self)
        ensures
            r == (MemInfo { total_kb: 0, available_kb: 0, swap_total_kb: 0, swap_free_kb: 0 }),
    {
        MemInfo { total_kb: 0, available_kb: 0, swap_total_kb: 0, swap_free_kb: 0 }
    }
}

/// What one more line of `/proc/meminfo` says.
pub open spec fn mem_line(line: Seq<char>, m: MemInfo) -> MemInfo {
    let w = words_of(line);
    if w.len() < 2 {
        m
    } else {
        let v = number_or(w[1], u64::MAX as nat, 0) as u64;
        if w[0] == "MemTotal:"@ {
            MemInfo { total_kb: v, ..m }
        } else if w[0] == "MemAvailable:"@ {
            MemInfo { available_kb: v, ..m }
        } else if w[0] == "SwapTotal:"@ {
            MemInfo { swap_total_kb: v, ..m }
        } else if w[0] == "SwapFree:"@ {
            MemInfo { swap_free_kb: v, ..m }
        } else {
            m
        }
    }
}

/// What the lines of `/proc/meminfo` say, starting from zeros.
pub open spec fn mem_of(list: Seq<Seq<char>>) -> MemInfo
    decreases list.len(),
{
    if list.len() == 0 {
        MemInfo { total_kb: 0, available_kb: 0, swap_total_kb: 0, swap_free_kb: 0 }
    } else {
        mem_line(list.last(), mem_of(list.drop_last()))
    }
}

pub fn meminfo(text: &str) -> (r: MemInfo)
    ensures
        r == mem_of(lines_of(text@)),
{
    let list: Vec<String> = lines(text);
    let ghost all = texts(list@);
    let mut m: MemInfo = MemInfo {
        total_kb: 0,
        available_kb: 0,
        swap_total_kb: 0,
        swap_free_kb: 0,
    };
    let mut i: usize = 0;
    while i < list.len()
        invariant
            i <= list.len(),
            all == texts(list@),
            m == mem_of(all.take(i as int)),
        decreases list.len() - i,
    {
        proof {
            assert(all.take(i as int + 1).drop_last() =~= all.take(i as int));
            assert(all.take(i as int + 1).last() == list@[i as int]@);
        }
        let w: Vec<String> = words(list[i].as_str());
        assert(texts(w@).len() == w@.len());
        if w.len() >= 2 {
            proof {
                assert(texts(w@)[0] == w@[0]@);
                assert(texts(w@)[1] == w@[1]@);
            }
            let v: u64 = u64_or(w[1].as_str(), 0);
            let k: &str = w[0].as_str();
            if same(k, "MemTotal:") {
                m.total_kb = v;
            } else if same(k, "MemAvailable:") {
                m.available_kb = v;
            } else if same(k, "SwapTotal:") {
                m.swap_total_kb = v;
            } else if same(k, "SwapFree:") {
                m.swap_free_kb = v;
            }
        }
        i = i + 1;
    }
    assert(all.take(i as int) =~= all);
    m
}

/// The first three words of `/proc/loadavg`: the load over one, five and
/// fifteen minutes.
pub open spec fn first_words(s: Seq<char>, n: nat) -> Seq<Seq<char>> {
    let w = words_of(s);
    if w.len() > n {
        w.take(n as int)
    } else {
        w
    }
}

pub fn loadavg(text: &str) -> (r: Vec<String>)
    ensures
        texts(r@) == first_words(text@, 3),
{
    let mut w: Vec<String> = words(text);
    let ghost all = w@;
    if w.len() > 3 {
        w.truncate(3);
        assert(texts(w@) =~= texts(all).take(3));
    }
    assert(texts(all).len() == all.len());
    w
}

// ------------------------------------------------------------ stalls

/// Pressure stall averages over ten seconds, in thousandths of a percent.
#[derive(Debug, Clone, Copy)]
pub struct Psi {
    pub some_avg10: u32,
    pub full_avg10: u32,
}

impl Default for Psi {
    fn default() -> (r: Self)
        ensures
            r == (Psi { some_avg10: 0, full_avg10: 0 }),
    {
        Psi { some_avg10: 0, full_avg10: 0 }
    }
}

/// The numerals of a pressure file: the last ten-second average on its
/// `some` lines and the last on its `full` lines.
pub struct PsiFields {
    pub some: Option<String>,
    pub full: Option<String>,
}

/// The last ten-second average among the fields of a line, or `other`.
pub open spec fn avg10_of(fields: Seq<Seq<char>>, other: Option<Seq<char>>) -> Option<Seq<char>>
    decreases fields.len(),
{
    if fields.len() == 0 {
        other
    } else {
        match after_prefix(fields.last(), "avg10="@) {
            Some(v) => Some(v),
            None => avg10_of(fields.drop_last(), other),
        }
    }
}

/// The numerals that the lines of a pressure file hold, or nothing where a
/// line is blank.
pub open spec fn psi_fields(list: Seq<Seq<char>>) -> Option<(Option<Seq<char>>, Option<Seq<char>>)>
    decreases list.len(),
{
    if list.len() == 0 {
        Some((None, None))
    } else {
        match psi_fields(list.drop_last()) {
            None => None,
            Some((some, full)) => {
                let w = words_of(list.last());
                if w.len() == 0 {
                    None
                } else if w[0] == "some"@ {
                    Some((avg10_of(w.drop_first(), some), full))
                } else if w[0] == "full"@ {
                    Some((some, avg10_of(w.drop_first(), full)))
                } else {
                    Some((some, full))
                }
            },
        }
    }
}

fn avg10(w: &Vec<String>) -> (r: Option<String>)
    requires
        w@.len() > 0,
    ensures
        forall|other: Option<Seq<char>>| #[trigger]
            avg10_of(texts(w@).drop_first(), other) == (match r {
                Some(v) => Some(v@),
                None => other,
            }),
{
    let ghost fields = texts(w@).drop_first();
    let mut j: usize = w.len();
    assert(fields.take(j - 1) =~= fields);
    while j > 1
        invariant
            1 <= j <= w.len(),
            fields == texts(w@).drop_first(),
            forall|other: Option<Seq<char>>| #[trigger]
                avg10_of(fields, other) == avg10_of(fields.take(j - 1), other),
        decreases j,
    {
        proof {
            assert(fields.take(j - 1).drop_last() =~= fields.take(j - 2));
            assert(fields.take(j - 1).last() == w@[j - 1]@);
        }
        if let Some(v) = strip_prefix(w[j - 1].as_str(), "avg10=") {
            return Some(v);
        }
        j = j - 1;
    }
    assert(fields.take(0) =~= Seq::empty());
    None
}

/// Read a pressure file. Turning the numerals into thousandths is left to the
/// caller.
pub fn psi(text: &str) -> (r: Option<PsiFields>)
    ensures
        r is Some <==> psi_fields(lines_of(text@)) is Some,
        r matches Some(f) ==> psi_fields(lines_of(text@)) == Some(
            (opt_text(f.some), opt_text(f.full)),
        ),
{
    let list: Vec<String> = lines(text);
    let ghost all = texts(list@);
    let mut some: Option<String> = None;
    let mut full: Option<String> = None;
    let mut i: usize = 0;
    while i < list.len()
        invariant
            i <= list.len(),
            all == texts(list@),
            all == lines_of(text@),
            psi_fields(all.take(i as int)) == Some((opt_text(some), opt_text(full))),
        decreases list.len() - i,
    {
        let ghost now = all.take(i as int + 1);
        proof {
            assert(now.drop_last() =~= all.take(i as int));
            assert(now.last() == list@[i as int]@);
        }
        let w: Vec<String> = words(list[i].as_str());
        assert(texts(w@).len() == w@.len());
        if w.len() == 0 {
            proof {
                lemma_psi_blank(all, i as int + 1);
            }
            return None;
        }
        assert(texts(w@)[0] == w@[0]@);
        let kind: &str = w[0].as_str();
        if same(kind, "some") {
            if let Some(v) = avg10(&w) {
                some = Some(v);
            }
        } else if same(kind, "full") {
            if let Some(v) = avg10(&w) {
                full = Some(v);
            }
        }
        i = i + 1;
    }
    assert(all.take(i as int) =~= all);
    Some(PsiFields { some, full })
}

/// A blank line spoils the whole file.
proof fn lemma_psi_blank(list: Seq<Seq<char>>, n: int)
    requires
        0 <= n <= list.len(),
        psi_fields(list.take(n)) is None,
    ensures
        psi_fields(list) is None,
    decreases list.len(),
{
    if n < list.len() {
        assert(list.drop_last().take(n) =~= list.take(n));
        lemma_psi_blank(list.drop_last(), n);
    } else {
        assert(list.take(n) =~= list);
    }
}

// ------------------------------------------------------------ battery, thermals

#[derive(Debug, Clone, Copy, PartialEq, Eq, Structural)]
pub struct Battery {
    pub capacity: u32,
    pub discharging: bool,
}

/// The files of one power supply, where readable.
pub struct Supply {
    pub kind: Option<String>,
    pub capacity: Option<String>,
    pub status: Option<String>,
}

pub open spec fn is_battery(s: Supply) -> bool {
    s.kind matches Some(k) && trimmed(k@) == "Battery"@
}

/// The charge of a battery: nothing where its capacity is no number.
pub open spec fn charge_of(s: Supply) -> Option<Battery> {
    match s.capacity {
        None => None,
        Some(c) => match parsed(trimmed(c@), 10, u32::MAX as nat) {
            None => None,
            Some(n) => Some(
                Battery {
                    capacity: n as u32,
                    discharging: s.status matches Some(t) && trimmed(t@) == "Discharging"@,
                },
            ),
        },
    }
}

/// The charge of the first battery among the power supplies.
pub open spec fn battery_among(list: Seq<Supply>) -> Option<Battery>
    decreases list.len(),
{
    if list.len() == 0 {
        None
    } else if is_battery(list[0]) {
        charge_of(list[0])
    } else {
        battery_among(list.drop_first())
    }
}

fn charge(s: &Supply) -> (r: Option<Battery>)
    ensures
        r == charge_of(*s),
{
    match &s.capacity {
        None => None,
        Some(c) => match parse_u32(trim(c.as_str()).as_str()) {
            None => None,
            Some(n) => {
                let discharging: bool = match &s.status {
                    Some(t) => same(trim(t.as_str()).as_str(), "Discharging"),
                    None => false,
                };
                Some(Battery { capacity: n, discharging })
            },
        },
    }
}

pub fn battery(list: &Vec<Supply>) -> (r: Option<Battery>)
    ensures
        r == battery_among(list@),
{
    let mut i: usize = 0;
    assert(list@.skip(0) =~= list@);
    while i < list.len()
        invariant
            i <= list.len(),
            battery_among(list@) == battery_among(list@.skip(i as int)),
        decreases list.len() - i,
    {
        assert(list@.skip(i as int).drop_first() =~= list@.skip(i as int + 1));
        let found: bool = match &list[i].kind {
            Some(k) => same(trim(k.as_str()).as_str(), "Battery"),
            None => false,
        };
        if found {
            return charge(&list[i]);
        }
        i = i + 1;
    }
    None
}

/// The highest reading above 0 and below 150 degrees, in thousandths.
pub open spec fn hottest_of(list: Seq<i64>) -> Option<u32>
    decreases list.len(),
{
    if list.len() == 0 {
        None
    } else {
        let before = hottest_of(list.drop_last());
        let c = list.last();
        if 0 < c < 150_000 && (before is None || c > before->0) {
            Some(c as u32)
        } else {
            before
        }
    }
}

/// Hottest thermal zone in thousandths of a degree, if any is plausible.
pub fn hottest_thermal(readings: &Vec<i64>) -> (r: Option<u32>)
    ensures
        r == hottest_of(readings@),
{
    let mut max: Option<u32> = None;
    let mut i: usize = 0;
    while i < readings.len()
        invariant
            i <= readings.len(),
            max == hottest_of(readings@.take(i as int)),
        decreases readings.len() - i,
    {
        assert(readings@.take(i as int + 1).drop_last() =~= readings@.take(i as int));
        let c: i64 = readings[i];
        if 0 < c && c < 150_000 {
            match max {
                None => {
                    max = Some(c as u32);
                },
                Some(m) => {
                    if c > m as i64 {
                        max = Some(c as u32);
                    }
                },
            }
        }
        i = i + 1;
    }
    assert(readings@.take(i as int) =~= readings@);
    max
}

// ------------------------------------------------------------ laws

pub proof fn lemma_last_of(a: Seq<char>, c: char, b: Seq<char>)
    requires
        !b.contains(c),
    ensures
        last_of(a.push(c) + b, c) == Some(a.len() as int),
    decreases b.len(),
{
    let s = a.push(c) + b;
    if b.len() == 0 {
        assert(s =~= a.push(c));
    } else {
        assert(s.last() == b[b.len() - 1]);
        assert(b.contains(b[b.len() - 1]));
        assert(s.drop_last() =~= a.push(c) + b.drop_last());
        assert forall|i: int| 0 <= i < b.drop_last().len() implies b.drop_last()[i] != c by {
            assert(b.contains(b[i]));
        }
        lemma_last_of(a, c, b.drop_last());
    }
}

/// A `stat` line reads back: the name stands between its parentheses,
/// whatever it holds, and behind it stand the state, the parent, the group,
/// the terminal, the ticks and the start. A process without a command line is
/// a thread of the kernel, and one with an open sound device plays.
pub proof fn stat_lines_read_back(
    pid: u32,
    uptime_ns: u64,
    tps: nat,
    files: ProcFiles,
    number: Seq<char>,
    comm: Seq<char>,
    fields: Seq<char>,
    ppid: u32,
    pgrp: u32,
    tty: u32,
    utime: u64,
    stime: u64,
    start: u64,
)
    requires
        tps > 0,
        !number.contains('('),
        !fields.contains(')'),
        files.stat@ == number + seq!['('] + comm + seq![')', ' '] + fields,
        words_of(fields).len() >= 22,
        words_of(fields)[1] == decimal(ppid as nat),
        words_of(fields)[2] == decimal(pgrp as nat),
        words_of(fields)[4] == decimal(tty as nat),
        tty <= i32::MAX,
        words_of(fields)[11] == decimal(utime as nat),
        words_of(fields)[12] == decimal(stime as nat),
        words_of(fields)[19] == decimal(start as nat),
        files.status is None,
    ensures
        process_of(pid, uptime_ns, tps, files) is Some,
        ({
            let p = process_of(pid, uptime_ns, tps, files)->0;
            &&& p.pid == pid
            &&& p.comm == comm
            &&& p.state == words_of(fields)[0][0]
            &&& p.ppid == ppid
            &&& p.pgrp == pgrp
            &&& p.tty <==> tty != 0
            &&& p.utime == utime
            &&& p.stime == stime
            &&& p.uid == 0 && p.rss_kb == 0 && p.threads == 1
            &&& p.kernel_thread <==> files.cmdline@.len() == 0
            &&& p.has_audio <==> exists|i: int|
                0 <= i < files.fds@.len() && mentions((#[trigger] files.fds@[i])@, "/dev/snd"@)
            &&& files.exe is None ==> p.exe == comm
            &&& start * 1_000_000_000 / (tps as int) + p.age_ns == uptime_ns || (p.age_ns == 0
                && start * 1_000_000_000 / (tps as int) > uptime_ns)
        }),
{
    let s = files.stat@;
    let head = number + seq!['('] + comm;
    assert(s =~= head.push(')') + (seq![' '] + fields));
    let tail = seq![' '] + fields;
    assert forall|i: int| 0 <= i < tail.len() implies tail[i] != ')' by {
        if i > 0 {
            assert(fields.contains(fields[i - 1]));
        }
    }
    lemma_last_of(head, ')', tail);
    lemma_until(s, '(');
    assert forall|i: int| 0 <= i < number.len() implies s[i] != '(' by {
        assert(number.contains(number[i]));
    }
    assert(s[number.len() as int] == '(');
    assert(until(s, '(') == number.len());
    assert(s.subrange(number.len() as int + 1, head.len() as int) =~= comm);
    assert(s.skip(head.len() as int + 2) =~= fields);
    numeral_reads_back(ppid as nat, u32::MAX as nat);
    numeral_reads_back(pgrp as nat, u32::MAX as nat);
    numeral_reads_back(tty as nat, i32::MAX as nat);
    numerals_are_digits(tty as nat);
    numeral_reads_back(utime as nat, u64::MAX as nat);
    numeral_reads_back(stime as nat, u64::MAX as nat);
    numeral_reads_back(start as nat, u64::MAX as nat);
    let born = start * 1_000_000_000 / (tps as int);
    assert(born >= 0) by (nonlinear_arith)
        requires
            born == start * 1_000_000_000 / (tps as int),
            tps > 0,
            start >= 0,
    ;
    let fds = texts(files.fds@);
    assert forall|i: int| 0 <= i < fds.len() implies holds_text(#[trigger] fds[i], "/dev/snd"@)
        == mentions(files.fds@[i]@, "/dev/snd"@) by {
        lemma_mentions(fds[i], "/dev/snd"@);
    }
    let p = process_of(pid, uptime_ns, tps, files)->0;
    if p.has_audio {
        let i = choose|i: int|
            0 <= i < fds.len() && holds_text(#[trigger] fds[i], "/dev/snd"@);
        assert(mentions(files.fds@[i]@, "/dev/snd"@));
    }
    if exists|i: int|
        0 <= i < files.fds@.len() && mentions((#[trigger] files.fds@[i])@, "/dev/snd"@) {
        let i = choose|i: int|
            0 <= i < files.fds@.len() && mentions((#[trigger] files.fds@[i])@, "/dev/snd"@);
        assert(holds_text(fds[i], "/dev/snd"@));
    }
}

proof fn lemma_status_push(list: Seq<Seq<char>>, line: Seq<char>, st: Status)
    ensures
        status_of(list.push(line), st) == (match status_of(list, st) {
            Some(s) => status_line(line, s),
            None => None,
        }),
    decreases list.len(),
{
    let all = list.push(line);
    if list.len() == 0 {
        assert(all.drop_first() =~= Seq::<Seq<char>>::empty());
        assert(all[0] == line);
        match status_line(line, st) {
            Some(next) => {
                assert(status_of(all.drop_first(), next) == Some(next));
            },
            None => {},
        }
    } else {
        assert(all.drop_first() =~= list.drop_first().push(line));
        assert(all[0] == list[0]);
        match status_line(list[0], st) {
            Some(next) => {
                lemma_status_push(list.drop_first(), line, next);
            },
            None => {},
        }
    }
}

/// A line of the `status` file sets what it names and nothing else: the user,
/// the resident memory or the number of threads.
pub proof fn status_lines_set_what_they_name(
    list: Seq<Seq<char>>,
    st: Status,
    rest: Seq<char>,
    n: u32,
    kb: u64,
)
    requires
        status_of(list, st) is Some,
    ensures
        ({
            let s = status_of(list, st)->0;
            &&& words_of(rest).len() > 0 && words_of(rest)[0] == decimal(n as nat) ==> status_of(
                list.push("Uid:"@ + rest),
                st,
            ) == Some(Status { uid: n, rss_kb: s.rss_kb, threads: s.threads })
            &&& words_of(rest).len() > 0 && words_of(rest)[0] == decimal(kb as nat) ==> status_of(
                list.push("VmRSS:"@ + rest),
                st,
            ) == Some(Status { uid: s.uid, rss_kb: kb, threads: s.threads })
            &&& trimmed(rest) == decimal(n as nat) ==> status_of(
                list.push("Threads:"@ + rest),
                st,
            ) == Some(Status { uid: s.uid, rss_kb: s.rss_kb, threads: n })
            &&& rest.len() > 0 && rest[0] != 'U' && rest[0] != 'V' && rest[0] != 'T' ==> status_of(
                list.push(rest),
                st,
            ) == Some(s)
        }),
{
    reveal_strlit("Uid:");
    reveal_strlit("VmRSS:");
    reveal_strlit("Threads:");
    lemma_status_push(list, "Uid:"@ + rest, st);
    lemma_status_push(list, "VmRSS:"@ + rest, st);
    lemma_status_push(list, "Threads:"@ + rest, st);
    lemma_status_push(list, rest, st);
    numeral_reads_back(n as nat, u32::MAX as nat);
    numeral_reads_back(kb as nat, u64::MAX as nat);
    lemma_behind("Uid:"@, rest);
    lemma_behind("VmRSS:"@, rest);
    lemma_behind("Threads:"@, rest);
    lemma_starts_apart(rest, "Uid:"@);
    lemma_starts_apart(rest, "VmRSS:"@);
    lemma_starts_apart(rest, "Threads:"@);
    lemma_starts_apart("VmRSS:"@ + rest, "Uid:"@);
    lemma_starts_apart("Threads:"@ + rest, "Uid:"@);
    lemma_starts_apart("Threads:"@ + rest, "VmRSS:"@);
}

proof fn lemma_behind(p: Seq<char>, rest: Seq<char>)
    ensures
        after_prefix(p + rest, p) == Some(rest),
{
    assert((p + rest).take(p.len() as int) =~= p);
    assert((p + rest).skip(p.len() as int) =~= rest);
}

proof fn lemma_starts_apart(s: Seq<char>, p: Seq<char>)
    ensures
        s.len() > 0 && p.len() > 0 && s[0] != p[0] ==> !begins(s, p),
{
    if begins(s, p) && p.len() > 0 {
        assert(s.take(p.len() as int)[0] == s[0]);
    }
}

/// A zero byte parts two arguments, and empty ones are left out.
pub proof fn arguments_part_at_zero_bytes(a: Seq<u8>, b: Seq<u8>)
    requires
        !a.contains(0),
    ensures
        a.len() > 0 ==> args_of(a) == seq![lossy_of(a)],
        a.len() > 0 ==> args_of(a.push(0) + b) == seq![lossy_of(a)] + args_of(b),
        a.len() == 0 ==> args_of(a.push(0) + b) == args_of(b),
{
    let s = a.push(0) + b;
    assert(s.take(a.len() as int) =~= a);
    assert(s.skip(a.len() as int + 1) =~= b);
    assert(a.take(a.len() as int) =~= a);
    lemma_zero_at(a, s);
    lemma_zero_at(a, a);
    assert(Seq::<Seq<char>>::empty() + args_of(b) =~= args_of(b));
}

proof fn lemma_zero_at(a: Seq<u8>, s: Seq<u8>)
    requires
        !a.contains(0),
        a.len() <= s.len(),
        s.take(a.len() as int) == a,
        s.len() == a.len() || s[a.len() as int] == 0,
    ensures
        zero_at(s) == a.len(),
    decreases a.len(),
{
    if a.len() > 0 {
        assert(s[0] == s.take(a.len() as int)[0]);
        assert(a.contains(a[0]));
        assert forall|i: int| 0 <= i < a.drop_first().len() implies a.drop_first()[i] != 0 by {
            assert(a.contains(a[i + 1]));
        }
        assert(s.drop_first().take(a.len() - 1) =~= a.drop_first()) by {
            assert forall|i: int| 0 <= i < a.len() - 1 implies s.drop_first()[i]
                == a.drop_first()[i] by {
                assert(s.take(a.len() as int)[i + 1] == s[i + 1]);
            }
        }
        lemma_zero_at(a.drop_first(), s.drop_first());
    }
}

/// Among the names of a directory those that are numerals are processes.
pub proof fn numerals_name_processes(names: Seq<Seq<char>>, pid: u32, other: Seq<char>)
    ensures
        pids_among(names.push(decimal(pid as nat))) == pids_among(names).push(pid),
        other.len() > 0 && !('0' <= other[0] <= '9') && other[0] != '+' ==> pids_among(
            names.push(other),
        ) == pids_among(names),
{
    numeral_reads_back(pid as nat, u32::MAX as nat);
    assert(names.push(decimal(pid as nat)).drop_last() =~= names);
    assert(names.push(other).drop_last() =~= names);
    if other.len() > 0 && !('0' <= other[0] <= '9') && other[0] != '+' {
        assert(digit_value(other[0], 10) is None);
        assert(!all_digits(other, 10));
    }
}

/// Of a process that was looked at before, the ticks since then count; the
/// last look counts, and one at another process does not.
pub proof fn ticks_count_since_the_look(
    first: Seq<(u32, u64)>,
    p: ProcessView,
    t0: u64,
    other: u32,
    t1: u64,
)
    requires
        p.utime + p.stime <= u64::MAX,
        other != p.pid,
    ensures
        ({
            let r = sampled(first.push((p.pid, t0)), p);
            &&& t0 <= p.utime + p.stime ==> r.utime + t0 == p.utime + p.stime
            &&& t0 > p.utime + p.stime ==> r.utime == 0
            &&& r.stime == 0
            &&& r == (ProcessView { utime: r.utime, stime: 0, ..p })
        }),
        sampled(first.push((other, t1)), p) == sampled(first, p),
        sampled(Seq::empty(), p) == p,
{
    assert(first.push((p.pid, t0)).drop_last() =~= first);
    assert(first.push((other, t1)).drop_last() =~= first);
}

/// Whether a process counts to an app.
pub open spec fn belongs(p: Process, key: Seq<char>) -> bool {
    !p.kernel_thread && p.pid != 0 && p.pid != 1 && lower_of(p.exe@) == key
}

/// A process joins the app that its executable names, adds its memory and
/// its ticks, and leads it where none is older. The kernel's threads and the
/// first process join none.
pub proof fn processes_join_their_app(
    procs: Seq<Process>,
    p: Process,
    key: Seq<char>,
    tps: nat,
    sample_ms: nat,
)
    requires
        rss_sum(group_of(procs, key)) + p.rss_kb <= u64::MAX,
    ensures
        ({
            let g = group_of(procs, key);
            let n = group_of(procs.push(p), key);
            let before = app_of(key, g, tps, sample_ms);
            let after = app_of(key, n, tps, sample_ms);
            &&& !belongs(p, key) ==> n == g
            &&& belongs(p, key) ==> {
                &&& after.pids == before.pids.push(p.pid)
                &&& after.rss_kb == before.rss_kb + p.rss_kb
                &&& ticks_sum(n) == ticks_sum(g) + p.utime
                &&& after.tty <==> p.tty || before.tty
                &&& after.has_audio <==> p.has_audio || before.has_audio
                &&& g.len() == 0 || p.age_ns >= before.age_ns ==> after.leader == p.pid
                    && after.age_ns == p.age_ns && after.cmdline == p.cmdline@ && after.argv
                    == texts(p.argv@)
                &&& g.len() > 0 && p.age_ns < before.age_ns ==> after.leader == before.leader
                    && after.age_ns == before.age_ns && after.cmdline == before.cmdline
                    && after.argv == before.argv
            }
        }),
{
    let g = group_of(procs, key);
    let n = group_of(procs.push(p), key);
    assert(procs.push(p).drop_last() =~= procs);
    if belongs(p, key) {
        lemma_push_facts(g, p);
        assert(n == g.push(p));
        assert(n.map_values(|q: Process| q.pid) =~= g.map_values(|q: Process| q.pid).push(p.pid));
        if g.len() > 0 {
            lemma_oldest(g);
            assert(n[oldest(g)] == g[oldest(g)]);
        }
    }
}

/// An app without processes takes no memory and no time.
pub proof fn nothing_runs_without_processes(key: Seq<char>)
    ensures
        group_of(Seq::empty(), key).len() == 0,
        rss_sum(Seq::empty()) == 0,
        ticks_sum(Seq::empty()) == 0,
{
}

/// An app runs if one of its processes does; if none does it sleeps if one
/// sleeps, then is stopped, then waits, in that order.
pub proof fn an_app_is_in_its_most_active_state(g: Seq<Process>, i: int)
    requires
        0 <= i < g.len(),
    ensures
        g[i].state == 'R' ==> state_of(g) == 'R',
        g[i].state == 'S' ==> state_of(g) == 'R' || state_of(g) == 'S',
        g[i].state == 'T' ==> state_of(g) == 'R' || state_of(g) == 'S' || state_of(g) == 'T',
        g[i].state == 'D' ==> state_of(g) == 'R' || state_of(g) == 'S' || state_of(g) == 'T'
            || state_of(g) == 'D',
        any_state(g, state_of(g)),
{
    assert(any_state(g, g[i].state));
    assert(any_state(g, g[0].state));
}

/// The load is the share of one core that the ticks are of the sample, to
/// the nearest billionth of a percent.
pub proof fn loads_are_shares_of_a_core(ticks: nat, tps: nat, sample_ms: nat)
    requires
        tps > 0,
        sample_ms > 0,
        load_of(ticks, tps, sample_ms) < u64::MAX,
    ensures
        2 * load_of(ticks, tps, sample_ms) * (tps * sample_ms) <= 200_000_000_000_000
            * ticks + tps * sample_ms,
        2 * load_of(ticks, tps, sample_ms) * (tps * sample_ms) > 200_000_000_000_000
            * ticks - tps * sample_ms,
{
    let whole = tps * sample_ms;
    assert(whole > 0) by (nonlinear_arith)
        requires
            tps > 0,
            sample_ms > 0,
            whole == tps * sample_ms,
    ;
    let sum = ticks * 200_000_000_000_000 + whole;
    let pct = sum / (2 * whole);
    assert(pct * (2 * whole) <= sum < (pct + 1) * (2 * whole)) by (nonlinear_arith)
        requires
            whole > 0,
            pct == sum / (2 * whole),
    ;
    assert(pct * (2 * whole) == 2 * pct * whole) by (nonlinear_arith);
    assert((pct + 1) * (2 * whole) == 2 * pct * whole + 2 * whole) by (nonlinear_arith);
    let load = load_of(ticks, tps, sample_ms);
    assert(load == pct);
    assert(2 * load * whole == 2 * pct * whole);
}

/// A line of `/proc/meminfo` sets the figure that it names and nothing else.
pub proof fn memory_lines_set_what_they_name(list: Seq<Seq<char>>, line: Seq<char>, kb: u64)
    requires
        words_of(line).len() >= 2,
        words_of(line)[1] == decimal(kb as nat),
    ensures
        ({
            let m = mem_of(list);
            let r = mem_of(list.push(line));
            let name = words_of(line)[0];
            &&& r.total_kb == if name == "MemTotal:"@ { kb } else { m.total_kb }
            &&& r.available_kb == if name == "MemAvailable:"@ { kb } else { m.available_kb }
            &&& r.swap_total_kb == if name == "SwapTotal:"@ { kb } else { m.swap_total_kb }
            &&& r.swap_free_kb == if name == "SwapFree:"@ { kb } else { m.swap_free_kb }
        }),
{
    numeral_reads_back(kb as nat, u64::MAX as nat);
    assert(list.push(line).drop_last() =~= list);
    reveal_strlit("MemTotal:");
    reveal_strlit("MemAvailable:");
    reveal_strlit("SwapTotal:");
    reveal_strlit("SwapFree:");
    assert("MemTotal:"@.len() == 9 && "MemAvailable:"@.len() == 13);
    assert("SwapTotal:"@.len() == 10 && "SwapFree:"@.len() == 9);
    assert("MemTotal:"@[0] == 'M' && "SwapFree:"@[0] == 'S');
}

/// A line of a pressure file sets the average of the kind that it begins
/// with: that which its field of ten seconds holds.
pub proof fn pressure_lines_set_their_kind(
    list: Seq<Seq<char>>,
    line: Seq<char>,
    value: Seq<char>,
    last: int,
)
    requires
        psi_fields(list) is Some,
        1 <= last < words_of(line).len(),
        words_of(line)[last] == "avg10="@ + value,
        forall|i: int|
            last < i < words_of(line).len() ==> !begins(#[trigger] words_of(line)[i], "avg10="@),
    ensures
        ({
            let before = psi_fields(list)->0;
            let after = psi_fields(list.push(line));
            &&& words_of(line)[0] == "some"@ ==> after == Some((Some(value), before.1))
            &&& words_of(line)[0] == "full"@ ==> after == Some((before.0, Some(value)))
            &&& words_of(line)[0] != "some"@ && words_of(line)[0] != "full"@ ==> after == Some(
                before,
            )
        }),
{
    assert(list.push(line).drop_last() =~= list);
    let w = words_of(line);
    reveal_strlit("some");
    reveal_strlit("full");
    assert("some"@[0] == 's' && "full"@[0] == 'f');
    let before = psi_fields(list)->0;
    lemma_avg10(w.drop_first(), value, last - 1, before.0);
    lemma_avg10(w.drop_first(), value, last - 1, before.1);
}

proof fn lemma_avg10(
    fields: Seq<Seq<char>>,
    value: Seq<char>,
    last: int,
    other: Option<Seq<char>>,
)
    requires
        0 <= last < fields.len(),
        fields[last] == "avg10="@ + value,
        forall|i: int| last < i < fields.len() ==> !begins(#[trigger] fields[i], "avg10="@),
    ensures
        avg10_of(fields, other) == Some(value),
    decreases fields.len(),
{
    lemma_behind("avg10="@, value);
    if last < fields.len() - 1 {
        assert(!begins(fields[fields.len() - 1], "avg10="@));
        lemma_avg10(fields.drop_last(), value, last, other);
    }
}

/// The charge is that of the first battery, and a supply of another kind
/// has none.
pub proof fn the_first_battery_counts(list: Seq<Supply>, at: int, n: u32)
    requires
        0 <= at < list.len(),
        forall|i: int|
            0 <= i < at ==> !((#[trigger] list[i]).kind matches Some(k) && trimmed(k@)
                == "Battery"@),
        list[at].kind matches Some(k) && trimmed(k@) == "Battery"@,
        list[at].capacity matches Some(c) && trimmed(c@) == decimal(n as nat),
    ensures
        battery_among(list) is Some,
        battery_among(list)->0.capacity == n,
        battery_among(list)->0.discharging <==> (list[at].status matches Some(t) && trimmed(t@)
            == "Discharging"@),
    decreases at,
{
    numeral_reads_back(n as nat, u32::MAX as nat);
    if at > 0 {
        assert(!is_battery(list[0]));
        let rest = list.drop_first();
        assert forall|i: int| 0 <= i < at - 1 implies !((#[trigger] rest[i]).kind matches Some(k)
            && trimmed(k@) == "Battery"@) by {
            assert(rest[i] == list[i + 1]);
        }
        the_first_battery_counts(rest, at - 1, n);
    }
}

/// Without a battery there is no charge.
pub proof fn no_battery_has_no_charge(list: Seq<Supply>)
    requires
        forall|i: int|
            0 <= i < list.len() ==> !((#[trigger] list[i]).kind matches Some(k) && trimmed(k@)
                == "Battery"@),
    ensures
        battery_among(list) is None,
    decreases list.len(),
{
    if list.len() > 0 {
        assert(!is_battery(list[0]));
        let rest = list.drop_first();
        assert forall|i: int| 0 <= i < rest.len() implies !((#[trigger] rest[i]).kind matches Some(
            k,
        ) && trimmed(k@) == "Battery"@) by {
            assert(rest[i] == list[i + 1]);
        }
        no_battery_has_no_charge(rest);
    }
}

/// The hottest reading is one of the readings, none that can be is hotter,
/// and readings outside of 0 to 150 degrees count for nothing.
pub proof fn the_hottest_reading_counts(list: Seq<i64>)
    ensures
        hottest_of(list) matches Some(h) ==> 0 < h < 150_000 && list.contains(h as i64),
        forall|i: int|
            0 <= i < list.len() && 0 < #[trigger] list[i] < 150_000 ==> hottest_of(list) is Some
                && hottest_of(list)->0 >= list[i],
    decreases list.len(),
{
    if list.len() > 0 {
        let before = list.drop_last();
        the_hottest_reading_counts(before);
        assert forall|i: int|
            0 <= i < list.len() && 0 < #[trigger] list[i] < 150_000 implies hottest_of(list) is Some
            && hottest_of(list)->0 >= list[i] by {
            if i < before.len() {
                assert(before[i] == list[i]);
            }
        }
        match hottest_of(list) {
            Some(h) => {
                if hottest_of(before) == Some(h) && !(list.last() == h) {
                    let i = choose|i: int| 0 <= i < before.len() && before[i] == h as i64;
                    assert(list[i] == h as i64);
                } else {
                    assert(list[list.len() - 1] == h as i64);
                }
            },
            None => {},
        }
    }
}

/// Data lies where its variable says, and below the home directory, or else
/// the directory for temporary files, where it says nothing.
pub proof fn directories_follow_their_variable(
    value: Option<Seq<char>>,
    home: Option<Seq<char>>,
    suffix: Seq<char>,
)
    requires
        suffix.len() > 0,
        suffix[0] != '/',
    ensures
        value matches Some(v) && v.len() > 0 ==> xdg_dir(value, home, suffix) == value->0,
        (value is None || value->0.len() == 0) && (home matches Some(h) && h.len() > 0 && h.last()
            != '/') ==> xdg_dir(value, home, suffix) == home->0 + "/"@ + suffix,
        (value is None || value->0.len() == 0) && home is None ==> xdg_dir(value, home, suffix)
            == "/tmp/"@ + suffix,
{
    reveal_strlit("/tmp");
    reveal_strlit("/tmp/");
    reveal_strlit("/");
    assert("/tmp"@ + "/"@ + suffix =~= "/tmp/"@ + suffix);
}

/// An executable is named by the file that its link points to, a deleted one
/// too, and by its command name where there is no link.
pub proof fn executables_are_named_by_their_file(
    dir: Seq<char>,
    name: Seq<char>,
    comm: Seq<char>,
)
    requires
        name.len() > 0,
        name != "."@,
        name != ".."@,
        forall|i: int| 0 <= i < name.len() ==> #[trigger] name[i] != '/',
        name.len() < 10 || name.skip(name.len() - 10) != " (deleted)"@,
    ensures
        exe_name(Some(dir + seq!['/'] + name), comm) == name,
        exe_name(Some(dir + seq!['/'] + name + " (deleted)"@), comm) == name,
        exe_name(None, comm) == comm,
{
    reveal_strlit(" (deleted)");
    let gone = name + " (deleted)"@;
    assert(dir + seq!['/'] + name + " (deleted)"@ =~= dir + seq!['/'] + gone);
    assert forall|i: int| 0 <= i < gone.len() implies #[trigger] gone[i] != '/' by {
        if i < name.len() {
            assert(gone[i] == name[i]);
        }
    }
    assert(gone.len() > 2);
    reveal_strlit(".");
    reveal_strlit("..");
    the_last_name_is_the_base(dir, name);
    the_last_name_is_the_base(dir, gone);
    endings_are_taken_off(name, " (deleted)"@);
}

/// The load averages are the first three words.
pub proof fn load_averages_are_three_words(s: Seq<char>)
    ensures
        words_of(s).len() >= 3 ==> first_words(s, 3) == seq![
            words_of(s)[0],
            words_of(s)[1],
            words_of(s)[2],
        ],
        words_of(s).len() < 3 ==> first_words(s, 3) == words_of(s),
{
}

/// The name that is shown is the key with its first letter in upper case.
pub proof fn keys_are_shown_with_a_capital(c: char, rest: Seq<char>)
    ensures
        pretty(seq![c] + rest) == upper_char_of(c) + rest,
        pretty(Seq::empty()).len() == 0,
{
    assert((seq![c] + rest).drop_first() =~= rest);
}

/// An app lists the processes that belong to it, in order, and no others.
pub proof fn apps_hold_the_processes_that_belong(procs: Seq<Process>, key: Seq<char>) -> (at: Seq<
    int,
>)
    ensures
        ({
            let g = group_of(procs, key);
            &&& g.len() == at.len()
            &&& forall|i: int, j: int| 0 <= i < j < at.len() ==> #[trigger] at[i] < #[trigger] at[j]
            &&& forall|i: int|
                0 <= i < at.len() ==> 0 <= #[trigger] at[i] < procs.len() && g[i] == procs[at[i]]
                    && belongs(g[i], key)
            &&& forall|k: int|
                0 <= k < procs.len() && belongs(#[trigger] procs[k], key) ==> at.contains(k)
        }),
    decreases procs.len(),
{
    if procs.len() == 0 {
        Seq::empty()
    } else {
        let head = procs.drop_last();
        let before = apps_hold_the_processes_that_belong(head, key);
        let n = procs.len() - 1;
        let p = procs.last();
        let g = group_of(procs, key);
        let at = if belongs(p, key) {
            before.push(n)
        } else {
            before
        };
        assert forall|i: int| 0 <= i < at.len() implies 0 <= #[trigger] at[i] < procs.len() && g[i]
            == procs[at[i]] && belongs(g[i], key) by {
            if i < before.len() {
                assert(at[i] == before[i]);
                assert(procs[at[i]] == head[before[i]]);
            }
        }
        assert forall|k: int| 0 <= k < procs.len() && belongs(#[trigger] procs[k], key) implies at.contains(
            k,
        ) by {
            if k < n {
                assert(head[k] == procs[k]);
                let j = choose|j: int| 0 <= j < before.len() && before[j] == k;
                assert(at[j] == k);
            } else {
                assert(at[before.len() as int] == n);
            }
        }
        at
    }
}

} // verus!
