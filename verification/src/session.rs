//! Continuity: `pv run` detaches work from its terminal. A connection can
//! drop, the session survives, and `pv attach` picks it back up.

use vstd::prelude::*;

use crate::fixed::{hex, hexadecimal};
use crate::order::{
    arranged, by_size, descending, descending_is_a_ranking, indices, larger, lemma_ranking_lists,
    rank,
};
use crate::scan::{
    begins, contains, holds_text, lemma_mentions, lines, lines_of, mentions, starts_with,
};
use crate::text::{
    cat2, chars_of, copy_texts, join, joined, joined_path, lower, lower_of, opt_text, owned,
    pad_left, padded_left, path_join, push_text, same, text_between, texts,
};

verus! {

pub struct Session {
    pub id: String,
    pub cmd: Vec<String>,
    pub pid: u32,
    pub started: u64,
    pub intent_task: String,
    pub intent_category: String,
    pub cwd: String,
    pub log: String,
    /// "local", or the address of a host.
    pub host: String,
}

#[verifier::ext_equal]
pub struct SessionView {
    pub id: Seq<char>,
    pub cmd: Seq<Seq<char>>,
    pub pid: u32,
    pub started: u64,
    pub intent_task: Seq<char>,
    pub intent_category: Seq<char>,
    pub cwd: Seq<char>,
    pub log: Seq<char>,
    pub host: Seq<char>,
}

impl View for Session {
    type V = SessionView;

    open spec fn view(&self) -> SessionView {
        SessionView {
            id: self.id@,
            cmd: texts(self.cmd@),
            pid: self.pid,
            started: self.started,
            intent_task: self.intent_task@,
            intent_category: self.intent_category@,
            cwd: self.cwd@,
            log: self.log@,
            host: self.host@,
        }
    }
}

/// What a list of sessions says.
pub open spec fn session_views(v: Seq<Session>) -> Seq<SessionView> {
    v.map_values(|s: Session| s@)
}

impl Session {
    /// A session that says the same.
    pub fn copy(&self) -> (r: Self)
        ensures
            r@ == self@,
    {
        Session {
            id: self.id.clone(),
            cmd: copy_texts(&self.cmd),
            pid: self.pid,
            started: self.started,
            intent_task: self.intent_task.clone(),
            intent_category: self.intent_category.clone(),
            cwd: self.cwd.clone(),
            log: self.log.clone(),
            host: self.host.clone(),
        }
    }
}

/// The directory of the sessions. Unlike elsewhere, a variable that is set
/// but empty counts.
pub open spec fn sessions_at(data_home: Option<Seq<char>>, home: Option<Seq<char>>) -> Seq<char> {
    joined_path(
        match data_home {
            Some(d) => d,
            None => joined_path(
                match home {
                    Some(h) => h,
                    None => "/tmp"@,
                },
                ".local/share"@,
            ),
        },
        "pv/sessions"@,
    )
}

pub fn sessions_dir(data_home: &Option<String>, home: &Option<String>) -> (r: String)
    ensures
        r@ == sessions_at(opt_text(*data_home), opt_text(*home)),
{
    let base: String = match data_home {
        Some(d) => d.clone(),
        None => match home {
            Some(h) => path_join(h.as_str(), ".local/share"),
            None => path_join("/tmp", ".local/share"),
        },
    };
    path_join(base.as_str(), "pv/sessions")
}

/// Whether a file name is that of a session record: it has the extension
/// "toml" behind a stem.
pub fn is_session_file(name: &str) -> (r: bool)
    ensures
        r == (name@.len() > 5 && name@.skip(name@.len() - 5) == ".toml"@),
{
    let v: Vec<char> = chars_of(name);
    if v.len() <= 5 {
        return false;
    }
    let tail: String = text_between(&v, v.len() - 5, v.len());
    assert(tail@ =~= name@.skip(name@.len() - 5));
    same(tail.as_str(), ".toml")
}

/// The sessions with the earliest first.
pub open spec fn earliest_first(list: Seq<SessionView>) -> Seq<SessionView> {
    arranged(
        list,
        descending(list.map_values(|s: SessionView| ((u64::MAX - s.started) as u64, 0u64))),
    )
}

/// The sessions that were found, with the earliest first.
pub fn list(found: &Vec<Session>) -> (r: Vec<Session>)
    ensures
        session_views(r@) == earliest_first(session_views(found@)),
{
    let mut keys: Vec<(u64, u64)> = Vec::new();
    let mut i: usize = 0;
    while i < found.len()
        invariant
            i <= found.len(),
            keys@.len() == i,
            forall|j: int|
                0 <= j < i ==> #[trigger] keys@[j] == ((u64::MAX - found@[j].started) as u64, 0u64),
        decreases found.len() - i,
    {
        keys.push((u64::MAX - found[i].started, 0));
        i = i + 1;
    }
    let ghost views = session_views(found@);
    assert(keys@ =~= views.map_values(
        |s: SessionView| ((u64::MAX - s.started) as u64, 0u64),
    ));
    let order: Vec<usize> = rank(&keys);
    let mut out: Vec<Session> = Vec::new();
    let mut k: usize = 0;
    while k < order.len()
        invariant
            k <= order.len(),
            out@.len() == k,
            forall|j: int| 0 <= j < order@.len() ==> 0 <= #[trigger] order@[j] < found@.len(),
            forall|j: int| 0 <= j < k ==> (#[trigger] out@[j])@ == found@[order@[j] as int]@,
        decreases order.len() - k,
    {
        out.push(found[order[k]].copy());
        k = k + 1;
    }
    assert(session_views(out@) =~= arranged(views, indices(order@)));
    out
}

/// Whether a session goes on: a local one while its process exists, and a
/// remote one always, as that is not seen from here.
pub fn is_alive(s: &Session, exists: bool) -> (r: bool)
    ensures
        r == (s.host@ != "local"@ || exists),
{
    !same(s.host.as_str(), "local") || exists
}

// ------------------------------------------------------------ finding

/// Whether a session is meant by the beginning of its id or by a part of its
/// command, whatever the case.
pub open spec fn is_meant(s: SessionView, name: Seq<char>) -> bool {
    begins(s.id, name) || holds_text(lower_of(joined(s.cmd, " "@)), lower_of(name))
}

/// The position of the first session with exactly that id.
pub open spec fn by_id(list: Seq<SessionView>, name: Seq<char>) -> Option<int>
    decreases list.len(),
{
    if list.len() == 0 {
        None
    } else {
        match by_id(list.drop_last(), name) {
            Some(i) => Some(i),
            None => if list.last().id == name {
                Some(list.len() - 1)
            } else {
                None
            },
        }
    }
}

/// The position of the first session that is meant.
pub open spec fn by_meaning(list: Seq<SessionView>, name: Seq<char>) -> Option<int>
    decreases list.len(),
{
    if list.len() == 0 {
        None
    } else {
        match by_meaning(list.drop_last(), name) {
            Some(i) => Some(i),
            None => if is_meant(list.last(), name) {
                Some(list.len() - 1)
            } else {
                None
            },
        }
    }
}

/// The session with exactly that id, or else the first that is meant.
pub open spec fn found_session(list: Seq<SessionView>, name: Seq<char>) -> Option<SessionView> {
    match by_id(list, name) {
        Some(i) => Some(list[i]),
        None => match by_meaning(list, name) {
            Some(i) => Some(list[i]),
            None => None,
        },
    }
}

proof fn lemma_by_id(list: Seq<SessionView>, name: Seq<char>)
    ensures
        by_id(list, name) matches Some(i) ==> 0 <= i < list.len() && list[i].id == name
            && forall|j: int| 0 <= j < i ==> (#[trigger] list[j]).id != name,
        by_id(list, name) is None ==> forall|j: int|
            0 <= j < list.len() ==> (#[trigger] list[j]).id != name,
    decreases list.len(),
{
    if list.len() > 0 {
        lemma_by_id(list.drop_last(), name);
        assert forall|j: int| 0 <= j < list.len() - 1 implies list.drop_last()[j]
            == #[trigger] list[j] by {}
    }
}

proof fn lemma_by_meaning(list: Seq<SessionView>, name: Seq<char>)
    ensures
        by_meaning(list, name) matches Some(i) ==> 0 <= i < list.len() && is_meant(list[i], name)
            && forall|j: int| 0 <= j < i ==> !is_meant(#[trigger] list[j], name),
        by_meaning(list, name) is None ==> forall|j: int|
            0 <= j < list.len() ==> !is_meant(#[trigger] list[j], name),
    decreases list.len(),
{
    if list.len() > 0 {
        lemma_by_meaning(list.drop_last(), name);
        assert forall|j: int| 0 <= j < list.len() - 1 implies list.drop_last()[j]
            == #[trigger] list[j] by {}
    }
}

pub fn find(all: &Vec<Session>, id_or_name: &str) -> (r: Option<Session>)
    ensures
        (match r {
            Some(s) => Some(s@),
            None => None,
        }) == found_session(session_views(all@), id_or_name@),
{
    let ghost views = session_views(all@);
    let mut i: usize = 0;
    while i < all.len()
        invariant
            i <= all.len(),
            views == session_views(all@),
            forall|j: int| 0 <= j < i ==> (#[trigger] views[j]).id != id_or_name@,
        decreases all.len() - i,
    {
        assert(views[i as int] == all@[i as int]@);
        if same(all[i].id.as_str(), id_or_name) {
            proof {
                lemma_by_id(views, id_or_name@);
            }
            return Some(all[i].copy());
        }
        i = i + 1;
    }
    proof {
        lemma_by_id(views, id_or_name@);
        lemma_by_meaning(views, id_or_name@);
    }
    let low: String = lower(id_or_name);
    let mut k: usize = 0;
    while k < all.len()
        invariant
            k <= all.len(),
            views == session_views(all@),
            low@ == lower_of(id_or_name@),
            by_id(views, id_or_name@) is None,
            forall|j: int| 0 <= j < k ==> !is_meant(#[trigger] views[j], id_or_name@),
        decreases all.len() - k,
    {
        assert(views[k as int] == all@[k as int]@);
        let cmd: String = lower(join(&all[k].cmd, " ").as_str());
        if starts_with(all[k].id.as_str(), id_or_name) || contains(cmd.as_str(), low.as_str()) {
            proof {
                lemma_by_meaning(views, id_or_name@);
            }
            return Some(all[k].copy());
        }
        k = k + 1;
    }
    None
}

// ------------------------------------------------------------ starting

/// The number of a session: the low half of the time, crossed with the
/// process id of its maker.
pub open spec fn id_number(now: u64, pid: u32) -> u32 {
    ((now % 0x1_0000_0000) as u32) ^ pid
}

pub open spec fn id_text(now: u64, pid: u32) -> Seq<char> {
    padded_left(hexadecimal(id_number(now, pid) as nat, false), 8, '0')
}

/// The id of a session that a process starts at a time.
pub fn session_id(now: u64, pid: u32) -> (r: String)
    ensures
        r@ == id_text(now, pid),
{
    let n: u32 = ((now % 0x1_0000_0000) as u32) ^ pid;
    pad_left(hex(n, false).as_str(), 8, '0')
}

/// The files of a session: its record and its log.
pub fn session_files(dir: &str, id: &str) -> (r: (String, String))
    ensures
        r.0@ == joined_path(dir@, id@ + ".toml"@),
        r.1@ == joined_path(dir@, id@ + ".log"@),
{
    (
        path_join(dir, cat2(id, ".toml").as_str()),
        path_join(dir, cat2(id, ".log").as_str()),
    )
}

/// The record of a session that was just started. A command is needed.
pub fn run(
    cmd: &Vec<String>,
    intent_task: &str,
    intent_category: &str,
    id: &str,
    child: u32,
    started: u64,
    cwd: &str,
    log: &str,
) -> (r: Result<Session, String>)
    ensures
        r is Ok <==> cmd@.len() > 0,
        r matches Ok(s) ==> s@ == (SessionView {
            id: id@,
            cmd: texts(cmd@),
            pid: child,
            started,
            intent_task: intent_task@,
            intent_category: intent_category@,
            cwd: cwd@,
            log: log@,
            host: "local"@,
        }),
        r matches Err(e) ==> e@ == "no command given"@,
{
    if cmd.len() == 0 {
        return Err(owned("no command given"));
    }
    Ok(
        Session {
            id: owned(id),
            cmd: copy_texts(cmd),
            pid: child,
            started,
            intent_task: owned(intent_task),
            intent_category: owned(intent_category),
            cwd: owned(cwd),
            log: owned(log),
            host: owned("local"),
        },
    )
}

// ------------------------------------------------------------ logs

/// The last `n` of the lines.
pub open spec fn last_lines(list: Seq<Seq<char>>, n: nat) -> Seq<Seq<char>> {
    if list.len() > n {
        list.skip(list.len() - n)
    } else {
        list
    }
}

/// The last `n` lines of a log.
pub fn tail(text: &str, n: usize) -> (r: Vec<String>)
    ensures
        texts(r@) == last_lines(lines_of(text@), n as nat),
{
    let all: Vec<String> = lines(text);
    let ghost views = texts(all@);
    let from: usize = if all.len() > n {
        all.len() - n
    } else {
        0
    };
    let mut out: Vec<String> = Vec::new();
    let mut i: usize = from;
    assert(views.len() == all@.len());
    while i < all.len()
        invariant
            from <= i <= all.len(),
            views == texts(all@),
            texts(out@) == views.subrange(from as int, i as int),
        decreases all.len() - i,
    {
        push_text(&mut out, all[i].clone());
        i = i + 1;
        assert(texts(out@) =~= views.subrange(from as int, i as int));
    }
    assert(texts(out@) =~= last_lines(views, n as nat));
    out
}

/// What to do while a log is followed: from where to read, where the log then
/// stands, and whether the session has ended.
pub struct Follow {
    pub read_from: Option<u64>,
    pub pos: u64,
    pub ended: bool,
}

pub fn follow(s: &Session, pos: u64, len: u64, exists: bool) -> (r: Follow)
    ensures
        r.read_from == (if len > pos {
            Some(pos)
        } else {
            None
        }),
        r.pos == (if len > pos {
            len
        } else {
            pos
        }),
        r.ended == (s.host@ == "local"@ && !exists),
{
    let ended: bool = !is_alive(s, exists);
    if len > pos {
        Follow { read_from: Some(pos), pos: len, ended }
    } else {
        Follow { read_from: None, pos, ended }
    }
}

// ------------------------------------------------------------ tidying

/// Whether a session's files may go: it was local, has ended, and began more
/// than a day ago.
pub open spec fn is_stale(s: SessionView, exists: bool, now: u64) -> bool {
    s.host == "local"@ && !exists && now > s.started + 86_400
}

/// The positions of the sessions whose files may go.
pub open spec fn stale_at(list: Seq<SessionView>, exists: Seq<bool>, now: u64) -> Seq<int>
    decreases list.len(),
{
    if list.len() == 0 {
        Seq::empty()
    } else {
        let before = stale_at(list.drop_last(), exists, now);
        if is_stale(list.last(), exists[list.len() - 1], now) {
            before.push(list.len() - 1)
        } else {
            before
        }
    }
}

/// The sessions whose files may go, by whether their processes exist.
pub fn gc(all: &Vec<Session>, exists: &Vec<bool>, now: u64) -> (r: Vec<usize>)
    requires
        exists@.len() == all@.len(),
    ensures
        indices(r@) == stale_at(session_views(all@), exists@, now),
        forall|i: int| 0 <= i < r@.len() ==> (#[trigger] r@[i]) < all@.len(),
{
    let ghost views = session_views(all@);
    let mut out: Vec<usize> = Vec::new();
    let mut i: usize = 0;
    assert(indices(out@) =~= stale_at(views.take(0), exists@, now));
    while i < all.len()
        invariant
            i <= all.len(),
            exists@.len() == all@.len(),
            views == session_views(all@),
            indices(out@) == stale_at(views.take(i as int), exists@, now),
            forall|j: int| 0 <= j < out@.len() ==> (#[trigger] out@[j]) < i,
        decreases all.len() - i,
    {
        let ghost before = indices(out@);
        proof {
            assert(views.take(i as int + 1).drop_last() =~= views.take(i as int));
            assert(views.take(i as int + 1).last() == all@[i as int]@);
        }
        let age: u64 = if now >= all[i].started {
            now - all[i].started
        } else {
            0
        };
        if same(all[i].host.as_str(), "local") && !exists[i] && age > 86_400 {
            out.push(i);
            assert(indices(out@) =~= before.push(i as int));
        }
        i = i + 1;
    }
    assert(views.take(i as int) =~= views);
    out
}

// ------------------------------------------------------------ laws

/// Listed sessions come in the order they were started in.
pub proof fn sessions_come_in_order(list: Seq<SessionView>, i: int, j: int)
    requires
        0 <= i < j < list.len(),
    ensures
        earliest_first(list).len() == list.len(),
        earliest_first(list)[i].started <= earliest_first(list)[j].started,
{
    let keys = list.map_values(|s: SessionView| ((u64::MAX - s.started) as u64, 0u64));
    let order = descending(keys);
    descending_is_a_ranking(keys);
    let f = by_size();
    assert(!f(keys[order[j]], keys[order[i]]));
    assert(!larger(keys[order[j]], keys[order[i]]));
}

/// A session is always found by its own id, whatever other sessions are
/// called.
pub proof fn exact_ids_win(list: Seq<SessionView>, i: int)
    requires
        0 <= i < list.len(),
    ensures
        found_session(list, list[i].id) is Some,
        found_session(list, list[i].id)->0.id == list[i].id,
{
    lemma_by_id(list, list[i].id);
}

/// Only sessions that finished are cleared away, and none within a day of its
/// start: whatever is cleared is local, has no process, and is older.
pub proof fn only_old_finished_sessions_go(
    list: Seq<SessionView>,
    exists: Seq<bool>,
    now: u64,
    i: int,
)
    requires
        0 <= i < stale_at(list, exists, now).len(),
    ensures
        ({
            let k = stale_at(list, exists, now)[i];
            0 <= k < list.len() && list[k].host == "local"@ && !exists[k] && now > list[k].started
                + 86_400
        }),
    decreases list.len(),
{
    let before = stale_at(list.drop_last(), exists, now);
    if i < before.len() {
        only_old_finished_sessions_go(list.drop_last(), exists, now, i);
        assert(list.drop_last()[before[i]] == list[before[i]]);
    }
}

/// Every session that finished more than a day after it began is cleared away,
/// and no other, each once and in its order.
pub proof fn old_finished_sessions_go(
    list: Seq<SessionView>,
    exists: Seq<bool>,
    now: u64,
    k: int,
)
    requires
        0 <= k < list.len(),
    ensures
        stale_at(list, exists, now).contains(k) <==> list[k].host == "local"@ && !exists[k] && now
            - list[k].started > 24 * 60 * 60,
        forall|i: int, j: int|
            0 <= i < j < stale_at(list, exists, now).len() ==> #[trigger] stale_at(
                list,
                exists,
                now,
            )[i] < #[trigger] stale_at(list, exists, now)[j],
        forall|i: int|
            0 <= i < stale_at(list, exists, now).len() ==> 0 <= #[trigger] stale_at(
                list,
                exists,
                now,
            )[i] < list.len(),
    decreases list.len(),
{
    let less = list.drop_last();
    let n = list.len() - 1;
    let before = stale_at(less, exists, now);
    let all = stale_at(list, exists, now);
    if n > 0 {
        old_finished_sessions_go(
            less,
            exists,
            now,
            if k < n {
                k
            } else {
                0
            },
        );
    } else {
        assert(less =~= Seq::empty());
    }
    if k < n {
        assert(less[k] == list[k]);
        if before.contains(k) {
            let i = choose|i: int| 0 <= i < before.len() && before[i] == k;
            assert(all[i] == k);
        }
        if all.contains(k) {
            let i = choose|i: int| 0 <= i < all.len() && all[i] == k;
            assert(i < before.len());
            assert(before[i] == k);
        }
    } else {
        if all.len() > before.len() {
            assert(all[before.len() as int] == n);
        }
        if all.contains(k) {
            let i = choose|i: int| 0 <= i < all.len() && all[i] == k;
            if i < before.len() {
                assert(before[i] == k);
            }
        }
    }
}

/// A session is found by its id, and otherwise it is the first whose id begins
/// with the text or whose command holds it in either case of letters.
pub proof fn sessions_are_found_by_id_or_command(list: Seq<SessionView>, name: Seq<char>)
    ensures
        found_session(list, name) is None <==> forall|i: int|
            0 <= i < list.len() ==> !((#[trigger] list[i]).id == name || name.is_prefix_of(
                list[i].id,
            ) || mentions(lower_of(joined(list[i].cmd, " "@)), lower_of(name))),
        forall|i: int|
            0 <= i < list.len() && (#[trigger] list[i]).id == name && (forall|j: int|
                0 <= j < i ==> (#[trigger] list[j]).id != name) ==> found_session(list, name)
                == Some(list[i]),
        forall|i: int|
            0 <= i < list.len() && (name.is_prefix_of((#[trigger] list[i]).id) || mentions(
                lower_of(joined(list[i].cmd, " "@)),
                lower_of(name),
            )) && (forall|j: int| 0 <= j < list.len() ==> (#[trigger] list[j]).id != name) && (
            forall|j: int|
                0 <= j < i ==> !(name.is_prefix_of((#[trigger] list[j]).id) || mentions(
                    lower_of(joined(list[j].cmd, " "@)),
                    lower_of(name),
                ))) ==> found_session(list, name) == Some(list[i]),
{
    lemma_by_id(list, name);
    lemma_by_meaning(list, name);
    assert forall|s: SessionView| #[trigger] is_meant(s, name) == (name.is_prefix_of(s.id)
        || mentions(lower_of(joined(s.cmd, " "@)), lower_of(name))) by {
        lemma_mentions(lower_of(joined(s.cmd, " "@)), lower_of(name));
        if name.is_prefix_of(s.id) {
            assert(s.id.take(name.len() as int) =~= name);
        }
        if begins(s.id, name) {
            assert(s.id.take(name.len() as int) == name);
            assert(name.is_prefix_of(s.id));
        }
    }
    assert forall|i: int|
        0 <= i < list.len() && (#[trigger] list[i]).id == name && (forall|j: int|
            0 <= j < i ==> (#[trigger] list[j]).id != name) implies found_session(list, name)
        == Some(list[i]) by {
        let f = by_id(list, name)->0;
        if f < i {
            assert(list[f].id != name);
        }
        if i < f {
            assert(list[i].id != name);
        }
    }
    assert forall|i: int|
        0 <= i < list.len() && is_meant(#[trigger] list[i], name) && by_id(list, name) is None && (
        forall|j: int| 0 <= j < i ==> !is_meant(#[trigger] list[j], name)) implies found_session(
        list,
        name,
    ) == Some(list[i]) by {
        let f = by_meaning(list, name)->0;
        if f < i {
            assert(!is_meant(list[f], name));
        }
        if i < f {
            assert(!is_meant(list[i], name));
        }
    }
    if by_id(list, name) is Some {
        assert(list[by_id(list, name)->0].id == name);
    }
    if by_meaning(list, name) is Some {
        assert(is_meant(list[by_meaning(list, name)->0], name));
    }
}

/// Listing sessions loses none.
pub proof fn every_session_is_listed(list: Seq<SessionView>, s: SessionView)
    ensures
        earliest_first(list).contains(s) <==> list.contains(s),
{
    let keys = list.map_values(|s: SessionView| ((u64::MAX - s.started) as u64, 0u64));
    let order = descending(keys);
    descending_is_a_ranking(keys);
    let out = earliest_first(list);
    if out.contains(s) {
        let i = choose|i: int| 0 <= i < out.len() && out[i] == s;
        assert(list[order[i]] == s);
    }
    if list.contains(s) {
        let i = choose|i: int| 0 <= i < list.len() && list[i] == s;
        lemma_ranking_lists(keys, by_size(), order, i);
        let a = choose|a: int| 0 <= a < order.len() && order[a] == i;
        assert(out[a] == s);
    }
}

/// The tail of a text is its last lines: as many as asked where there are that
/// many, and all of them otherwise.
pub proof fn tails_are_the_last_lines(list: Seq<Seq<char>>, n: nat)
    ensures
        last_lines(list, n).is_suffix_of(list),
        last_lines(list, n).len() == (if list.len() < n {
            list.len()
        } else {
            n
        }),
{
}

/// Sessions are kept with the program's data, below the home directory unless
/// the variable says where.
pub proof fn sessions_are_kept_with_the_data(d: Seq<char>, home: Option<Seq<char>>)
    requires
        d.len() > 0,
        d.last() != '/',
    ensures
        sessions_at(Some(d), home) == d + "/pv/sessions"@,
        sessions_at(None, Some(d)) == d + "/.local/share/pv/sessions"@,
        sessions_at(None, None) == "/tmp/.local/share/pv/sessions"@,
{
    reveal_strlit("/");
    reveal_strlit("/tmp");
    reveal_strlit("pv/sessions");
    reveal_strlit("/pv/sessions");
    reveal_strlit(".local/share");
    reveal_strlit("/.local/share/pv/sessions");
    reveal_strlit("/tmp/.local/share/pv/sessions");
    assert(d + "/"@ + "pv/sessions"@ =~= d + "/pv/sessions"@);
    let share = d + "/"@ + ".local/share"@;
    assert(share.last() == 'e');
    assert(share + "/"@ + "pv/sessions"@ =~= d + "/.local/share/pv/sessions"@);
    let other = "/tmp"@ + "/"@ + ".local/share"@;
    assert(other.last() == 'e');
    assert(other + "/"@ + "pv/sessions"@ =~= "/tmp/.local/share/pv/sessions"@);
}

} // verus!
