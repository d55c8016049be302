//! Device migration: move restartable work to a better machine over ssh.
//!
//! Hosts live in `~/.config/pv/hosts.toml`:
//!
//! ```toml
//! [hosts.desktop]
//! addr = "sal@192.168.1.20"
//! note = "16 cores, 64 GB, RTX 5090"
//! ```
//!
//! Addresses are held to a small alphabet, remote commands travel as one
//! quoted argument, and `ssh` and `rsync` get argument lists.

use vstd::prelude::*;

use crate::cgroup::{harmless, make_harmless};
use crate::order::{
    alphabetical, alphabetical_is_a_ranking, arranged, by_text, indices, lemma_ranking_lists,
    rank_texts, text_less,
};
use crate::path::{base_name, base_name_of};
use crate::procfs::{xdg, xdg_dir};
use crate::scan::{
    after_prefix, begins, has_char, replace, replaced, starts_with, strip_prefix, trim, trimmed,
};
use crate::text::{
    byte_len, bytes_in, cat2, cat3, cat4, cat5, chars_of, control, copy_texts, is_alnum,
    is_ascii_alnum, is_ctrl, is_space, join, joined, joined_path, lossy, lossy_of, opt_text, owned,
    path_join, push_text, texts,
};

verus! {

pub struct Host {
    pub addr: String,
    pub note: String,
}

#[verifier::ext_equal]
pub struct HostView {
    pub addr: Seq<char>,
    pub note: Seq<char>,
}

impl View for Host {
    type V = HostView;

    open spec fn view(&self) -> HostView {
        HostView { addr: self.addr@, note: self.note@ }
    }
}

impl Host {
    /// A host that says the same.
    pub fn copy(&self) -> (r: Self)
        ensures
            r@ == self@,
    {
        Host { addr: self.addr.clone(), note: self.note.clone() }
    }
}

/// What a list of named hosts says.
pub open spec fn host_views(v: Seq<(String, Host)>) -> Seq<(Seq<char>, HostView)> {
    v.map_values(|h: (String, Host)| (h.0@, h.1@))
}

/// Where the hosts are kept, by the configuration and home directories.
pub fn hosts_path(config_home: &Option<String>, home: &Option<String>) -> (r: String)
    ensures
        r@ == joined_path(
            xdg_dir(opt_text(*config_home), opt_text(*home), ".config"@),
            "pv/hosts.toml"@,
        ),
{
    path_join(xdg(config_home, home, ".config").as_str(), "pv/hosts.toml")
}

/// The file of hosts to begin with.
pub const DEFAULT_HOSTS: &'static str = "# Pressure Valve remote hosts — used by `pv migrate`
# [hosts.desktop]
# addr = \"user@192.168.1.20\"
# note = \"16 cores, 64 GB, RTX 5090\"
";

pub fn default_hosts() -> (r: &'static str)
    ensures
        r@ == DEFAULT_HOSTS@,
{
    DEFAULT_HOSTS
}

// ------------------------------------------------------------ addresses

/// A character that may stand in an address.
pub open spec fn addr_char(c: char) -> bool {
    is_alnum(c) || c == '.' || c == '_' || c == '-' || c == '@' || c == ':' || c == '[' || c
        == ']'
}

/// The first character that may not stand in an address.
pub open spec fn first_unsafe(s: Seq<char>) -> Option<char>
    decreases s.len(),
{
    if s.len() == 0 {
        None
    } else if !addr_char(s[0]) {
        Some(s[0])
    } else {
        first_unsafe(s.drop_first())
    }
}

pub open spec fn any_blank(s: Seq<char>) -> bool {
    exists|i: int| 0 <= i < s.len() && (is_space(#[trigger] s[i]) || is_ctrl(s[i]))
}

/// What is wrong with an address, if anything.
pub open spec fn addr_error(s: Seq<char>) -> Option<Seq<char>> {
    if s.len() == 0 {
        Some("host address is empty"@)
    } else if bytes_in(s) > 253 {
        Some("host address is too long"@)
    } else {
        match first_unsafe(s) {
            Some(c) => Some(
                "host address '"@ + s + "' contains unsafe character '"@ + seq![c] + "'"@,
            ),
            None => if any_blank(s) {
                Some("host address '"@ + s + "' contains whitespace/control characters"@)
            } else {
                None
            },
        }
    }
}

fn char_ok(c: char) -> (r: bool)
    ensures
        r == addr_char(c),
{
    c.is_alphanumeric() || c == '.' || c == '_' || c == '-' || c == '@' || c == ':' || c == '['
        || c == ']'
}

/// Reject addresses that would be unsafe to hand to ssh or rsync: typical
/// `user@host` and `host` forms are allowed, and bracketed IPv6.
pub fn validate_addr(addr: &str) -> (r: Result<(), String>)
    ensures
        r is Ok <==> addr_error(addr@) is None,
        r matches Err(e) ==> addr_error(addr@) == Some(e@),
{
    if addr.unicode_len() == 0 {
        return Err(owned("host address is empty"));
    }
    if byte_len(addr) > 253 {
        return Err(owned("host address is too long"));
    }
    let v: Vec<char> = chars_of(addr);
    let mut i: usize = 0;
    assert(v@.skip(0) =~= v@);
    while i < v.len()
        invariant
            i <= v@.len(),
            v@ == addr@,
            addr@.len() > 0,
            bytes_in(addr@) <= 253,
            first_unsafe(addr@) == first_unsafe(v@.skip(i as int)),
        decreases v@.len() - i,
    {
        assert(v@.skip(i as int).drop_first() =~= v@.skip(i as int + 1));
        if !char_ok(v[i]) {
            let mut c: String = String::new();
            c.push(v[i]);
            assert(c@ =~= seq![v@[i as int]]);
            return Err(
                cat5(
                    "host address '",
                    addr,
                    "' contains unsafe character '",
                    c.as_str(),
                    "'",
                ),
            );
        }
        i = i + 1;
    }
    let mut k: usize = 0;
    while k < v.len()
        invariant
            k <= v@.len(),
            v@ == addr@,
            addr@.len() > 0,
            bytes_in(addr@) <= 253,
            first_unsafe(addr@) is None,
            forall|j: int| 0 <= j < k ==> !is_space(#[trigger] v@[j]) && !is_ctrl(v@[j]),
        decreases v@.len() - k,
    {
        if v[k].is_whitespace() || control(v[k]) {
            assert(is_space(addr@[k as int]) || is_ctrl(addr@[k as int]));
            return Err(
                cat3("host address '", addr, "' contains whitespace/control characters"),
            );
        }
        k = k + 1;
    }
    Ok(())
}

/// An address that passes holds nothing but letters, numbers and `._-@:[]`,
/// no white space, no control character and nothing that a shell acts on, and is neither empty nor longer
/// than a host name may be.
pub proof fn valid_addresses_are_plain(s: Seq<char>)
    requires
        addr_error(s) is None,
    ensures
        0 < s.len(),
        bytes_in(s) <= 253,
        forall|i: int|
            0 <= i < s.len() ==> addr_char(#[trigger] s[i]) && !is_space(s[i]) && !is_ctrl(s[i]),
        forall|i: int|
            0 <= i < s.len() ==> (#[trigger] s[i]) != ';' && s[i] != '&' && s[i] != '|' && s[i]
                != '$' && s[i] != '`' && s[i] != '(' && s[i] != ')' && s[i] != '<' && s[i] != '>'
                && s[i] != '\'' && s[i] != '"' && s[i] != '\\' && s[i] != '*' && s[i] != '?',
{
    lemma_first_unsafe(s);
    assert forall|i: int| 0 <= i < s.len() implies (#[trigger] s[i]) != ';' && s[i] != '&' && s[i]
        != '|' && s[i] != '$' && s[i] != '`' && s[i] != '(' && s[i] != ')' && s[i] != '<' && s[i]
        != '>' && s[i] != '\'' && s[i] != '"' && s[i] != '\\' && s[i] != '*' && s[i] != '?' by {
        assert(addr_char(s[i]));
    }
}

proof fn lemma_first_unsafe(s: Seq<char>)
    requires
        first_unsafe(s) is None,
    ensures
        forall|i: int| 0 <= i < s.len() ==> addr_char(#[trigger] s[i]),
    decreases s.len(),
{
    if s.len() > 0 {
        lemma_first_unsafe(s.drop_first());
        assert forall|i: int| 0 <= i < s.len() implies addr_char(#[trigger] s[i]) by {
            if i > 0 {
                assert(s.drop_first()[i - 1] == s[i]);
            }
        }
    }
}

// ------------------------------------------------------------ hosts

/// The hosts with a valid address, in order.
pub open spec fn valid_hosts(list: Seq<(Seq<char>, HostView)>) -> Seq<(Seq<char>, HostView)>
    decreases list.len(),
{
    if list.len() == 0 {
        Seq::empty()
    } else {
        let before = valid_hosts(list.drop_last());
        if addr_error(list.last().1.addr) is None {
            before.push(list.last())
        } else {
            before
        }
    }
}

/// The hosts in the order of their names.
pub open spec fn by_name(list: Seq<(Seq<char>, HostView)>) -> Seq<(Seq<char>, HostView)> {
    arranged(list, alphabetical(list.map_values(|h: (Seq<char>, HostView)| h.0)))
}

/// The hosts that were read, without those whose address is unsafe, so that
/// no later code can use them by accident, in the order of their names.
pub fn load_hosts(found: &Vec<(String, Host)>) -> (r: Vec<(String, Host)>)
    ensures
        host_views(r@) == by_name(valid_hosts(host_views(found@))),
{
    let ghost all = host_views(found@);
    let mut good: Vec<(String, Host)> = Vec::new();
    let mut i: usize = 0;
    assert(host_views(good@) =~= valid_hosts(all.take(0)));
    while i < found.len()
        invariant
            i <= found.len(),
            all == host_views(found@),
            host_views(good@) == valid_hosts(all.take(i as int)),
        decreases found.len() - i,
    {
        let ghost before = host_views(good@);
        proof {
            assert(all.take(i as int + 1).drop_last() =~= all.take(i as int));
            assert(all.take(i as int + 1).last() == (found@[i as int].0@, found@[i as int].1@));
        }
        if validate_addr(found[i].1.addr.as_str()).is_ok() {
            good.push((found[i].0.clone(), found[i].1.copy()));
            assert(host_views(good@) =~= before.push(all[i as int]));
        }
        i = i + 1;
    }
    assert(all.take(i as int) =~= all);
    let ghost views = host_views(good@);
    let mut keys: Vec<String> = Vec::new();
    let mut j: usize = 0;
    while j < good.len()
        invariant
            j <= good.len(),
            views == host_views(good@),
            texts(keys@) == views.map_values(|h: (Seq<char>, HostView)| h.0).take(j as int),
        decreases good.len() - j,
    {
        push_text(&mut keys, good[j].0.clone());
        j = j + 1;
        assert(texts(keys@) =~= views.map_values(|h: (Seq<char>, HostView)| h.0).take(j as int));
    }
    assert(texts(keys@) =~= views.map_values(|h: (Seq<char>, HostView)| h.0));
    let order: Vec<usize> = rank_texts(&keys);
    assert(texts(keys@).len() == keys@.len());
    let mut out: Vec<(String, Host)> = Vec::new();
    let mut k: usize = 0;
    while k < order.len()
        invariant
            k <= order.len(),
            out@.len() == k,
            forall|a: int| 0 <= a < order@.len() ==> 0 <= #[trigger] order@[a] < good@.len(),
            forall|a: int|
                0 <= a < k ==> (#[trigger] out@[a]).0@ == good@[order@[a] as int].0@ && out@[a].1@
                    == good@[order@[a] as int].1@,
        decreases order.len() - k,
    {
        let at: usize = order[k];
        out.push((good[at].0.clone(), good[at].1.copy()));
        k = k + 1;
    }
    assert(host_views(out@) =~= arranged(views, indices(order@)));
    out
}

/// Only hosts with a valid address are loaded.
pub proof fn loaded_hosts_are_valid(list: Seq<(Seq<char>, HostView)>, i: int)
    requires
        0 <= i < by_name(valid_hosts(list)).len(),
    ensures
        addr_error(by_name(valid_hosts(list))[i].1.addr) is None,
{
    let good = valid_hosts(list);
    let names = good.map_values(|h: (Seq<char>, HostView)| h.0);
    alphabetical_is_a_ranking(names);
    lemma_valid_hosts(list);
    let at = alphabetical(names)[i];
    assert(by_name(good)[i] == good[at]);
}

proof fn lemma_valid_hosts(list: Seq<(Seq<char>, HostView)>)
    ensures
        forall|i: int|
            0 <= i < valid_hosts(list).len() ==> addr_error(
                (#[trigger] valid_hosts(list)[i]).1.addr,
            ) is None,
    decreases list.len(),
{
    if list.len() > 0 {
        lemma_valid_hosts(list.drop_last());
        let before = valid_hosts(list.drop_last());
        assert forall|i: int| 0 <= i < valid_hosts(list).len() implies addr_error(
            (#[trigger] valid_hosts(list)[i]).1.addr,
        ) is None by {
            if i < before.len() {
                assert(valid_hosts(list)[i] == before[i]);
            }
        }
    }
}

// ------------------------------------------------------------ quoting

/// The name of a job in the remote directory: at most forty letters, digits
/// and `.`, `-`, `_`.
pub open spec fn job_name(name: Seq<char>) -> Seq<char> {
    let out = harmless(name, 40);
    if out.len() == 0 {
        "job"@
    } else {
        out
    }
}

/// Reduce a file name so that it is safe to embed in the remote directory's
/// name and the remote command.
pub fn sanitize_job(name: &str) -> (r: String)
    ensures
        r@ == job_name(name@),
{
    let out: String = make_harmless(name, 40);
    if out.as_str().unicode_len() == 0 {
        owned("job")
    } else {
        out
    }
}

/// A text in single quotes, each quote in it closed, escaped and reopened.
pub open spec fn quoted(s: Seq<char>) -> Seq<char> {
    "'"@ + replaced(s, "'"@, "'\\''"@) + "'"@
}

pub fn shell_quote(s: &str) -> (r: String)
    ensures
        r@ == quoted(s@),
{
    proof {
        reveal_strlit("'");
    }
    cat3("'", replace(s, "'", "'\\''").as_str(), "'")
}

/// A quoted path, but for a leading tilde.
pub open spec fn quoted_path(s: Seq<char>) -> Seq<char> {
    if begins(s, "~/"@) {
        "~/'"@ + replaced(after_prefix(s, "~/"@)->0, "'"@, "'\\''"@) + "'"@
    } else if begins(s, "~"@) {
        s
    } else {
        quoted(s)
    }
}

/// Quote a path for the remote shell, but keep a leading `~/` as it is, so
/// that the shell still expands it.
pub fn shell_quote_keep_tilde(s: &str) -> (r: String)
    ensures
        r@ == quoted_path(s@),
{
    proof {
        reveal_strlit("'");
    }
    if let Some(rest) = strip_prefix(s, "~/") {
        cat3("~/'", replace(rest.as_str(), "'", "'\\''").as_str(), "'")
    } else if starts_with(s, "~") {
        owned(s)
    } else {
        shell_quote(s)
    }
}

/// A character that the shell takes as it is.
pub open spec fn plain_char(c: char) -> bool {
    is_ascii_alnum(c) || c == '-' || c == '.' || c == '_' || c == '/' || c == '=' || c == '+' || c == ':'
        || c == ',' || c == '~'
}

pub open spec fn is_plain(s: Seq<char>) -> bool {
    forall|i: int| 0 <= i < s.len() ==> plain_char(#[trigger] s[i])
}

/// An argument, quoted where it has to be.
pub open spec fn shell_arg(s: Seq<char>) -> Seq<char> {
    if is_plain(s) {
        s
    } else {
        quoted(s)
    }
}

/// A command line for the shell.
pub open spec fn shell_line(cmd: Seq<Seq<char>>) -> Seq<char> {
    joined(cmd.map_values(|a: Seq<char>| shell_arg(a)), " "@)
}

fn plain(s: &str) -> (r: bool)
    ensures
        r == is_plain(s@),
{
    let v: Vec<char> = chars_of(s);
    let mut i: usize = 0;
    while i < v.len()
        invariant
            i <= v@.len(),
            v@ == s@,
            forall|j: int| 0 <= j < i ==> plain_char(#[trigger] v@[j]),
        decreases v@.len() - i,
    {
        let c: char = v[i];
        let alnum: bool = ('a' <= c && c <= 'z') || ('A' <= c && c <= 'Z') || ('0' <= c && c
            <= '9');
        if !(alnum || c == '-' || c == '.' || c == '_' || c == '/' || c == '=' || c
            == '+' || c == ':' || c == ',' || c == '~') {
            assert(!plain_char(s@[i as int]));
            return false;
        }
        i = i + 1;
    }
    true
}

pub fn shell_join(cmd: &Vec<String>) -> (r: String)
    ensures
        r@ == shell_line(texts(cmd@)),
{
    let ghost want = texts(cmd@).map_values(|a: Seq<char>| shell_arg(a));
    let mut out: Vec<String> = Vec::new();
    let mut i: usize = 0;
    while i < cmd.len()
        invariant
            i <= cmd.len(),
            want == texts(cmd@).map_values(|a: Seq<char>| shell_arg(a)),
            texts(out@) == want.take(i as int),
        decreases cmd.len() - i,
    {
        let a: &str = cmd[i].as_str();
        let q: String = if plain(a) {
            owned(a)
        } else {
            shell_quote(a)
        };
        push_text(&mut out, q);
        i = i + 1;
        assert(texts(out@) =~= want.take(i as int));
    }
    assert(texts(out@) =~= want);
    join(&out, " ")
}

/// A character at which the shell does more than to read a word, unless it is
/// quoted.
pub open spec fn shell_special(c: char) -> bool {
    c == '|' || c == '&' || c == ';' || c == '<' || c == '>' || c == '(' || c == ')' || c == '$'
        || c == '`' || c == '"' || c == '*' || c == '?' || c == '[' || c == ']' || c == '#' || c
        == '{' || c == '}' || c == '!' || c == '\t' || c == '\n' || c == '\r'
}

/// A word that has begun, as a list, or no words.
pub open spec fn begun_word(word: Option<Seq<char>>) -> Seq<Seq<char>> {
    match word {
        Some(w) => seq![w],
        None => Seq::empty(),
    }
}

/// A word that may have begun, with more behind it.
pub open spec fn grown(word: Option<Seq<char>>, more: Seq<char>) -> Option<Seq<char>> {
    match word {
        Some(w) => Some(w + more),
        None => Some(more),
    }
}

/// The words that a shell reads, from within a word that may have begun and
/// inside of single quotes or not. Spaces part the words, single quotes keep
/// all between them, and a backslash keeps the next character. There are none
/// where a quote stays open, a backslash is last, or a character stands
/// unquoted at which the shell does more than to read.
pub open spec fn words_read(s: Seq<char>, word: Option<Seq<char>>, inside: bool) -> Option<
    Seq<Seq<char>>,
>
    decreases s.len(),
{
    if s.len() == 0 {
        if inside {
            None
        } else {
            Some(begun_word(word))
        }
    } else if s[0] == '\'' {
        words_read(s.drop_first(), grown(word, Seq::empty()), !inside)
    } else if inside {
        words_read(s.drop_first(), grown(word, seq![s[0]]), true)
    } else if s[0] == ' ' {
        match words_read(s.drop_first(), None, false) {
            Some(rest) => Some(begun_word(word) + rest),
            None => None,
        }
    } else if s[0] == '\\' {
        if s.len() < 2 {
            None
        } else {
            words_read(s.skip(2), grown(word, seq![s[1]]), false)
        }
    } else if shell_special(s[0]) {
        None
    } else {
        words_read(s.drop_first(), grown(word, seq![s[0]]), false)
    }
}

/// The words that a shell reads in a line. A tilde at the beginning of a word
/// is read as it stands.
pub open spec fn shell_words(s: Seq<char>) -> Option<Seq<Seq<char>>> {
    words_read(s, None, false)
}

proof fn lemma_grown(word: Option<Seq<char>>, a: Seq<char>, b: Seq<char>)
    ensures
        grown(grown(word, a), b) == grown(word, a + b),
        grown(grown(word, a), Seq::empty()) == grown(word, a),
{
    assert(a + Seq::<char>::empty() =~= a);
    if let Some(w) = word {
        assert(w + a + b =~= w + (a + b));
        assert(w + a + Seq::<char>::empty() =~= w + a);
    }
}

proof fn lemma_quote_body(s: Seq<char>, tail: Seq<char>, word: Option<Seq<char>>)
    ensures
        words_read(
            replaced(s, "'"@, "'\\''"@) + "'"@ + tail,
            grown(word, Seq::empty()),
            true,
        ) == words_read(tail, grown(word, s), false),
    decreases s.len(),
{
    reveal_strlit("'");
    reveal_strlit("'\\''");
    let q = "'"@;
    let esc = "'\\''"@;
    let w0 = grown(word, Seq::empty());
    let all = replaced(s, q, esc) + q + tail;
    if s.len() == 0 {
        assert(s =~= Seq::empty());
        assert(all =~= q + tail);
        assert(all.drop_first() =~= tail);
        lemma_grown(word, Seq::empty(), Seq::empty());
    } else {
        let rest = s.drop_first();
        let more = replaced(rest, q, esc) + q + tail;
        let next = grown(word, seq![s[0]]);
        assert(seq![s[0]] + rest =~= s);
        lemma_quote_body(rest, tail, next);
        lemma_grown(word, seq![s[0]], rest);
        lemma_grown(word, Seq::empty(), seq![s[0]]);
        lemma_grown(word, Seq::empty(), Seq::empty());
        assert(Seq::<char>::empty() + seq![s[0]] =~= seq![s[0]]);
        if s[0] == '\'' {
            assert(s.take(1) =~= q);
            assert(begins(s, q));
            assert(s.skip(1) =~= rest);
            assert(all =~= esc + more);
            let a1 = all.drop_first();
            let a2 = a1.skip(2);
            assert(a1[0] == '\\' && a1[1] == '\'');
            assert(a2[0] == '\'');
            assert(a2.drop_first() =~= more);
            assert(words_read(all, w0, true) == words_read(a1, w0, false));
            assert(words_read(a1, w0, false) == words_read(a2, next, false));
            assert(words_read(a2, next, false) == words_read(
                more,
                grown(next, Seq::empty()),
                true,
            ));
        } else {
            assert(s.take(1)[0] != q[0]);
            assert(!begins(s, q));
            assert(all =~= seq![s[0]] + more);
            assert(all.drop_first() =~= more);
            assert(words_read(all, w0, true) == words_read(more, next, true));
            assert(next == grown(next, Seq::empty()));
        }
    }
}

proof fn lemma_plain_word(s: Seq<char>, tail: Seq<char>, word: Option<Seq<char>>)
    requires
        is_plain(s),
        s.len() > 0,
    ensures
        words_read(s + tail, word, false) == words_read(tail, grown(word, s), false),
    decreases s.len(),
{
    let rest = s.drop_first();
    let all = s + tail;
    let next = grown(word, seq![s[0]]);
    assert(plain_char(s[0]));
    assert(all.drop_first() =~= rest + tail);
    assert(seq![s[0]] + rest =~= s);
    assert(words_read(all, word, false) == words_read(rest + tail, next, false));
    if rest.len() == 0 {
        assert(rest + tail =~= tail);
        assert(s =~= seq![s[0]]);
    } else {
        assert forall|i: int| 0 <= i < rest.len() implies plain_char(#[trigger] rest[i]) by {
            assert(rest[i] == s[i + 1]);
        }
        lemma_plain_word(rest, tail, next);
        lemma_grown(word, seq![s[0]], rest);
    }
}

/// An argument is read as one word with what it says.
proof fn lemma_argument(s: Seq<char>, tail: Seq<char>)
    requires
        s.len() > 0,
    ensures
        words_read(shell_arg(s) + tail, None, false) == words_read(tail, Some(s), false),
{
    if is_plain(s) {
        lemma_plain_word(s, tail, None);
    } else {
        lemma_quoted(s, tail);
    }
}

proof fn lemma_quoted(s: Seq<char>, tail: Seq<char>)
    ensures
        words_read(quoted(s) + tail, None, false) == words_read(tail, Some(s), false),
{
    reveal_strlit("'");
    let inner = replaced(s, "'"@, "'\\''"@) + "'"@ + tail;
    let all = quoted(s) + tail;
    assert(all =~= "'"@ + inner);
    assert(all.drop_first() =~= inner);
    lemma_quote_body(s, tail, None);
}

/// Quoting is undone by the shell: it reads a quoted text as one word, the text
/// itself, whatever characters it holds.
pub proof fn quoting_is_undone_by_the_shell(s: Seq<char>)
    ensures
        shell_words(quoted(s)) == Some(seq![s]),
{
    lemma_quoted(s, Seq::empty());
    assert(quoted(s) + Seq::<char>::empty() =~= quoted(s));
}

/// A command line survives the shell: where no argument is empty, the words
/// that the shell reads in the joined line are the arguments, and nothing in
/// the line makes it do more than to read them.
pub proof fn arguments_survive_the_shell(cmd: Seq<Seq<char>>)
    requires
        forall|i: int| 0 <= i < cmd.len() ==> (#[trigger] cmd[i]).len() > 0,
    ensures
        shell_words(shell_line(cmd)) == Some(cmd),
    decreases cmd.len(),
{
    let list = cmd.map_values(|a: Seq<char>| shell_arg(a));
    if cmd.len() == 0 {
        assert(cmd =~= Seq::empty());
    } else if cmd.len() == 1 {
        lemma_argument(cmd[0], Seq::empty());
        assert(shell_arg(cmd[0]) + Seq::<char>::empty() =~= shell_arg(cmd[0]));
        assert(cmd =~= seq![cmd[0]]);
    } else {
        reveal_strlit(" ");
        let rest = cmd.drop_first();
        let tail = " "@ + shell_line(rest);
        assert forall|i: int| 0 <= i < rest.len() implies (#[trigger] rest[i]).len() > 0 by {
            assert(rest[i] == cmd[i + 1]);
        }
        arguments_survive_the_shell(rest);
        let others = rest.map_values(|a: Seq<char>| shell_arg(a));
        assert(list =~= seq![shell_arg(cmd[0])] + others);
        crate::notify::lemma_joined_front(shell_arg(cmd[0]), others, " "@);
        assert(shell_line(cmd) =~= shell_arg(cmd[0]) + tail);
        lemma_argument(cmd[0], tail);
        assert(tail.drop_first() =~= shell_line(rest));
        assert(tail[0] == ' ');
        assert(seq![cmd[0]] + rest =~= cmd);
    }
}

/// A job's name is never empty, at most forty characters long, and made of
/// harmless characters, so that naming it again changes nothing.
pub proof fn job_names_are_safe(name: Seq<char>)
    ensures
        0 < job_name(name).len() <= 40,
        job_name(job_name(name)) == job_name(name),
        forall|i: int|
            0 <= i < job_name(name).len() ==> crate::cgroup::name_char(
                #[trigger] job_name(name)[i],
            ) == job_name(name)[i],
{
    reveal_strlit("job");
    let once = job_name(name);
    assert forall|i: int| 0 <= i < once.len() implies crate::cgroup::name_char(
        #[trigger] once[i],
    ) == once[i] by {
        if harmless(name, 40).len() == 0 {
            assert("job"@[0] == 'j' && "job"@[1] == 'o' && "job"@[2] == 'b');
        }
    }
    assert(harmless(once, 40) =~= once);
}

// ------------------------------------------------------------ ssh

/// The arguments of `ssh` for a host: no questions, three seconds to connect.
pub open spec fn ssh_line(addr: Seq<char>) -> Seq<Seq<char>> {
    seq![
        "-o"@,
        "BatchMode=yes"@,
        "-o"@,
        "ConnectTimeout=3"@,
        "-o"@,
        "StrictHostKeyChecking=accept-new"@,
        addr,
    ]
}

/// The arguments of `ssh` for a command on a host, where its address is valid.
fn ssh_args(addr: &str, command: &str) -> (r: Result<Vec<String>, String>)
    ensures
        r is Ok <==> addr_error(addr@) is None,
        r matches Ok(v) ==> texts(v@) == ssh_line(addr@).push(command@),
        r matches Err(e) ==> addr_error(addr@) == Some(e@),
{
    match validate_addr(addr) {
        Err(e) => Err(e),
        Ok(()) => {
            let mut out: Vec<String> = Vec::new();
            push_text(&mut out, owned("-o"));
            push_text(&mut out, owned("BatchMode=yes"));
            push_text(&mut out, owned("-o"));
            push_text(&mut out, owned("ConnectTimeout=3"));
            push_text(&mut out, owned("-o"));
            push_text(&mut out, owned("StrictHostKeyChecking=accept-new"));
            push_text(&mut out, owned(addr));
            assert(texts(out@) =~= ssh_line(addr@));
            push_text(&mut out, owned(command));
            Ok(out)
        },
    }
}

/// The arguments of `ssh` for a quick check that a host answers.
pub fn online(addr: &str) -> (r: Option<Vec<String>>)
    ensures
        r is Some <==> addr_error(addr@) is None,
        r matches Some(v) ==> texts(v@) == ssh_line(addr@).push("true"@),
{
    match ssh_args(addr, "true") {
        Ok(v) => Some(v),
        Err(_) => None,
    }
}

/// The command that asks a host for its cores and memory.
pub const PROBE: &'static str =
    "echo $(nproc) cores, $(awk '/MemTotal/{printf \"%.0f\", $2/1048576}' /proc/meminfo) GB RAM";

/// The arguments of `ssh` that ask a host for its cores and memory.
pub fn probe(addr: &str) -> (r: Option<Vec<String>>)
    ensures
        r is Some <==> addr_error(addr@) is None,
        r matches Some(v) ==> texts(v@) == ssh_line(addr@).push(PROBE@),
{
    match ssh_args(addr, PROBE) {
        Ok(v) => Some(v),
        Err(_) => None,
    }
}

/// What a host answered, where the question reached it.
pub fn probe_answer(success: bool, stdout: &Vec<u8>) -> (r: Option<String>)
    ensures
        opt_text(r) == (if success {
            Some(trimmed(lossy_of(stdout@)))
        } else {
            None
        }),
{
    if success {
        Some(trim(lossy(stdout).as_str()))
    } else {
        None
    }
}

// ------------------------------------------------------------ migration

/// A step of a migration.
pub enum Step {
    /// See whether a tool is installed.
    Check { tool: String },
    /// Tell the user, and run `rsync`.
    Copy { say: String, args: Vec<String> },
    /// Tell the user, and run `ssh`.
    Start { say: String, args: Vec<String> },
    /// Tell the user that it is done.
    Finish { say: String },
    Fail { message: String },
}

/// How a step went.
pub enum Outcome {
    Success,
    /// The tool could not be run.
    NoTool { message: String },
    /// The tool ended with a status other than success.
    Status { text: String },
}

pub ghost enum StepView {
    Check { tool: Seq<char> },
    Copy { say: Seq<char>, args: Seq<Seq<char>> },
    Start { say: Seq<char>, args: Seq<Seq<char>> },
    Finish { say: Seq<char> },
    Fail { message: Seq<char> },
}

pub ghost enum OutcomeView {
    Success,
    NoTool { message: Seq<char> },
    Status { text: Seq<char> },
}

impl View for Step {
    type V = StepView;

    open spec fn view(&self) -> StepView {
        match self {
            Step::Check { tool } => StepView::Check { tool: tool@ },
            Step::Copy { say, args } => StepView::Copy { say: say@, args: texts(args@) },
            Step::Start { say, args } => StepView::Start { say: say@, args: texts(args@) },
            Step::Finish { say } => StepView::Finish { say: say@ },
            Step::Fail { message } => StepView::Fail { message: message@ },
        }
    }
}

impl View for Outcome {
    type V = OutcomeView;

    open spec fn view(&self) -> OutcomeView {
        match self {
            Outcome::Success => OutcomeView::Success,
            Outcome::NoTool { message } => OutcomeView::NoTool { message: message@ },
            Outcome::Status { text } => OutcomeView::Status { text: text@ },
        }
    }
}

/// How far a migration has come.
#[derive(Debug, Clone, Copy, PartialEq, Eq, Structural)]
pub enum Stage {
    FindSsh,
    FindRsync,
    Copying,
    Running,
    Over,
}

/// A migration of a command, with its working directory, to an address.
pub struct Migration {
    pub addr: String,
    pub cmd: Vec<String>,
    pub cwd: String,
    pub stage: Stage,
}

pub open spec fn remote_dir(cmd: Seq<Seq<char>>) -> Seq<char> {
    let name = if cmd.len() == 0 {
        "job"@
    } else {
        match base_name_of(cmd[0]) {
            Some(n) => n,
            None => "job"@,
        }
    };
    "~/.pv/migrated/pv-"@ + job_name(name)
}

pub open spec fn rsync_line(addr: Seq<char>, cwd: Seq<char>, dir: Seq<char>) -> Seq<Seq<char>> {
    seq![
        "-az"@,
        "--info=progress2"@,
        "--timeout=120"@,
        "--exclude"@,
        "target/"@,
        "--exclude"@,
        "node_modules/"@,
        "--exclude"@,
        ".git/"@,
        cwd + "/"@,
        addr + ":"@ + dir,
    ]
}

/// The command that the remote shell gets.
pub open spec fn remote_script(cmd: Seq<Seq<char>>) -> Seq<char> {
    "cd "@ + quoted_path(remote_dir(cmd)) + " && "@ + shell_line(cmd)
}

pub open spec fn missing_tool(tool: Seq<char>) -> StepView {
    StepView::Fail { message: "`"@ + tool + "` not found — install it to enable migration"@ }
}

/// The first step of a migration: an unsafe address ends it at once.
pub open spec fn migration_begin(addr: Seq<char>) -> (Stage, StepView) {
    match addr_error(addr) {
        Some(e) => (Stage::Over, StepView::Fail { message: e }),
        None => (Stage::FindSsh, StepView::Check { tool: "ssh"@ }),
    }
}

/// What comes next in a migration, by how the last step went.
pub open spec fn migration_next(
    addr: Seq<char>,
    cmd: Seq<Seq<char>>,
    cwd: Seq<char>,
    stage: Stage,
    ev: OutcomeView,
) -> (Stage, StepView) {
    match stage {
        Stage::FindSsh => if ev is NoTool {
            (Stage::Over, missing_tool("ssh"@))
        } else {
            (Stage::FindRsync, StepView::Check { tool: "rsync"@ })
        },
        Stage::FindRsync => if ev is NoTool {
            (Stage::Over, missing_tool("rsync"@))
        } else if cmd.len() == 0 {
            (Stage::Over, StepView::Fail { message: "no command to migrate"@ })
        } else if cwd.contains('\0') {
            (
                Stage::Over,
                StepView::Fail { message: "working directory contains a null byte"@ },
            )
        } else {
            (
                Stage::Copying,
                StepView::Copy {
                    say: "[pv] syncing "@ + cwd + " → "@ + addr + ":"@ + remote_dir(cmd),
                    args: rsync_line(addr, cwd, remote_dir(cmd)),
                },
            )
        },
        Stage::Copying => match ev {
            OutcomeView::NoTool { message } => (
                Stage::Over,
                StepView::Fail { message: "rsync: "@ + message },
            ),
            OutcomeView::Status { text } => (
                Stage::Over,
                StepView::Fail { message: "rsync failed ("@ + text + ")"@ },
            ),
            OutcomeView::Success => match addr_error(addr) {
                Some(e) => (Stage::Over, StepView::Fail { message: e }),
                None => (
                    Stage::Running,
                    StepView::Start {
                        say: "[pv] resuming remotely: "@ + joined(cmd, " "@),
                        args: ssh_line(addr).push(remote_script(cmd)),
                    },
                ),
            },
        },
        Stage::Running => match ev {
            OutcomeView::NoTool { message } => (
                Stage::Over,
                StepView::Fail { message: "ssh: "@ + message },
            ),
            OutcomeView::Status { text } => (
                Stage::Over,
                StepView::Fail { message: "remote command exited with "@ + text },
            ),
            OutcomeView::Success => (
                Stage::Over,
                StepView::Finish {
                    say: "[pv] remote run finished OK — local copy untouched in "@ + cwd,
                },
            ),
        },
        Stage::Over => (Stage::Over, StepView::Fail { message: "nothing left to do"@ }),
    }
}

fn remote_home(cmd: &Vec<String>) -> (r: String)
    ensures
        r@ == remote_dir(texts(cmd@)),
{
    assert(texts(cmd@).len() == cmd@.len());
    let name: String = if cmd.len() == 0 {
        owned("job")
    } else {
        assert(texts(cmd@)[0] == cmd@[0]@);
        match base_name(cmd[0].as_str()) {
            Some(n) => n,
            None => owned("job"),
        }
    };
    cat2("~/.pv/migrated/pv-", sanitize_job(name.as_str()).as_str())
}

fn rsync_args(addr: &str, cwd: &str, dir: &str) -> (r: Vec<String>)
    ensures
        texts(r@) == rsync_line(addr@, cwd@, dir@),
{
    let mut out: Vec<String> = Vec::new();
    push_text(&mut out, owned("-az"));
    push_text(&mut out, owned("--info=progress2"));
    push_text(&mut out, owned("--timeout=120"));
    push_text(&mut out, owned("--exclude"));
    push_text(&mut out, owned("target/"));
    push_text(&mut out, owned("--exclude"));
    push_text(&mut out, owned("node_modules/"));
    push_text(&mut out, owned("--exclude"));
    push_text(&mut out, owned(".git/"));
    push_text(&mut out, cat2(cwd, "/"));
    push_text(&mut out, cat3(addr, ":", dir));
    assert(texts(out@) =~= rsync_line(addr@, cwd@, dir@));
    out
}

fn no_tool(tool: &str) -> (r: Step)
    ensures
        r@ == missing_tool(tool@),
{
    Step::Fail { message: cat3("`", tool, "` not found — install it to enable migration") }
}

/// Begin to move a restartable command to a remote host: the working
/// directory is copied across, and the command is run there.
pub fn migrate_command(host: &Host, cmd: &Vec<String>, cwd: &str) -> (r: (Migration, Step))
    ensures
        (r.0.stage, r.1@) == migration_begin(host.addr@),
        r.0.addr@ == host.addr@,
        texts(r.0.cmd@) == texts(cmd@),
        r.0.cwd@ == cwd@,
{
    let (stage, step): (Stage, Step) = match validate_addr(host.addr.as_str()) {
        Err(e) => (Stage::Over, Step::Fail { message: e }),
        Ok(()) => (Stage::FindSsh, Step::Check { tool: owned("ssh") }),
    };
    (
        Migration { addr: host.addr.clone(), cmd: copy_texts(cmd), cwd: owned(cwd), stage },
        step,
    )
}

impl Migration {
    /// The next step, by how the last one went.
    pub fn next(self, ev: &Outcome) -> (r: (Migration, Step))
        ensures
            (r.0.stage, r.1@) == migration_next(
                self.addr@,
                texts(self.cmd@),
                self.cwd@,
                self.stage,
                ev@,
            ),
            r.0.addr == self.addr,
            r.0.cmd == self.cmd,
            r.0.cwd == self.cwd,
    {
        assert(texts(self.cmd@).len() == self.cmd@.len());
        let addr: &str = self.addr.as_str();
        let cwd: &str = self.cwd.as_str();
        let missing: bool = match ev {
            Outcome::NoTool { .. } => true,
            _ => false,
        };
        let (stage, step): (Stage, Step) = match self.stage {
            Stage::FindSsh => if missing {
                (Stage::Over, no_tool("ssh"))
            } else {
                (Stage::FindRsync, Step::Check { tool: owned("rsync") })
            },
            Stage::FindRsync => if missing {
                (Stage::Over, no_tool("rsync"))
            } else if self.cmd.len() == 0 {
                (Stage::Over, Step::Fail { message: owned("no command to migrate") })
            } else if has_char(cwd, '\0') {
                (
                    Stage::Over,
                    Step::Fail { message: owned("working directory contains a null byte") },
                )
            } else {
                let dir: String = remote_home(&self.cmd);
                (
                    Stage::Copying,
                    Step::Copy {
                        say: cat2(
                            cat5("[pv] syncing ", cwd, " → ", addr, ":").as_str(),
                            dir.as_str(),
                        ),
                        args: rsync_args(addr, cwd, dir.as_str()),
                    },
                )
            },
            Stage::Copying => match ev {
                Outcome::NoTool { message } => (
                    Stage::Over,
                    Step::Fail { message: cat2("rsync: ", message.as_str()) },
                ),
                Outcome::Status { text } => (
                    Stage::Over,
                    Step::Fail { message: cat3("rsync failed (", text.as_str(), ")") },
                ),
                Outcome::Success => {
                    let script: String = cat4(
                        "cd ",
                        shell_quote_keep_tilde(remote_home(&self.cmd).as_str()).as_str(),
                        " && ",
                        shell_join(&self.cmd).as_str(),
                    );
                    match ssh_args(addr, script.as_str()) {
                        Err(e) => (Stage::Over, Step::Fail { message: e }),
                        Ok(args) => (
                            Stage::Running,
                            Step::Start {
                                say: cat2(
                                    "[pv] resuming remotely: ",
                                    join(&self.cmd, " ").as_str(),
                                ),
                                args,
                            },
                        ),
                    }
                },
            },
            Stage::Running => match ev {
                Outcome::NoTool { message } => (
                    Stage::Over,
                    Step::Fail { message: cat2("ssh: ", message.as_str()) },
                ),
                Outcome::Status { text } => (
                    Stage::Over,
                    Step::Fail {
                        message: cat2("remote command exited with ", text.as_str()),
                    },
                ),
                Outcome::Success => (
                    Stage::Over,
                    Step::Finish {
                        say: cat2(
                            "[pv] remote run finished OK — local copy untouched in ",
                            cwd,
                        ),
                    },
                ),
            },
            Stage::Over => (Stage::Over, Step::Fail { message: owned("nothing left to do") }),
        };
        (Migration { addr: self.addr, cmd: self.cmd, cwd: self.cwd, stage }, step)
    }
}

/// Nothing is copied to or run on a host whose address is not valid: such a
/// migration is over before its first step.
pub proof fn unsafe_hosts_are_refused(addr: Seq<char>)
    requires
        addr_error(addr) is Some,
    ensures
        migration_begin(addr) == (Stage::Over, StepView::Fail { message: addr_error(addr)->0 }),
{
}

// ------------------------------------------------------------ laws of a migration

/// The steps of a migration, the first before any answer and one after each.
pub open spec fn migration_run(
    addr: Seq<char>,
    cmd: Seq<Seq<char>>,
    cwd: Seq<char>,
    evs: Seq<OutcomeView>,
) -> Seq<(Stage, StepView)>
    decreases evs.len(),
{
    if evs.len() == 0 {
        seq![migration_begin(addr)]
    } else {
        let before = migration_run(addr, cmd, cwd, evs.drop_last());
        before.push(migration_next(addr, cmd, cwd, before.last().0, evs.last()))
    }
}

/// A migration is finished only by the success of the command that it runs:
/// no other stage and no other answer finishes it. A copy or a command that
/// does not succeed, and a tool that cannot be run, fail it with a message
/// that tells the status or the error.
pub proof fn only_success_finishes_a_migration(
    addr: Seq<char>,
    cmd: Seq<Seq<char>>,
    cwd: Seq<char>,
    stage: Stage,
    ev: OutcomeView,
)
    ensures
        ({
            let (next, step) = migration_next(addr, cmd, cwd, stage, ev);
            &&& step is Finish <==> stage == Stage::Running && ev is Success
            &&& ev is NoTool ==> step is Fail
            &&& ev is Status && (stage == Stage::Copying || stage == Stage::Running) ==> step
                is Fail
            &&& stage == Stage::Over ==> step is Fail
            &&& step is Fail || step is Finish <==> next == Stage::Over
            &&& stage == Stage::Running && ev is Status ==> step->message
                == "remote command exited with "@ + ev->text
            &&& stage == Stage::Copying && ev is Status ==> step->message == "rsync failed ("@
                + ev->text + ")"@
            &&& stage == Stage::Running && ev is NoTool ==> step->message == "ssh: "@
                + ev->NoTool_message
            &&& stage == Stage::Copying && ev is NoTool ==> step->message == "rsync: "@
                + ev->NoTool_message
        }),
{
}

proof fn lemma_migration_run(
    addr: Seq<char>,
    cmd: Seq<Seq<char>>,
    cwd: Seq<char>,
    evs: Seq<OutcomeView>,
)
    ensures
        ({
            let run = migration_run(addr, cmd, cwd, evs);
            let stage = run.last().0;
            &&& run.len() == evs.len() + 1
            &&& addr_error(addr) is Some ==> stage == Stage::Over && !(run.last().1 is Finish)
            &&& stage == Stage::FindSsh ==> evs.len() == 0 && run[0].1 == (StepView::Check {
                tool: "ssh"@,
            })
            &&& stage == Stage::FindRsync ==> evs.len() == 1 && !(evs[0] is NoTool) && run[0].1 == (
            StepView::Check { tool: "ssh"@ }) && run[1].1 == (StepView::Check { tool: "rsync"@ })
            &&& stage == Stage::Copying ==> evs.len() == 2 && ready(addr, cmd, cwd, run, evs)
            &&& stage == Stage::Running ==> evs.len() == 3 && ready(addr, cmd, cwd, run, evs)
                && evs[2] is Success && starts(addr, cmd, run[3].1)
            &&& run.last().1 is Finish ==> stage == Stage::Over && evs.len() == 4 && ready(
                addr,
                cmd,
                cwd,
                run,
                evs,
            ) && evs[2] is Success && starts(addr, cmd, run[3].1) && evs[3] is Success
        }),
    decreases evs.len(),
{
    if evs.len() > 0 {
        let less = evs.drop_last();
        lemma_migration_run(addr, cmd, cwd, less);
        let before = migration_run(addr, cmd, cwd, less);
        let run = migration_run(addr, cmd, cwd, evs);
        assert(forall|i: int| 0 <= i < before.len() ==> run[i] == before[i]);
        assert(forall|i: int| 0 <= i < less.len() ==> evs[i] == less[i]);
        let d = remote_dir(cmd);
        if before.last().0 == Stage::FindRsync && run.last().1 is Copy {
            assert(copies(addr, cwd, d, run[2].1));
            assert(runs_in(cmd, d, remote_script(cmd)));
        }
        if before.last().0 == Stage::Copying && run.last().1 is Start {
            assert(ssh_line(addr).push(remote_script(cmd)) =~= seq![
                "-o"@,
                "BatchMode=yes"@,
                "-o"@,
                "ConnectTimeout=3"@,
                "-o"@,
                "StrictHostKeyChecking=accept-new"@,
                addr,
                remote_script(cmd),
            ]);
            assert(asks_host(addr, remote_script(cmd), run[3].1));
            assert(runs_in(cmd, d, remote_script(cmd)));
        }
    }
}

/// Whether a step copies a directory to a place on a host: what is built, what
/// is installed and the history stay behind.
pub open spec fn copies(addr: Seq<char>, cwd: Seq<char>, dir: Seq<char>, step: StepView) -> bool {
    step matches StepView::Copy { say, args } && args == seq![
        "-az"@,
        "--info=progress2"@,
        "--timeout=120"@,
        "--exclude"@,
        "target/"@,
        "--exclude"@,
        "node_modules/"@,
        "--exclude"@,
        ".git/"@,
        cwd + "/"@,
        addr + ":"@ + dir,
    ]
}

/// Whether a line for the shell goes to a directory and runs a command there.
pub open spec fn runs_in(cmd: Seq<Seq<char>>, dir: Seq<char>, script: Seq<char>) -> bool {
    script == "cd "@ + quoted_path(dir) + " && "@ + shell_line(cmd)
}

/// Whether a step runs a line on a host, without questions and with little
/// patience.
pub open spec fn asks_host(addr: Seq<char>, script: Seq<char>, step: StepView) -> bool {
    step matches StepView::Start { say, args } && args == seq![
        "-o"@,
        "BatchMode=yes"@,
        "-o"@,
        "ConnectTimeout=3"@,
        "-o"@,
        "StrictHostKeyChecking=accept-new"@,
        addr,
        script,
    ]
}

spec fn starts(addr: Seq<char>, cmd: Seq<Seq<char>>, step: StepView) -> bool {
    asks_host(addr, remote_script(cmd), step) && runs_in(cmd, remote_dir(cmd), remote_script(cmd))
}

spec fn ready(
    addr: Seq<char>,
    cmd: Seq<Seq<char>>,
    cwd: Seq<char>,
    run: Seq<(Stage, StepView)>,
    evs: Seq<OutcomeView>,
) -> bool {
    &&& !(evs[0] is NoTool)
    &&& !(evs[1] is NoTool)
    &&& run[0].1 == (StepView::Check { tool: "ssh"@ })
    &&& run[1].1 == (StepView::Check { tool: "rsync"@ })
    &&& copies(addr, cwd, remote_dir(cmd), run[2].1)
    &&& cmd.len() > 0
    &&& !cwd.contains('\0')
}

/// A migration that finishes has found both tools, has copied the directory
/// whole, and has run the command in the directory that it was copied to, on
/// the host that it was copied to, each with success.
pub proof fn a_finished_migration_has_copied_and_run(
    addr: Seq<char>,
    cmd: Seq<Seq<char>>,
    cwd: Seq<char>,
    evs: Seq<OutcomeView>,
) -> (r: (Seq<char>, Seq<char>))
    requires
        migration_run(addr, cmd, cwd, evs).last().1 is Finish,
    ensures
        ({
            let run = migration_run(addr, cmd, cwd, evs);
            let (dir, script) = r;
            &&& evs.len() == 4
            &&& addr_error(addr) is None
            &&& run[0].1 == (StepView::Check { tool: "ssh"@ }) && !(evs[0] is NoTool)
            &&& run[1].1 == (StepView::Check { tool: "rsync"@ }) && !(evs[1] is NoTool)
            &&& copies(addr, cwd, dir, run[2].1) && evs[2] is Success
            &&& begins(dir, "~/.pv/migrated/pv-"@)
            &&& runs_in(cmd, dir, script)
            &&& asks_host(addr, script, run[3].1) && evs[3] is Success
        }),
{
    lemma_migration_run(addr, cmd, cwd, evs);
    let dir = remote_dir(cmd);
    assert(dir.take("~/.pv/migrated/pv-"@.len() as int) =~= "~/.pv/migrated/pv-"@);
    (dir, remote_script(cmd))
}

/// A command whose host has a valid address and whose directory has a name
/// without a null is migrated once both tools, the copy and the command
/// answer well.
pub proof fn a_migration_that_goes_well_finishes(
    addr: Seq<char>,
    cmd: Seq<Seq<char>>,
    cwd: Seq<char>,
    evs: Seq<OutcomeView>,
)
    requires
        addr_error(addr) is None,
        cmd.len() > 0,
        !cwd.contains('\0'),
        evs.len() == 4,
        !(evs[0] is NoTool) && !(evs[1] is NoTool) && evs[2] is Success && evs[3] is Success,
    ensures
        migration_run(addr, cmd, cwd, evs).last().1 == (StepView::Finish {
            say: "[pv] remote run finished OK — local copy untouched in "@ + cwd,
        }),
{
    reveal_with_fuel(migration_run, 5);
    let e3 = evs.drop_last();
    let e2 = e3.drop_last();
    let e1 = e2.drop_last();
    assert(e3.last() == evs[2] && e2.last() == evs[1] && e1.last() == evs[0]);
    assert(migration_run(addr, cmd, cwd, e1.drop_last()).last() == migration_begin(addr));
    assert(migration_run(addr, cmd, cwd, e1).last().0 == Stage::FindRsync);
    assert(migration_run(addr, cmd, cwd, e2).last().0 == Stage::Copying);
    assert(migration_run(addr, cmd, cwd, e3).last().0 == Stage::Running);
}

/// An address is taken exactly where it is not empty, has at most 253 bytes,
/// and holds letters, numbers and `._-@:[]` alone.
pub proof fn addresses_are_judged_by_their_characters(s: Seq<char>)
    ensures
        addr_error(s) is None <==> 0 < s.len() && bytes_in(s) <= 253 && forall|i: int|
            0 <= i < s.len() ==> (is_alnum(#[trigger] s[i]) || s[i] == '.' || s[i] == '_' || s[i]
                == '-' || s[i] == '@' || s[i] == ':' || s[i] == '[' || s[i] == ']') && !is_space(
                s[i],
            ) && !is_ctrl(s[i]),
{
    if addr_error(s) is None {
        valid_addresses_are_plain(s);
    }
    lemma_unsafe_stands(s);
}

proof fn lemma_unsafe_stands(s: Seq<char>)
    ensures
        first_unsafe(s) matches Some(c) ==> exists|i: int|
            0 <= i < s.len() && #[trigger] s[i] == c && !addr_char(c),
    decreases s.len(),
{
    if s.len() > 0 && addr_char(s[0]) {
        lemma_unsafe_stands(s.drop_first());
        if let Some(c) = first_unsafe(s.drop_first()) {
            let i = choose|i: int|
                0 <= i < s.drop_first().len() && #[trigger] s.drop_first()[i] == c && !addr_char(
                    c,
                );
            assert(s[i + 1] == c);
        }
    }
}

/// The name of a job is the first forty characters of a name, each letter and
/// digit of ASCII and each `.`, `-` and `_` as it is and every other one a
/// dash; an empty name is that of a job.
pub proof fn job_names_keep_what_is_plain(name: Seq<char>)
    ensures
        name.len() == 0 ==> job_name(name) == "job"@,
        name.len() > 0 ==> job_name(name).len() == (if name.len() < 40 {
            name.len()
        } else {
            40
        }),
        forall|i: int|
            0 <= i < name.len() && i < 40 ==> #[trigger] job_name(name)[i] == (if ('a' as int) <= (
            name[i] as int) <= ('z' as int) || ('A' as int) <= (name[i] as int) <= ('Z' as int) || (
            '0' as int) <= (name[i] as int) <= ('9' as int) || name[i] == '.' || name[i] == '-'
                || name[i] == '_' {
                name[i]
            } else {
                '-'
            }),
{
    if name.len() == 0 {
        assert(harmless(name, 40).len() == 0);
    }
}

/// A directory is read by the shell as it stands, but for a tilde without a
/// slash: a quoted path is one word, the path itself.
pub proof fn paths_survive_the_shell(s: Seq<char>)
    requires
        begins(s, "~/"@) || !begins(s, "~"@),
    ensures
        shell_words(quoted_path(s)) == Some(seq![s]),
{
    reveal_strlit("~/");
    reveal_strlit("~/'");
    reveal_strlit("'");
    if begins(s, "~/"@) {
        let rest = after_prefix(s, "~/"@)->0;
        let body = replaced(rest, "'"@, "'\\''"@) + "'"@ + Seq::<char>::empty();
        let all = quoted_path(s);
        assert(all =~= "~/"@ + "'"@ + body);
        assert(is_plain("~/"@)) by {
            assert(forall|i: int| 0 <= i < 2 ==> plain_char(#[trigger] "~/"@[i]));
        }
        lemma_plain_word("~/"@, "'"@ + body, None);
        assert("~/"@ + ("'"@ + body) =~= all);
        assert(("'"@ + body).drop_first() =~= body);
        lemma_quote_body(rest, Seq::empty(), Some("~/"@));
        lemma_grown(None, "~/"@, Seq::empty());
        assert("~/"@ + rest =~= s);
    } else {
        quoting_is_undone_by_the_shell(s);
    }
}

proof fn lemma_hosts_kept(list: Seq<(Seq<char>, HostView)>, i: int)
    requires
        0 <= i < list.len(),
        addr_error(list[i].1.addr) is None,
    ensures
        valid_hosts(list).contains(list[i]),
    decreases list.len(),
{
    let before = valid_hosts(list.drop_last());
    if i < list.len() - 1 {
        lemma_hosts_kept(list.drop_last(), i);
        let k = choose|k: int| 0 <= k < before.len() && before[k] == list.drop_last()[i];
        assert(valid_hosts(list)[k] == list[i]);
    } else {
        assert(valid_hosts(list)[before.len() as int] == list[i]);
    }
}

proof fn lemma_hosts_from(list: Seq<(Seq<char>, HostView)>, k: int)
    requires
        0 <= k < valid_hosts(list).len(),
    ensures
        list.contains(valid_hosts(list)[k]),
    decreases list.len(),
{
    let before = valid_hosts(list.drop_last());
    if k < before.len() {
        lemma_hosts_from(list.drop_last(), k);
        let i = choose|i: int| 0 <= i < list.len() - 1 && list.drop_last()[i] == before[k];
        assert(list[i] == before[k]);
    } else {
        assert(list[list.len() - 1] == valid_hosts(list)[k]);
    }
}

/// Every host with a valid address is loaded, no other is, and each comes
/// after those whose names come before its own.
pub proof fn valid_hosts_are_loaded_in_order(list: Seq<(Seq<char>, HostView)>)
    ensures
        forall|h: (Seq<char>, HostView)| #[trigger]
            by_name(valid_hosts(list)).contains(h) <==> list.contains(h) && addr_error(h.1.addr)
                is None,
        forall|a: int, b: int|
            0 <= a < b < by_name(valid_hosts(list)).len() ==> !text_less(
                (#[trigger] by_name(valid_hosts(list))[b]).0,
                (#[trigger] by_name(valid_hosts(list))[a]).0,
            ),
{
    let good = valid_hosts(list);
    let names = good.map_values(|h: (Seq<char>, HostView)| h.0);
    let out = by_name(good);
    let r = alphabetical(names);
    alphabetical_is_a_ranking(names);
    assert forall|h: (Seq<char>, HostView)| #[trigger] out.contains(h) <==> list.contains(h)
        && addr_error(h.1.addr) is None by {
        if out.contains(h) {
            let a = choose|a: int| 0 <= a < out.len() && out[a] == h;
            assert(out[a] == good[r[a]]);
            lemma_hosts_from(list, r[a]);
            loaded_hosts_are_valid(list, a);
        }
        if list.contains(h) && addr_error(h.1.addr) is None {
            let i = choose|i: int| 0 <= i < list.len() && list[i] == h;
            lemma_hosts_kept(list, i);
            let k = choose|k: int| 0 <= k < good.len() && good[k] == h;
            lemma_ranking_lists(names, by_text(), r, k);
            let a = choose|a: int| 0 <= a < r.len() && r[a] == k;
            assert(out[a] == good[k]);
        }
    }
    assert forall|a: int, b: int| 0 <= a < b < out.len() implies !text_less(
        (#[trigger] out[b]).0,
        (#[trigger] out[a]).0,
    ) by {
        assert(names[r[a]] == out[a].0 && names[r[b]] == out[b].0);
    }
}

} // verus!
