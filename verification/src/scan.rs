//! Reading text: prefixes, search, words, lines, trimming and replacement.

use vstd::prelude::*;

use crate::text::{
    chars_of, is_space, lemma_texts_push, text_between, texts,
};

verus! {

// ------------------------------------------------------------ prefixes, search

/// Whether `s` begins with `p`.
pub open spec fn begins(s: Seq<char>, p: Seq<char>) -> bool {
    p.len() <= s.len() && s.take(p.len() as int) == p
}

/// Whether `p` stands in `s` at position `i`.
pub open spec fn stands_at(s: Seq<char>, i: int, p: Seq<char>) -> bool {
    0 <= i && i + p.len() <= s.len() && s.subrange(i, i + p.len()) == p
}

/// The first position at or after `i` where `p` stands in `s`.
pub open spec fn found_from(s: Seq<char>, p: Seq<char>, i: int) -> Option<int>
    decreases s.len() + 1 - i,
{
    if i < 0 || i + p.len() > s.len() {
        None
    } else if stands_at(s, i, p) {
        Some(i)
    } else {
        found_from(s, p, i + 1)
    }
}

/// The first position where `p` stands in `s`.
pub open spec fn found(s: Seq<char>, p: Seq<char>) -> Option<int> {
    found_from(s, p, 0)
}

/// Whether `p` stands anywhere in `s`.
pub open spec fn holds_text(s: Seq<char>, p: Seq<char>) -> bool {
    found(s, p) is Some
}

/// `found_from` gives the least position at or after `i` where `p` stands.
pub proof fn lemma_found_from(s: Seq<char>, p: Seq<char>, i: int)
    requires
        0 <= i,
    ensures
        found_from(s, p, i) matches Some(k) ==> i <= k && stands_at(s, k, p) && forall|j: int|
            i <= j < k ==> !stands_at(s, j, p),
        found_from(s, p, i) is None ==> forall|j: int| i <= j ==> !stands_at(s, j, p),
    decreases s.len() + 1 - i,
{
    if i + p.len() <= s.len() && !stands_at(s, i, p) {
        lemma_found_from(s, p, i + 1);
    }
}

fn stands(v: &Vec<char>, i: usize, p: &Vec<char>) -> (r: bool)
    requires
        i + p@.len() <= v@.len(),
    ensures
        r == stands_at(v@, i as int, p@),
{
    let mut j: usize = 0;
    while j < p.len()
        invariant
            j <= p@.len(),
            i + p@.len() <= v.len(),
            forall|k: int| 0 <= k < j ==> v@[i + k] == p@[k],
        decreases p@.len() - j,
    {
        if v[i + j] != p[j] {
            assert(v@.subrange(i as int, i + p@.len())[j as int] != p@[j as int]);
            return false;
        }
        j = j + 1;
    }
    assert(v@.subrange(i as int, i + p@.len()) =~= p@);
    true
}

/// The first position where `p` stands in the characters `v`, searching
/// from `from`.
pub fn find_from(v: &Vec<char>, p: &Vec<char>, from: usize) -> (r: Option<usize>)
    requires
        from <= v@.len(),
    ensures
        r is Some <==> found_from(v@, p@, from as int) is Some,
        r is Some ==> r->0 as int == found_from(v@, p@, from as int)->0 && r->0 + p@.len()
            <= v@.len(),
{
    if p.len() > v.len() {
        return None;
    }
    let last: usize = v.len() - p.len();
    let mut i: usize = from;
    while i <= last
        invariant
            from <= i,
            last + p@.len() == v@.len(),
            i <= last + 1 || i == from,
            i <= v@.len(),
            found_from(v@, p@, from as int) == found_from(v@, p@, i as int),
        decreases last + 1 - i,
    {
        if stands(v, i, p) {
            return Some(i);
        }
        if i == v.len() {
            // p is empty and stands everywhere, so this is not reached
            assert(v@.subrange(i as int, i as int) =~= p@);
            return None;
        }
        i = i + 1;
    }
    None
}

/// The first position, counted in characters, where `p` stands in `s`.
pub fn find(s: &str, p: &str) -> (r: Option<usize>)
    ensures
        r is Some <==> found(s@, p@) is Some,
        r is Some ==> r->0 as int == found(s@, p@)->0 && r->0 + p@.len() <= s@.len(),
{
    find_from(&chars_of(s), &chars_of(p), 0)
}

pub fn contains(s: &str, p: &str) -> (r: bool)
    ensures
        r == holds_text(s@, p@),
{
    find(s, p).is_some()
}

pub fn starts_with(s: &str, p: &str) -> (r: bool)
    ensures
        r == begins(s@, p@),
{
    let v: Vec<char> = chars_of(s);
    let q: Vec<char> = chars_of(p);
    if q.len() > v.len() {
        return false;
    }
    let r: bool = stands(&v, 0, &q);
    assert(v@.subrange(0, q@.len() as int) =~= v@.take(q@.len() as int));
    r
}

/// What follows the prefix `p` of `s`, where it is one.
pub open spec fn after_prefix(s: Seq<char>, p: Seq<char>) -> Option<Seq<char>> {
    if begins(s, p) {
        Some(s.skip(p.len() as int))
    } else {
        None
    }
}

pub fn strip_prefix(s: &str, p: &str) -> (r: Option<String>)
    ensures
        r is Some <==> after_prefix(s@, p@) is Some,
        r is Some ==> r->0@ == after_prefix(s@, p@)->0,
{
    if starts_with(s, p) {
        let v: Vec<char> = chars_of(s);
        let n: usize = p.unicode_len();
        let r: String = text_between(&v, n, v.len());
        assert(r@ =~= s@.skip(p@.len() as int));
        Some(r)
    } else {
        None
    }
}

/// Whether the character occurs in the text.
pub fn has_char(s: &str, c: char) -> (r: bool)
    ensures
        r == s@.contains(c),
{
    let v: Vec<char> = chars_of(s);
    let mut i: usize = 0;
    while i < v.len()
        invariant
            i <= v@.len(),
            v@ == s@,
            forall|k: int| 0 <= k < i ==> v@[k] != c,
        decreases v@.len() - i,
    {
        if v[i] == c {
            assert(s@[i as int] == c);
            return true;
        }
        i = i + 1;
    }
    false
}

// ------------------------------------------------------------ pieces

/// The number of characters before the first `c`, or of all where none is.
pub open spec fn until(s: Seq<char>, c: char) -> nat
    decreases s.len(),
{
    if s.len() == 0 || s[0] == c {
        0
    } else {
        1 + until(s.drop_first(), c)
    }
}

pub proof fn lemma_until(s: Seq<char>, c: char)
    ensures
        until(s, c) <= s.len(),
        until(s, c) < s.len() ==> s[until(s, c) as int] == c,
        forall|k: int| 0 <= k < until(s, c) ==> s[k] != c,
    decreases s.len(),
{
    if s.len() > 0 && s[0] != c {
        lemma_until(s.drop_first(), c);
        assert forall|k: int| 0 <= k < until(s, c) implies s[k] != c by {
            if k > 0 {
                assert(s.drop_first()[k - 1] == s[k]);
            }
        }
    }
}

/// The position at or after `from` of the first `c` in `v`, or its length.
pub fn seek(v: &Vec<char>, from: usize, c: char) -> (r: usize)
    requires
        from <= v@.len(),
    ensures
        from <= r <= v@.len(),
        r - from == until(v@.skip(from as int), c),
{
    let mut j: usize = from;
    while j < v.len() && v[j] != c
        invariant
            from <= j <= v@.len(),
            until(v@.skip(from as int), c) == (j - from) + until(v@.skip(j as int), c),
        decreases v@.len() - j,
    {
        assert(v@.skip(j as int).drop_first() =~= v@.skip(j + 1));
        j = j + 1;
    }
    j
}

/// The pieces of a text between the characters `c`, empty ones among them.
pub open spec fn pieces_of(s: Seq<char>, c: char) -> Seq<Seq<char>>
    decreases s.len(),
{
    let k = until(s, c);
    if k >= s.len() {
        seq![s]
    } else {
        seq![s.take(k as int)] + pieces_of(s.skip(k as int + 1), c)
    }
}

pub fn pieces(s: &str, c: char) -> (r: Vec<String>)
    ensures
        texts(r@) == pieces_of(s@, c),
        r@.len() > 0,
{
    let v: Vec<char> = chars_of(s);
    let mut out: Vec<String> = Vec::new();
    let mut i: usize = 0;
    assert(v@.skip(0) =~= s@);
    assert(texts(out@) + pieces_of(v@, c) =~= pieces_of(s@, c));
    loop
        invariant
            i <= v@.len(),
            v@ == s@,
            texts(out@) + pieces_of(v@.skip(i as int), c) == pieces_of(s@, c),
        decreases v@.len() - i,
    {
        let j: usize = seek(&v, i, c);
        let piece: String = text_between(&v, i, j);
        let ghost rest = v@.skip(i as int);
        proof {
            lemma_texts_push(out@, piece);
            assert(piece@ =~= rest.take(j - i));
        }
        let ghost before = texts(out@);
        out.push(piece);
        if j >= v.len() {
            assert(piece@ =~= rest);
            assert(texts(out@) =~= before + seq![rest]);
            return out;
        }
        proof {
            assert(rest.skip(until(rest, c) as int + 1) =~= v@.skip(j + 1));
            assert(texts(out@) + pieces_of(v@.skip(j + 1), c) =~= before + (seq![piece@]
                + pieces_of(v@.skip(j + 1), c)));
        }
        i = j + 1;
    }
}

/// The text without one carriage return at its end.
pub open spec fn without_cr(s: Seq<char>) -> Seq<char> {
    if s.len() > 0 && s.last() == '\r' {
        s.drop_last()
    } else {
        s
    }
}

/// The lines of a text: each ends before a newline, a carriage return right
/// before that newline is no part of it, and no empty line follows the last
/// newline.
pub open spec fn lines_of(s: Seq<char>) -> Seq<Seq<char>>
    decreases s.len(),
{
    let k = until(s, '\n');
    if s.len() == 0 {
        Seq::empty()
    } else if k >= s.len() {
        seq![s]
    } else {
        seq![without_cr(s.take(k as int))] + lines_of(s.skip(k as int + 1))
    }
}

pub fn lines(s: &str) -> (r: Vec<String>)
    ensures
        texts(r@) == lines_of(s@),
{
    let v: Vec<char> = chars_of(s);
    let mut out: Vec<String> = Vec::new();
    let mut i: usize = 0;
    assert(v@.skip(0) =~= s@);
    assert(texts(out@) + lines_of(v@) =~= lines_of(s@));
    while i < v.len()
        invariant
            i <= v@.len(),
            v@ == s@,
            texts(out@) + lines_of(v@.skip(i as int)) == lines_of(s@),
        decreases v@.len() - i,
    {
        let j: usize = seek(&v, i, '\n');
        let ghost rest = v@.skip(i as int);
        let ghost before = texts(out@);
        if j >= v.len() {
            let line: String = text_between(&v, i, j);
            proof {
                lemma_texts_push(out@, line);
                assert(line@ =~= rest);
            }
            out.push(line);
            assert(texts(out@) =~= before + seq![rest]);
            return out;
        }
        let end: usize = if j > i && v[j - 1] == '\r' {
            j - 1
        } else {
            j
        };
        let line: String = text_between(&v, i, end);
        proof {
            lemma_texts_push(out@, line);
            assert(line@ =~= without_cr(rest.take(j - i)));
            assert(rest.skip(until(rest, '\n') as int + 1) =~= v@.skip(j + 1));
        }
        out.push(line);
        assert(texts(out@) + lines_of(v@.skip(j + 1)) =~= before + (seq![line@] + lines_of(
            v@.skip(j + 1),
        )));
        i = j + 1;
    }
    assert(texts(out@) =~= lines_of(s@));
    out
}

// ------------------------------------------------------------ words

/// The number of characters before the first white space.
pub open spec fn word_len(s: Seq<char>) -> nat
    decreases s.len(),
{
    if s.len() == 0 || is_space(s[0]) {
        0
    } else {
        1 + word_len(s.drop_first())
    }
}

pub proof fn lemma_word_len(s: Seq<char>)
    ensures
        word_len(s) <= s.len(),
        s.len() > 0 && !is_space(s[0]) ==> word_len(s) > 0,
        word_len(s) < s.len() ==> is_space(s[word_len(s) as int]),
        forall|k: int| 0 <= k < word_len(s) ==> !is_space(#[trigger] s[k]),
    decreases s.len(),
{
    if s.len() > 0 && !is_space(s[0]) {
        lemma_word_len(s.drop_first());
        assert forall|k: int| 0 <= k < word_len(s) implies !is_space(#[trigger] s[k]) by {
            if k > 0 {
                assert(s.drop_first()[k - 1] == s[k]);
            }
        }
    }
}

/// The words of a text: its longest runs without white space, in order.
pub open spec fn words_of(s: Seq<char>) -> Seq<Seq<char>>
    decreases s.len(),
{
    if s.len() == 0 {
        Seq::empty()
    } else if is_space(s[0]) {
        words_of(s.drop_first())
    } else {
        proof {
            lemma_word_len(s);
        }
        seq![s.take(word_len(s) as int)] + words_of(s.skip(word_len(s) as int))
    }
}

/// A word has a first character.
pub proof fn lemma_words_nonempty(s: Seq<char>)
    ensures
        forall|i: int| 0 <= i < words_of(s).len() ==> (#[trigger] words_of(s)[i]).len() > 0,
    decreases s.len(),
{
    if s.len() > 0 {
        if is_space(s[0]) {
            lemma_words_nonempty(s.drop_first());
            assert(words_of(s) == words_of(s.drop_first()));
        } else {
            lemma_word_len(s);
            let n = word_len(s) as int;
            lemma_words_nonempty(s.skip(n));
            let rest = words_of(s.skip(n));
            assert(words_of(s) == seq![s.take(n)] + rest);
            assert forall|i: int| 0 <= i < words_of(s).len() implies (#[trigger] words_of(
                s,
            )[i]).len() > 0 by {
                if i > 0 {
                    assert(words_of(s)[i] == rest[i - 1]);
                } else {
                    assert(words_of(s)[0] == s.take(n));
                }
            }
        }
    }
}

pub fn words(s: &str) -> (r: Vec<String>)
    ensures
        texts(r@) == words_of(s@),
{
    let v: Vec<char> = chars_of(s);
    let mut out: Vec<String> = Vec::new();
    let mut i: usize = 0;
    assert(v@.skip(0) =~= s@);
    assert(texts(out@) + words_of(v@) =~= words_of(s@));
    while i < v.len()
        invariant
            i <= v@.len(),
            v@ == s@,
            texts(out@) + words_of(v@.skip(i as int)) == words_of(s@),
        decreases v@.len() - i,
    {
        let ghost rest = v@.skip(i as int);
        if v[i].is_whitespace() {
            assert(rest.drop_first() =~= v@.skip(i + 1));
            i = i + 1;
        } else {
            let mut j: usize = i;
            while j < v.len() && !v[j].is_whitespace()
                invariant
                    i <= j <= v@.len(),
                    rest == v@.skip(i as int),
                    word_len(rest) == (j - i) + word_len(v@.skip(j as int)),
                decreases v@.len() - j,
            {
                assert(v@.skip(j as int).drop_first() =~= v@.skip(j + 1));
                j = j + 1;
            }
            let word: String = text_between(&v, i, j);
            let ghost before = texts(out@);
            proof {
                lemma_texts_push(out@, word);
                lemma_word_len(rest);
                assert(word@ =~= rest.take(j - i));
                assert(rest.skip(j - i) =~= v@.skip(j as int));
            }
            out.push(word);
            assert(texts(out@) + words_of(v@.skip(j as int)) =~= before + (seq![word@]
                + words_of(v@.skip(j as int))));
            i = j;
        }
    }
    assert(texts(out@) =~= words_of(s@));
    out
}

// ------------------------------------------------------------ trimming

/// The text without the white space that it begins with.
pub open spec fn trimmed_start(s: Seq<char>) -> Seq<char>
    decreases s.len(),
{
    if s.len() > 0 && is_space(s[0]) {
        trimmed_start(s.drop_first())
    } else {
        s
    }
}

/// The text without the white space that it ends with.
pub open spec fn trimmed_end(s: Seq<char>) -> Seq<char>
    decreases s.len(),
{
    if s.len() > 0 && is_space(s.last()) {
        trimmed_end(s.drop_last())
    } else {
        s
    }
}

/// The text without white space at either end.
pub open spec fn trimmed(s: Seq<char>) -> Seq<char> {
    trimmed_end(trimmed_start(s))
}

fn lead(v: &Vec<char>) -> (r: usize)
    ensures
        r <= v@.len(),
        trimmed_start(v@) == v@.skip(r as int),
{
    let mut i: usize = 0;
    assert(v@.skip(0) =~= v@);
    while i < v.len() && v[i].is_whitespace()
        invariant
            i <= v@.len(),
            trimmed_start(v@) == trimmed_start(v@.skip(i as int)),
        decreases v@.len() - i,
    {
        assert(v@.skip(i as int).drop_first() =~= v@.skip(i + 1));
        i = i + 1;
    }
    i
}

pub fn trim_start(s: &str) -> (r: String)
    ensures
        r@ == trimmed_start(s@),
{
    let v: Vec<char> = chars_of(s);
    let i: usize = lead(&v);
    let r: String = text_between(&v, i, v.len());
    assert(r@ =~= v@.skip(i as int));
    r
}

pub fn trim(s: &str) -> (r: String)
    ensures
        r@ == trimmed(s@),
{
    let v: Vec<char> = chars_of(s);
    let i: usize = lead(&v);
    let mut j: usize = v.len();
    assert(v@.subrange(i as int, j as int) =~= v@.skip(i as int));
    while j > i && v[j - 1].is_whitespace()
        invariant
            i <= j <= v@.len(),
            trimmed(s@) == trimmed_end(v@.subrange(i as int, j as int)),
        decreases j,
    {
        assert(v@.subrange(i as int, j as int).drop_last() =~= v@.subrange(i as int, j - 1));
        j = j - 1;
    }
    text_between(&v, i, j)
}

/// The text without the characters `c` that it begins with.
pub open spec fn stripped_start(s: Seq<char>, c: char) -> Seq<char>
    decreases s.len(),
{
    if s.len() > 0 && s[0] == c {
        stripped_start(s.drop_first(), c)
    } else {
        s
    }
}

/// The text without the characters `c` that it ends with.
pub open spec fn stripped_end(s: Seq<char>, c: char) -> Seq<char>
    decreases s.len(),
{
    if s.len() > 0 && s.last() == c {
        stripped_end(s.drop_last(), c)
    } else {
        s
    }
}

pub fn strip_start(s: &str, c: char) -> (r: String)
    ensures
        r@ == stripped_start(s@, c),
{
    let v: Vec<char> = chars_of(s);
    let mut i: usize = 0;
    assert(v@.skip(0) =~= v@);
    while i < v.len() && v[i] == c
        invariant
            i <= v@.len(),
            v@ == s@,
            stripped_start(s@, c) == stripped_start(v@.skip(i as int), c),
        decreases v@.len() - i,
    {
        assert(v@.skip(i as int).drop_first() =~= v@.skip(i + 1));
        i = i + 1;
    }
    let r: String = text_between(&v, i, v.len());
    assert(r@ =~= v@.skip(i as int));
    r
}

pub fn strip_end(s: &str, c: char) -> (r: String)
    ensures
        r@ == stripped_end(s@, c),
{
    let v: Vec<char> = chars_of(s);
    let mut j: usize = v.len();
    assert(v@.take(j as int) =~= v@);
    while j > 0 && v[j - 1] == c
        invariant
            j <= v@.len(),
            v@ == s@,
            stripped_end(s@, c) == stripped_end(v@.take(j as int), c),
        decreases j,
    {
        assert(v@.take(j as int).drop_last() =~= v@.take(j - 1));
        j = j - 1;
    }
    let r: String = text_between(&v, 0, j);
    assert(r@ =~= v@.take(j as int));
    r
}

/// The text without the copies of `p` that it ends with.
pub open spec fn without_suffix(s: Seq<char>, p: Seq<char>) -> Seq<char>
    decreases s.len(),
{
    if 0 < p.len() <= s.len() && s.skip(s.len() - p.len()) == p {
        without_suffix(s.take(s.len() - p.len()), p)
    } else {
        s
    }
}

pub fn strip_suffix(s: &str, p: &str) -> (r: String)
    requires
        p@.len() > 0,
    ensures
        r@ == without_suffix(s@, p@),
{
    let v: Vec<char> = chars_of(s);
    let q: Vec<char> = chars_of(p);
    let mut j: usize = v.len();
    assert(v@.take(j as int) =~= v@);
    loop
        invariant
            j <= v@.len(),
            v@ == s@,
            q@ == p@,
            q@.len() > 0,
            without_suffix(s@, p@) == without_suffix(v@.take(j as int), p@),
        decreases j,
    {
        let ghost cur = v@.take(j as int);
        if j < q.len() {
            return text_between(&v, 0, j);
        }
        let at: bool = stands(&v, j - q.len(), &q);
        assert(v@.subrange(j - q@.len(), j as int) =~= cur.skip(cur.len() - q@.len()));
        if !at {
            return text_between(&v, 0, j);
        }
        assert(cur.take(cur.len() - q@.len()) =~= v@.take(j - q@.len()));
        j = j - q.len();
    }
}

// ------------------------------------------------------------ replacement

/// The text with every occurrence of `from`, taken from the left without
/// overlap, replaced by `to`.
pub open spec fn replaced(s: Seq<char>, from: Seq<char>, to: Seq<char>) -> Seq<char>
    decreases s.len(),
{
    if from.len() == 0 || s.len() < from.len() {
        s
    } else if begins(s, from) {
        to + replaced(s.skip(from.len() as int), from, to)
    } else {
        seq![s[0]] + replaced(s.drop_first(), from, to)
    }
}

pub fn replace(s: &str, from: &str, to: &str) -> (r: String)
    requires
        from@.len() > 0,
    ensures
        r@ == replaced(s@, from@, to@),
{
    let v: Vec<char> = chars_of(s);
    let p: Vec<char> = chars_of(from);
    let mut out: String = String::new();
    let mut i: usize = 0;
    assert(v@.skip(0) =~= v@);
    assert(out@ + replaced(s@, from@, to@) =~= replaced(s@, from@, to@));
    while i < v.len()
        invariant
            i <= v@.len(),
            v@ == s@,
            p@ == from@,
            p@.len() > 0,
            out@ + replaced(v@.skip(i as int), from@, to@) == replaced(s@, from@, to@),
        decreases v@.len() - i,
    {
        let ghost rest = v@.skip(i as int);
        let ghost before = out@;
        if p.len() > v.len() - i {
            let tail: String = text_between(&v, i, v.len());
            assert(tail@ =~= rest);
            out.append(tail.as_str());
            return out;
        }
        let at: bool = stands(&v, i, &p);
        assert(v@.subrange(i as int, i + p@.len()) =~= rest.take(p@.len() as int));
        if at {
            out.append(to);
            proof {
                assert(rest.skip(p@.len() as int) =~= v@.skip(i + p@.len()));
                assert(out@ + replaced(v@.skip(i + p@.len()), from@, to@) =~= before + (to@
                    + replaced(v@.skip(i + p@.len()), from@, to@)));
            }
            i = i + p.len();
        } else {
            out.push(v[i]);
            proof {
                assert(rest.drop_first() =~= v@.skip(i + 1));
                assert(out@ + replaced(v@.skip(i + 1), from@, to@) =~= before + (seq![rest[0]]
                    + replaced(v@.skip(i + 1), from@, to@)));
            }
            i = i + 1;
        }
    }
    assert(out@ =~= replaced(s@, from@, to@));
    out
}

/// Whether a text stands somewhere in another.
pub open spec fn mentions(s: Seq<char>, p: Seq<char>) -> bool {
    exists|i: int| 0 <= i && i + p.len() <= s.len() && #[trigger] s.subrange(i, i + p.len()) == p
}

/// A text is held exactly where it stands somewhere.
pub proof fn lemma_mentions(s: Seq<char>, p: Seq<char>)
    ensures
        holds_text(s, p) <==> mentions(s, p),
{
    lemma_found_from(s, p, 0);
    if holds_text(s, p) {
        let i = found(s, p)->0;
        assert(stands_at(s, i, p));
        assert(s.subrange(i, i + p.len()) == p);
    }
    if mentions(s, p) {
        let i = choose|i: int|
            0 <= i && i + p.len() <= s.len() && #[trigger] s.subrange(i, i + p.len()) == p;
        assert(stands_at(s, i, p));
    }
}

/// What stands before a separator is a piece, and the rest is cut further.
pub proof fn pieces_part_at_the_separator(a: Seq<char>, b: Seq<char>, c: char)
    requires
        forall|i: int| 0 <= i < a.len() ==> #[trigger] a[i] != c,
    ensures
        pieces_of(a + seq![c] + b, c) == seq![a] + pieces_of(b, c),
{
    let s = a + seq![c] + b;
    lemma_until(s, c);
    let k = until(s, c) as int;
    assert(s[a.len() as int] == c);
    if k < a.len() {
        assert(s[k] == a[k]);
    }
    if k > a.len() {
        assert(s[a.len() as int] != c);
    }
    assert(s.take(k) =~= a);
    assert(s.skip(k + 1) =~= b);
}

/// A text without the separator is one piece.
pub proof fn pieces_of_one(a: Seq<char>, c: char)
    requires
        forall|i: int| 0 <= i < a.len() ==> #[trigger] a[i] != c,
    ensures
        pieces_of(a, c) == seq![a],
{
    lemma_until(a, c);
    let k = until(a, c) as int;
    if k < a.len() {
        assert(a[k] == c);
    }
}

/// Lines end at newlines, and a carriage return before one is no part of a line.
pub proof fn lines_part_at_newlines(a: Seq<char>, b: Seq<char>)
    requires
        forall|i: int| 0 <= i < a.len() ==> #[trigger] a[i] != '\n',
    ensures
        lines_of(Seq::empty()) == Seq::<Seq<char>>::empty(),
        a.len() > 0 ==> lines_of(a) == seq![a],
        a.len() == 0 || a.last() != '\r' ==> lines_of(a + seq!['\n'] + b) == seq![a] + lines_of(b),
        lines_of(a + seq!['\r', '\n'] + b) == seq![a] + lines_of(b),
{
    lemma_until(a, '\n');
    if until(a, '\n') < a.len() {
        assert(a[until(a, '\n') as int] == '\n');
    }
    let s = a + seq!['\n'] + b;
    lemma_until(s, '\n');
    let k = until(s, '\n') as int;
    assert(s[a.len() as int] == '\n');
    if k < a.len() {
        assert(s[k] == a[k]);
    }
    assert(k == a.len());
    assert(s.take(k) =~= a);
    assert(s.skip(k + 1) =~= b);
    let t = a + seq!['\r', '\n'] + b;
    lemma_until(t, '\n');
    let m = until(t, '\n') as int;
    assert(t[a.len() as int + 1] == '\n');
    assert(t[a.len() as int] == '\r');
    if m < a.len() {
        assert(t[m] == a[m]);
    }
    assert(m == a.len() + 1);
    assert(t.take(m) =~= a.push('\r'));
    assert(a.push('\r').drop_last() =~= a);
    assert(t.skip(m + 1) =~= b);
}

/// Words part at white space: a word without any stands by itself, and what
/// follows the space behind it is read further; space before a word counts for
/// nothing.
pub proof fn words_part_at_white_space(w: Seq<char>, c: char, rest: Seq<char>)
    requires
        is_space(c),
        forall|i: int| 0 <= i < w.len() ==> !is_space(#[trigger] w[i]),
    ensures
        words_of(Seq::empty()) == Seq::<Seq<char>>::empty(),
        words_of(seq![c] + rest) == words_of(rest),
        w.len() > 0 ==> words_of(w) == seq![w],
        w.len() > 0 ==> words_of(w + seq![c] + rest) == seq![w] + words_of(rest),
{
    assert((seq![c] + rest).drop_first() =~= rest);
    if w.len() > 0 {
        assert(!is_space(w[0]));
        lemma_word_ends(w, Seq::empty());
        assert(w + Seq::<char>::empty() =~= w);
        assert(w.take(w.len() as int) =~= w);
        assert(w.skip(w.len() as int) =~= Seq::empty());
        let s = w + seq![c] + rest;
        assert(s =~= w + (seq![c] + rest));
        lemma_word_ends(w, seq![c] + rest);
        assert(s.take(w.len() as int) =~= w);
        assert(s.skip(w.len() as int) =~= seq![c] + rest);
        assert(s[0] == w[0]);
        assert(words_of(w) =~= seq![w] + words_of(Seq::empty()));
        assert(words_of(s) =~= seq![w] + words_of(seq![c] + rest));
    }
}

proof fn lemma_word_ends(w: Seq<char>, rest: Seq<char>)
    requires
        forall|i: int| 0 <= i < w.len() ==> !is_space(#[trigger] w[i]),
        rest.len() == 0 || is_space(rest[0]),
    ensures
        word_len(w + rest) == w.len(),
    decreases w.len(),
{
    let s = w + rest;
    if w.len() == 0 {
        assert(s =~= rest);
    } else {
        let less = w.drop_first();
        assert(s.drop_first() =~= less + rest);
        assert forall|i: int| 0 <= i < less.len() implies !is_space(#[trigger] less[i]) by {
            assert(less[i] == w[i + 1]);
        }
        assert(!is_space(w[0]));
        lemma_word_ends(less, rest);
    }
}

/// Trimming takes the white space at both ends and nothing else.
pub proof fn trimming_takes_only_white_space(a: Seq<char>, s: Seq<char>, b: Seq<char>)
    requires
        forall|i: int| 0 <= i < a.len() ==> is_space(#[trigger] a[i]),
        forall|i: int| 0 <= i < b.len() ==> is_space(#[trigger] b[i]),
        s.len() > 0,
        !is_space(s[0]),
        !is_space(s.last()),
    ensures
        trimmed(a + s + b) == s,
{
    let t = s + b;
    assert(a + s + b =~= a + t);
    lemma_trim_start(a, t);
    lemma_trim_end(s, b);
}

proof fn lemma_trim_start(a: Seq<char>, t: Seq<char>)
    requires
        forall|i: int| 0 <= i < a.len() ==> is_space(#[trigger] a[i]),
        t.len() > 0,
        !is_space(t[0]),
    ensures
        trimmed_start(a + t) == t,
    decreases a.len(),
{
    if a.len() == 0 {
        assert(a + t =~= t);
    } else {
        let less = a.drop_first();
        assert((a + t).drop_first() =~= less + t);
        assert forall|i: int| 0 <= i < less.len() implies is_space(#[trigger] less[i]) by {
            assert(less[i] == a[i + 1]);
        }
        assert(is_space(a[0]));
        lemma_trim_start(less, t);
    }
}

proof fn lemma_trim_end(s: Seq<char>, b: Seq<char>)
    requires
        forall|i: int| 0 <= i < b.len() ==> is_space(#[trigger] b[i]),
        s.len() > 0,
        !is_space(s.last()),
    ensures
        trimmed_end(s + b) == s,
    decreases b.len(),
{
    if b.len() == 0 {
        assert(s + b =~= s);
    } else {
        let less = b.drop_last();
        assert((s + b).drop_last() =~= s + less);
        assert forall|i: int| 0 <= i < less.len() implies is_space(#[trigger] less[i]) by {
            assert(less[i] == b[i]);
        }
        assert(is_space(b[b.len() - 1]));
        lemma_trim_end(s, less);
    }
}

/// What is to be replaced is, wherever it stands, and everything else stays.
pub proof fn replacing_replaces_what_it_meets(
    s: Seq<char>,
    c: char,
    from: Seq<char>,
    to: Seq<char>,
)
    requires
        from.len() > 0,
    ensures
        replaced(from + s, from, to) == to + replaced(s, from, to),
        !begins(seq![c] + s, from) ==> replaced(seq![c] + s, from, to) == seq![c] + replaced(
            s,
            from,
            to,
        ),
        replaced(Seq::empty(), from, to) == Seq::<char>::empty(),
{
    let t = from + s;
    assert(t.take(from.len() as int) =~= from);
    assert(t.skip(from.len() as int) =~= s);
    let u = seq![c] + s;
    assert(u.drop_first() =~= s);
    if !begins(u, from) && u.len() < from.len() {
        assert(replaced(s, from, to) == s);
    }
}

/// A text in which nothing is to be replaced stays as it is.
pub proof fn replacing_nothing_changes_nothing(s: Seq<char>, from: Seq<char>, to: Seq<char>)
    requires
        from.len() > 0,
        !mentions(s, from),
    ensures
        replaced(s, from, to) == s,
    decreases s.len(),
{
    if s.len() >= from.len() {
        if begins(s, from) {
            assert(s.subrange(0, 0 + from.len() as int) =~= s.take(from.len() as int));
        }
        let rest = s.drop_first();
        if mentions(rest, from) {
            let i = choose|i: int|
                0 <= i && i + from.len() <= rest.len() && #[trigger] rest.subrange(
                    i,
                    i + from.len(),
                ) == from;
            assert(s.subrange(i + 1, i + 1 + from.len()) =~= rest.subrange(i, i + from.len()));
        }
        replacing_nothing_changes_nothing(rest, from, to);
        assert(seq![s[0]] + rest =~= s);
    }
}

/// An ending is taken off, as often as it stands there, and nothing else is.
pub proof fn endings_are_taken_off(s: Seq<char>, p: Seq<char>)
    requires
        p.len() > 0,
    ensures
        without_suffix(s + p, p) == without_suffix(s, p),
        s.len() < p.len() || s.skip(s.len() - p.len()) != p ==> without_suffix(s, p) == s,
{
    let t = s + p;
    assert(t.skip(t.len() - p.len()) =~= p);
    assert(t.take(t.len() - p.len()) =~= s);
}

/// A character is stripped from either end, as often as it stands there.
pub proof fn characters_are_stripped_from_the_ends(s: Seq<char>, c: char)
    ensures
        stripped_start(seq![c] + s, c) == stripped_start(s, c),
        s.len() == 0 || s[0] != c ==> stripped_start(s, c) == s,
        stripped_end(s.push(c), c) == stripped_end(s, c),
        s.len() == 0 || s.last() != c ==> stripped_end(s, c) == s,
{
    assert((seq![c] + s).drop_first() =~= s);
    assert(s.push(c).drop_last() =~= s);
}

/// A text is found where it first stands.
pub proof fn texts_are_found_where_they_first_stand(a: Seq<char>, p: Seq<char>, b: Seq<char>)
    ensures
        found(a + p + b, p) matches Some(k) && 0 <= k <= a.len() && (a + p + b).subrange(
            k,
            k + p.len(),
        ) == p && forall|i: int|
            0 <= i < k ==> #[trigger] (a + p + b).subrange(i, i + p.len()) != p,
{
    let s = a + p + b;
    lemma_found_from(s, p, 0);
    assert(s.subrange(a.len() as int, a.len() as int + p.len()) =~= p);
    assert(stands_at(s, a.len() as int, p));
    match found(s, p) {
        Some(k) => {
            assert(stands_at(s, k, p));
            assert forall|i: int| 0 <= i < k implies #[trigger] s.subrange(i, i + p.len()) != p by {
                assert(!stands_at(s, i, p));
            }
        },
        None => {},
    }
}

} // verus!
