//! Text as a sequence of characters: searching, splitting, trimming and
//! joining, each stated over `Seq<char>`.

use vstd::prelude::*;
use vstd::utf8::{encode_utf8, valid_utf8};

verus! {

// ------------------------------------------------------------ std, trusted

/// `str` equality compares the two texts character by character, so it holds
/// exactly when the views are equal.
pub assume_specification[ <str as PartialEq>::eq ](a: &str, b: &str) -> (r: bool)
    ensures
        r == (a@ == b@),
;

/// `String::push` appends the one given character.
pub assume_specification[ String::push ](s: &mut String, c: char)
    ensures
        final(s)@ == old(s)@.push(c),
;

/// Whether a character beyond ASCII has the Unicode `White_Space` property:
/// next line, the no-break space, the Ogham space mark, the typographic spaces,
/// the line and paragraph separators, the narrow no-break space, the medium
/// mathematical space and the ideographic space.
pub open spec fn wide_space(c: char) -> bool {
    let n = c as int;
    n == 0x85 || n == 0xA0 || n == 0x1680 || 0x2000 <= n <= 0x200A || n == 0x2028 || n == 0x2029
        || n == 0x202F || n == 0x205F || n == 0x3000
}

/// Whether a character has the Unicode `White_Space` property: among the
/// ASCII characters, tab to carriage return and the space have it.
pub open spec fn is_space(c: char) -> bool {
    if c as int <= 127 {
        9 <= c as int <= 13 || c == ' '
    } else {
        wide_space(c)
    }
}

/// `char::is_whitespace` tells the characters with the property
/// `White_Space`, which the Unicode character database lists: of ASCII those
/// from tab to carriage return and the space, and beyond that nineteen more.
pub assume_specification[ char::is_whitespace ](c: char) -> (r: bool)
    ensures
        r == is_space(c),
;

pub open spec fn is_ascii_alnum(c: char) -> bool {
    ('a' as int) <= (c as int) <= ('z' as int) || ('A' as int) <= (c as int) <= ('Z' as int) || (
    '0' as int) <= (c as int) <= ('9' as int)
}

/// Whether a character beyond ASCII is a letter or number.
pub uninterp spec fn wide_alnum(c: char) -> bool;

/// Whether a character is a letter or number.
pub open spec fn is_alnum(c: char) -> bool {
    if c as int <= 127 {
        is_ascii_alnum(c)
    } else {
        wide_alnum(c)
    }
}

/// `char::is_alphanumeric` tells letters and numbers: of ASCII the letters
/// and digits, and beyond that it is a function of the character alone.
pub assume_specification[ char::is_alphanumeric ](c: char) -> (r: bool)
    ensures
        r == (if c as int <= 127 {
            is_ascii_alnum(c)
        } else {
            wide_alnum(c)
        }),
;

/// Whether a character is a control character: below the space, or from
/// delete to the last of the second block of controls.
pub open spec fn is_ctrl(c: char) -> bool {
    c as int <= 31 || 127 <= c as int <= 159
}

/// Whether a character is a control character.
pub fn control(c: char) -> (r: bool)
    ensures
        r == is_ctrl(c),
{
    c <= '\u{1f}' || ('\u{7f}' <= c && c <= '\u{9f}')
}

/// Whether a text is ASCII throughout.
pub open spec fn all_ascii(s: Seq<char>) -> bool {
    forall|i: int| 0 <= i < s.len() ==> (#[trigger] s[i]) as int <= 127
}

/// A character with an ASCII capital made small.
pub open spec fn small(c: char) -> char {
    if 'A' as int <= c as int <= 'Z' as int {
        (c as int + 32) as char
    } else {
        c
    }
}

/// A character with a small ASCII letter made capital.
pub open spec fn capital(c: char) -> char {
    if 'a' as int <= c as int <= 'z' as int {
        (c as int - 32) as char
    } else {
        c
    }
}

/// The Unicode lower-case mapping of a text.
pub uninterp spec fn lower_of(s: Seq<char>) -> Seq<char>;

/// `str::to_lowercase` is a function of the text alone, and of an ASCII text it
/// makes each capital small.
#[verifier::external_body]
pub(crate) fn lower(s: &str) -> (r: String)
    ensures
        r@ == lower_of(s@),
        all_ascii(s@) ==> r@ == s@.map_values(|c: char| small(c)),
{
    s.to_lowercase()
}

/// The Unicode upper-case mapping of a text.
pub uninterp spec fn upper_of(s: Seq<char>) -> Seq<char>;

/// `str::to_uppercase` is a function of the text alone, and of an ASCII text it
/// makes each small letter capital.
#[verifier::external_body]
pub(crate) fn upper(s: &str) -> (r: String)
    ensures
        r@ == upper_of(s@),
        all_ascii(s@) ==> r@ == s@.map_values(|c: char| capital(c)),
{
    s.to_uppercase()
}

/// The Unicode upper-case mapping of one character, which may be several.
pub uninterp spec fn upper_char_of(c: char) -> Seq<char>;

/// `char::to_uppercase` is a function of the character alone, and of an ASCII
/// character it is the capital.
#[verifier::external_body]
pub(crate) fn upper_char(c: char) -> (r: String)
    ensures
        r@ == upper_char_of(c),
        c as int <= 127 ==> r@ == seq![capital(c)],
{
    c.to_uppercase().to_string()
}

/// The text that a byte string holds, each invalid sequence replaced.
pub uninterp spec fn lossy_of(b: Seq<u8>) -> Seq<char>;

/// `String::from_utf8_lossy` is a function of the bytes alone, and bytes that
/// are UTF-8 it gives as the text they encode.
#[verifier::external_body]
pub(crate) fn lossy(b: &Vec<u8>) -> (r: String)
    ensures
        r@ == lossy_of(b@),
        valid_utf8(b@) ==> encode_utf8(r@) == b@,
{
    String::from_utf8_lossy(b).into_owned()
}

/// `char::from_u32` gives the character with that scalar value, and nothing
/// for a surrogate or a number past the last scalar value.
pub assume_specification[ char::from_u32 ](i: u32) -> (r: Option<char>)
    ensures
        r is Some <==> (i < 0xD800 || 0xE000 <= i <= 0x10FFFF),
        r is Some ==> r->0 == i as char,
;

// ------------------------------------------------------------ views

/// The texts that a list of strings holds.
pub open spec fn texts(v: Seq<String>) -> Seq<Seq<char>> {
    v.map_values(|s: String| s@)
}

/// The text that an optional string holds.
pub open spec fn opt_text(o: Option<String>) -> Option<Seq<char>> {
    match o {
        Some(s) => Some(s@),
        None => None,
    }
}

pub proof fn lemma_texts_push(v: Seq<String>, s: String)
    ensures
        texts(v.push(s)) == texts(v).push(s@),
{
    assert(texts(v.push(s)) =~= texts(v).push(s@));
}

// ------------------------------------------------------------ equality, copies

/// Whether two texts are equal.
pub fn same(a: &str, b: &str) -> (r: bool)
    ensures
        r == (a@ == b@),
{
    *a == *b
}

/// A string with the same text.
pub fn owned(s: &str) -> (r: String)
    ensures
        r@ == s@,
{
    s.to_string()
}

/// The length of a text in UTF-8 bytes.
pub open spec fn bytes_in(s: Seq<char>) -> nat {
    encode_utf8(s).len()
}

pub fn byte_len(s: &str) -> (r: usize)
    ensures
        r == bytes_in(s@),
{
    s.as_bytes().len()
}

/// The characters of a text.
pub fn chars_of(s: &str) -> (r: Vec<char>)
    ensures
        r@ == s@,
{
    let mut v: Vec<char> = Vec::new();
    for c in it: s.chars()
        invariant
            v@ == s@.take(it.index() as int),
            it.seq() == s@,
    {
        v.push(c);
        assert(v@ =~= s@.take(it.index() as int + 1));
    }
    assert(v@ =~= s@);
    v
}

/// The text of the characters from `from` up to `to`.
pub fn text_between(v: &Vec<char>, from: usize, to: usize) -> (r: String)
    requires
        from <= to <= v@.len(),
    ensures
        r@ == v@.subrange(from as int, to as int),
{
    let mut s: String = String::new();
    let mut i: usize = from;
    while i < to
        invariant
            from <= i <= to <= v@.len(),
            s@ == v@.subrange(from as int, i as int),
        decreases to - i,
    {
        s.push(v[i]);
        i = i + 1;
        assert(s@ =~= v@.subrange(from as int, i as int));
    }
    s
}

/// A copy of a list of strings.
pub fn copy_texts(v: &Vec<String>) -> (r: Vec<String>)
    ensures
        texts(r@) == texts(v@),
{
    let mut out: Vec<String> = Vec::new();
    let mut i: usize = 0;
    while i < v.len()
        invariant
            i <= v.len(),
            texts(out@) == texts(v@).take(i as int),
        decreases v.len() - i,
    {
        let s: String = v[i].clone();
        proof {
            lemma_texts_push(out@, s);
            assert(texts(v@).take(i as int + 1) =~= texts(v@).take(i as int).push(v@[i as int]@));
        }
        out.push(s);
        i = i + 1;
    }
    assert(texts(v@).take(i as int) =~= texts(v@));
    out
}

/// A copy of a list of process ids.
pub fn copy_pids(v: &Vec<u32>) -> (r: Vec<u32>)
    ensures
        r@ == v@,
{
    let mut out: Vec<u32> = Vec::new();
    let mut i: usize = 0;
    while i < v.len()
        invariant
            i <= v.len(),
            out@ == v@.take(i as int),
        decreases v.len() - i,
    {
        out.push(v[i]);
        i = i + 1;
        assert(out@ =~= v@.take(i as int));
    }
    assert(out@ =~= v@);
    out
}

/// Append one text to a list.
pub fn push_text(out: &mut Vec<String>, s: String)
    ensures
        texts(final(out)@) == texts(old(out)@).push(s@),
{
    proof {
        lemma_texts_push(out@, s);
    }
    out.push(s);
}

/// Append a list of texts to another.
pub fn push_all(out: &mut Vec<String>, more: &Vec<String>)
    ensures
        texts(final(out)@) == texts(old(out)@) + texts(more@),
{
    let ghost before = texts(out@);
    let mut i: usize = 0;
    assert(texts(more@).take(0) =~= Seq::empty());
    assert(before + Seq::<Seq<char>>::empty() =~= before);
    while i < more.len()
        invariant
            i <= more.len(),
            texts(out@) == before + texts(more@).take(i as int),
        decreases more.len() - i,
    {
        push_text(out, more[i].clone());
        i = i + 1;
        assert(texts(out@) =~= before + texts(more@).take(i as int));
    }
    assert(texts(more@).take(i as int) =~= texts(more@));
}

// ------------------------------------------------------------ joining

pub fn cat2(a: &str, b: &str) -> (r: String)
    ensures
        r@ == a@ + b@,
{
    let mut s: String = a.to_string();
    s.append(b);
    s
}

pub fn cat3(a: &str, b: &str, c: &str) -> (r: String)
    ensures
        r@ == a@ + b@ + c@,
{
    let mut s: String = cat2(a, b);
    s.append(c);
    s
}

pub fn cat4(a: &str, b: &str, c: &str, d: &str) -> (r: String)
    ensures
        r@ == a@ + b@ + c@ + d@,
{
    let mut s: String = cat3(a, b, c);
    s.append(d);
    s
}

pub fn cat5(a: &str, b: &str, c: &str, d: &str, e: &str) -> (r: String)
    ensures
        r@ == a@ + b@ + c@ + d@ + e@,
{
    let mut s: String = cat4(a, b, c, d);
    s.append(e);
    s
}

pub fn cat6(a: &str, b: &str, c: &str, d: &str, e: &str, f: &str) -> (r: String)
    ensures
        r@ == a@ + b@ + c@ + d@ + e@ + f@,
{
    let mut s: String = cat5(a, b, c, d, e);
    s.append(f);
    s
}

pub fn cat7(a: &str, b: &str, c: &str, d: &str, e: &str, f: &str, g: &str) -> (r: String)
    ensures
        r@ == a@ + b@ + c@ + d@ + e@ + f@ + g@,
{
    let mut s: String = cat6(a, b, c, d, e, f);
    s.append(g);
    s
}

/// The texts one after another with `sep` between neighbours.
pub open spec fn joined(list: Seq<Seq<char>>, sep: Seq<char>) -> Seq<char>
    decreases list.len(),
{
    if list.len() == 0 {
        Seq::empty()
    } else if list.len() == 1 {
        list[0]
    } else {
        joined(list.drop_last(), sep) + sep + list.last()
    }
}

pub fn join(list: &Vec<String>, sep: &str) -> (r: String)
    ensures
        r@ == joined(texts(list@), sep@),
{
    let mut s: String = String::new();
    let mut i: usize = 0;
    while i < list.len()
        invariant
            i <= list.len(),
            s@ == joined(texts(list@).take(i as int), sep@),
        decreases list.len() - i,
    {
        let ghost before = texts(list@).take(i as int);
        if i > 0 {
            s.append(sep);
        }
        s.append(list[i].as_str());
        i = i + 1;
        proof {
            let now = texts(list@).take(i as int);
            assert(now.drop_last() =~= before);
            assert(now.last() == list@[i - 1]@);
            if i == 1 {
                assert(before.len() == 0);
                assert(s@ =~= now[0]);
            }
        }
    }
    assert(texts(list@).take(i as int) =~= texts(list@));
    s
}

/// `n` copies of a character.
pub open spec fn repeated(c: char, n: nat) -> Seq<char> {
    Seq::new(n, |i: int| c)
}

pub fn repeat(c: char, n: usize) -> (r: String)
    ensures
        r@ == repeated(c, n as nat),
{
    let mut s: String = String::new();
    let mut i: usize = 0;
    while i < n
        invariant
            i <= n,
            s@ == repeated(c, i as nat),
        decreases n - i,
    {
        s.push(c);
        i = i + 1;
        assert(s@ =~= repeated(c, i as nat));
    }
    s
}

/// The text filled up on the left with `c` to at least `w` characters.
pub open spec fn padded_left(s: Seq<char>, w: nat, c: char) -> Seq<char> {
    if s.len() >= w {
        s
    } else {
        repeated(c, (w - s.len()) as nat) + s
    }
}

/// The text filled up on the right with spaces to at least `w` characters.
pub open spec fn padded_right(s: Seq<char>, w: nat) -> Seq<char> {
    if s.len() >= w {
        s
    } else {
        s + repeated(' ', (w - s.len()) as nat)
    }
}

pub fn pad_left(s: &str, w: usize, c: char) -> (r: String)
    ensures
        r@ == padded_left(s@, w as nat, c),
{
    let n: usize = s.unicode_len();
    if n >= w {
        owned(s)
    } else {
        cat2(repeat(c, w - n).as_str(), s)
    }
}

pub fn pad_right(s: &str, w: usize) -> (r: String)
    ensures
        r@ == padded_right(s@, w as nat),
{
    let n: usize = s.unicode_len();
    if n >= w {
        owned(s)
    } else {
        cat2(s, repeat(' ', w - n).as_str())
    }
}

// ------------------------------------------------------------ paths

/// A path with another behind it: the second alone where it is absolute, and
/// one separator between the two otherwise.
pub open spec fn joined_path(base: Seq<char>, rest: Seq<char>) -> Seq<char> {
    if rest.len() > 0 && rest[0] == '/' {
        rest
    } else if base.len() == 0 || base.last() == '/' {
        base + rest
    } else {
        base + "/"@ + rest
    }
}

pub fn path_join(base: &str, rest: &str) -> (r: String)
    ensures
        r@ == joined_path(base@, rest@),
{
    if rest.unicode_len() > 0 && rest.get_char(0) == '/' {
        return owned(rest);
    }
    let n: usize = base.unicode_len();
    if n == 0 || base.get_char(n - 1) == '/' {
        cat2(base, rest)
    } else {
        cat3(base, "/", rest)
    }
}

/// White space among the ASCII characters is the space, the tab, the line
/// breaks and the feeds, and nothing else.
pub proof fn ascii_white_space_is_six_characters(c: char)
    requires
        c as int <= 127,
    ensures
        is_space(c) <==> c == ' ' || c == '\t' || c == '\n' || c == '\r' || c as int == 11 || c as int
            == 12,
{
}

/// A letter or digit among the ASCII characters is one of `a` to `z`, of `A`
/// to `Z`, or of `0` to `9`.
pub proof fn ascii_letters_and_digits(c: char)
    requires
        c as int <= 127,
    ensures
        is_alnum(c) <==> ('a' <= c <= 'z') || ('A' <= c <= 'Z') || ('0' <= c <= '9'),
        is_ctrl(c) <==> (c as int) < 32 || c as int == 127,
{
}

/// Capitals become small and small letters capital, each its counterpart, and
/// nothing else changes.
pub proof fn letters_change_their_case(c: char)
    ensures
        'A' <= c <= 'Z' ==> small(c) as int == c as int + 32 && capital(small(c)) == c,
        'a' <= c <= 'z' ==> capital(c) as int == c as int - 32 && small(capital(c)) == c,
        !('A' <= c <= 'Z') ==> small(c) == c,
        !('a' <= c <= 'z') ==> capital(c) == c,
{
}

/// Joining puts the separator between neighbours and nowhere else.
pub proof fn joining_separates_neighbours(list: Seq<Seq<char>>, x: Seq<char>, sep: Seq<char>)
    ensures
        joined(Seq::empty(), sep) == Seq::<char>::empty(),
        joined(seq![x], sep) == x,
        list.len() > 0 ==> joined(list.push(x), sep) == joined(list, sep) + sep + x,
{
    assert(list.push(x).drop_last() =~= list);
}

/// A text is filled up to a width on the one side or the other, and a longer
/// one stays as it is.
pub proof fn texts_are_filled_up_to_a_width(s: Seq<char>, w: nat, c: char)
    ensures
        s.len() >= w ==> padded_left(s, w, c) == s && padded_right(s, w) == s,
        s.len() < w ==> {
            let left = padded_left(s, w, c);
            let right = padded_right(s, w);
            &&& left.len() == w && right.len() == w
            &&& left.skip(w - s.len()) == s && right.take(s.len() as int) == s
            &&& forall|i: int| 0 <= i < w - s.len() ==> #[trigger] left[i] == c
            &&& forall|i: int| s.len() <= i < w ==> #[trigger] right[i] == ' '
        },
{
    if s.len() < w {
        assert(padded_left(s, w, c).skip(w - s.len()) =~= s);
        assert(padded_right(s, w).take(s.len() as int) =~= s);
    }
}

/// Paths are joined by one separator, and an absolute one replaces what it is
/// joined to.
pub proof fn paths_are_joined_by_one_separator(base: Seq<char>, rest: Seq<char>)
    ensures
        rest.len() > 0 && rest[0] == '/' ==> joined_path(base, rest) == rest,
        rest.len() > 0 && rest[0] != '/' && base.len() > 0 && base.last() != '/' ==> joined_path(
            base,
            rest,
        ) == base + seq!['/'] + rest,
        rest.len() > 0 && rest[0] != '/' && (base.len() == 0 || base.last() == '/') ==> joined_path(
            base,
            rest,
        ) == base + rest,
{
    reveal_strlit("/");
    assert("/"@ =~= seq!['/']);
}

} // verus!
