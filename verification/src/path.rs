//! Paths, component by component.

use vstd::prelude::*;

use crate::scan::{
    lemma_until, pieces, pieces_of, pieces_of_one, pieces_part_at_the_separator, until,
};
use crate::text::{opt_text, owned, push_text, same, texts};

verus! {

/// Whether a piece between separators is a component: an empty piece and a dot
/// are not.
pub open spec fn is_part(piece: Seq<char>) -> bool {
    piece.len() > 0 && piece != "."@
}

/// The pieces that are components.
pub open spec fn parts_among(list: Seq<Seq<char>>) -> Seq<Seq<char>>
    decreases list.len(),
{
    if list.len() == 0 {
        Seq::empty()
    } else {
        let before = parts_among(list.drop_last());
        if is_part(list.last()) {
            before.push(list.last())
        } else {
            before
        }
    }
}

/// The names in a path, and the double dots among them.
pub open spec fn path_parts(path: Seq<char>) -> Seq<Seq<char>> {
    parts_among(pieces_of(path, '/'))
}

/// The final component of a path, where it has one that is a name.
pub open spec fn base_name_of(path: Seq<char>) -> Option<Seq<char>> {
    let parts = path_parts(path);
    if parts.len() == 0 || parts.last() == ".."@ {
        None
    } else {
        Some(parts.last())
    }
}

/// What a path begins with: the root, a dot, or a name.
pub open spec fn path_start(path: Seq<char>) -> Seq<Seq<char>> {
    if path.len() > 0 && path[0] == '/' {
        seq!["/"@]
    } else if pieces_of(path, '/')[0] == "."@ {
        seq!["."@]
    } else {
        Seq::empty()
    }
}

/// The components of a path: repeated separators, one at the end, and dots but
/// for a leading one count for nothing.
pub open spec fn components(path: Seq<char>) -> Seq<Seq<char>> {
    path_start(path) + path_parts(path)
}

/// Whether a path lies at or under another, component by component.
pub open spec fn lies_under(path: Seq<char>, base: Seq<char>) -> bool {
    components(base).is_prefix_of(components(path))
}

fn push_parts(out: &mut Vec<String>, list: &Vec<String>)
    ensures
        texts(final(out)@) == texts(old(out)@) + parts_among(texts(list@)),
{
    let ghost first = texts(out@);
    let ghost all = texts(list@);
    let mut i: usize = 0;
    assert(first + parts_among(all.take(0)) =~= first);
    while i < list.len()
        invariant
            i <= list.len(),
            all == texts(list@),
            texts(out@) == first + parts_among(all.take(i as int)),
        decreases list.len() - i,
    {
        let ghost before = parts_among(all.take(i as int));
        let p: &str = list[i].as_str();
        proof {
            assert(all.take(i as int + 1).drop_last() =~= all.take(i as int));
            assert(all.take(i as int + 1).last() == p@);
        }
        if p.unicode_len() > 0 && !same(p, ".") {
            push_text(out, owned(p));
            assert(texts(out@) =~= first + before.push(p@));
        }
        i = i + 1;
    }
    assert(all.take(i as int) =~= all);
}

/// The final component of a path, where it has one that is a name.
pub fn base_name(path: &str) -> (r: Option<String>)
    ensures
        opt_text(r) == base_name_of(path@),
{
    let mut parts: Vec<String> = Vec::new();
    push_parts(&mut parts, &pieces(path, '/'));
    let n: usize = parts.len();
    assert(texts(parts@) =~= path_parts(path@));
    if n == 0 {
        return None;
    }
    assert(path_parts(path@).last() == parts@[n - 1]@);
    if same(parts[n - 1].as_str(), "..") {
        None
    } else {
        Some(parts[n - 1].clone())
    }
}

fn split(path: &str) -> (r: Vec<String>)
    ensures
        texts(r@) == components(path@),
{
    let list: Vec<String> = pieces(path, '/');
    let mut out: Vec<String> = Vec::new();
    assert(pieces_of(path@, '/')[0] == list@[0]@);
    if path.unicode_len() > 0 && path.get_char(0) == '/' {
        push_text(&mut out, owned("/"));
    } else if same(list[0].as_str(), ".") {
        push_text(&mut out, owned("."));
    }
    assert(texts(out@) =~= path_start(path@));
    push_parts(&mut out, &list);
    out
}

/// Whether a path lies at or under another.
pub fn path_starts_with(path: &str, base: &str) -> (r: bool)
    ensures
        r == lies_under(path@, base@),
{
    let a: Vec<String> = split(path);
    let b: Vec<String> = split(base);
    let ghost whole = texts(a@);
    let ghost front = texts(b@);
    assert(whole.len() == a@.len() && front.len() == b@.len());
    if b.len() > a.len() {
        return false;
    }
    let mut i: usize = 0;
    while i < b.len()
        invariant
            i <= b.len() <= a.len(),
            whole == texts(a@),
            front == texts(b@),
            whole == components(path@),
            front == components(base@),
            forall|j: int| 0 <= j < i ==> whole[j] == #[trigger] front[j],
        decreases b.len() - i,
    {
        assert(whole[i as int] == a@[i as int]@ && front[i as int] == b@[i as int]@);
        if !same(a[i].as_str(), b[i].as_str()) {
            assert(front[i as int] != whole.subrange(0, front.len() as int)[i as int]);
            return false;
        }
        i = i + 1;
    }
    assert(front =~= whole.subrange(0, front.len() as int));
    true
}

proof fn lemma_parts_last(list: Seq<Seq<char>>, name: Seq<char>)
    requires
        is_part(name),
    ensures
        parts_among(list.push(name)) == parts_among(list).push(name),
{
    assert(list.push(name).drop_last() =~= list);
}

proof fn lemma_pieces_end(dir: Seq<char>, name: Seq<char>)
    requires
        forall|i: int| 0 <= i < name.len() ==> #[trigger] name[i] != '/',
    ensures
        pieces_of(dir + seq!['/'] + name, '/') == pieces_of(dir, '/').push(name),
    decreases dir.len(),
{
    lemma_until(dir, '/');
    let k = until(dir, '/') as int;
    if k < dir.len() {
        let a = dir.take(k);
        let b = dir.skip(k + 1);
        assert forall|i: int| 0 <= i < a.len() implies #[trigger] a[i] != '/' by {
            assert(a[i] == dir[i]);
        }
        assert(dir =~= a + seq!['/'] + b);
        assert(dir + seq!['/'] + name =~= a + seq!['/'] + (b + seq!['/'] + name));
        pieces_part_at_the_separator(a, b, '/');
        pieces_part_at_the_separator(a, b + seq!['/'] + name, '/');
        lemma_pieces_end(b, name);
        assert(seq![a] + pieces_of(b, '/').push(name) =~= (seq![a] + pieces_of(b, '/')).push(name));
    } else {
        assert forall|i: int| 0 <= i < dir.len() implies #[trigger] dir[i] != '/' by {}
        pieces_part_at_the_separator(dir, name, '/');
        pieces_of_one(dir, '/');
        pieces_of_one(name, '/');
        assert(seq![dir] + seq![name] =~= seq![dir].push(name));
    }
}

/// The final component of a path is the name behind its last separator; dots
/// are no name.
pub proof fn the_last_name_is_the_base(dir: Seq<char>, name: Seq<char>)
    requires
        name.len() > 0,
        name != "."@,
        forall|i: int| 0 <= i < name.len() ==> #[trigger] name[i] != '/',
    ensures
        name != ".."@ ==> base_name_of(dir + seq!['/'] + name) == Some(name),
        name == ".."@ ==> base_name_of(dir + seq!['/'] + name) is None,
        name != ".."@ ==> base_name_of(name) == Some(name),
{
    lemma_pieces_end(dir, name);
    lemma_parts_last(pieces_of(dir, '/'), name);
    pieces_of_one(name, '/');
    assert(seq![name] =~= Seq::<Seq<char>>::empty().push(name));
    lemma_parts_last(Seq::empty(), name);
}

/// A path lies under the directory that it names, and under all that those lie
/// under; every path lies under itself.
pub proof fn paths_lie_under_their_directories(dir: Seq<char>, name: Seq<char>)
    requires
        dir.len() > 0,
        dir[0] == '/',
        name.len() > 0,
        name != "."@,
        forall|i: int| 0 <= i < name.len() ==> #[trigger] name[i] != '/',
    ensures
        lies_under(dir, dir),
        lies_under(dir + seq!['/'] + name, dir),
        !lies_under(dir, dir + seq!['/'] + name),
        forall|base: Seq<char>| #[trigger] lies_under(dir, base) ==> lies_under(
            dir + seq!['/'] + name,
            base,
        ),
{
    let path = dir + seq!['/'] + name;
    lemma_pieces_end(dir, name);
    lemma_parts_last(pieces_of(dir, '/'), name);
    assert(path[0] == '/');
    assert(components(path) =~= components(dir).push(name));
}

} // verus!
