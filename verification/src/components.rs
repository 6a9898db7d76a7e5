//! Path components as `Path::components` gives them on Unix: the root, a
//! leading `.` of a relative path, then the names between separators,
//! repeated separators and `.` passed over. Two paths are the same path
//! (`Path`'s `==`) when their components are.

use crate::text::{chars_of, lemma_split_nonempty, same_chars, split, split_chars};
use vstd::prelude::*;

verus! {

/// A piece of a path between separators that names nothing: empty (from a
/// repeated or trailing separator) or `.`.
pub open spec fn idle(piece: Seq<char>) -> bool {
    piece.len() == 0 || piece == seq!['.']
}

/// The pieces of a path between its separators.
pub open spec fn pieces(path: Seq<char>) -> Seq<Seq<char>> {
    split(path, '/')
}

/// The first component of a path (`Path::components`): the root, written
/// `/`; else the first piece (a leading `.` of a relative path, or a name);
/// none for the empty path.
pub open spec fn lead(ps: Seq<Seq<char>>) -> Seq<Seq<char>> {
    if ps[0].len() > 0 {
        seq![ps[0]]
    } else if ps.len() > 1 {
        seq![seq!['/']]
    } else {
        Seq::empty()
    }
}

/// The names among the pieces from `i` on: every piece that is not idle.
pub open spec fn names_from(ps: Seq<Seq<char>>, i: int) -> Seq<Seq<char>>
    decreases ps.len() - i,
{
    if i < 0 || i >= ps.len() {
        Seq::empty()
    } else if idle(ps[i]) {
        names_from(ps, i + 1)
    } else {
        seq![ps[i]] + names_from(ps, i + 1)
    }
}

/// A path's components, as `Path::components` gives them.
pub open spec fn components(path: Seq<char>) -> Seq<Seq<char>> {
    lead(pieces(path)) + names_from(pieces(path), 1)
}

/// The texts of a list of pieces.
pub open spec fn views(ps: Seq<Vec<char>>) -> Seq<Seq<char>> {
    ps.map_values(|v: Vec<char>| v@)
}

fn copy_piece(v: &Vec<char>) -> (r: Vec<char>)
    ensures
        r@ == v@,
{
    let r = v.clone();
    assert(r@ =~= v@);
    r
}

pub fn idle_piece(p: &Vec<char>) -> (r: bool)
    ensures
        r == idle(p@),
{
    if p.len() == 0 {
        return true;
    }
    if p.len() == 1 && p[0] == '.' {
        assert(p@ =~= seq!['.']);
        return true;
    }
    false
}

/// The components of the path split into `ps`.
pub fn components_of(ps: &Vec<Vec<char>>) -> (r: Vec<Vec<char>>)
    requires
        ps@.len() >= 1,
    ensures
        views(r@) == lead(views(ps@)) + names_from(views(ps@), 1),
{
    let ghost p = views(ps@);
    let mut r: Vec<Vec<char>> = Vec::new();
    if ps[0].len() > 0 {
        r.push(copy_piece(&ps[0]));
    } else if ps.len() > 1 {
        let root = vec!['/'];
        assert(root@ =~= seq!['/']);
        r.push(root);
    }
    assert(views(r@) =~= lead(p));
    let mut i: usize = 1;
    while i < ps.len()
        invariant
            1 <= i <= ps@.len(),
            p == views(ps@),
            views(r@) + names_from(p, i as int) == lead(p) + names_from(p, 1),
        decreases ps.len() - i,
    {
        let ghost before = views(r@);
        if !idle_piece(&ps[i]) {
            r.push(copy_piece(&ps[i]));
            assert(views(r@) =~= before.push(p[i as int]));
            assert(before + (seq![p[i as int]] + names_from(p, i + 1)) =~= views(r@)
                + names_from(p, i + 1));
        }
        i = i + 1;
    }
    assert(views(r@) + names_from(p, i as int) =~= views(r@));
    r
}

/// The components of a path.
pub fn path_components(path: &str) -> (r: Vec<Vec<char>>)
    ensures
        views(r@) == components(path@),
{
    let v = chars_of(path);
    let ps = split_chars(&v, '/');
    proof {
        lemma_split_nonempty(path@, '/');
        assert(views(ps@) =~= pieces(path@));
    }
    components_of(&ps)
}

/// Two lists of components are the same.
pub fn same_components(a: &Vec<Vec<char>>, b: &Vec<Vec<char>>) -> (r: bool)
    ensures
        r == (views(a@) == views(b@)),
{
    if a.len() != b.len() {
        assert(views(a@).len() != views(b@).len());
        return false;
    }
    let mut i: usize = 0;
    while i < a.len()
        invariant
            i <= a@.len() == b@.len(),
            forall|k: int| 0 <= k < i ==> a@[k]@ == b@[k]@,
        decreases a.len() - i,
    {
        if !same_chars(&a[i], &b[i]) {
            assert(views(a@)[i as int] != views(b@)[i as int]);
            return false;
        }
        i = i + 1;
    }
    assert(views(a@) =~= views(b@));
    true
}

/// `a` and `b` are the same path (`Path`'s `==`): the same components.
pub open spec fn same_path(a: Seq<char>, b: Seq<char>) -> bool {
    components(a) == components(b)
}

/// Whether `a` and `b` are the same path.
pub fn is_same_path(a: &str, b: &str) -> (r: bool)
    ensures
        r == same_path(a@, b@),
{
    let ca = path_components(a);
    let cb = path_components(b);
    same_components(&ca, &cb)
}

} // verus!
