//! Paths as texts.

use vstd::prelude::*;

use crate::text::{chars_of, concat2, concat3, opt_str_view, str_eq, views};

verus! {

/// What stands before, between and behind the slashes of a path.
pub open spec fn pieces(path: Seq<char>) -> Seq<Seq<char>>
    decreases path.len(),
{
    if path.len() == 0 {
        seq![Seq::empty()]
    } else {
        let init = pieces(path.drop_last());
        if path.last() == '/' {
            init.push(Seq::empty())
        } else {
            init.update(init.len() - 1, init.last().push(path.last()))
        }
    }
}

/// The pieces that count: those that are not empty. A dot counts only at the start.
pub open spec fn counted(pieces: Seq<Seq<char>>) -> Seq<Seq<char>>
    decreases pieces.len(),
{
    if pieces.len() == 0 {
        Seq::empty()
    } else {
        let init = counted(pieces.drop_last());
        let p = pieces.last();
        if p.len() > 0 && (p != "."@ || pieces.len() == 1) {
            init.push(p)
        } else {
            init
        }
    }
}

/// The path starts at the root.
pub open spec fn is_rooted(path: Seq<char>) -> bool {
    path.len() > 0 && path[0] == '/'
}

/// Two paths have the same components: doubled and trailing slashes, and dots between
/// them, make no difference.
pub open spec fn same_components(a: Seq<char>, b: Seq<char>) -> bool {
    is_rooted(a) == is_rooted(b) && counted(pieces(a)) == counted(pieces(b))
}

/// Whether a piece counts; `first` where it is the first one.
fn counts(piece: &str, first: bool) -> (r: bool)
    ensures
        r == (piece@.len() > 0 && (piece@ != "."@ || first)),
{
    proof {
        reveal_strlit("");
        assert(piece@.len() == 0 ==> piece@ == ""@);
    }
    !str_eq(piece, "") && (first || !str_eq(piece, "."))
}

/// The components of a path.
fn components(path: &str) -> (r: Vec<String>)
    ensures
        views(r@) == counted(pieces(path@)),
{
    let cs: Vec<char> = chars_of(path);
    let mut out: Vec<String> = Vec::new();
    let mut current: String = String::new();
    let mut first: bool = true;
    let mut i: usize = 0;
    proof {
        assert(cs@.take(0) == Seq::<char>::empty());
        assert(pieces(cs@.take(0)).drop_last() == Seq::<Seq<char>>::empty());
        assert(views(out@) == Seq::<Seq<char>>::empty());
    }
    while i < cs.len()
        invariant
            i <= cs@.len(),
            cs@ == path@,
            ({
                let ps = pieces(cs@.take(i as int));
                &&& ps.len() >= 1
                &&& views(out@) == counted(ps.drop_last())
                &&& current@ == ps.last()
                &&& first == (ps.len() == 1)
            }),
        decreases cs@.len() - i,
    {
        let ghost ps = pieces(cs@.take(i as int));
        let ghost before = out@;
        proof {
            assert(cs@.take(i + 1).drop_last() == cs@.take(i as int));
            assert(cs@.take(i + 1).last() == cs@[i as int]);
        }
        if cs[i] == '/' {
            if counts(current.as_str(), first) {
                out.push(current.clone());
                assert(views(out@) == views(before).push(current@));
            }
            assert(ps.push(Seq::<char>::empty()).drop_last() == ps);
            current = String::new();
            first = false;
        } else {
            current.push(cs[i]);
            proof {
                let next = ps.update(ps.len() - 1, ps.last().push(cs@[i as int]));
                assert(next.drop_last() == ps.drop_last());
            }
        }
        i = i + 1;
    }
    let ghost before = out@;
    assert(cs@.take(cs@.len() as int) == cs@);
    if counts(current.as_str(), first) {
        out.push(current.clone());
        assert(views(out@) == views(before).push(current@));
    }
    out
}

/// Whether the path starts at the root.
fn rooted(path: &str) -> (r: bool)
    ensures
        r == is_rooted(path@),
{
    let cs: Vec<char> = chars_of(path);
    cs.len() > 0 && cs[0] == '/'
}

/// Whether two paths have the same components.
pub fn same_path(a: &str, b: &str) -> (r: bool)
    ensures
        r == same_components(a@, b@),
{
    let x: Vec<String> = components(a);
    let y: Vec<String> = components(b);
    let ghost vx = views(x@);
    let ghost vy = views(y@);
    assert(vx.len() == x@.len() && vy.len() == y@.len());
    if rooted(a) != rooted(b) || x.len() != y.len() {
        return false;
    }
    let mut i: usize = 0;
    while i < x.len()
        invariant
            i <= x@.len() == y@.len(),
            vx == views(x@),
            vy == views(y@),
            vx == counted(pieces(a@)),
            vy == counted(pieces(b@)),
            is_rooted(a@) == is_rooted(b@),
            forall|k: int| 0 <= k < i ==> (#[trigger] vx[k]) == vy[k],
        decreases x@.len() - i,
    {
        if !str_eq(x[i].as_str(), y[i].as_str()) {
            assert(vx[i as int] != vy[i as int]);
            return false;
        }
        assert(vx[i as int] == vy[i as int]);
        i = i + 1;
    }
    assert(vx == vy);
    true
}

/// Two paths name the same file: they have the same components, or both resolve to the
/// same target.
pub open spec fn same_target(
    a: Seq<char>,
    b: Seq<char>,
    resolved_a: Option<Seq<char>>,
    resolved_b: Option<Seq<char>>,
) -> bool {
    same_components(a, b) || (resolved_a is Some && resolved_a == resolved_b)
}

/// Whether two paths name the same file. What they resolve to is known where they do.
pub fn same_file(a: &str, b: &str, resolved_a: Option<&str>, resolved_b: Option<&str>) -> (r: bool)
    ensures
        r == same_target(a@, b@, opt_str_view(resolved_a), opt_str_view(resolved_b)),
{
    if same_path(a, b) {
        return true;
    }
    match (resolved_a, resolved_b) {
        (Some(x), Some(y)) => str_eq(x, y),
        _ => false,
    }
}

/// A name below a directory.
pub open spec fn below(dir: Seq<char>, name: Seq<char>) -> Seq<char> {
    if dir.len() == 0 {
        name
    } else if dir.last() == '/' {
        dir + name
    } else {
        dir + "/"@ + name
    }
}

/// A name below a directory.
pub fn join_path(dir: &str, name: &str) -> (r: String)
    ensures
        r@ == below(dir@, name@),
{
    let cs: Vec<char> = chars_of(dir);
    let n: usize = cs.len();
    if n == 0 {
        name.to_owned()
    } else if cs[n - 1] == '/' {
        concat2(dir, name)
    } else {
        concat3(dir, "/", name)
    }
}

/// A name without a slash is one more character run at the end of the last piece.
proof fn lemma_pieces_of_name(dir: Seq<char>, name: Seq<char>)
    requires
        !name.contains('/'),
    ensures
        pieces(dir).len() > 0,
        pieces(dir + name) == pieces(dir).update(
            pieces(dir).len() - 1,
            pieces(dir).last() + name,
        ),
    decreases name.len(),
{
    lemma_some_piece(dir);
    let ps = pieces(dir);
    if name.len() == 0 {
        assert(dir + name == dir);
        assert(ps.last() + name == ps.last());
        assert(ps.update(ps.len() - 1, ps.last()) == ps);
    } else {
        let init = name.drop_last();
        assert forall|i: int| 0 <= i < init.len() implies init[i] != '/' by {
            assert(name[i] == init[i]);
        }
        lemma_pieces_of_name(dir, init);
        assert((dir + name).drop_last() == dir + init);
        assert((dir + name).last() == name.last());
        assert(name.contains(name.last()));
        assert(ps.last() + name == (ps.last() + init).push(name.last()));
        assert(pieces(dir + name) == ps.update(ps.len() - 1, ps.last() + name));
    }
}

/// Every path has a piece.
proof fn lemma_some_piece(path: Seq<char>)
    ensures
        pieces(path).len() > 0,
    decreases path.len(),
{
    if path.len() > 0 {
        lemma_some_piece(path.drop_last());
    }
}

/// Two names in one directory are two paths, unless they are one name.
pub proof fn law_names_tell_files_apart(
    dir: Seq<char>,
    one: Seq<char>,
    other: Seq<char>,
    a: &str,
    b: &str,
    r: bool,
)
    requires
        call_ensures(same_path, (a, b), r),
        a@ == dir + "/"@ + one,
        b@ == dir + "/"@ + other,
        !one.contains('/') && !other.contains('/'),
        one.len() > 0 && other.len() > 0,
        one != "."@ && other != "."@,
    ensures
        r == (one == other),
{
    reveal_strlit("/");
    let d = dir.push('/');
    assert(dir + "/"@ == d);
    assert(d.drop_last() == dir);
    lemma_some_piece(dir);
    let ps = pieces(d);
    assert(ps == pieces(dir).push(Seq::empty()));
    lemma_pieces_of_name(d, one);
    lemma_pieces_of_name(d, other);
    assert(ps.last() + one == one);
    assert(ps.last() + other == other);
    let x = pieces(a@);
    let y = pieces(b@);
    assert(x.drop_last() == ps.drop_last());
    assert(y.drop_last() == ps.drop_last());
    assert(x.last() == one && y.last() == other);
    let init = counted(ps.drop_last());
    assert(counted(x) == init.push(one));
    assert(counted(y) == init.push(other));
    assert(init.push(one).last() == one);
    assert(init.push(other).last() == other);
    assert(is_rooted(a@) == is_rooted(b@)) by {
        assert(a@[0] == d[0] && b@[0] == d[0]);
    }
}

/// Every path is the same as itself, also with a slash at its end, and the order of the
/// two makes no difference; one that starts at the root is never the same as one that
/// does not.
pub proof fn law_paths_are_compared_by_components(a: &str, b: &str, r: bool)
    requires
        call_ensures(same_path, (a, b), r),
    ensures
        a@ == b@ ==> r,
        a@.len() > 0 && b@ == a@.push('/') ==> r,
        b@.len() > 0 && a@ == b@.push('/') ==> r,
        a@.len() > 0 && b@.len() > 0 && (a@[0] == '/') != (b@[0] == '/') ==> !r,
        forall|s: bool| call_ensures(same_path, (b, a), s) ==> s == r,
{
    lemma_slash_at_the_end(a@);
    lemma_slash_at_the_end(b@);
    assert forall|s: bool| call_ensures(same_path, (b, a), s) implies s == r by {
        assert(same_components(a@, b@) == same_components(b@, a@));
    }
}

/// A slash at the end adds no component.
proof fn lemma_slash_at_the_end(path: Seq<char>)
    ensures
        counted(pieces(path.push('/'))) == counted(pieces(path)),
{
    let ps = pieces(path);
    assert(path.push('/').drop_last() == path);
    assert(pieces(path.push('/')) == ps.push(Seq::empty()));
    assert(ps.push(Seq::<char>::empty()).drop_last() == ps);
}

/// Two paths that resolve to one target are one file, whatever they look like. Paths
/// that resolve to different targets, or of which one does not resolve, are one file
/// only where they are the same path.
pub proof fn law_links_are_followed(
    a: &str,
    b: &str,
    resolved_a: Option<&str>,
    resolved_b: Option<&str>,
    r: bool,
    same: bool,
)
    requires
        call_ensures(same_file, (a, b, resolved_a, resolved_b), r),
        call_ensures(same_path, (a, b), same),
    ensures
        same ==> r,
        resolved_a is Some && resolved_b is Some && resolved_a->0@ == resolved_b->0@ ==> r,
        resolved_a is Some && resolved_b is Some && resolved_a->0@ != resolved_b->0@ ==> r == same,
        resolved_a is None || resolved_b is None ==> r == same,
{
}

/// A name below a directory starts with the directory and ends with the name, and one
/// slash stands between them.
pub proof fn law_names_stand_below_their_directory(dir: &str, name: &str, r: String)
    requires
        call_ensures(join_path, (dir, name), r),
    ensures
        dir@.len() == 0 ==> r@ == name@,
        dir@.len() > 0 && dir@.last() != '/' ==> r@ == dir@.push('/') + name@,
        dir@.len() > 0 && dir@.last() == '/' ==> r@ == dir@ + name@,
{
    reveal_strlit("/");
    assert(dir@ + "/"@ == dir@.push('/'));
}


} // verus!
