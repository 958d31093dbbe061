//! File names and paths with slashes, as texts.

use crate::text::{concat2, concat3, split, split_view, str_eq, views};
use vstd::prelude::*;

verus! {

/// The parts of a path that count: its root where it has one, and its names. Empty parts do not
/// count, and a dot counts only at the start.
pub open spec fn components_view(path: Seq<char>) -> Seq<Seq<char>> {
    names_view(split_view(path, '/'), path)
}

/// The parts of a split path that count.
pub open spec fn names_view(parts: Seq<Seq<char>>, path: Seq<char>) -> Seq<Seq<char>>
    decreases parts.len(),
{
    if parts.len() == 0 {
        Seq::empty()
    } else {
        let rest = names_view(parts.drop_last(), path);
        let first = parts.len() == 1;
        let p = parts.last();
        if first && path.len() > 0 && path[0] == '/' {
            rest.push("/"@)
        } else if p.len() == 0 || (p == "."@ && !first) {
            rest
        } else {
            rest.push(p)
        }
    }
}

/// The parts of `path` that count.
pub fn components(path: &str) -> (r: Vec<String>)
    ensures
        views(r@) == components_view(path@),
{
    let parts = split(path, '/');
    let ghost all = views(parts@);
    let absolute = path.unicode_len() > 0 && path.get_char(0) == '/';
    let mut out: Vec<String> = Vec::new();
    let mut i: usize = 0;
    proof {
        assert(all.take(0) =~= Seq::empty());
        assert(views(out@) =~= Seq::empty());
    }
    while i < parts.len()
        invariant
            i <= parts.len(),
            all == views(parts@),
            absolute == (path@.len() > 0 && path@[0] == '/'),
            views(out@) == names_view(all.take(i as int), path@),
        decreases parts.len() - i,
    {
        let ghost before = views(out@);
        proof {
            assert(all.take(i + 1).drop_last() =~= all.take(i as int));
            assert(all.take(i + 1).last() == parts@[i as int]@);
        }
        if i == 0 && absolute {
            out.push("/".to_owned());
            assert(views(out@) =~= before.push("/"@));
        } else if !parts[i].as_str().is_empty() && !(i > 0 && str_eq(parts[i].as_str(), ".")) {
            out.push(parts[i].clone());
            assert(views(out@) =~= before.push(parts@[i as int]@));
        }
        i += 1;
    }
    assert(all.take(all.len() as int) =~= all);
    out
}

/// The name of the file that a path leads to, where it leads to a name.
pub open spec fn file_name_view(path: Seq<char>) -> Option<Seq<char>> {
    let c = components_view(path);
    if c.len() == 0 || c.last() == "/"@ || c.last() == "."@ || c.last() == ".."@ {
        None
    } else {
        Some(c.last())
    }
}

/// The name of the file that `path` leads to, where it leads to a name.
pub fn file_name(path: &str) -> (r: Option<String>)
    ensures
        match r {
            Some(n) => file_name_view(path@) == Some(n@),
            None => file_name_view(path@) is None,
        },
{
    let mut c = components(path);
    let ghost all = views(c@);
    assert(all.len() == c@.len());
    match c.pop() {
        None => None,
        Some(last) => {
            assert(all.last() == last@);
            if str_eq(last.as_str(), "/") || str_eq(last.as_str(), ".") || str_eq(last.as_str(), "..") {
                None
            } else {
                Some(last)
            }
        },
    }
}

/// Whether a path is a directory or lies below it, part by part.
pub open spec fn within(path: Seq<char>, root: Seq<char>) -> bool {
    components_view(root).is_prefix_of(components_view(path))
}

/// Whether `path` is `root` or lies below it, part by part.
pub fn path_within(path: &str, root: &str) -> (r: bool)
    ensures
        r == within(path@, root@),
{
    let p = components(path);
    let q = components(root);
    let ghost pv = views(p@);
    let ghost qv = views(q@);
    if q.len() > p.len() {
        assert(qv.len() > pv.len());
        return false;
    }
    let mut i: usize = 0;
    while i < q.len()
        invariant
            i <= q.len(),
            q.len() <= p.len(),
            pv == views(p@),
            qv == views(q@),
            pv == components_view(path@),
            qv == components_view(root@),
            forall|k: int| 0 <= k < i ==> qv[k] == pv[k],
        decreases q.len() - i,
    {
        assert(pv[i as int] == p@[i as int]@);
        assert(qv[i as int] == q@[i as int]@);
        if !str_eq(p[i].as_str(), q[i].as_str()) {
            assert(pv.subrange(0, qv.len() as int)[i as int] != qv[i as int]);
            return false;
        }
        i += 1;
    }
    assert(qv =~= pv.subrange(0, qv.len() as int));
    true
}

/// A path below a directory; an absolute one stands for itself.
pub open spec fn join_view(root: Seq<char>, rest: Seq<char>) -> Seq<char> {
    if rest.len() > 0 && rest[0] == '/' {
        rest
    } else if root.len() == 0 || root.last() == '/' {
        root + rest
    } else {
        root + "/"@ + rest
    }
}

/// The path `rest` below `root`.
pub fn join(root: &str, rest: &str) -> (r: String)
    ensures
        r@ == join_view(root@, rest@),
{
    let n = root.unicode_len();
    if rest.unicode_len() > 0 && rest.get_char(0) == '/' {
        rest.to_owned()
    } else if n == 0 || root.get_char(n - 1) == '/' {
        concat2(root, rest)
    } else {
        concat3(root, "/", rest)
    }
}

/// Whether a path is relative and goes down only: each of its parts is a name.
pub open spec fn is_relative(path: Seq<char>) -> bool {
    let c = components_view(path);
    forall|i: int| 0 <= i < c.len() ==> (#[trigger] c[i]) != "/"@ && c[i] != "."@ && c[i] != ".."@
}

/// Whether `path` is relative and each of its parts is a name.
pub fn relative_path(path: &str) -> (r: bool)
    ensures
        r == is_relative(path@),
{
    let c = components(path);
    let ghost v = views(c@);
    let mut i: usize = 0;
    while i < c.len()
        invariant
            i <= c.len(),
            v == views(c@),
            v == components_view(path@),
            forall|k: int| 0 <= k < i ==> (#[trigger] v[k]) != "/"@ && v[k] != "."@ && v[k] != ".."@,
        decreases c.len() - i,
    {
        assert(v[i as int] == c@[i as int]@);
        if str_eq(c[i].as_str(), "/") || str_eq(c[i].as_str(), ".") || str_eq(c[i].as_str(), "..") {
            return false;
        }
        i += 1;
    }
    true
}

/// Every directory holds itself.
pub proof fn directory_holds_itself(path: Seq<char>)
    ensures
        within(path, path),
{
    let c = components_view(path);
    assert(c =~= c.subrange(0, c.len() as int));
}

/// What lies below a directory lies below the directories above it.
pub proof fn directories_nest(path: Seq<char>, inner: Seq<char>, outer: Seq<char>)
    requires
        within(path, inner),
        within(inner, outer),
    ensures
        within(path, outer),
{
    let a = components_view(path);
    let b = components_view(inner);
    let c = components_view(outer);
    assert(c =~= a.subrange(0, c.len() as int)) by {
        assert forall|i: int| 0 <= i < c.len() implies c[i] == a[i] by {
            assert(b.subrange(0, c.len() as int)[i] == c[i]);
            assert(a.subrange(0, b.len() as int)[i] == b[i]);
        }
    }
}

} // verus!
