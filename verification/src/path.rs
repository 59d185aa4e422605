//! A byte-level model of Unix path components.
//!
//! Paths travel through the engine as plain byte strings.  This module gives
//! them the usual Unix component reading: a leading slash is the root, `.` is
//! kept only as a leading component of a relative path, `..` is a parent
//! step, empty segments collapse, and everything else is a normal name.

use vstd::prelude::*;
use crate::bytes::bytes_eq;

verus! {

/// One path component; `T` is `Vec<u8>` in executable code and `Seq<u8>` in
/// specifications.
pub enum PathPart<T> {
    Root,
    Cur,
    Parent,
    Name(T),
}

/// The specification view of an executable component.
pub open spec fn part_view(p: PathPart<Vec<u8>>) -> PathPart<Seq<u8>> {
    match p {
        PathPart::Root => PathPart::Root,
        PathPart::Cur => PathPart::Cur,
        PathPart::Parent => PathPart::Parent,
        PathPart::Name(v) => PathPart::Name(v@),
    }
}

/// The specification view of a component list.
pub open spec fn parts_view(ps: Seq<PathPart<Vec<u8>>>) -> Seq<PathPart<Seq<u8>>> {
    ps.map_values(|p: PathPart<Vec<u8>>| part_view(p))
}

/// The components contributed by one slash-delimited segment: empty and `.`
/// segments vanish, `..` is a parent step, anything else is a name.
pub open spec fn seg_part(cur: Seq<u8>) -> Seq<PathPart<Seq<u8>>> {
    if cur.len() == 0 || cur == seq![46u8] {
        seq![]
    } else if cur == seq![46u8, 46u8] {
        seq![PathPart::Parent]
    } else {
        seq![PathPart::Name(cur)]
    }
}

/// The components of the remaining input `s`, with `cur` the segment read so
/// far.
pub open spec fn parts_from(s: Seq<u8>, cur: Seq<u8>) -> Seq<PathPart<Seq<u8>>>
    decreases s.len(),
{
    if s.len() == 0 {
        seg_part(cur)
    } else if s[0] == 47u8 {
        seg_part(cur) + parts_from(s.skip(1), seq![])
    } else {
        parts_from(s.skip(1), cur.push(s[0]))
    }
}

/// Whether the path is absolute (begins with a slash).
pub open spec fn has_root(p: Seq<u8>) -> bool {
    p.len() > 0 && p[0] == 47u8
}

/// Whether the path keeps a leading `.` component: it is relative and starts
/// with `.` followed by nothing or a slash.
pub open spec fn keeps_cur_dir(p: Seq<u8>) -> bool {
    p.len() > 0 && p[0] == 46u8 && (p.len() == 1 || p[1] == 47u8)
}

/// The full component reading of a path.
pub open spec fn spec_components(p: Seq<u8>) -> Seq<PathPart<Seq<u8>>> {
    if has_root(p) {
        seq![PathPart::Root] + parts_from(p.skip(1), seq![])
    } else if keeps_cur_dir(p) {
        seq![PathPart::Cur] + parts_from(p.skip(1), seq![])
    } else {
        parts_from(p, seq![])
    }
}

/// The final component of the path, when that component is a normal name.
pub open spec fn spec_file_name(p: Seq<u8>) -> Option<Seq<u8>> {
    let c = spec_components(p);
    if c.len() > 0 && c.last() is Name {
        Some(c.last()->Name_0)
    } else {
        None
    }
}

/// Whether `base`'s components are a prefix of `p`'s components.
pub open spec fn spec_starts_with(p: Seq<u8>, base: Seq<u8>) -> bool {
    spec_components(base).is_prefix_of(spec_components(p))
}

/// `dir` with the relative `name` appended, separated by a slash unless one
/// is already there.
pub open spec fn spec_join(dir: Seq<u8>, name: Seq<u8>) -> Seq<u8> {
    if dir.len() == 0 {
        name
    } else if dir.last() == 47u8 {
        dir + name
    } else {
        dir + seq![47u8] + name
    }
}

/// Turns the segment collected in `cur` into its component, if any, and
/// appends it.
fn flush_segment(r: &mut Vec<PathPart<Vec<u8>>>, cur: Vec<u8>)
    ensures
        parts_view(final(r)@) == parts_view(old(r)@) + seg_part(cur@),
{
    if cur.len() == 0 {
        assert(parts_view(r@) =~= parts_view(r@) + seg_part(cur@));
        return;
    }
    if cur.len() == 1 && cur[0] == 46u8 {
        assert(cur@ =~= seq![46u8]);
        assert(parts_view(r@) =~= parts_view(r@) + seg_part(cur@));
        return;
    }
    if cur.len() == 2 && cur[0] == 46u8 && cur[1] == 46u8 {
        assert(cur@ =~= seq![46u8, 46u8]);
        r.push(PathPart::Parent);
        proof {
            assert(parts_view(r@) =~= parts_view(old(r)@) + seg_part(cur@));
        }
        return;
    }
    proof {
        assert(cur@ != seq![46u8] && cur@ != seq![46u8, 46u8]) by {
            if cur@ == seq![46u8] {
                assert(cur@.len() == 1 && cur@[0] == 46u8);
            }
            if cur@ == seq![46u8, 46u8] {
                assert(cur@.len() == 2 && cur@[0] == 46u8 && cur@[1] == 46u8);
            }
        }
    }
    r.push(PathPart::Name(cur));
    proof {
        assert(parts_view(r@) =~= parts_view(old(r)@) + seg_part(cur@));
    }
}

/// Computes the component reading of a path.
pub fn path_components(p: &Vec<u8>) -> (r: Vec<PathPart<Vec<u8>>>)
    ensures
        parts_view(r@) == spec_components(p@),
{
    let n = p.len();
    let mut r: Vec<PathPart<Vec<u8>>> = Vec::new();
    let mut i: usize = 0;
    if n > 0 && p[0] == 47u8 {
        r.push(PathPart::Root);
        i = 1;
        proof {
            assert(parts_view(r@) =~= seq![PathPart::Root]);
        }
    } else if n > 0 && p[0] == 46u8 && (n == 1 || p[1] == 47u8) {
        r.push(PathPart::Cur);
        i = 1;
        proof {
            assert(parts_view(r@) =~= seq![PathPart::Cur]);
        }
    }
    let mut cur: Vec<u8> = Vec::new();
    proof {
        assert(cur@ =~= Seq::<u8>::empty());
        assert(p@.skip(0) =~= p@);
        if i == 0 {
            assert(parts_view(r@) =~= Seq::<PathPart<Seq<u8>>>::empty());
            assert(parts_view(r@) + parts_from(p@.skip(0), cur@) =~= spec_components(p@));
        } else {
            assert(parts_view(r@) + parts_from(p@.skip(1), cur@) =~= spec_components(p@));
        }
    }
    loop
        invariant
            i <= n,
            n == p@.len(),
            parts_view(r@) + parts_from(p@.skip(i as int), cur@) == spec_components(p@),
        decreases n - i,
    {
        if i >= n {
            assert(p@.skip(i as int) =~= Seq::<u8>::empty());
            flush_segment(&mut r, cur);
            return r;
        }
        let b = p[i];
        if b == 47u8 {
            proof {
                assert(p@.skip(i as int).skip(1) =~= p@.skip(i as int + 1));
            }
            flush_segment(&mut r, cur);
            cur = Vec::new();
        } else {
            proof {
                assert(p@.skip(i as int).skip(1) =~= p@.skip(i as int + 1));
            }
            cur.push(b);
        }
        i = i + 1;
    }
}

/// Returns the final normal-name component of the path, or nothing when the
/// path ends in a root, `.`, or `..` component (or is empty).
pub fn file_name(p: &Vec<u8>) -> (r: Option<Vec<u8>>)
    ensures
        match r {
            Some(v) => spec_file_name(p@) == Some(v@),
            None => spec_file_name(p@) is None,
        },
{
    let mut c = path_components(p);
    match c.pop() {
        Some(PathPart::Name(v)) => Some(v),
        _ => None,
    }
}

/// Component equality.
fn part_eq(x: &PathPart<Vec<u8>>, y: &PathPart<Vec<u8>>) -> (r: bool)
    ensures
        r == (part_view(*x) == part_view(*y)),
{
    match (x, y) {
        (PathPart::Root, PathPart::Root) => true,
        (PathPart::Cur, PathPart::Cur) => true,
        (PathPart::Parent, PathPart::Parent) => true,
        (PathPart::Name(a), PathPart::Name(b)) => bytes_eq(a, b),
        _ => false,
    }
}

/// Whether `base`'s components are a prefix of `p`'s components: the
/// component-wise reading of "lies under `base`".
pub fn path_starts_with(p: &Vec<u8>, base: &Vec<u8>) -> (r: bool)
    ensures
        r == spec_starts_with(p@, base@),
{
    let a = path_components(p);
    let b = path_components(base);
    let bn = b.len();
    if bn > a.len() {
        return false;
    }
    let mut i: usize = 0;
    loop
        invariant
            i <= bn,
            bn == b@.len(),
            bn <= a@.len(),
            parts_view(a@) == spec_components(p@),
            parts_view(b@) == spec_components(base@),
            forall|k: int| 0 <= k < i
                ==> parts_view(a@)[k] == parts_view(b@)[k],
        decreases bn - i,
    {
        if i >= bn {
            proof {
                assert(spec_components(base@)
                    =~= spec_components(p@).subrange(0, bn as int));
            }
            return true;
        }
        if !part_eq(&a[i], &b[i]) {
            proof {
                assert(parts_view(a@)[i as int] == part_view(a@[i as int]));
                assert(parts_view(b@)[i as int] == part_view(b@[i as int]));
                if spec_starts_with(p@, base@) {
                    assert(spec_components(base@)
                        == spec_components(p@).subrange(0, bn as int));
                    assert(spec_components(base@)[i as int]
                        == spec_components(p@)[i as int]);
                }
            }
            return false;
        }
        i = i + 1;
    }
}

/// Appends `name` to `dir`, inserting a slash separator unless `dir` is
/// empty or already ends in one.
pub fn path_join(dir: &Vec<u8>, name: &Vec<u8>) -> (r: Vec<u8>)
    ensures
        r@ == spec_join(dir@, name@),
{
    let mut r: Vec<u8> = Vec::new();
    let dn = dir.len();
    crate::bytes::push_range(&mut r, dir, 0, dn);
    assert(r@ =~= dir@);
    if dn > 0 && dir[dn - 1] != 47u8 {
        r.push(47u8);
    }
    let nn = name.len();
    crate::bytes::push_range(&mut r, name, 0, nn);
    proof {
        assert(dir@.subrange(0, dir@.len() as int) =~= dir@);
        assert(name@.subrange(0, name@.len() as int) =~= name@);
        assert(r@ =~= spec_join(dir@, name@));
    }
    r
}

} // verus!
