//! The run's context: the builtin set, the search path, the source buffer,
//! the store root, and the growing patch set.
//!
//! The builtin set is parsed from the output of the shell's builtin listing
//! (one `enable NAME` line per builtin); the search path is split on colons.

use vstd::prelude::*;
use crate::bytes::{has_prefix, push_range};
use crate::patches::PatchEntry;
use crate::scan::vecs_view;

verus! {

/// Everything a patching run reads or builds.
pub struct Context {
    /// Shell builtin names; a bare candidate naming one is left alone.
    pub builtins: Vec<Vec<u8>>,
    /// The ordered, non-overlapping byte-range replacements found so far.
    pub patches: Vec<PatchEntry>,
    /// The search-path directories, in lookup order.
    pub paths: Vec<Vec<u8>>,
    /// The script being patched.
    pub src: Vec<u8>,
    /// The store root: only paths under it are pinned.
    pub store_dir: Vec<u8>,
}

/// A line with one trailing carriage return removed.
pub open spec fn strip_cr(l: Seq<u8>) -> Seq<u8> {
    if l.len() > 0 && l.last() == 0x0D {
        l.drop_last()
    } else {
        l
    }
}

/// The lines of `s` (split on newline, carriage returns trimmed), with `cur`
/// the line read so far.
pub open spec fn lines_from(s: Seq<u8>, cur: Seq<u8>) -> Seq<Seq<u8>>
    decreases s.len(),
{
    if s.len() == 0 {
        if cur.len() > 0 {
            seq![strip_cr(cur)]
        } else {
            seq![]
        }
    } else if s[0] == 0x0A {
        seq![strip_cr(cur)] + lines_from(s.skip(1), seq![])
    } else {
        lines_from(s.skip(1), cur.push(s[0]))
    }
}

/// The bytes of `enable `, the prefix of each builtin-listing line.
pub open spec fn enable_prefix() -> Seq<u8> {
    seq![101u8, 110u8, 97u8, 98u8, 108u8, 101u8, 32u8]
}

/// The builtin names among the given lines, from position `k` on: what
/// follows `enable ` on each line of valid text that starts with it; lines
/// that are not valid text are dropped.
pub open spec fn builtins_from(lines: Seq<Seq<u8>>, k: int) -> Seq<Seq<u8>>
    decreases lines.len() - k,
{
    if k < 0 || k >= lines.len() {
        seq![]
    } else if crate::literal::valid_text(lines[k]) && enable_prefix().is_prefix_of(lines[k]) {
        seq![lines[k].skip(7)] + builtins_from(lines, k + 1)
    } else {
        builtins_from(lines, k + 1)
    }
}

/// The builtin set that the listing output denotes.
pub open spec fn spec_builtins(out: Seq<u8>) -> Seq<Seq<u8>> {
    builtins_from(lines_from(out, seq![]), 0)
}

/// The search-path entries of a colon-separated list, with `cur` the entry
/// read so far; empty entries are kept.
pub open spec fn split_paths_from(s: Seq<u8>, cur: Seq<u8>) -> Seq<Seq<u8>>
    decreases s.len(),
{
    if s.len() == 0 {
        seq![cur]
    } else if s[0] == 0x3A {
        seq![cur] + split_paths_from(s.skip(1), seq![])
    } else {
        split_paths_from(s.skip(1), cur.push(s[0]))
    }
}

/// The search path that the variable value denotes; no value means no
/// search path.
pub open spec fn spec_paths(path_var: Option<Vec<u8>>) -> Seq<Seq<u8>> {
    match path_var {
        Option::None => seq![],
        Option::Some(p) => split_paths_from(p@, seq![]),
    }
}

/// Splits the byte string into lines, trimming one trailing carriage return
/// from each.
fn split_lines(s: &Vec<u8>) -> (r: Vec<Vec<u8>>)
    ensures
        vecs_view(r@) == lines_from(s@, seq![]),
{
    let n = s.len();
    let mut r: Vec<Vec<u8>> = Vec::new();
    let mut cur: Vec<u8> = Vec::new();
    let mut i: usize = 0;
    proof {
        assert(s@.skip(0) =~= s@);
        assert(vecs_view(r@) + lines_from(s@, seq![]) =~= lines_from(s@, seq![]));
        assert(cur@ =~= Seq::<u8>::empty());
    }
    loop
        invariant
            i <= n,
            n == s@.len(),
            vecs_view(r@) + lines_from(s@.skip(i as int), cur@) == lines_from(s@, seq![]),
        decreases n - i,
    {
        if i >= n {
            assert(s@.skip(i as int) =~= Seq::<u8>::empty());
            if cur.len() > 0 {
                let line = trim_cr(&cur);
                r.push(line);
                proof {
                    assert(vecs_view(r@) =~= lines_from(s@, seq![]));
                }
            } else {
                assert(vecs_view(r@) =~= lines_from(s@, seq![]));
            }
            return r;
        }
        let b = s[i];
        proof {
            assert(s@.skip(i as int).skip(1) =~= s@.skip(i as int + 1));
        }
        if b == 0x0A {
            let line = trim_cr(&cur);
            r.push(line);
            cur = Vec::new();
            proof {
                assert(cur@ =~= Seq::<u8>::empty());
                assert(vecs_view(r@) + lines_from(s@.skip(i as int + 1), cur@)
                    =~= lines_from(s@, seq![]));
            }
        } else {
            cur.push(b);
        }
        i = i + 1;
    }
}

/// Removes one trailing carriage return, if there is one.
fn trim_cr(l: &Vec<u8>) -> (r: Vec<u8>)
    ensures
        r@ == strip_cr(l@),
{
    let n = l.len();
    if n > 0 && l[n - 1] == 0x0D {
        let mut r: Vec<u8> = Vec::new();
        push_range(&mut r, l, 0, n - 1);
        assert(r@ =~= strip_cr(l@));
        r
    } else {
        crate::bytes::copy_bytes(l)
    }
}

/// The builtin names that the listing output denotes.
fn parse_builtins(out: &Vec<u8>) -> (r: Vec<Vec<u8>>)
    ensures
        vecs_view(r@) == spec_builtins(out@),
{
    let lines = split_lines(out);
    let n = lines.len();
    let mut prefix: Vec<u8> = Vec::new();
    prefix.push(101);
    prefix.push(110);
    prefix.push(97);
    prefix.push(98);
    prefix.push(108);
    prefix.push(101);
    prefix.push(32);
    assert(prefix@ =~= enable_prefix());
    let mut r: Vec<Vec<u8>> = Vec::new();
    let mut k: usize = 0;
    proof {
        assert(vecs_view(r@) + builtins_from(vecs_view(lines@), 0)
            =~= builtins_from(vecs_view(lines@), 0));
    }
    loop
        invariant
            k <= n,
            n == lines@.len(),
            vecs_view(lines@) == lines_from(out@, seq![]),
            prefix@ == enable_prefix(),
            vecs_view(r@) + builtins_from(vecs_view(lines@), k as int) == spec_builtins(out@),
        decreases n - k,
    {
        if k >= n {
            assert(vecs_view(r@) =~= spec_builtins(out@));
            return r;
        }
        let line = &lines[k];
        assert(vecs_view(lines@)[k as int] == lines@[k as int]@);
        if crate::literal::check_valid_text(line) && has_prefix(line, &prefix) {
            let ln = line.len();
            let mut name: Vec<u8> = Vec::new();
            push_range(&mut name, line, 7, ln);
            proof {
                assert(name@ =~= lines@[k as int]@.skip(7));
            }
            r.push(name);
            proof {
                assert(vecs_view(r@) + builtins_from(vecs_view(lines@), k as int + 1)
                    =~= spec_builtins(out@));
            }
        }
        k = k + 1;
    }
}

/// Splits a colon-separated search path, keeping empty entries.
fn parse_paths(p: &Vec<u8>) -> (r: Vec<Vec<u8>>)
    ensures
        vecs_view(r@) == split_paths_from(p@, seq![]),
{
    let n = p.len();
    let mut r: Vec<Vec<u8>> = Vec::new();
    let mut cur: Vec<u8> = Vec::new();
    let mut i: usize = 0;
    proof {
        assert(p@.skip(0) =~= p@);
        assert(vecs_view(r@) + split_paths_from(p@, seq![]) =~= split_paths_from(p@, seq![]));
        assert(cur@ =~= Seq::<u8>::empty());
    }
    loop
        invariant
            i <= n,
            n == p@.len(),
            vecs_view(r@) + split_paths_from(p@.skip(i as int), cur@)
                == split_paths_from(p@, seq![]),
        decreases n - i,
    {
        if i >= n {
            assert(p@.skip(i as int) =~= Seq::<u8>::empty());
            r.push(cur);
            proof {
                assert(vecs_view(r@) =~= split_paths_from(p@, seq![]));
            }
            return r;
        }
        let b = p[i];
        proof {
            assert(p@.skip(i as int).skip(1) =~= p@.skip(i as int + 1));
        }
        if b == 0x3A {
            r.push(cur);
            cur = Vec::new();
            proof {
                assert(cur@ =~= Seq::<u8>::empty());
                assert(vecs_view(r@) + split_paths_from(p@.skip(i as int + 1), cur@)
                    =~= split_paths_from(p@, seq![]));
            }
        } else {
            cur.push(b);
        }
        i = i + 1;
    }
}

impl Context {
    /// Builds the run's context from the builtin-listing output, the search
    /// path variable's value (if any), the script, and the store root.  The
    /// patch set starts empty.
    pub fn load(
        enable_output: Vec<u8>,
        path_var: Option<Vec<u8>>,
        src: Vec<u8>,
        store_dir: Vec<u8>,
    ) -> (r: Context)
        ensures
            vecs_view(r.builtins@) == spec_builtins(enable_output@),
            r.patches@.len() == 0,
            vecs_view(r.paths@) == spec_paths(path_var),
            r.src == src,
            r.store_dir == store_dir,
    {
        let builtins = parse_builtins(&enable_output);
        let paths = match &path_var {
            Option::Some(p) => parse_paths(p),
            Option::None => {
                let r: Vec<Vec<u8>> = Vec::new();
                assert(vecs_view(r@) =~= Seq::<Seq<u8>>::empty());
                r
            }
        };
        Context { builtins, patches: Vec::new(), paths, src, store_dir }
    }
}

} // verus!
