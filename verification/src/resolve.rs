//! Classification of a command-name token.
//!
//! The decoded literal decides how the invocation is read: `command`,
//! `exec` and `type` are proxy commands whose arguments hold the real
//! target; `sudo` and `doas` (recognized by file-name basename) are
//! privilege wrappers that are pinned in place by an identity patch — the
//! replacement is the token's own literal value, so the output keeps it —
//! while their wrapped command stays eligible; any other name is itself the
//! sole candidate.  The option tables of each proxy and wrapper are plain
//! data.

use vstd::prelude::*;
use crate::patches::{PatchEntry, PatchIndex, PatchV, patch_view, patches_view, patches_wf,
    patches_bounded, spec_locate, spec_locate_from, spec_add, get_patch_index, add_patch};
use crate::path::{file_name, spec_file_name};
use crate::scan::{Candidate, CandView, Multiplicity, cands_view, multi_view, vecs_view,
    scan_arguments, spec_args, spec_scan, spec_decode_idx};
use crate::tree::SyntaxTree;
use crate::literal::decode_literal;
use crate::bytes::bytes_eq;

verus! {

/// A fatal structural inconsistency: a new patch range partially overlaps
/// an existing entry without nesting, which valid syntax trees never
/// produce.
#[derive(Clone, Copy, Debug)]
pub enum PatchError {
    Conflict { start: usize, end: usize, other_start: usize, other_end: usize },
}

/// The bytes of `command`.
pub open spec fn lit_command() -> Seq<u8> {
    seq![99u8, 111u8, 109u8, 109u8, 97u8, 110u8, 100u8]
}

fn make_command() -> (r: Vec<u8>)
    ensures
        r@ == lit_command(),
{
    let mut v: Vec<u8> = Vec::new();
    v.push(99u8);
    v.push(111u8);
    v.push(109u8);
    v.push(109u8);
    v.push(97u8);
    v.push(110u8);
    v.push(100u8);
    assert(v@ =~= lit_command());
    v
}

/// The bytes of `exec`.
pub open spec fn lit_exec() -> Seq<u8> {
    seq![101u8, 120u8, 101u8, 99u8]
}

fn make_exec_() -> (r: Vec<u8>)
    ensures
        r@ == lit_exec(),
{
    let mut v: Vec<u8> = Vec::new();
    v.push(101u8);
    v.push(120u8);
    v.push(101u8);
    v.push(99u8);
    assert(v@ =~= lit_exec());
    v
}

/// The bytes of `type`.
pub open spec fn lit_type() -> Seq<u8> {
    seq![116u8, 121u8, 112u8, 101u8]
}

fn make_type_() -> (r: Vec<u8>)
    ensures
        r@ == lit_type(),
{
    let mut v: Vec<u8> = Vec::new();
    v.push(116u8);
    v.push(121u8);
    v.push(112u8);
    v.push(101u8);
    assert(v@ =~= lit_type());
    v
}

/// The bytes of `sudo`.
pub open spec fn lit_sudo() -> Seq<u8> {
    seq![115u8, 117u8, 100u8, 111u8]
}

fn make_sudo() -> (r: Vec<u8>)
    ensures
        r@ == lit_sudo(),
{
    let mut v: Vec<u8> = Vec::new();
    v.push(115u8);
    v.push(117u8);
    v.push(100u8);
    v.push(111u8);
    assert(v@ =~= lit_sudo());
    v
}

/// The bytes of `doas`.
pub open spec fn lit_doas() -> Seq<u8> {
    seq![100u8, 111u8, 97u8, 115u8]
}

fn make_doas() -> (r: Vec<u8>)
    ensures
        r@ == lit_doas(),
{
    let mut v: Vec<u8> = Vec::new();
    v.push(100u8);
    v.push(111u8);
    v.push(97u8);
    v.push(115u8);
    assert(v@ =~= lit_doas());
    v
}

/// The option bytes `vV`.
pub open spec fn tab_command_trigger() -> Seq<u8> {
    seq![118u8, 86u8]
}

fn make_command_trigger() -> (r: Vec<u8>)
    ensures
        r@ == tab_command_trigger(),
{
    let mut v: Vec<u8> = Vec::new();
    v.push(118u8);
    v.push(86u8);
    assert(v@ =~= tab_command_trigger());
    v
}

/// The option bytes `a`.
pub open spec fn tab_exec_shorts() -> Seq<u8> {
    seq![97u8]
}

fn make_exec_shorts() -> (r: Vec<u8>)
    ensures
        r@ == tab_exec_shorts(),
{
    let mut v: Vec<u8> = Vec::new();
    v.push(97u8);
    assert(v@ =~= tab_exec_shorts());
    v
}

/// The option bytes `Cu`.
pub open spec fn tab_doas_shorts() -> Seq<u8> {
    seq![67u8, 117u8]
}

fn make_doas_shorts() -> (r: Vec<u8>)
    ensures
        r@ == tab_doas_shorts(),
{
    let mut v: Vec<u8> = Vec::new();
    v.push(67u8);
    v.push(117u8);
    assert(v@ =~= tab_doas_shorts());
    v
}

/// The option bytes `CDghpRUTu`.
pub open spec fn tab_sudo_shorts() -> Seq<u8> {
    seq![67u8, 68u8, 103u8, 104u8, 112u8, 82u8, 85u8, 84u8, 117u8]
}

fn make_sudo_shorts() -> (r: Vec<u8>)
    ensures
        r@ == tab_sudo_shorts(),
{
    let mut v: Vec<u8> = Vec::new();
    v.push(67u8);
    v.push(68u8);
    v.push(103u8);
    v.push(104u8);
    v.push(112u8);
    v.push(82u8);
    v.push(85u8);
    v.push(84u8);
    v.push(117u8);
    assert(v@ =~= tab_sudo_shorts());
    v
}

/// The value-taking long options of `sudo`.
pub open spec fn tab_sudo_longs() -> Seq<Seq<u8>> {
    seq![
        // close-from
        seq![99u8, 108u8, 111u8, 115u8, 101u8, 45u8, 102u8, 114u8, 111u8, 109u8],
        // chdir
        seq![99u8, 104u8, 100u8, 105u8, 114u8],
        // group
        seq![103u8, 114u8, 111u8, 117u8, 112u8],
        // host
        seq![104u8, 111u8, 115u8, 116u8],
        // prompt
        seq![112u8, 114u8, 111u8, 109u8, 112u8, 116u8],
        // chroot
        seq![99u8, 104u8, 114u8, 111u8, 111u8, 116u8],
        // other-user
        seq![111u8, 116u8, 104u8, 101u8, 114u8, 45u8, 117u8, 115u8, 101u8, 114u8],
        // command-timeout
        seq![99u8, 111u8, 109u8, 109u8, 97u8, 110u8, 100u8, 45u8, 116u8, 105u8, 109u8, 101u8, 111u8, 117u8, 116u8],
        // user
        seq![117u8, 115u8, 101u8, 114u8]
    ]
}

fn make_sudo_longs() -> (r: Vec<Vec<u8>>)
    ensures
        vecs_view(r@) == tab_sudo_longs(),
{
    // the option names, in table order: close-from, chdir, group, host,
    // prompt, chroot, other-user, command-timeout, user
    let mut r: Vec<Vec<u8>> = Vec::new();
    {
        let mut v: Vec<u8> = Vec::new();
        v.push(99u8);
        v.push(108u8);
        v.push(111u8);
        v.push(115u8);
        v.push(101u8);
        v.push(45u8);
        v.push(102u8);
        v.push(114u8);
        v.push(111u8);
        v.push(109u8);
        assert(v@ =~= seq![99u8, 108u8, 111u8, 115u8, 101u8, 45u8, 102u8, 114u8, 111u8, 109u8]);
        r.push(v);
    }
    {
        let mut v: Vec<u8> = Vec::new();
        v.push(99u8);
        v.push(104u8);
        v.push(100u8);
        v.push(105u8);
        v.push(114u8);
        assert(v@ =~= seq![99u8, 104u8, 100u8, 105u8, 114u8]);
        r.push(v);
    }
    {
        let mut v: Vec<u8> = Vec::new();
        v.push(103u8);
        v.push(114u8);
        v.push(111u8);
        v.push(117u8);
        v.push(112u8);
        assert(v@ =~= seq![103u8, 114u8, 111u8, 117u8, 112u8]);
        r.push(v);
    }
    {
        let mut v: Vec<u8> = Vec::new();
        v.push(104u8);
        v.push(111u8);
        v.push(115u8);
        v.push(116u8);
        assert(v@ =~= seq![104u8, 111u8, 115u8, 116u8]);
        r.push(v);
    }
    {
        let mut v: Vec<u8> = Vec::new();
        v.push(112u8);
        v.push(114u8);
        v.push(111u8);
        v.push(109u8);
        v.push(112u8);
        v.push(116u8);
        assert(v@ =~= seq![112u8, 114u8, 111u8, 109u8, 112u8, 116u8]);
        r.push(v);
    }
    {
        let mut v: Vec<u8> = Vec::new();
        v.push(99u8);
        v.push(104u8);
        v.push(114u8);
        v.push(111u8);
        v.push(111u8);
        v.push(116u8);
        assert(v@ =~= seq![99u8, 104u8, 114u8, 111u8, 111u8, 116u8]);
        r.push(v);
    }
    {
        let mut v: Vec<u8> = Vec::new();
        v.push(111u8);
        v.push(116u8);
        v.push(104u8);
        v.push(101u8);
        v.push(114u8);
        v.push(45u8);
        v.push(117u8);
        v.push(115u8);
        v.push(101u8);
        v.push(114u8);
        assert(v@ =~= seq![111u8, 116u8, 104u8, 101u8, 114u8, 45u8, 117u8, 115u8, 101u8, 114u8]);
        r.push(v);
    }
    {
        let mut v: Vec<u8> = Vec::new();
        v.push(99u8);
        v.push(111u8);
        v.push(109u8);
        v.push(109u8);
        v.push(97u8);
        v.push(110u8);
        v.push(100u8);
        v.push(45u8);
        v.push(116u8);
        v.push(105u8);
        v.push(109u8);
        v.push(101u8);
        v.push(111u8);
        v.push(117u8);
        v.push(116u8);
        assert(v@ =~= seq![99u8, 111u8, 109u8, 109u8, 97u8, 110u8, 100u8, 45u8, 116u8, 105u8, 109u8, 101u8, 111u8, 117u8, 116u8]);
        r.push(v);
    }
    {
        let mut v: Vec<u8> = Vec::new();
        v.push(117u8);
        v.push(115u8);
        v.push(101u8);
        v.push(114u8);
        assert(v@ =~= seq![117u8, 115u8, 101u8, 114u8]);
        r.push(v);
    }
    assert(vecs_view(r@) =~= tab_sudo_longs());
    r
}

/// The outcome of classifying one command-name token: the patch set after
/// any identity patch, the candidate target names, and a fatal conflict if
/// one arose.
pub struct ClassifyV {
    pub patches: Seq<PatchV>,
    pub cands: Seq<CandView>,
    pub err: Option<PatchError>,
}

pub open spec fn opt_idx(c: Option<usize>) -> Option<int> {
    match c {
        Option::None => Option::None,
        Option::Some(x) => Option::Some(x as int),
    }
}

/// The candidates a proxy scan yields: none when the token has no enclosing
/// invocation node.
pub open spec fn spec_scan_opt(
    t: SyntaxTree,
    src: Seq<u8>,
    cmd: Option<int>,
    shorts: Seq<u8>,
    longs: Seq<Seq<u8>>,
    multi: Multiplicity<Seq<u8>>,
    flag: bool,
) -> Seq<CandView> {
    match cmd {
        Option::None => seq![],
        Option::Some(g) => spec_scan(t, src, spec_args(t, g), 0, shorts, longs, multi,
            multi is Always, flag),
    }
}

/// One privilege-wrapper step: the wrapper's own range is pinned with an
/// identity patch whose replacement is the token's decoded literal `name`
/// (unless that exact range is already claimed), and its arguments are
/// scanned for the wrapped command, which bypasses the builtin exclusion.
/// A partial overlap with an existing patch is fatal.
pub open spec fn spec_wrapper(
    t: SyntaxTree,
    src: Seq<u8>,
    c: int,
    cmd: Option<int>,
    patches: Seq<PatchV>,
    name: Seq<u8>,
    shorts: Seq<u8>,
    longs: Seq<Seq<u8>>,
) -> ClassifyV {
    let n = t.nodes@[c];
    let at = spec_locate(patches, n.start as int, n.end as int);
    match at {
        PatchIndex::Duplicate => ClassifyV { patches, cands: seq![], err: Option::None },
        PatchIndex::Conflict(ci) => ClassifyV {
            patches,
            cands: seq![],
            err: Option::Some(PatchError::Conflict {
                start: n.start,
                end: n.end,
                other_start: patches[ci as int].start as usize,
                other_end: patches[ci as int].end as usize,
            }),
        },
        _ => ClassifyV {
            patches: spec_add(patches, at, PatchV {
                start: n.start as int,
                end: n.end as int,
                text: name,
            }),
            cands: spec_scan_opt(t, src, cmd, shorts, longs, Multiplicity::Never, true),
            err: Option::None,
        },
    }
}

/// What classifying the command-name token at `c` does: nothing for an
/// undecodable literal; an argument scan for the proxies `command`, `exec`
/// and `type`; an identity patch plus an argument scan for the wrappers
/// `sudo` and `doas` (recognized by basename); otherwise the literal itself
/// is the sole candidate.
pub open spec fn spec_classify(
    t: SyntaxTree,
    src: Seq<u8>,
    c: int,
    cmd: Option<int>,
    patches: Seq<PatchV>,
) -> ClassifyV {
    match spec_decode_idx(t, src, c) {
        Option::None => ClassifyV { patches, cands: seq![], err: Option::None },
        Option::Some(name) => {
            if name == lit_command() {
                ClassifyV {
                    patches,
                    cands: spec_scan_opt(t, src, cmd, seq![], seq![],
                        Multiplicity::TriggeredBy(tab_command_trigger()), false),
                    err: Option::None,
                }
            } else if name == lit_exec() {
                ClassifyV {
                    patches,
                    cands: spec_scan_opt(t, src, cmd, tab_exec_shorts(), seq![],
                        Multiplicity::Never, true),
                    err: Option::None,
                }
            } else if name == lit_type() {
                ClassifyV {
                    patches,
                    cands: spec_scan_opt(t, src, cmd, seq![], seq![], Multiplicity::Always,
                        false),
                    err: Option::None,
                }
            } else {
                match spec_file_name(name) {
                    Option::Some(base) => if base == lit_doas() {
                        spec_wrapper(t, src, c, cmd, patches, name, tab_doas_shorts(),
                            seq![])
                    } else if base == lit_sudo() {
                        spec_wrapper(t, src, c, cmd, patches, name, tab_sudo_shorts(),
                            tab_sudo_longs())
                    } else {
                        ClassifyV {
                            patches,
                            cands: seq![crate::scan::spec_cand(t, c, name, false)],
                            err: Option::None,
                        }
                    },
                    Option::None => ClassifyV { patches, cands: seq![], err: Option::None },
                }
            }
        }
    }
}

/// Facts the scan guarantees when it answers `Conflict(j)`.
pub proof fn lemma_locate_conflict_facts(s: Seq<PatchV>, start: int, end: int, i: int, j: usize)
    requires
        s.len() <= usize::MAX,
        0 <= i <= s.len(),
        spec_locate_from(s, start, end, i) == PatchIndex::Conflict(j),
    ensures
        i <= j < s.len(),
    decreases s.len() - i,
{
    if i < s.len() {
        let e = s[i];
        if e.start == start && e.end == end {
        } else if start < e.start {
        } else if start < e.end {
        } else {
            lemma_locate_conflict_facts(s, start, end, i + 1, j);
        }
    }
}

/// Scans the arguments of the enclosing invocation, if there is one.
fn scan_opt(
    t: &SyntaxTree,
    src: &Vec<u8>,
    cmd: Option<usize>,
    shorts: &[u8],
    longs: &Vec<Vec<u8>>,
    multi: &Multiplicity<Vec<u8>>,
    flag: bool,
) -> (r: Vec<Candidate>)
    requires
        t.wf(src@.len() as int),
        match cmd {
            Option::Some(g) => g < t.nodes@.len(),
            Option::None => true,
        },
    ensures
        cands_view(r@) == spec_scan_opt(*t, src@, opt_idx(cmd), shorts@, vecs_view(longs@),
            multi_view(*multi), flag),
        crate::scan::cands_bounded(cands_view(r@), src@.len() as int),
{
    match cmd {
        Option::None => {
            let r: Vec<Candidate> = Vec::new();
            assert(cands_view(r@) =~= Seq::<CandView>::empty());
            r
        }
        Option::Some(g) => scan_arguments(t, src, g, shorts, longs, multi, flag),
    }
}

/// Pins the wrapper's own range with an identity patch carrying the token's
/// decoded literal, and scans its arguments for the wrapped command.
fn wrapper_step(
    t: &SyntaxTree,
    src: &Vec<u8>,
    patches: &mut Vec<PatchEntry>,
    c: usize,
    cmd: Option<usize>,
    name: Vec<u8>,
    shorts: &[u8],
    longs: &Vec<Vec<u8>>,
) -> (r: Result<Vec<Candidate>, PatchError>)
    requires
        t.wf(src@.len() as int),
        c < t.nodes@.len(),
        match cmd {
            Option::Some(g) => g < t.nodes@.len(),
            Option::None => true,
        },
        patches_wf(patches_view(old(patches)@)),
        patches_bounded(patches_view(old(patches)@), src@.len() as int),
    ensures
        ({
            let cv = spec_wrapper(*t, src@, c as int, opt_idx(cmd),
                patches_view(old(patches)@), name@, shorts@, vecs_view(longs@));
            &&& patches_view(final(patches)@) == cv.patches
            &&& patches_wf(patches_view(final(patches)@))
            &&& patches_bounded(patches_view(final(patches)@), src@.len() as int)
            &&& match r {
                Ok(cands) => cv.err is None && cands_view(cands@) == cv.cands
                    && crate::scan::cands_bounded(cands_view(cands@), src@.len() as int),
                Err(e) => cv.err == Option::Some(e) && cv.cands == Seq::<CandView>::empty(),
            }
        }),
{
    let node = &t.nodes[c];
    let n = patches.len();
    assert(n == patches@.len());
    let at = get_patch_index(patches, node.start, node.end);
    match at {
        PatchIndex::Duplicate => {
            let r: Vec<Candidate> = Vec::new();
            assert(cands_view(r@) =~= Seq::<CandView>::empty());
            Ok(r)
        }
        PatchIndex::Conflict(ci) => {
            proof {
                assert(patches_view(patches@).len() == patches@.len());
                lemma_locate_conflict_facts(patches_view(patches@), node.start as int,
                    node.end as int, 0, ci);
                assert(patches_view(patches@)[ci as int] == patch_view(patches@[ci as int]));
            }
            Err(PatchError::Conflict {
                start: node.start,
                end: node.end,
                other_start: patches[ci].start,
                other_end: patches[ci].end,
            })
        }
        at => {
            proof {
                assert(patches_view(patches@).len() == patches@.len());
                crate::patches::lemma_add_preserves_bounded(patches_view(patches@), at,
                    PatchV {
                        start: node.start as int,
                        end: node.end as int,
                        text: name@,
                    }, src@.len() as int);
            }
            add_patch(patches, at, PatchEntry { start: node.start, end: node.end, text: name });
            let multi: Multiplicity<Vec<u8>> = Multiplicity::Never;
            Ok(scan_opt(t, src, cmd, shorts, longs, &multi, true))
        }
    }
}

/// Classifies the command-name token at `c`, whose enclosing invocation node
/// (if any) is `cmd`: registers an identity patch for a recognized privilege
/// wrapper, and yields the candidate target names of the invocation.
pub fn parse_command(
    t: &SyntaxTree,
    src: &Vec<u8>,
    patches: &mut Vec<PatchEntry>,
    c: usize,
    cmd: Option<usize>,
) -> (r: Result<Vec<Candidate>, PatchError>)
    requires
        t.wf(src@.len() as int),
        c < t.nodes@.len(),
        match cmd {
            Option::Some(g) => g < t.nodes@.len(),
            Option::None => true,
        },
        patches_wf(patches_view(old(patches)@)),
        patches_bounded(patches_view(old(patches)@), src@.len() as int),
    ensures
        ({
            let cv = spec_classify(*t, src@, c as int, opt_idx(cmd),
                patches_view(old(patches)@));
            &&& patches_view(final(patches)@) == cv.patches
            &&& patches_wf(patches_view(final(patches)@))
            &&& patches_bounded(patches_view(final(patches)@), src@.len() as int)
            &&& match r {
                Ok(cands) => cv.err is None && cands_view(cands@) == cv.cands
                    && crate::scan::cands_bounded(cands_view(cands@), src@.len() as int),
                Err(e) => cv.err == Option::Some(e) && cv.cands == Seq::<CandView>::empty(),
            }
        }),
{
    let node = &t.nodes[c];
    assert(node.start <= node.end <= src@.len());
    let decoded = decode_literal(src, node.kind, node.start, node.end);
    let name = match decoded {
        Option::None => {
            let r: Vec<Candidate> = Vec::new();
            assert(cands_view(r@) =~= Seq::<CandView>::empty());
            return Ok(r);
        }
        Option::Some(v) => v,
    };
    if bytes_eq(&name, &make_command()) {
        let shorts: Vec<u8> = Vec::new();
        let longs: Vec<Vec<u8>> = Vec::new();
        let multi = Multiplicity::TriggeredBy(make_command_trigger());
        proof {
            assert(vecs_view(longs@) =~= Seq::<Seq<u8>>::empty());
            assert(shorts@ =~= Seq::<u8>::empty());
        }
        return Ok(scan_opt(t, src, cmd, shorts.as_slice(), &longs, &multi, false));
    }
    if bytes_eq(&name, &make_exec_()) {
        let shorts = make_exec_shorts();
        let longs: Vec<Vec<u8>> = Vec::new();
        let multi: Multiplicity<Vec<u8>> = Multiplicity::Never;
        proof {
            assert(vecs_view(longs@) =~= Seq::<Seq<u8>>::empty());
        }
        return Ok(scan_opt(t, src, cmd, shorts.as_slice(), &longs, &multi, true));
    }
    if bytes_eq(&name, &make_type_()) {
        let shorts: Vec<u8> = Vec::new();
        let longs: Vec<Vec<u8>> = Vec::new();
        let multi: Multiplicity<Vec<u8>> = Multiplicity::Always;
        proof {
            assert(vecs_view(longs@) =~= Seq::<Seq<u8>>::empty());
            assert(shorts@ =~= Seq::<u8>::empty());
        }
        return Ok(scan_opt(t, src, cmd, shorts.as_slice(), &longs, &multi, false));
    }
    match file_name(&name) {
        Option::Some(base) => {
            if bytes_eq(&base, &make_doas()) {
                let shorts = make_doas_shorts();
                let longs: Vec<Vec<u8>> = Vec::new();
                proof {
                    assert(vecs_view(longs@) =~= Seq::<Seq<u8>>::empty());
                }
                wrapper_step(t, src, patches, c, cmd, name, shorts.as_slice(), &longs)
            } else if bytes_eq(&base, &make_sudo()) {
                let shorts = make_sudo_shorts();
                let longs = make_sudo_longs();
                wrapper_step(t, src, patches, c, cmd, name, shorts.as_slice(), &longs)
            } else {
                let mut r: Vec<Candidate> = Vec::new();
                r.push(Candidate { start: node.start, end: node.end, name, no_builtins: false });
                proof {
                    assert(cands_view(r@) =~= seq![crate::scan::spec_cand(*t, c as int,
                        spec_decode_idx(*t, src@, c as int)->Some_0, false)]);
                }
                Ok(r)
            }
        }
        Option::None => {
            let r: Vec<Candidate> = Vec::new();
            assert(cands_view(r@) =~= Seq::<CandView>::empty());
            Ok(r)
        }
    }
}

} // verus!
