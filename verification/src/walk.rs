//! Depth-first traversal of the syntax tree.
//!
//! Every node is visited once, outer before inner and left to right.  At
//! each command-name node the classifier runs on its literal child (with the
//! enclosing invocation node for argument scanning), identity patches are
//! registered as they are found, and the candidate target names are
//! accumulated in traversal order.  A structural conflict aborts the
//! traversal.

use vstd::prelude::*;
use crate::patches::{PatchEntry, PatchV, patches_view, patches_wf, patches_bounded};
use crate::resolve::{parse_command, spec_classify, opt_idx, PatchError};
use crate::scan::{Candidate, CandView, cands_view, cands_bounded};
use crate::tree::{NodeKind, SyntaxTree};

verus! {

/// The traversal state: the patch set, the candidates found so far, and a
/// fatal conflict if one arose.
pub struct WalkV {
    pub patches: Seq<PatchV>,
    pub cands: Seq<CandView>,
    pub err: Option<PatchError>,
}

/// The state after the command-name step at node `i`: when `i` is a
/// command-name node with a child, its first child is classified, with the
/// parent of `i` as the enclosing invocation.
pub open spec fn spec_visit_command(
    t: SyntaxTree,
    src: Seq<u8>,
    st: WalkV,
    i: int,
    parent: Option<int>,
) -> WalkV {
    let node = t.nodes@[i];
    if node.kind is CommandName && node.children@.len() > 0 {
        let cv = spec_classify(t, src, node.children@[0] as int, parent, st.patches);
        WalkV { patches: cv.patches, cands: st.cands + cv.cands, err: cv.err }
    } else {
        st
    }
}

/// The traversal from node `i` with parent `parent`: the command-name step,
/// then the children in order.  Once a conflict is recorded the state passes
/// through unchanged.
pub open spec fn spec_walk(t: SyntaxTree, src: Seq<u8>, st: WalkV, i: int, parent: Option<int>)
    -> WalkV
    decreases t.nodes@.len() - i, 1int, 0int,
{
    if st.err is Some {
        st
    } else if i < 0 || i >= t.nodes@.len() {
        st
    } else {
        let st1 = spec_visit_command(t, src, st, i, parent);
        spec_walk_children(t, src, st1, i, 0)
    }
}

/// The traversal of the children of node `i`, from child position `k` on.
pub open spec fn spec_walk_children(t: SyntaxTree, src: Seq<u8>, st: WalkV, i: int, k: int)
    -> WalkV
    decreases t.nodes@.len() - i, 0int, t.nodes@[i].children@.len() - k,
{
    if i < 0 || i >= t.nodes@.len() {
        st
    } else if k < 0 || k >= t.nodes@[i].children@.len() {
        st
    } else {
        let c = t.nodes@[i].children@[k] as int;
        let st1 = if i < c < t.nodes@.len() {
            spec_walk(t, src, st, c, Option::Some(i))
        } else {
            st
        };
        spec_walk_children(t, src, st1, i, k + 1)
    }
}

/// A state that carries a conflict passes through the child traversal
/// unchanged.
proof fn lemma_walk_children_err(t: SyntaxTree, src: Seq<u8>, st: WalkV, i: int, k: int)
    requires
        st.err is Some,
    ensures
        spec_walk_children(t, src, st, i, k) == st,
    decreases t.nodes@.len() - i, 0int, t.nodes@[i].children@.len() - k,
{
    if 0 <= i < t.nodes@.len() && 0 <= k < t.nodes@[i].children@.len() {
        let c = t.nodes@[i].children@[k] as int;
        assert(spec_walk(t, src, st, c, Option::Some(i)) == st);
        lemma_walk_children_err(t, src, st, i, k + 1);
    }
}

/// Visits the subtree rooted at node `i`, whose parent is `parent`:
/// classifies every command-name node, registering identity patches in
/// `patches` and appending candidate target names to `cands`, in traversal
/// order.  A structural conflict aborts with the two offending ranges.
pub fn walk(
    t: &SyntaxTree,
    src: &Vec<u8>,
    patches: &mut Vec<PatchEntry>,
    cands: &mut Vec<Candidate>,
    i: usize,
    parent: Option<usize>,
) -> (r: Result<(), PatchError>)
    requires
        t.wf(src@.len() as int),
        i < t.nodes@.len(),
        match parent {
            Option::Some(g) => g < t.nodes@.len(),
            Option::None => true,
        },
        patches_wf(patches_view(old(patches)@)),
        patches_bounded(patches_view(old(patches)@), src@.len() as int),
        cands_bounded(cands_view(old(cands)@), src@.len() as int),
    ensures
        ({
            let stv = spec_walk(
                *t,
                src@,
                WalkV {
                    patches: patches_view(old(patches)@),
                    cands: cands_view(old(cands)@),
                    err: Option::None,
                },
                i as int,
                opt_idx(parent),
            );
            &&& patches_view(final(patches)@) == stv.patches
            &&& cands_view(final(cands)@) == stv.cands
            &&& patches_wf(patches_view(final(patches)@))
            &&& patches_bounded(patches_view(final(patches)@), src@.len() as int)
            &&& cands_bounded(cands_view(final(cands)@), src@.len() as int)
            &&& match r {
                Ok(_) => stv.err is None,
                Err(e) => stv.err == Option::Some(e),
            }
        }),
    decreases t.nodes@.len() - i,
{
    let ghost st0 = WalkV {
        patches: patches_view(patches@),
        cands: cands_view(cands@),
        err: Option::None,
    };
    let is_command_name = match t.nodes[i].kind {
        NodeKind::CommandName => true,
        _ => false,
    };
    if is_command_name && t.nodes[i].children.len() > 0 {
        let c = t.nodes[i].children[0];
        assert(i < c < t.nodes@.len());
        match parse_command(t, src, patches, c, parent) {
            Ok(mut cs) => {
                cands.append(&mut cs);
                proof {
                    assert(cands_view(cands@) =~= st0.cands + spec_classify(
                        *t, src@, c as int, opt_idx(parent), st0.patches).cands);
                }
            }
            Err(e) => {
                proof {
                    let cv = spec_classify(*t, src@, c as int, opt_idx(parent), st0.patches);
                    assert(st0.cands + cv.cands =~= st0.cands);
                    let st1 = spec_visit_command(*t, src@, st0, i as int, opt_idx(parent));
                    lemma_walk_children_err(*t, src@, st1, i as int, 0);
                }
                return Err(e);
            }
        }
    }
    let ghost st1 = spec_visit_command(*t, src@, st0, i as int, opt_idx(parent));
    assert(patches_view(patches@) == st1.patches);
    assert(cands_view(cands@) == st1.cands);
    let n_ch = t.nodes[i].children.len();
    let mut k: usize = 0;
    while k < n_ch
        invariant
            t.wf(src@.len() as int),
            i < t.nodes@.len(),
            k <= n_ch,
            n_ch == t.nodes@[i as int].children@.len(),
            patches_wf(patches_view(patches@)),
            patches_bounded(patches_view(patches@), src@.len() as int),
            cands_bounded(cands_view(cands@), src@.len() as int),
            st0 == (WalkV {
                patches: patches_view(old(patches)@),
                cands: cands_view(old(cands)@),
                err: Option::<PatchError>::None,
            }),
            st1 == spec_visit_command(*t, src@, st0, i as int, opt_idx(parent)),
            spec_walk_children(*t, src@, st1, i as int, 0) == spec_walk_children(
                *t,
                src@,
                WalkV {
                    patches: patches_view(patches@),
                    cands: cands_view(cands@),
                    err: Option::None,
                },
                i as int,
                k as int,
            ),
        decreases n_ch - k,
    {
        let c = t.nodes[i].children[k];
        assert(i < c < t.nodes@.len());
        let ghost cur = WalkV {
            patches: patches_view(patches@),
            cands: cands_view(cands@),
            err: Option::None,
        };
        match walk(t, src, patches, cands, c, Some(i)) {
            Ok(_) => {}
            Err(e) => {
                proof {
                    let st2 = spec_walk(*t, src@, cur, c as int, Option::Some(i as int));
                    assert(patches_view(patches@) == st2.patches);
                    assert(cands_view(cands@) == st2.cands);
                    lemma_walk_children_err(*t, src@, st2, i as int, k as int + 1);
                    assert(spec_walk_children(*t, src@, cur, i as int, k as int) == st2);
                    assert(spec_walk_children(*t, src@, st1, i as int, 0) == st2);
                    assert(spec_walk(*t, src@, st0, i as int, opt_idx(parent)) == st2);
                }
                return Err(e);
            }
        }
        k = k + 1;
    }
    proof {
        let cur = WalkV {
            patches: patches_view(patches@),
            cands: cands_view(cands@),
            err: Option::None,
        };
        assert(spec_walk_children(*t, src@, cur, i as int, n_ch as int) == cur);
    }
    Ok(())
}

} // verus!
