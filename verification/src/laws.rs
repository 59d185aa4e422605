//! Crate-level laws relating the traversal, the resolver, and the emitter.

use vstd::prelude::*;
use crate::emit::{spec_emit, spec_escape, entry_reproduces, lemma_emit_empty,
    lemma_identity_patches_reproduce};
use crate::lookup::spec_lookup_key;
use crate::machine::{spec_advance, PhaseV};
use crate::patches::{PatchV, PatchIndex, patches_wf, patches_bounded, ranges_distinct,
    spec_locate, spec_add, locate_places, lemma_locate_insert_facts, lemma_locate_replace_facts,
    lemma_add_preserves_wf, lemma_add_preserves_bounded, lemma_add_preserves_distinct,
    lemma_wf_distinct_count};
use crate::resolve::{spec_classify, spec_scan_opt, PatchError, lit_command, lit_exec,
    lit_type, lit_sudo, lit_doas, tab_doas_shorts, tab_sudo_shorts, tab_sudo_longs};
use crate::scan::{CandView, Multiplicity, spec_decode_idx, spec_scan, spec_args};
use crate::path::{spec_file_name, spec_starts_with};
use crate::tree::SyntaxTree;
use crate::walk::{spec_walk, spec_walk_children, spec_visit_command, WalkV};

verus! {

/// Every candidate's name lies under the store root.
pub open spec fn cands_store_rooted(cs: Seq<CandView>, store: Seq<u8>) -> bool {
    forall|k: int| 0 <= k < cs.len() ==> spec_starts_with((#[trigger] cs[k]).name, store)
}

/// Every command token of the tree decodes to a store-rooted name that is
/// neither a proxy command nor a privilege wrapper (or does not decode at
/// all).  Scripts that do hold wrapper tokens are covered by
/// `command_tokens_pinned` and `lemma_pinned_idempotence`.
pub open spec fn command_tokens_store_rooted(t: SyntaxTree, src: Seq<u8>, store: Seq<u8>) -> bool {
    forall|i: int| 0 <= i < t.nodes@.len() && (#[trigger] t.nodes@[i]).kind is CommandName
        && t.nodes@[i].children@.len() > 0 ==> {
        let c = t.nodes@[i].children@[0] as int;
        match spec_decode_idx(t, src, c) {
            Option::Some(n) => spec_starts_with(n, store) && n != lit_command() && n != lit_exec()
                && n != lit_type() && (match spec_file_name(n) {
                Option::Some(b) => b != lit_sudo() && b != lit_doas(),
                Option::None => true,
            }),
            Option::None => true,
        }
    }
}

/// Classifying such a command token changes no patch and yields only
/// store-rooted candidates.
proof fn lemma_classify_store_rooted(
    t: SyntaxTree,
    src: Seq<u8>,
    c: int,
    cmd: Option<int>,
    patches: Seq<PatchV>,
    store: Seq<u8>,
)
    requires
        match spec_decode_idx(t, src, c) {
            Option::Some(n) => spec_starts_with(n, store) && n != lit_command() && n != lit_exec()
                && n != lit_type() && (match spec_file_name(n) {
                Option::Some(b) => b != lit_sudo() && b != lit_doas(),
                Option::None => true,
            }),
            Option::None => true,
        },
    ensures
        ({
            let cv = spec_classify(t, src, c, cmd, patches);
            &&& cv.patches == patches
            &&& cv.err is None
            &&& cands_store_rooted(cv.cands, store)
        }),
{
    let cv = spec_classify(t, src, c, cmd, patches);
    match spec_decode_idx(t, src, c) {
        Option::Some(n) => {
            match spec_file_name(n) {
                Option::Some(b) => {
                    assert(cv.cands == seq![crate::scan::spec_cand(t, c, n, false)]);
                    assert(cands_store_rooted(cv.cands, store));
                }
                Option::None => {
                    assert(cv.cands =~= Seq::<CandView>::empty());
                }
            }
        }
        Option::None => {
            assert(cv.cands =~= Seq::<CandView>::empty());
        }
    }
}

/// The traversal over such a tree changes no patch, records no conflict,
/// and yields only store-rooted candidates.
proof fn lemma_walk_store_rooted(
    t: SyntaxTree,
    src: Seq<u8>,
    st: WalkV,
    i: int,
    parent: Option<int>,
    store: Seq<u8>,
)
    requires
        command_tokens_store_rooted(t, src, store),
        st.err is None,
        cands_store_rooted(st.cands, store),
    ensures
        ({
            let r = spec_walk(t, src, st, i, parent);
            &&& r.err is None
            &&& r.patches == st.patches
            &&& cands_store_rooted(r.cands, store)
        }),
    decreases t.nodes@.len() - i, 1int, 0int,
{
    if 0 <= i < t.nodes@.len() {
        let st1 = spec_visit_command(t, src, st, i, parent);
        let node = t.nodes@[i];
        if node.kind is CommandName && node.children@.len() > 0 {
            let c = node.children@[0] as int;
            lemma_classify_store_rooted(t, src, c, parent, st.patches, store);
            let cv = spec_classify(t, src, c, parent, st.patches);
            assert forall|k: int| 0 <= k < st1.cands.len()
                implies spec_starts_with((#[trigger] st1.cands[k]).name, store) by {
                if k < st.cands.len() {
                    assert(st1.cands[k] == st.cands[k]);
                } else {
                    assert(st1.cands[k] == cv.cands[k - st.cands.len()]);
                }
            }
        }
        lemma_walk_children_store_rooted(t, src, st1, i, 0, store);
    }
}

/// The child traversal over such a tree changes no patch, records no
/// conflict, and yields only store-rooted candidates.
proof fn lemma_walk_children_store_rooted(
    t: SyntaxTree,
    src: Seq<u8>,
    st: WalkV,
    i: int,
    k: int,
    store: Seq<u8>,
)
    requires
        command_tokens_store_rooted(t, src, store),
        st.err is None,
        cands_store_rooted(st.cands, store),
    ensures
        ({
            let r = spec_walk_children(t, src, st, i, k);
            &&& r.err is None
            &&& r.patches == st.patches
            &&& cands_store_rooted(r.cands, store)
        }),
    decreases t.nodes@.len() - i, 0int, t.nodes@[i].children@.len() - k,
{
    if 0 <= i < t.nodes@.len() && 0 <= k < t.nodes@[i].children@.len() {
        let c = t.nodes@[i].children@[k] as int;
        if i < c < t.nodes@.len() {
            lemma_walk_store_rooted(t, src, st, c, Option::Some(i), store);
        }
        let st1 = if i < c < t.nodes@.len() {
            spec_walk(t, src, st, c, Option::Some(i))
        } else {
            st
        };
        lemma_walk_children_store_rooted(t, src, st1, i, k + 1, store);
    }
}

/// A store-rooted candidate yields no lookup key, so resolution skips every
/// one of them without asking the filesystem anything.
proof fn lemma_advance_skips_store_rooted(
    builtins: Seq<Seq<u8>>,
    paths: Seq<Seq<u8>>,
    store: Seq<u8>,
    patches: Seq<PatchV>,
    cands: Seq<CandView>,
    cur: int,
)
    requires
        cands_store_rooted(cands, store),
        0 <= cur,
    ensures
        spec_advance(builtins, paths, store, patches, cands, cur)
            == Result::<PhaseV, PatchError>::Ok(PhaseV::Done),
    decreases cands.len() - cur,
{
    if cur < cands.len() {
        assert(spec_lookup_key(cands[cur].name, builtins, cands[cur].no_builtins, store)
            is None);
        lemma_advance_skips_store_rooted(builtins, paths, store, patches, cands, cur + 1);
    }
}

/// Idempotence on an already-pinned, wrapper-free script: when every command
/// token is a store-rooted absolute path — and names no proxy command and no
/// privilege wrapper — the traversal adds no patch and records no conflict,
/// resolution finishes without a single filesystem question, and the output
/// is the source, byte for byte.  `lemma_pinned_idempotence` extends this to
/// scripts that hold wrapper tokens.
pub proof fn lemma_identity_idempotence(
    t: SyntaxTree,
    src: Seq<u8>,
    builtins: Seq<Seq<u8>>,
    paths: Seq<Seq<u8>>,
    store: Seq<u8>,
)
    requires
        command_tokens_store_rooted(t, src, store),
    ensures
        ({
            let st0 = WalkV {
                patches: seq![],
                cands: Seq::<CandView>::empty(),
                err: Option::None,
            };
            let stv = if t.nodes@.len() > 0 {
                spec_walk(t, src, st0, 0, Option::None)
            } else {
                st0
            };
            &&& stv.err is None
            &&& stv.patches == Seq::<PatchV>::empty()
            &&& spec_advance(builtins, paths, store, stv.patches, stv.cands, 0)
                == Result::<PhaseV, PatchError>::Ok(PhaseV::Done)
            &&& spec_emit(src, stv.patches) == src
        }),
{
    let st0 = WalkV { patches: seq![], cands: Seq::<CandView>::empty(), err: Option::None };
    assert(cands_store_rooted(st0.cands, store));
    let stv = if t.nodes@.len() > 0 {
        spec_walk(t, src, st0, 0, Option::None)
    } else {
        st0
    };
    if t.nodes@.len() > 0 {
        lemma_walk_store_rooted(t, src, st0, 0, Option::None, store);
    }
    assert(stv.patches =~= Seq::<PatchV>::empty());
    lemma_advance_skips_store_rooted(builtins, paths, store, stv.patches, stv.cands, 0);
    lemma_emit_empty(src);
    assert(spec_emit(src, stv.patches) == src);
}

/// Decoder conservatism at the engine level: a command token whose literal
/// does not decode — for instance one holding an unescaped dollar sign
/// before its final byte — contributes no candidate and no patch, so its
/// range is never present in the output patch set.
pub proof fn lemma_undecodable_token_untouched(
    t: SyntaxTree,
    src: Seq<u8>,
    c: int,
    cmd: Option<int>,
    patches: Seq<PatchV>,
)
    requires
        spec_decode_idx(t, src, c) is None,
    ensures
        ({
            let cv = spec_classify(t, src, c, cmd, patches);
            &&& cv.cands == Seq::<CandView>::empty()
            &&& cv.patches == patches
            &&& cv.err is None
        }),
{
    let cv = spec_classify(t, src, c, cmd, patches);
    assert(cv.cands =~= Seq::<CandView>::empty());
}

/// Wrapper pinning: classifying a command token whose basename is a
/// privilege wrapper registers an identity patch over the wrapper's own
/// range — its replacement text is the token's own decoded literal, so the
/// wrapper is reproduced in place — and the candidates come from the
/// argument scan alone, with the builtin exclusion bypassed; the wrapper's
/// own range is thereby claimed and never replaced by a resolved path.
pub proof fn lemma_wrapper_pinned(
    t: SyntaxTree,
    src: Seq<u8>,
    c: int,
    cmd: Option<int>,
    patches: Seq<PatchV>,
)
    requires
        spec_decode_idx(t, src, c) matches Option::Some(n) && n != lit_command()
            && n != lit_exec() && n != lit_type() && spec_file_name(n)
            == Option::Some(lit_sudo()),
        locate_places(
            spec_locate(patches, t.nodes@[c].start as int, t.nodes@[c].end as int),
        ),
    ensures
        ({
            let node = t.nodes@[c];
            let at = spec_locate(patches, node.start as int, node.end as int);
            let cv = spec_classify(t, src, c, cmd, patches);
            &&& cv.err is None
            &&& cv.patches == spec_add(patches, at, PatchV {
                start: node.start as int,
                end: node.end as int,
                text: spec_decode_idx(t, src, c)->Some_0,
            })
            &&& cv.cands == spec_scan_opt(t, src, cmd, tab_sudo_shorts(), tab_sudo_longs(),
                Multiplicity::Never, true)
        }),
{
    assert(lit_sudo() != lit_doas()) by {
        assert(lit_sudo()[0] == 115u8);
        assert(lit_doas()[0] == 100u8);
    }
}

/// Every command token of a fully pinned script decodes to a store-rooted
/// name that is no proxy command; a token whose basename is a privilege
/// wrapper must moreover spell its own decoded value — its escaped literal
/// equals the token's source bytes, as any unquoted, unescaped token of
/// safe bytes does.
pub open spec fn command_tokens_pinned(t: SyntaxTree, src: Seq<u8>, store: Seq<u8>) -> bool {
    forall|i: int| 0 <= i < t.nodes@.len() && (#[trigger] t.nodes@[i]).kind is CommandName
        && t.nodes@[i].children@.len() > 0 ==> {
        let c = t.nodes@[i].children@[0] as int;
        match spec_decode_idx(t, src, c) {
            Option::Some(n) => spec_starts_with(n, store) && n != lit_command() && n != lit_exec()
                && n != lit_type() && (match spec_file_name(n) {
                Option::Some(b) => (b == lit_sudo() || b == lit_doas()) ==> spec_escape(n)
                    == src.subrange(t.nodes@[c].start as int, t.nodes@[c].end as int),
                Option::None => true,
            }),
            Option::None => true,
        }
    }
}

/// Every candidate that a privilege wrapper's argument scan can yield, at
/// any invocation node, is store-rooted.
pub open spec fn wrapper_scans_store_rooted(t: SyntaxTree, src: Seq<u8>, store: Seq<u8>) -> bool {
    forall|g: int| #![trigger spec_args(t, g)]
        cands_store_rooted(spec_scan(t, src, spec_args(t, g), 0, tab_sudo_shorts(),
            tab_sudo_longs(), Multiplicity::Never, false, true), store)
        && cands_store_rooted(spec_scan(t, src, spec_args(t, g), 0, tab_doas_shorts(),
            seq![], Multiplicity::Never, false, true), store)
}

/// The patch-set facts a fully pinned script's traversal maintains: the set
/// is well-formed, inside the source, free of repeated ranges, and every
/// entry is an identity patch.
pub open spec fn patches_pinned_inv(src: Seq<u8>, ps: Seq<PatchV>) -> bool {
    &&& patches_wf(ps)
    &&& patches_bounded(ps, src.len() as int)
    &&& ranges_distinct(ps)
    &&& forall|i: int| 0 <= i < ps.len() ==> entry_reproduces(src, #[trigger] ps[i])
}

/// Classifying a pinned command token keeps the patch set an identity patch
/// set and yields only store-rooted candidates.
proof fn lemma_classify_pinned(
    t: SyntaxTree,
    src: Seq<u8>,
    c: int,
    cmd: Option<int>,
    patches: Seq<PatchV>,
    store: Seq<u8>,
)
    requires
        t.wf(src.len() as int),
        0 <= c < t.nodes@.len(),
        2 * src.len() + 2 <= usize::MAX,
        match spec_decode_idx(t, src, c) {
            Option::Some(n) => spec_starts_with(n, store) && n != lit_command() && n != lit_exec()
                && n != lit_type() && (match spec_file_name(n) {
                Option::Some(b) => (b == lit_sudo() || b == lit_doas()) ==> spec_escape(n)
                    == src.subrange(t.nodes@[c].start as int, t.nodes@[c].end as int),
                Option::None => true,
            }),
            Option::None => true,
        },
        wrapper_scans_store_rooted(t, src, store),
        patches_pinned_inv(src, patches),
    ensures
        ({
            let cv = spec_classify(t, src, c, cmd, patches);
            &&& patches_pinned_inv(src, cv.patches)
            &&& cands_store_rooted(cv.cands, store)
        }),
{
    let cv = spec_classify(t, src, c, cmd, patches);
    match spec_decode_idx(t, src, c) {
        Option::Some(n) => {
            match spec_file_name(n) {
                Option::Some(b) => {
                    if b == lit_sudo() || b == lit_doas() {
                        assert(lit_sudo() != lit_doas()) by {
                            assert(lit_sudo()[0] == 115u8);
                            assert(lit_doas()[0] == 100u8);
                        }
                        let node = t.nodes@[c];
                        assert(node.start <= node.end <= src.len());
                        lemma_wf_distinct_count(patches, src.len() as int);
                        let at = spec_locate(patches, node.start as int, node.end as int);
                        let e = PatchV {
                            start: node.start as int,
                            end: node.end as int,
                            text: n,
                        };
                        match at {
                            PatchIndex::Duplicate => {
                                assert(cv.cands =~= Seq::<CandView>::empty());
                            }
                            PatchIndex::Conflict(ci) => {
                                assert(cv.cands =~= Seq::<CandView>::empty());
                            }
                            _ => {
                                lemma_add_preserves_wf(patches, at, e);
                                lemma_add_preserves_bounded(patches, at, e,
                                    src.len() as int);
                                lemma_add_preserves_distinct(patches, at, e);
                                let added = spec_add(patches, at, e);
                                assert forall|p: int| 0 <= p < added.len()
                                    implies entry_reproduces(src, #[trigger] added[p]) by {
                                    match at {
                                        PatchIndex::Insert(j) => {
                                            lemma_locate_insert_facts(patches, e.start,
                                                e.end, 0, j);
                                            if p < j {
                                                assert(added[p] == patches[p]);
                                            } else if p == j {
                                                assert(added[p] == e);
                                            } else {
                                                assert(added[p] == patches[p - 1]);
                                            }
                                        }
                                        PatchIndex::Replace(j) => {
                                            lemma_locate_replace_facts(patches, e.start,
                                                e.end, 0, j);
                                            if p == j {
                                                assert(added[p] == e);
                                            } else {
                                                assert(added[p] == patches[p]);
                                            }
                                        }
                                        _ => {}
                                    }
                                }
                                // the wrapper's candidates come from its
                                // argument scan, covered by the hypothesis
                                match cmd {
                                    Option::Some(g) => {
                                        assert(spec_args(t, g) == spec_args(t, g));
                                        assert((Multiplicity::<Seq<u8>>::Never is Always)
                                            == false);
                                    }
                                    Option::None => {
                                        assert(cv.cands =~= Seq::<CandView>::empty());
                                    }
                                }
                            }
                        }
                    } else {
                        assert(cv.cands == seq![crate::scan::spec_cand(t, c, n, false)]);
                        assert(cands_store_rooted(cv.cands, store));
                    }
                }
                Option::None => {
                    assert(cv.cands =~= Seq::<CandView>::empty());
                }
            }
        }
        Option::None => {
            assert(cv.cands =~= Seq::<CandView>::empty());
        }
    }
}

/// The traversal of a fully pinned script keeps the patch set an identity
/// patch set and yields only store-rooted candidates, whether or not a
/// structural conflict stops it.
proof fn lemma_walk_pinned(
    t: SyntaxTree,
    src: Seq<u8>,
    st: WalkV,
    i: int,
    parent: Option<int>,
    store: Seq<u8>,
)
    requires
        t.wf(src.len() as int),
        2 * src.len() + 2 <= usize::MAX,
        command_tokens_pinned(t, src, store),
        wrapper_scans_store_rooted(t, src, store),
        cands_store_rooted(st.cands, store),
        patches_pinned_inv(src, st.patches),
    ensures
        ({
            let r = spec_walk(t, src, st, i, parent);
            &&& patches_pinned_inv(src, r.patches)
            &&& cands_store_rooted(r.cands, store)
        }),
    decreases t.nodes@.len() - i, 1int, 0int,
{
    if st.err is None && 0 <= i < t.nodes@.len() {
        let st1 = spec_visit_command(t, src, st, i, parent);
        let node = t.nodes@[i];
        if node.kind is CommandName && node.children@.len() > 0 {
            let c = node.children@[0] as int;
            assert(i < c < t.nodes@.len());
            lemma_classify_pinned(t, src, c, parent, st.patches, store);
            let cv = spec_classify(t, src, c, parent, st.patches);
            assert forall|k: int| 0 <= k < st1.cands.len()
                implies spec_starts_with((#[trigger] st1.cands[k]).name, store) by {
                if k < st.cands.len() {
                    assert(st1.cands[k] == st.cands[k]);
                } else {
                    assert(st1.cands[k] == cv.cands[k - st.cands.len()]);
                }
            }
        }
        lemma_walk_children_pinned(t, src, st1, i, 0, store);
    }
}

/// The child traversal of a fully pinned script, from child position `k`.
proof fn lemma_walk_children_pinned(
    t: SyntaxTree,
    src: Seq<u8>,
    st: WalkV,
    i: int,
    k: int,
    store: Seq<u8>,
)
    requires
        t.wf(src.len() as int),
        2 * src.len() + 2 <= usize::MAX,
        command_tokens_pinned(t, src, store),
        wrapper_scans_store_rooted(t, src, store),
        cands_store_rooted(st.cands, store),
        patches_pinned_inv(src, st.patches),
    ensures
        ({
            let r = spec_walk_children(t, src, st, i, k);
            &&& patches_pinned_inv(src, r.patches)
            &&& cands_store_rooted(r.cands, store)
        }),
    decreases t.nodes@.len() - i, 0int, t.nodes@[i].children@.len() - k,
{
    if 0 <= i < t.nodes@.len() && 0 <= k < t.nodes@[i].children@.len() {
        let c = t.nodes@[i].children@[k] as int;
        if i < c < t.nodes@.len() {
            lemma_walk_pinned(t, src, st, c, Option::Some(i), store);
        }
        let st1 = if i < c < t.nodes@.len() {
            spec_walk(t, src, st, c, Option::Some(i))
        } else {
            st
        };
        lemma_walk_children_pinned(t, src, st1, i, k + 1, store);
    }
}

/// Idempotence on a fully pinned script, privilege wrappers included: when
/// every command token is a store-rooted absolute path that names no proxy
/// command, and every wrapper token spells its own decoded value and wraps
/// only store-rooted targets, the traversal leaves nothing but identity
/// patches, resolution finishes without a single filesystem question, and
/// whatever patch set the traversal reached renders the source, byte for
/// byte.
pub proof fn lemma_pinned_idempotence(
    t: SyntaxTree,
    src: Seq<u8>,
    builtins: Seq<Seq<u8>>,
    paths: Seq<Seq<u8>>,
    store: Seq<u8>,
)
    requires
        t.wf(src.len() as int),
        2 * src.len() + 2 <= usize::MAX,
        command_tokens_pinned(t, src, store),
        wrapper_scans_store_rooted(t, src, store),
    ensures
        ({
            let st0 = WalkV {
                patches: seq![],
                cands: Seq::<CandView>::empty(),
                err: Option::None,
            };
            let stv = if t.nodes@.len() > 0 {
                spec_walk(t, src, st0, 0, Option::None)
            } else {
                st0
            };
            &&& spec_advance(builtins, paths, store, stv.patches, stv.cands, 0)
                == Result::<PhaseV, PatchError>::Ok(PhaseV::Done)
            &&& spec_emit(src, stv.patches) == src
        }),
{
    let st0 = WalkV { patches: seq![], cands: Seq::<CandView>::empty(), err: Option::None };
    assert(cands_store_rooted(st0.cands, store));
    assert(patches_pinned_inv(src, st0.patches));
    let stv = if t.nodes@.len() > 0 {
        spec_walk(t, src, st0, 0, Option::None)
    } else {
        st0
    };
    if t.nodes@.len() > 0 {
        lemma_walk_pinned(t, src, st0, 0, Option::None, store);
    }
    lemma_advance_skips_store_rooted(builtins, paths, store, stv.patches, stv.cands, 0);
    lemma_identity_patches_reproduce(src, stv.patches);
}

} // verus!
