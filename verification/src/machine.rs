//! Resolving candidates against the filesystem, one question at a time.
//!
//! The engine itself never touches the filesystem.  After the traversal it
//! hands out questions — is this path an executable file, what does this
//! symbolic link point to — and the caller answers them; every decision
//! about the answers is made here.  For each candidate in turn: the lookup
//! key is derived, the search path is probed in order, the first hit's
//! symlink chain is followed while the target keeps the key as its final
//! component, and the final path is recorded as a patch only when it lies
//! under the store root.

use vstd::prelude::*;
use crate::bytes::{bytes_eq, copy_bytes};
use crate::context::Context;
use crate::emit::{emit, spec_emit};
use crate::lookup::{lookup_key, spec_lookup_key};
use crate::patches::{PatchEntry, PatchV, PatchIndex, patch_view, patches_view, patches_wf,
    patches_bounded, spec_locate, spec_add, get_patch_index, add_patch,
    lemma_add_preserves_bounded};
use crate::path::{file_name, path_join, path_starts_with, spec_file_name, spec_join,
    spec_starts_with};
use crate::resolve::{PatchError, lemma_locate_conflict_facts};
use crate::scan::{Candidate, CandView, cand_view, cands_view, cands_bounded, vecs_view};
use crate::tree::SyntaxTree;
use crate::walk::{walk, spec_walk, WalkV};

verus! {

/// A question for the filesystem: whether a path is an executable regular
/// file, or what a symbolic link's target is.
pub enum FsQuery {
    IsExecutable(Vec<u8>),
    ReadLink(Vec<u8>),
}

/// Where resolution stands: probing the search path for a candidate's key,
/// following a symlink chain, or finished.
pub enum Phase {
    Searching { cur: usize, key: Vec<u8>, dir: usize },
    Following { cur: usize, key: Vec<u8>, current: Vec<u8> },
    Done,
}

/// The specification view of a phase.
pub enum PhaseV {
    Searching { cur: int, key: Seq<u8>, dir: int },
    Following { cur: int, key: Seq<u8>, current: Seq<u8> },
    Done,
}

pub open spec fn phase_view(p: Phase) -> PhaseV {
    match p {
        Phase::Searching { cur, key, dir } => PhaseV::Searching {
            cur: cur as int,
            key: key@,
            dir: dir as int,
        },
        Phase::Following { cur, key, current } => PhaseV::Following {
            cur: cur as int,
            key: key@,
            current: current@,
        },
        Phase::Done => PhaseV::Done,
    }
}

/// The conflict error naming the candidate's range and the range of the
/// existing entry it overlaps.
pub open spec fn spec_conflict(c: CandView, other: PatchV) -> PatchError {
    PatchError::Conflict {
        start: c.start as usize,
        end: c.end as usize,
        other_start: other.start as usize,
        other_end: other.end as usize,
    }
}

/// From candidate `cur` on, the phase where resolution continues: a
/// candidate whose name yields no lookup key (already store-rooted, not a
/// plain name, or an excluded builtin), whose exact range is already
/// patched, or with an empty search path is skipped; a partial overlap with
/// an existing patch is fatal; otherwise the search starts at the first
/// search-path directory.
pub open spec fn spec_advance(
    builtins: Seq<Seq<u8>>,
    paths: Seq<Seq<u8>>,
    store: Seq<u8>,
    patches: Seq<PatchV>,
    cands: Seq<CandView>,
    cur: int,
) -> Result<PhaseV, PatchError>
    decreases cands.len() - cur,
{
    if cur < 0 || cur >= cands.len() {
        Result::Ok(PhaseV::Done)
    } else {
        let c = cands[cur];
        match spec_lookup_key(c.name, builtins, c.no_builtins, store) {
            Option::None => spec_advance(builtins, paths, store, patches, cands, cur + 1),
            Option::Some(key) => match spec_locate(patches, c.start, c.end) {
                PatchIndex::Duplicate => spec_advance(builtins, paths, store, patches, cands,
                    cur + 1),
                PatchIndex::Conflict(ci) => Result::Err(spec_conflict(c, patches[ci as int])),
                _ => if paths.len() == 0 {
                    spec_advance(builtins, paths, store, patches, cands, cur + 1)
                } else {
                    Result::Ok(PhaseV::Searching { cur, key, dir: 0 })
                },
            },
        }
    }
}

/// What an answer to a search-path probe does: a hit starts following the
/// symlink chain at the joined path; a miss tries the next directory, or
/// moves on to the next candidate after the last one.
pub open spec fn spec_answer_exec(
    builtins: Seq<Seq<u8>>,
    paths: Seq<Seq<u8>>,
    store: Seq<u8>,
    patches: Seq<PatchV>,
    cands: Seq<CandView>,
    cur: int,
    key: Seq<u8>,
    dir: int,
    reply: bool,
) -> Result<(Seq<PatchV>, PhaseV), PatchError> {
    if reply {
        Result::Ok((patches, PhaseV::Following {
            cur,
            key,
            current: spec_join(paths[dir], key),
        }))
    } else if dir + 1 < paths.len() {
        Result::Ok((patches, PhaseV::Searching { cur, key, dir: dir + 1 }))
    } else {
        match spec_advance(builtins, paths, store, patches, cands, cur + 1) {
            Result::Ok(ph) => Result::Ok((patches, ph)),
            Result::Err(e) => Result::Err(e),
        }
    }
}

/// The end of one candidate's resolution: the final path is recorded as a
/// patch only when it lies under the store root, and resolution moves on to
/// the next candidate.
pub open spec fn spec_finalize(
    builtins: Seq<Seq<u8>>,
    paths: Seq<Seq<u8>>,
    store: Seq<u8>,
    patches: Seq<PatchV>,
    cands: Seq<CandView>,
    cur: int,
    current: Seq<u8>,
) -> Result<(Seq<PatchV>, PhaseV), PatchError> {
    let c = cands[cur];
    if spec_starts_with(current, store) {
        let at = spec_locate(patches, c.start, c.end);
        match at {
            PatchIndex::Conflict(ci) => Result::Err(spec_conflict(c, patches[ci as int])),
            PatchIndex::Duplicate => match spec_advance(builtins, paths, store, patches, cands,
                cur + 1) {
                Result::Ok(ph) => Result::Ok((patches, ph)),
                Result::Err(e) => Result::Err(e),
            },
            _ => {
                let p2 = spec_add(patches, at, PatchV {
                    start: c.start,
                    end: c.end,
                    text: current,
                });
                match spec_advance(builtins, paths, store, p2, cands, cur + 1) {
                    Result::Ok(ph) => Result::Ok((p2, ph)),
                    Result::Err(e) => Result::Err(e),
                }
            },
        }
    } else {
        match spec_advance(builtins, paths, store, patches, cands, cur + 1) {
            Result::Ok(ph) => Result::Ok((patches, ph)),
            Result::Err(e) => Result::Err(e),
        }
    }
}

/// What an answer to a symlink question does: while the target's final path
/// component still equals the lookup key the chain is followed; the first
/// divergence — or a path that is no symlink — ends the chain at the path
/// reached so far.
pub open spec fn spec_answer_link(
    builtins: Seq<Seq<u8>>,
    paths: Seq<Seq<u8>>,
    store: Seq<u8>,
    patches: Seq<PatchV>,
    cands: Seq<CandView>,
    cur: int,
    key: Seq<u8>,
    current: Seq<u8>,
    reply: Option<Seq<u8>>,
) -> Result<(Seq<PatchV>, PhaseV), PatchError> {
    match reply {
        Option::Some(target) => if spec_file_name(target) == Option::Some(key) {
            Result::Ok((patches, PhaseV::Following { cur, key, current: target }))
        } else {
            spec_finalize(builtins, paths, store, patches, cands, cur, current)
        },
        Option::None => spec_finalize(builtins, paths, store, patches, cands, cur, current),
    }
}

/// The patching engine after the traversal: it owns the context and the
/// candidates, and answers to its filesystem questions drive it to the
/// final patch set.
pub struct Patcher {
    pub ctx: Context,
    pub cands: Vec<Candidate>,
    pub phase: Phase,
}

impl Patcher {
    /// The engine invariant: the patch set is well-formed and inside the
    /// source, every candidate range is inside the source, and the phase's
    /// indices are in bounds.
    pub open spec fn inv(&self) -> bool {
        &&& patches_wf(patches_view(self.ctx.patches@))
        &&& patches_bounded(patches_view(self.ctx.patches@), self.ctx.src@.len() as int)
        &&& cands_bounded(cands_view(self.cands@), self.ctx.src@.len() as int)
        &&& match phase_view(self.phase) {
            PhaseV::Searching { cur, key, dir } => 0 <= cur < self.cands@.len() && 0 <= dir
                < self.ctx.paths@.len(),
            PhaseV::Following { cur, key, current } => 0 <= cur < self.cands@.len(),
            PhaseV::Done => true,
        }
    }

    /// The spec-level state pieces the transition functions take.
    pub open spec fn builtins_v(&self) -> Seq<Seq<u8>> {
        vecs_view(self.ctx.builtins@)
    }

    pub open spec fn paths_v(&self) -> Seq<Seq<u8>> {
        vecs_view(self.ctx.paths@)
    }

    pub open spec fn patches_v(&self) -> Seq<PatchV> {
        patches_view(self.ctx.patches@)
    }

    pub open spec fn cands_v(&self) -> Seq<CandView> {
        cands_view(self.cands@)
    }
}

/// Finds the phase where resolution continues, from candidate `from` on.
fn advance_phase(ctx: &Context, cands: &Vec<Candidate>, from: usize) -> (r: Result<
    Phase,
    PatchError,
>)
    requires
        patches_wf(patches_view(ctx.patches@)),
    ensures
        match r {
            Result::Ok(ph) => spec_advance(vecs_view(ctx.builtins@), vecs_view(ctx.paths@),
                ctx.store_dir@, patches_view(ctx.patches@), cands_view(cands@), from as int)
                == Result::<PhaseV, PatchError>::Ok(phase_view(ph))
                && (match phase_view(ph) {
                    PhaseV::Searching { cur, key, dir } => 0 <= cur < cands@.len() && 0 <= dir
                        < ctx.paths@.len(),
                    PhaseV::Following { cur, key, current } => 0 <= cur < cands@.len(),
                    PhaseV::Done => true,
                }),
            Result::Err(e) => spec_advance(vecs_view(ctx.builtins@), vecs_view(ctx.paths@),
                ctx.store_dir@, patches_view(ctx.patches@), cands_view(cands@), from as int)
                == Result::<PhaseV, PatchError>::Err(e),
        },
{
    let n = cands.len();
    let mut cur = from;
    loop
        invariant
            cur >= from,
            n == cands@.len(),
            patches_wf(patches_view(ctx.patches@)),
            spec_advance(vecs_view(ctx.builtins@), vecs_view(ctx.paths@), ctx.store_dir@,
                patches_view(ctx.patches@), cands_view(cands@), from as int) == spec_advance(
                vecs_view(ctx.builtins@), vecs_view(ctx.paths@), ctx.store_dir@,
                patches_view(ctx.patches@), cands_view(cands@), cur as int),
        decreases n - cur,
    {
        if cur >= n {
            return Result::Ok(Phase::Done);
        }
        proof {
            assert(cands_view(cands@)[cur as int] == cand_view(cands@[cur as int]));
        }
        let c = &cands[cur];
        match lookup_key(&c.name, &ctx.builtins, c.no_builtins, &ctx.store_dir) {
            Option::None => {
                cur = cur + 1;
            }
            Option::Some(key) => {
                let np = ctx.patches.len();
                assert(np == ctx.patches@.len());
                let at = get_patch_index(&ctx.patches, c.start, c.end);
                match at {
                    PatchIndex::Duplicate => {
                        cur = cur + 1;
                    }
                    PatchIndex::Conflict(ci) => {
                        proof {
                            assert(patches_view(ctx.patches@).len() == ctx.patches@.len());
                            lemma_locate_conflict_facts(patches_view(ctx.patches@),
                                c.start as int, c.end as int, 0, ci);
                            assert(patches_view(ctx.patches@)[ci as int]
                                == patch_view(ctx.patches@[ci as int]));
                        }
                        return Result::Err(PatchError::Conflict {
                            start: c.start,
                            end: c.end,
                            other_start: ctx.patches[ci].start,
                            other_end: ctx.patches[ci].end,
                        });
                    }
                    _ => {
                        if ctx.paths.len() == 0 {
                            cur = cur + 1;
                        } else {
                            return Result::Ok(Phase::Searching { cur, key, dir: 0 });
                        }
                    }
                }
            }
        }
    }
}

impl Patcher {
    /// Builds the engine: traverses the tree, registering identity patches
    /// and collecting the candidate names, then positions resolution at the
    /// first candidate that needs the filesystem.
    pub fn new(ctx: Context, tree: &SyntaxTree) -> (r: Result<Patcher, PatchError>)
        requires
            tree.wf(ctx.src@.len() as int),
            patches_wf(patches_view(ctx.patches@)),
            patches_bounded(patches_view(ctx.patches@), ctx.src@.len() as int),
        ensures
            ({
                let st0 = WalkV {
                    patches: patches_view(ctx.patches@),
                    cands: Seq::<CandView>::empty(),
                    err: Option::None,
                };
                let stv = if tree.nodes@.len() > 0 {
                    spec_walk(*tree, ctx.src@, st0, 0, Option::None)
                } else {
                    st0
                };
                match r {
                    Result::Ok(p) => stv.err is None && p.inv()
                        && p.patches_v() == stv.patches
                        && p.cands_v() == stv.cands
                        && p.ctx.builtins == ctx.builtins
                        && p.ctx.paths == ctx.paths
                        && p.ctx.src == ctx.src
                        && p.ctx.store_dir == ctx.store_dir
                        && spec_advance(vecs_view(ctx.builtins@), vecs_view(ctx.paths@),
                            ctx.store_dir@, stv.patches, stv.cands, 0)
                            == Result::<PhaseV, PatchError>::Ok(phase_view(p.phase)),
                    Result::Err(e) => stv.err == Option::Some(e) || (stv.err is None
                        && spec_advance(vecs_view(ctx.builtins@), vecs_view(ctx.paths@),
                            ctx.store_dir@, stv.patches, stv.cands, 0)
                            == Result::<PhaseV, PatchError>::Err(e)),
                }
            }),
    {
        let mut ctx = ctx;
        let mut cands: Vec<Candidate> = Vec::new();
        proof {
            assert(cands_view(cands@) =~= Seq::<CandView>::empty());
        }
        if tree.nodes.len() > 0 {
            match walk(tree, &ctx.src, &mut ctx.patches, &mut cands, 0, Option::None) {
                Result::Ok(_) => {}
                Result::Err(e) => {
                    return Result::Err(e);
                }
            }
        }
        match advance_phase(&ctx, &cands, 0) {
            Result::Ok(phase) => Result::Ok(Patcher { ctx, cands, phase }),
            Result::Err(e) => Result::Err(e),
        }
    }

    /// The engine's next filesystem question, if it has one: an
    /// executability probe while searching, a symlink read while following
    /// a chain, nothing when finished.
    pub fn next_query(&self) -> (r: Option<FsQuery>)
        requires
            self.inv(),
        ensures
            match phase_view(self.phase) {
                PhaseV::Done => r is None,
                PhaseV::Searching { cur, key, dir } => r matches Option::Some(
                    FsQuery::IsExecutable(p)) && p@ == spec_join(self.paths_v()[dir], key),
                PhaseV::Following { cur, key, current } => r matches Option::Some(
                    FsQuery::ReadLink(p)) && p@ == current,
            },
    {
        match &self.phase {
            Phase::Done => Option::None,
            Phase::Searching { cur, key, dir } => {
                proof {
                    assert(vecs_view(self.ctx.paths@)[*dir as int]
                        == self.ctx.paths@[*dir as int]@);
                }
                let d = &self.ctx.paths[*dir];
                Option::Some(FsQuery::IsExecutable(path_join(d, key)))
            }
            Phase::Following { cur, key, current } => Option::Some(FsQuery::ReadLink(
                copy_bytes(current),
            )),
        }
    }

    /// Applies the resolution's end for the current candidate and moves to
    /// the next one.
    fn finalize(&mut self, cur: usize, current: Vec<u8>) -> (r: Result<(), PatchError>)
        requires
            old(self).inv(),
            cur < old(self).cands@.len(),
        ensures
            final(self).inv(),
            final(self).cands == old(self).cands,
            final(self).ctx.builtins == old(self).ctx.builtins,
            final(self).ctx.paths == old(self).ctx.paths,
            final(self).ctx.src == old(self).ctx.src,
            final(self).ctx.store_dir == old(self).ctx.store_dir,
            ({
                let step = spec_finalize(old(self).builtins_v(), old(self).paths_v(),
                    old(self).ctx.store_dir@, old(self).patches_v(), old(self).cands_v(),
                    cur as int, current@);
                match r {
                    Result::Ok(_) => step matches Result::Ok(pp)
                        && final(self).patches_v() == pp.0
                        && phase_view(final(self).phase) == pp.1,
                    Result::Err(e) => step == Result::<(Seq<PatchV>, PhaseV), PatchError>::Err(e)
                        && phase_view(final(self).phase) is Done,
                }
            }),
    {
        proof {
            assert(cands_view(self.cands@)[cur as int] == cand_view(self.cands@[cur as int]));
        }
        if path_starts_with(&current, &self.ctx.store_dir) {
            let c_start = self.cands[cur].start;
            let c_end = self.cands[cur].end;
            let np = self.ctx.patches.len();
            assert(np == self.ctx.patches@.len());
            let at = get_patch_index(&self.ctx.patches, c_start, c_end);
            match at {
                PatchIndex::Conflict(ci) => {
                    proof {
                        assert(patches_view(self.ctx.patches@).len() == self.ctx.patches@.len());
                        lemma_locate_conflict_facts(patches_view(self.ctx.patches@),
                            c_start as int, c_end as int, 0, ci);
                        assert(patches_view(self.ctx.patches@)[ci as int]
                            == patch_view(self.ctx.patches@[ci as int]));
                    }
                    let e = PatchError::Conflict {
                        start: c_start,
                        end: c_end,
                        other_start: self.ctx.patches[ci].start,
                        other_end: self.ctx.patches[ci].end,
                    };
                    self.phase = Phase::Done;
                    return Result::Err(e);
                }
                PatchIndex::Duplicate => {}
                at => {
                    proof {
                        assert(patches_view(self.ctx.patches@).len() == self.ctx.patches@.len());
                        lemma_add_preserves_bounded(patches_view(self.ctx.patches@), at,
                            PatchV {
                                start: c_start as int,
                                end: c_end as int,
                                text: current@,
                            }, self.ctx.src@.len() as int);
                    }
                    add_patch(&mut self.ctx.patches, at, PatchEntry {
                        start: c_start,
                        end: c_end,
                        text: current,
                    });
                }
            }
        }
        let ncands = self.cands.len();
        assert(cur < ncands);
        match advance_phase(&self.ctx, &self.cands, cur + 1) {
            Result::Ok(ph) => {
                self.phase = ph;
                Result::Ok(())
            }
            Result::Err(e) => {
                self.phase = Phase::Done;
                Result::Err(e)
            }
        }
    }

    /// Feeds the engine the answer to an executability probe.
    pub fn answer_exec(&mut self, reply: bool) -> (r: Result<(), PatchError>)
        requires
            old(self).inv(),
            phase_view(old(self).phase) is Searching,
        ensures
            final(self).inv(),
            final(self).cands == old(self).cands,
            final(self).ctx == old(self).ctx,
            ({
                let step = match phase_view(old(self).phase) {
                    PhaseV::Searching { cur, key, dir } => spec_answer_exec(
                        old(self).builtins_v(), old(self).paths_v(), old(self).ctx.store_dir@,
                        old(self).patches_v(), old(self).cands_v(), cur, key, dir, reply),
                    _ => arbitrary(),
                };
                match r {
                    Result::Ok(_) => step matches Result::Ok(pp)
                        && final(self).patches_v() == pp.0
                        && phase_view(final(self).phase) == pp.1,
                    Result::Err(e) => step == Result::<(Seq<PatchV>, PhaseV), PatchError>::Err(e)
                        && phase_view(final(self).phase) is Done,
                }
            }),
    {
        let (cur, dir) = match &self.phase {
            Phase::Searching { cur, dir, .. } => (*cur, *dir),
            _ => {
                return Result::Ok(());
            }
        };
        let ncands = self.cands.len();
        let npaths = self.ctx.paths.len();
        assert(cur < ncands && dir < npaths);
        if reply {
            let key = match &self.phase {
                Phase::Searching { key, .. } => copy_bytes(key),
                _ => Vec::new(),
            };
            proof {
                assert(vecs_view(self.ctx.paths@)[dir as int] == self.ctx.paths@[dir as int]@);
            }
            let d = &self.ctx.paths[dir];
            let current = path_join(d, &key);
            self.phase = Phase::Following { cur, key, current };
            Result::Ok(())
        } else if dir + 1 < self.ctx.paths.len() {
            let key = match &self.phase {
                Phase::Searching { key, .. } => copy_bytes(key),
                _ => Vec::new(),
            };
            self.phase = Phase::Searching { cur, key, dir: dir + 1 };
            Result::Ok(())
        } else {
            match advance_phase(&self.ctx, &self.cands, cur + 1) {
                Result::Ok(ph) => {
                    self.phase = ph;
                    Result::Ok(())
                }
                Result::Err(e) => {
                    self.phase = Phase::Done;
                    Result::Err(e)
                }
            }
        }
    }

    /// Feeds the engine a symlink answer: the target of the path it asked
    /// about, or nothing when that path is not a symbolic link.
    pub fn answer_link(&mut self, target: Option<Vec<u8>>) -> (r: Result<(), PatchError>)
        requires
            old(self).inv(),
            phase_view(old(self).phase) is Following,
        ensures
            final(self).inv(),
            final(self).cands == old(self).cands,
            final(self).ctx.builtins == old(self).ctx.builtins,
            final(self).ctx.paths == old(self).ctx.paths,
            final(self).ctx.src == old(self).ctx.src,
            final(self).ctx.store_dir == old(self).ctx.store_dir,
            ({
                let step = match phase_view(old(self).phase) {
                    PhaseV::Following { cur, key, current } => spec_answer_link(
                        old(self).builtins_v(), old(self).paths_v(), old(self).ctx.store_dir@,
                        old(self).patches_v(), old(self).cands_v(), cur, key, current,
                        match target {
                            Option::Some(t) => Option::Some(t@),
                            Option::None => Option::None,
                        }),
                    _ => arbitrary(),
                };
                match r {
                    Result::Ok(_) => step matches Result::Ok(pp)
                        && final(self).patches_v() == pp.0
                        && phase_view(final(self).phase) == pp.1,
                    Result::Err(e) => step == Result::<(Seq<PatchV>, PhaseV), PatchError>::Err(e)
                        && phase_view(final(self).phase) is Done,
                }
            }),
    {
        let (cur, key, current) = match &self.phase {
            Phase::Following { cur, key, current } => (*cur, copy_bytes(key),
                copy_bytes(current)),
            _ => {
                return Result::Ok(());
            }
        };
        match target {
            Option::Some(t) => {
                let keeps = match file_name(&t) {
                    Option::Some(base) => bytes_eq(&base, &key),
                    Option::None => false,
                };
                if keeps {
                    self.phase = Phase::Following { cur, key, current: t };
                    Result::Ok(())
                } else {
                    self.finalize(cur, current)
                }
            }
            Option::None => self.finalize(cur, current),
        }
    }

    /// Renders the patched script once resolution is finished.
    pub fn output(&self) -> (out: Vec<u8>)
        requires
            self.inv(),
            phase_view(self.phase) is Done,
        ensures
            out@ == spec_emit(self.ctx.src@, self.patches_v()),
    {
        emit(&self.ctx.src, &self.ctx.patches)
    }
}

/// Starts patching: traverses the tree over the context's source and
/// returns the engine that resolves the found candidates.
pub fn patch(ctx: Context, tree: &SyntaxTree) -> (r: Result<Patcher, PatchError>)
    requires
        tree.wf(ctx.src@.len() as int),
        patches_wf(patches_view(ctx.patches@)),
        patches_bounded(patches_view(ctx.patches@), ctx.src@.len() as int),
    ensures
        ({
            let st0 = WalkV {
                patches: patches_view(ctx.patches@),
                cands: Seq::<CandView>::empty(),
                err: Option::None,
            };
            let stv = if tree.nodes@.len() > 0 {
                spec_walk(*tree, ctx.src@, st0, 0, Option::None)
            } else {
                st0
            };
            match r {
                Result::Ok(p) => stv.err is None && p.inv()
                    && p.patches_v() == stv.patches
                    && p.cands_v() == stv.cands
                    && p.ctx.builtins == ctx.builtins
                    && p.ctx.paths == ctx.paths
                    && p.ctx.src == ctx.src
                    && p.ctx.store_dir == ctx.store_dir
                    && spec_advance(vecs_view(ctx.builtins@), vecs_view(ctx.paths@),
                        ctx.store_dir@, stv.patches, stv.cands, 0)
                        == Result::<PhaseV, PatchError>::Ok(phase_view(p.phase)),
                Result::Err(e) => stv.err == Option::Some(e) || (stv.err is None
                    && spec_advance(vecs_view(ctx.builtins@), vecs_view(ctx.paths@),
                        ctx.store_dir@, stv.patches, stv.cands, 0)
                        == Result::<PhaseV, PatchError>::Err(e)),
            }
        }),
{
    Patcher::new(ctx, tree)
}

} // verus!
