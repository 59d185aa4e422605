//! Scanning a command's arguments for the real target command.
//!
//! Given the ordered argument tokens of an invocation, a set of short-option
//! bytes that consume a following value, a set of long-option names that do
//! the same, and a multiplicity policy, the scanner finds the position of
//! the command name (or names), skipping recognized options and their
//! values.  Tokens that fail to decode are skipped; `--` ends option
//! scanning and every remaining decodable argument becomes a candidate.

use vstd::prelude::*;
use crate::literal::spec_decode_node;
use crate::literal::decode_literal;
use crate::tree::SyntaxTree;

verus! {

/// A candidate command name: the byte range of its token, its decoded
/// value, and whether resolution may ignore the builtin exclusion.
pub struct Candidate {
    pub start: usize,
    pub end: usize,
    pub name: Vec<u8>,
    pub no_builtins: bool,
}

/// The specification view of a candidate.
pub struct CandView {
    pub start: int,
    pub end: int,
    pub name: Seq<u8>,
    pub no_builtins: bool,
}

pub open spec fn cand_view(c: Candidate) -> CandView {
    CandView { start: c.start as int, end: c.end as int, name: c.name@, no_builtins: c.no_builtins }
}

pub open spec fn cands_view(s: Seq<Candidate>) -> Seq<CandView> {
    s.map_values(|c: Candidate| cand_view(c))
}

/// The view of a list of byte strings.
pub open spec fn vecs_view(s: Seq<Vec<u8>>) -> Seq<Seq<u8>> {
    s.map_values(|v: Vec<u8>| v@)
}

/// Every candidate's token range lies inside a source of length `n`.
pub open spec fn cands_bounded(s: Seq<CandView>, n: int) -> bool {
    forall|i: int| 0 <= i < s.len()
        ==> 0 <= (#[trigger] s[i]).start <= s[i].end <= n
}

/// How many target commands the invocation names: always several, exactly
/// one, or several once one of the trigger bytes has been seen among the
/// option characters.
pub enum Multiplicity<T> {
    Always,
    Never,
    TriggeredBy(T),
}

pub open spec fn multi_view(m: Multiplicity<Vec<u8>>) -> Multiplicity<Seq<u8>> {
    match m {
        Multiplicity::Always => Multiplicity::Always,
        Multiplicity::Never => Multiplicity::Never,
        Multiplicity::TriggeredBy(v) => Multiplicity::TriggeredBy(v@),
    }
}

/// Whether the option byte switches the scan to expecting several targets.
pub open spec fn multi_trigger(m: Multiplicity<Seq<u8>>, b: u8) -> bool {
    match m {
        Multiplicity::TriggeredBy(t) => t.contains(b),
        _ => false,
    }
}

/// What the token at node index `i` decodes to.
pub open spec fn spec_decode_idx(t: SyntaxTree, src: Seq<u8>, i: int) -> Option<Seq<u8>> {
    let n = t.nodes@[i];
    spec_decode_node(n.kind, src, n.start as int, n.end as int)
}

/// The candidate made of the token at node index `i` and the decoded name.
pub open spec fn spec_cand(t: SyntaxTree, i: int, name: Seq<u8>, flag: bool) -> CandView {
    CandView {
        start: t.nodes@[i].start as int,
        end: t.nodes@[i].end as int,
        name: name,
        no_builtins: flag,
    }
}

/// The argument children among `ch`, from position `k` on.
pub open spec fn spec_args_from(t: SyntaxTree, ch: Seq<usize>, k: int) -> Seq<usize>
    decreases ch.len() - k,
{
    if k < 0 || k >= ch.len() {
        seq![]
    } else if t.nodes@[ch[k] as int].is_argument {
        seq![ch[k]] + spec_args_from(t, ch, k + 1)
    } else {
        spec_args_from(t, ch, k + 1)
    }
}

/// The argument children of the node at `cmd`, in source order.
pub open spec fn spec_args(t: SyntaxTree, cmd: int) -> Seq<usize> {
    spec_args_from(t, t.nodes@[cmd].children@, 0)
}

/// Every remaining decodable argument from position `k` on, as candidates.
pub open spec fn spec_collect_rest(
    t: SyntaxTree,
    src: Seq<u8>,
    args: Seq<usize>,
    k: int,
    flag: bool,
) -> Seq<CandView>
    decreases args.len() - k,
{
    if k < 0 || k >= args.len() {
        seq![]
    } else {
        match spec_decode_idx(t, src, args[k] as int) {
            None => spec_collect_rest(t, src, args, k + 1, flag),
            Some(v) => seq![spec_cand(t, args[k] as int, v, flag)]
                + spec_collect_rest(t, src, args, k + 1, flag),
        }
    }
}

/// Scanning a short-option cluster from position `j`: yields the updated
/// multiple-targets state and whether the following argument is consumed as
/// a value.  The scan stops at the first byte in the value-taking set; the
/// following argument is consumed only when that byte ends the cluster.  A
/// trigger byte marks multiple targets as expected whether or not it also
/// takes a value.
pub open spec fn spec_scan_cluster(
    v: Seq<u8>,
    j: int,
    shorts: Seq<u8>,
    multi: Multiplicity<Seq<u8>>,
    multiple: bool,
) -> (bool, bool)
    decreases v.len() - j,
{
    if j < 0 || j >= v.len() {
        (multiple, false)
    } else if shorts.contains(v[j]) {
        (multiple || multi_trigger(multi, v[j]), j == v.len() - 1)
    } else {
        spec_scan_cluster(v, j + 1, shorts, multi, multiple || multi_trigger(multi, v[j]))
    }
}

/// The scan of the argument list from position `k` with the given option
/// tables, multiplicity policy, and current multiple-targets state.
pub open spec fn spec_scan(
    t: SyntaxTree,
    src: Seq<u8>,
    args: Seq<usize>,
    k: int,
    shorts: Seq<u8>,
    longs: Seq<Seq<u8>>,
    multi: Multiplicity<Seq<u8>>,
    multiple: bool,
    flag: bool,
) -> Seq<CandView>
    decreases args.len() - k,
{
    if k < 0 || k >= args.len() {
        seq![]
    } else {
        match spec_decode_idx(t, src, args[k] as int) {
            None => spec_scan(t, src, args, k + 1, shorts, longs, multi, multiple, flag),
            Some(v) => {
                if v.len() == 0 {
                    spec_scan(t, src, args, k + 1, shorts, longs, multi, multiple, flag)
                } else if v[0] == 0x2D {
                    if v.len() == 1 {
                        // a bare dash is itself a command name
                        if multiple {
                            seq![spec_cand(t, args[k] as int, v, flag)]
                                + spec_collect_rest(t, src, args, k + 1, flag)
                        } else {
                            seq![spec_cand(t, args[k] as int, v, flag)]
                        }
                    } else if v[1] == 0x2D {
                        if v.len() == 2 {
                            // end of options: everything after is a candidate
                            spec_collect_rest(t, src, args, k + 1, flag)
                        } else if longs.contains(v.skip(2)) {
                            if k + 2 <= args.len() {
                                spec_scan(t, src, args, k + 2, shorts, longs, multi, multiple, flag)
                            } else {
                                seq![]
                            }
                        } else {
                            spec_scan(t, src, args, k + 1, shorts, longs, multi, multiple, flag)
                        }
                    } else {
                        let st = spec_scan_cluster(v, 1, shorts, multi, multiple);
                        if st.1 {
                            if k + 2 <= args.len() {
                                spec_scan(t, src, args, k + 2, shorts, longs, multi, st.0, flag)
                            } else {
                                seq![]
                            }
                        } else {
                            spec_scan(t, src, args, k + 1, shorts, longs, multi, st.0, flag)
                        }
                    }
                } else {
                    if multiple {
                        seq![spec_cand(t, args[k] as int, v, flag)]
                            + spec_collect_rest(t, src, args, k + 1, flag)
                    } else {
                        seq![spec_cand(t, args[k] as int, v, flag)]
                    }
                }
            }
        }
    }
}

/// Whether the byte is in the set.
fn byte_in(set: &[u8], b: u8) -> (r: bool)
    ensures
        r == set@.contains(b),
{
    let n = set.len();
    let mut i: usize = 0;
    loop
        invariant
            i <= n,
            n == set@.len(),
            forall|k: int| 0 <= k < i ==> set@[k] != b,
        decreases n - i,
    {
        if i >= n {
            assert(!set@.contains(b));
            return false;
        }
        if set[i] == b {
            return true;
        }
        i = i + 1;
    }
}

/// Whether one of the long-option names equals the given bytes.
pub(crate) fn longs_contain(longs: &Vec<Vec<u8>>, suf: &Vec<u8>) -> (r: bool)
    ensures
        r == vecs_view(longs@).contains(suf@),
{
    let n = longs.len();
    let mut i: usize = 0;
    loop
        invariant
            i <= n,
            n == longs@.len(),
            forall|k: int| 0 <= k < i ==> vecs_view(longs@)[k] != suf@,
        decreases n - i,
    {
        if i >= n {
            assert(!vecs_view(longs@).contains(suf@));
            return false;
        }
        if crate::bytes::bytes_eq(&longs[i], suf) {
            assert(vecs_view(longs@)[i as int] == longs@[i as int]@);
            return true;
        }
        assert(vecs_view(longs@)[i as int] == longs@[i as int]@);
        i = i + 1;
    }
}

/// The argument children of the node at `cmd`, with their index bounds.
fn collect_args(t: &SyntaxTree, cmd: usize) -> (r: Vec<usize>)
    requires
        cmd < t.nodes@.len(),
        forall|k: int| 0 <= k < t.nodes@[cmd as int].children@.len()
            ==> cmd < #[trigger] t.nodes@[cmd as int].children@[k] < t.nodes@.len(),
    ensures
        r@ == spec_args(*t, cmd as int),
        forall|q: int| 0 <= q < r@.len() ==> cmd < #[trigger] r@[q] < t.nodes@.len(),
{
    let ch = &t.nodes[cmd].children;
    let n = ch.len();
    let mut r: Vec<usize> = Vec::new();
    let mut k: usize = 0;
    proof {
        assert(r@ + spec_args_from(*t, ch@, 0) =~= spec_args(*t, cmd as int));
    }
    loop
        invariant
            k <= n,
            n == ch@.len(),
            ch@ == t.nodes@[cmd as int].children@,
            cmd < t.nodes@.len(),
            forall|q: int| 0 <= q < ch@.len()
                ==> cmd < #[trigger] ch@[q] < t.nodes@.len(),
            r@ + spec_args_from(*t, ch@, k as int) == spec_args(*t, cmd as int),
            forall|q: int| 0 <= q < r@.len() ==> cmd < #[trigger] r@[q] < t.nodes@.len(),
        decreases n - k,
    {
        if k >= n {
            assert(r@ =~= spec_args(*t, cmd as int));
            return r;
        }
        let c = ch[k];
        if t.nodes[c].is_argument {
            r.push(c);
            proof {
                assert(r@ + spec_args_from(*t, ch@, k as int + 1)
                    =~= spec_args(*t, cmd as int));
            }
        }
        k = k + 1;
    }
}

/// Every remaining decodable argument from position `from` on.
fn collect_rest(
    t: &SyntaxTree,
    src: &Vec<u8>,
    args: &Vec<usize>,
    from: usize,
    flag: bool,
) -> (r: Vec<Candidate>)
    requires
        t.wf(src@.len() as int),
        forall|q: int| 0 <= q < args@.len() ==> #[trigger] args@[q] < t.nodes@.len(),
    ensures
        cands_view(r@) == spec_collect_rest(*t, src@, args@, from as int, flag),
        cands_bounded(cands_view(r@), src@.len() as int),
{
    let n = args.len();
    let mut r: Vec<Candidate> = Vec::new();
    let mut k: usize = from;
    proof {
        assert(cands_view(r@) + spec_collect_rest(*t, src@, args@, from as int, flag)
            =~= spec_collect_rest(*t, src@, args@, from as int, flag));
    }
    loop
        invariant
            n == args@.len(),
            t.wf(src@.len() as int),
            forall|q: int| 0 <= q < args@.len() ==> #[trigger] args@[q] < t.nodes@.len(),
            cands_view(r@) + spec_collect_rest(*t, src@, args@, k as int, flag)
                == spec_collect_rest(*t, src@, args@, from as int, flag),
            cands_bounded(cands_view(r@), src@.len() as int),
        decreases n - k,
    {
        if k >= n {
            assert(cands_view(r@) =~= spec_collect_rest(*t, src@, args@, from as int, flag));
            return r;
        }
        let idx = args[k];
        let node = &t.nodes[idx];
        assert(node.start <= node.end <= src@.len());
        let ghost prev = cands_view(r@);
        match decode_literal(src, node.kind, node.start, node.end) {
            Some(name) => {
                let ghost cv = cand_view(Candidate {
                    start: node.start, end: node.end, name: name, no_builtins: flag });
                r.push(Candidate { start: node.start, end: node.end, name, no_builtins: flag });
                proof {
                    assert(cands_view(r@) + spec_collect_rest(*t, src@, args@, k as int + 1, flag)
                        =~= spec_collect_rest(*t, src@, args@, from as int, flag));
                    assert(cands_view(r@) =~= prev.push(cv));
                    assert forall|q: int| 0 <= q < cands_view(r@).len()
                        implies 0 <= (#[trigger] cands_view(r@)[q]).start
                            <= cands_view(r@)[q].end <= src@.len() by {
                        if q < prev.len() {
                            assert(cands_view(r@)[q] == prev[q]);
                        } else {
                            assert(cands_view(r@)[q] == cv);
                        }
                    }
                }
            }
            None => {}
        }
        k = k + 1;
    }
}

/// Runs the short-option cluster scan over `v` from its second byte.
fn run_scan_cluster(
    v: &Vec<u8>,
    shorts: &[u8],
    multi: &Multiplicity<Vec<u8>>,
    multiple0: bool,
) -> (r: (bool, bool))
    ensures
        r == spec_scan_cluster(v@, 1, shorts@, multi_view(*multi), multiple0),
{
    let n = v.len();
    let mut j: usize = 1;
    let mut multiple = multiple0;
    loop
        invariant
            1 <= j,
            n == v@.len(),
            spec_scan_cluster(v@, 1, shorts@, multi_view(*multi), multiple0)
                == spec_scan_cluster(v@, j as int, shorts@, multi_view(*multi), multiple),
        decreases n - j,
    {
        if j >= n {
            return (multiple, false);
        }
        let b = v[j];
        let trig = match multi {
            Multiplicity::TriggeredBy(tset) => byte_in(tset.as_slice(), b),
            _ => false,
        };
        if byte_in(shorts, b) {
            return (multiple || trig, j == n - 1);
        }
        multiple = multiple || trig;
        j = j + 1;
    }
}

/// Scans the argument children of the invocation node at `cmd` for the
/// target command names, with the given value-taking short-option bytes,
/// value-taking long-option names, and multiplicity policy; `flag` marks
/// every found candidate as bypassing the builtin exclusion.
pub fn scan_arguments(
    t: &SyntaxTree,
    src: &Vec<u8>,
    cmd: usize,
    shorts: &[u8],
    longs: &Vec<Vec<u8>>,
    multi: &Multiplicity<Vec<u8>>,
    flag: bool,
) -> (r: Vec<Candidate>)
    requires
        t.wf(src@.len() as int),
        cmd < t.nodes@.len(),
    ensures
        cands_view(r@) == spec_scan(
            *t,
            src@,
            spec_args(*t, cmd as int),
            0,
            shorts@,
            vecs_view(longs@),
            multi_view(*multi),
            multi_view(*multi) is Always,
            flag,
        ),
        cands_bounded(cands_view(r@), src@.len() as int),
{
    let args = collect_args(t, cmd);
    let n = args.len();
    let mut multiple = match multi {
        Multiplicity::Always => true,
        _ => false,
    };
    let ghost init_multiple = multiple;
    let mut i: usize = 0;
    loop
        invariant
            n == args@.len(),
            t.wf(src@.len() as int),
            cmd < t.nodes@.len(),
            args@ == spec_args(*t, cmd as int),
            forall|q: int| 0 <= q < args@.len() ==> #[trigger] args@[q] < t.nodes@.len(),
            init_multiple == (multi_view(*multi) is Always),
            spec_scan(*t, src@, args@, 0, shorts@, vecs_view(longs@), multi_view(*multi),
                init_multiple, flag)
                == spec_scan(*t, src@, args@, i as int, shorts@, vecs_view(longs@),
                    multi_view(*multi), multiple, flag),
        decreases n - i,
    {
        if i >= n {
            let r: Vec<Candidate> = Vec::new();
            assert(cands_view(r@) =~= Seq::<CandView>::empty());
            return r;
        }
        let idx = args[i];
        let node = &t.nodes[idx];
        assert(node.start <= node.end <= src@.len());
        let decoded = decode_literal(src, node.kind, node.start, node.end);
        match decoded {
            None => {
                i = i + 1;
            }
            Some(v) => {
                let vn = v.len();
                if vn == 0 {
                    i = i + 1;
                } else if v[0] == 0x2D {
                    if vn == 1 {
                        let cand = Candidate {
                            start: node.start,
                            end: node.end,
                            name: v,
                            no_builtins: flag,
                        };
                        let mut r: Vec<Candidate> = Vec::new();
                        r.push(cand);
                        if multiple {
                            let mut rest = collect_rest(t, src, &args, i + 1, flag);
                            r.append(&mut rest);
                        }
                        proof {
                            assert(cands_view(r@) =~= spec_scan(*t, src@, args@, i as int,
                                shorts@, vecs_view(longs@), multi_view(*multi), multiple, flag));
                        }
                        return r;
                    } else if v[1] == 0x2D {
                        if vn == 2 {
                            let r = collect_rest(t, src, &args, i + 1, flag);
                            return r;
                        }
                        let mut suf: Vec<u8> = Vec::new();
                        crate::bytes::push_range(&mut suf, &v, 2, vn);
                        assert(suf@ =~= v@.skip(2));
                        if longs_contain(longs, &suf) {
                            if i + 1 < n {
                                i = i + 2;
                            } else {
                                i = n;
                            }
                        } else {
                            i = i + 1;
                        }
                    } else {
                        let st = run_scan_cluster(&v, shorts, multi, multiple);
                        multiple = st.0;
                        if st.1 {
                            if i + 1 < n {
                                i = i + 2;
                            } else {
                                i = n;
                            }
                        } else {
                            i = i + 1;
                        }
                    }
                } else {
                    let cand = Candidate {
                        start: node.start,
                        end: node.end,
                        name: v,
                        no_builtins: flag,
                    };
                    let mut r: Vec<Candidate> = Vec::new();
                    r.push(cand);
                    if multiple {
                        let mut rest = collect_rest(t, src, &args, i + 1, flag);
                        r.append(&mut rest);
                    }
                    proof {
                        assert(cands_view(r@) =~= spec_scan(*t, src@, args@, i as int,
                            shorts@, vecs_view(longs@), multi_view(*multi), multiple, flag));
                    }
                    return r;
                }
            }
        }
    }
}

} // verus!
