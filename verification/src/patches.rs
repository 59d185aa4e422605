//! An ordered collection of non-overlapping byte-range replacements.
//!
//! Entries are kept sorted by range start and pairwise disjoint.  Locating an
//! exact duplicate of an existing range reports `Duplicate` (the insertion is
//! then skipped); a range strictly nested inside an existing entry reports
//! `Replace` (the new entry supersedes the old one); any other overlap is a
//! structural inconsistency reported as `Conflict`, which callers treat as
//! fatal.

use vstd::prelude::*;

verus! {

/// One byte-range replacement: the half-open range `[start, end)` of the
/// source buffer is to be replaced by `text`.
pub struct PatchEntry {
    pub start: usize,
    pub end: usize,
    pub text: Vec<u8>,
}

/// The specification view of a patch entry.
pub struct PatchV {
    pub start: int,
    pub end: int,
    pub text: Seq<u8>,
}

pub open spec fn patch_view(e: PatchEntry) -> PatchV {
    PatchV { start: e.start as int, end: e.end as int, text: e.text@ }
}

pub open spec fn patches_view(s: Seq<PatchEntry>) -> Seq<PatchV> {
    s.map_values(|e: PatchEntry| patch_view(e))
}

/// The outcome of locating a range among the existing entries.
pub enum PatchIndex {
    /// The exact range is already present; the insertion is skipped.
    Duplicate,
    /// The range is disjoint from every entry and belongs at this index.
    Insert(usize),
    /// The range is nested inside the entry at this index and supersedes it.
    Replace(usize),
    /// The range partially overlaps (or strictly contains) the entry at this
    /// index: a structural inconsistency between tree and engine.
    Conflict(usize),
}

/// A single entry is well-formed when its range is ordered.
pub open spec fn entry_wf(e: PatchV) -> bool {
    0 <= e.start <= e.end
}

/// The patch-set invariant: every range is ordered, and the entries are
/// sorted by start and pairwise disjoint.
pub open spec fn patches_wf(s: Seq<PatchV>) -> bool {
    &&& forall|i: int| 0 <= i < s.len() ==> 0 <= (#[trigger] s[i]).start <= s[i].end
    &&& forall|i: int, j: int| 0 <= i < j < s.len() ==> (#[trigger] s[i]).end <= (#[trigger] s[j]).start
}

/// Every entry's range ends inside a source of length `n`.
pub open spec fn patches_bounded(s: Seq<PatchV>, n: int) -> bool {
    forall|i: int| 0 <= i < s.len() ==> (#[trigger] s[i]).end <= n
}

/// Where the scan of the entries, from index `i` on, places the range
/// `[start, end)`.
pub open spec fn spec_locate_from(s: Seq<PatchV>, start: int, end: int, i: int) -> PatchIndex
    decreases s.len() - i,
{
    if i < 0 || i >= s.len() {
        PatchIndex::Insert(s.len() as usize)
    } else {
        let e = s[i];
        if e.start == start && e.end == end {
            PatchIndex::Duplicate
        } else if start < e.start {
            if end <= e.start {
                PatchIndex::Insert(i as usize)
            } else {
                PatchIndex::Conflict(i as usize)
            }
        } else if start < e.end {
            if end <= e.end {
                PatchIndex::Replace(i as usize)
            } else {
                PatchIndex::Conflict(i as usize)
            }
        } else {
            spec_locate_from(s, start, end, i + 1)
        }
    }
}

/// Where the whole entry sequence places the range `[start, end)`.
pub open spec fn spec_locate(s: Seq<PatchV>, start: int, end: int) -> PatchIndex {
    spec_locate_from(s, start, end, 0)
}

/// The sequence after applying a located insertion: `Insert` adds the entry,
/// `Replace` supersedes the nested-around entry, anything else is a no-op.
pub open spec fn spec_add(s: Seq<PatchV>, at: PatchIndex, e: PatchV) -> Seq<PatchV> {
    match at {
        PatchIndex::Insert(i) => s.insert(i as int, e),
        PatchIndex::Replace(i) => s.update(i as int, e),
        _ => s,
    }
}

/// Scans the existing entries for the place of the range `[start, end)`:
/// an exact duplicate, a nested position that replaces an entry, an
/// insertion index, or a conflicting partial overlap.
pub fn get_patch_index(patches: &Vec<PatchEntry>, start: usize, end: usize) -> (r: PatchIndex)
    ensures
        r == spec_locate(patches_view(patches@), start as int, end as int),
{
    let n = patches.len();
    let mut i: usize = 0;
    loop
        invariant
            i <= n,
            n == patches@.len(),
            patches_view(patches@).len() == n,
            spec_locate(patches_view(patches@), start as int, end as int)
                == spec_locate_from(patches_view(patches@), start as int, end as int, i as int),
        decreases n - i,
    {
        if i >= n {
            return PatchIndex::Insert(n);
        }
        let e_start = patches[i].start;
        let e_end = patches[i].end;
        assert(patches_view(patches@)[i as int] == patch_view(patches@[i as int]));
        if e_start == start && e_end == end {
            return PatchIndex::Duplicate;
        } else if start < e_start {
            if end <= e_start {
                return PatchIndex::Insert(i);
            } else {
                return PatchIndex::Conflict(i);
            }
        } else if start < e_end {
            if end <= e_end {
                return PatchIndex::Replace(i);
            } else {
                return PatchIndex::Conflict(i);
            }
        }
        i = i + 1;
    }
}

/// A successful scan outcome: one that lets the entry be added.
pub open spec fn locate_places(at: PatchIndex) -> bool {
    at is Insert || at is Replace
}

/// Facts that the scan guarantees when it answers `Insert(j)`: every entry
/// before `j` ends at or before the new range, and the entry at `j` (if any)
/// starts at or after its end.
pub proof fn lemma_locate_insert_facts(s: Seq<PatchV>, start: int, end: int, i: int, j: usize)
    requires
        patches_wf(s),
        s.len() <= usize::MAX,
        0 <= i <= s.len(),
        start <= end,
        spec_locate_from(s, start, end, i) == PatchIndex::Insert(j),
    ensures
        i <= j <= s.len(),
        forall|k: int| i <= k < j ==> (#[trigger] s[k]).end <= start,
        j < s.len() ==> end <= s[j as int].start && start < s[j as int].start,
    decreases s.len() - i,
{
    if i < s.len() {
        let e = s[i];
        if e.start == start && e.end == end {
        } else if start < e.start {
        } else if start < e.end {
        } else {
            lemma_locate_insert_facts(s, start, end, i + 1, j);
        }
    }
}

/// Facts that the scan guarantees when it answers `Replace(j)`: the new
/// range is nested inside the entry at `j`, and every entry before `j` ends
/// at or before the new range.
pub proof fn lemma_locate_replace_facts(s: Seq<PatchV>, start: int, end: int, i: int, j: usize)
    requires
        patches_wf(s),
        s.len() <= usize::MAX,
        0 <= i <= s.len(),
        start <= end,
        spec_locate_from(s, start, end, i) == PatchIndex::Replace(j),
    ensures
        i <= j < s.len(),
        s[j as int].start <= start,
        end <= s[j as int].end,
        forall|k: int| i <= k < j ==> (#[trigger] s[k]).end <= start,
    decreases s.len() - i,
{
    if i < s.len() {
        let e = s[i];
        if e.start == start && e.end == end {
        } else if start < e.start {
        } else if start < e.end {
        } else {
            lemma_locate_replace_facts(s, start, end, i + 1, j);
        }
    }
}

/// Adding an entry at the located place preserves the patch-set invariant.
pub proof fn lemma_add_preserves_wf(s: Seq<PatchV>, at: PatchIndex, e: PatchV)
    requires
        patches_wf(s),
        s.len() <= usize::MAX,
        entry_wf(e),
        locate_places(at),
        at == spec_locate(s, e.start, e.end),
    ensures
        patches_wf(spec_add(s, at, e)),
{
    let start = e.start;
    let end = e.end;
    match at {
        PatchIndex::Insert(j) => {
            lemma_locate_insert_facts(s, start, end, 0, j);
            let t = s.insert(j as int, e);
            assert forall|p: int, q: int| 0 <= p < q < t.len() implies
                (#[trigger] t[p]).end <= (#[trigger] t[q]).start by {
                if p < j && q == j {
                    assert(t[p] == s[p]);
                } else if p == j && q > j {
                    assert(t[q] == s[q - 1]);
                } else if p < j && q > j {
                    assert(t[p] == s[p] && t[q] == s[q - 1]);
                } else if q < j {
                    assert(t[p] == s[p] && t[q] == s[q]);
                } else {
                    assert(t[p] == s[p - 1] && t[q] == s[q - 1]);
                }
            }
        }
        PatchIndex::Replace(j) => {
            lemma_locate_replace_facts(s, start, end, 0, j);
            let t = s.update(j as int, e);
            assert forall|p: int, q: int| 0 <= p < q < t.len() implies
                (#[trigger] t[p]).end <= (#[trigger] t[q]).start by {
                if q == j {
                    assert(t[p] == s[p] && s[p].end <= s[j as int].start);
                } else if p == j {
                    assert(t[q] == s[q] && s[j as int].end <= s[q].start);
                } else {
                    assert(t[p] == s[p] && t[q] == s[q]);
                }
            }
        }
        _ => {}
    }
}

/// Adds the entry at the place that `get_patch_index` computed: `Replace`
/// supersedes the entry there, `Insert` inserts keeping the order by start.
/// The non-overlap invariant is preserved.
pub fn add_patch(patches: &mut Vec<PatchEntry>, at: PatchIndex, e: PatchEntry)
    requires
        patches_wf(patches_view(old(patches)@)),
        e.start <= e.end,
        locate_places(at),
        at == spec_locate(patches_view(old(patches)@), e.start as int, e.end as int),
    ensures
        patches_view(final(patches)@)
            == spec_add(patches_view(old(patches)@), at, patch_view(e)),
        patches_wf(patches_view(final(patches)@)),
{
    let n = patches.len();
    assert(n == patches@.len());
    proof {
        assert(patches_view(patches@).len() == patches@.len());
        lemma_add_preserves_wf(patches_view(patches@), at, patch_view(e));
        match at {
            PatchIndex::Insert(j) => lemma_locate_insert_facts(
                patches_view(patches@), e.start as int, e.end as int, 0, j),
            PatchIndex::Replace(j) => lemma_locate_replace_facts(
                patches_view(patches@), e.start as int, e.end as int, 0, j),
            _ => {}
        }
    }
    match at {
        PatchIndex::Insert(j) => {
            patches.insert(j, e);
            proof {
                assert(patches_view(patches@) =~= spec_add(
                    patches_view(old(patches)@), at, patch_view(e)));
            }
        }
        PatchIndex::Replace(j) => {
            let entry = &mut patches[j];
            *entry = e;
            proof {
                assert(patches_view(patches@) =~= spec_add(
                    patches_view(old(patches)@), at, patch_view(e)));
            }
        }
        _ => {}
    }
}

/// Adding an entry whose range ends inside the source keeps every range
/// inside the source.
pub proof fn lemma_add_preserves_bounded(s: Seq<PatchV>, at: PatchIndex, e: PatchV, n: int)
    requires
        patches_bounded(s, n),
        patches_wf(s),
        s.len() <= usize::MAX,
        entry_wf(e),
        locate_places(at),
        at == spec_locate(s, e.start, e.end),
        e.end <= n,
    ensures
        patches_bounded(spec_add(s, at, e), n),
{
    match at {
        PatchIndex::Insert(j) => {
            lemma_locate_insert_facts(s, e.start, e.end, 0, j);
            let t = s.insert(j as int, e);
            assert forall|p: int| 0 <= p < t.len() implies (#[trigger] t[p]).end <= n by {
                if p < j {
                    assert(t[p] == s[p]);
                } else if p == j {
                    assert(t[p] == e);
                } else {
                    assert(t[p] == s[p - 1]);
                }
            }
        }
        PatchIndex::Replace(j) => {
            lemma_locate_replace_facts(s, e.start, e.end, 0, j);
            let t = s.update(j as int, e);
            assert forall|p: int| 0 <= p < t.len() implies (#[trigger] t[p]).end <= n by {
                if p != j {
                    assert(t[p] == s[p]);
                }
            }
        }
        _ => {}
    }
}

/// A scan that starts at or before an entry holding exactly the sought
/// range, with every entry in between ending at or before it, answers
/// `Duplicate`.
proof fn lemma_scan_hits_duplicate(t: Seq<PatchV>, start: int, end: int, i: int, j: usize)
    requires
        0 <= i <= j < t.len(),
        t[j as int].start == start,
        t[j as int].end == end,
        start <= end,
        forall|k: int| i <= k < j
            ==> (#[trigger] t[k]).start <= t[k].end && t[k].end <= start,
    ensures
        spec_locate_from(t, start, end, i) is Duplicate,
    decreases j - i,
{
    if i < j {
        lemma_scan_hits_duplicate(t, start, end, i + 1, j);
    }
}

/// Duplicate suppression: once an entry has been added at its located place,
/// locating the same exact range again answers `Duplicate`, so a second
/// insertion of that range (with any text) leaves the set unchanged.
pub proof fn lemma_duplicate_suppressed(
    s: Seq<PatchV>,
    at: PatchIndex,
    e: PatchV,
    e2: PatchV,
)
    requires
        patches_wf(s),
        s.len() <= usize::MAX,
        entry_wf(e),
        locate_places(at),
        at == spec_locate(s, e.start, e.end),
        e2.start == e.start,
        e2.end == e.end,
    ensures
        spec_locate(spec_add(s, at, e), e2.start, e2.end) is Duplicate,
        spec_add(
            spec_add(s, at, e),
            spec_locate(spec_add(s, at, e), e2.start, e2.end),
            e2,
        ) == spec_add(s, at, e),
{
    let start = e.start;
    let end = e.end;
    let t = spec_add(s, at, e);
    match at {
        PatchIndex::Insert(j) => {
            lemma_locate_insert_facts(s, start, end, 0, j);
            assert(t[j as int] == e);
            assert forall|k: int| 0 <= k < j
                implies (#[trigger] t[k]).start <= t[k].end && t[k].end <= start by {
                assert(t[k] == s[k]);
            }
            lemma_scan_hits_duplicate(t, start, end, 0, j);
        }
        PatchIndex::Replace(j) => {
            lemma_locate_replace_facts(s, start, end, 0, j);
            assert(t[j as int] == e);
            assert forall|k: int| 0 <= k < j
                implies (#[trigger] t[k]).start <= t[k].end && t[k].end <= start by {
                assert(t[k] == s[k]);
            }
            lemma_scan_hits_duplicate(t, start, end, 0, j);
        }
        _ => {}
    }
}

/// The empty patch set is well-formed: the base case of the non-overlap
/// invariant, which `add_patch` then preserves across every insertion.
pub proof fn lemma_empty_patches_wf()
    ensures
        patches_wf(Seq::<PatchV>::empty()),
{
}

/// No two entries claim the same range.
pub open spec fn ranges_distinct(s: Seq<PatchV>) -> bool {
    forall|i: int, j: int| 0 <= i < j < s.len()
        ==> !((#[trigger] s[i]).start == (#[trigger] s[j]).start && s[i].end == s[j].end)
}

/// A scan that places the range (rather than reporting a duplicate) found it
/// among none of the entries.
pub proof fn lemma_locate_not_present(s: Seq<PatchV>, start: int, end: int, i: int)
    requires
        patches_wf(s),
        s.len() <= usize::MAX,
        0 <= i <= s.len(),
        start <= end,
        locate_places(spec_locate_from(s, start, end, i)),
    ensures
        forall|k: int| i <= k < s.len()
            ==> !((#[trigger] s[k]).start == start && s[k].end == end),
    decreases s.len() - i,
{
    let at = spec_locate_from(s, start, end, i);
    match at {
        PatchIndex::Insert(j) => {
            lemma_locate_insert_facts(s, start, end, i, j);
            assert forall|k: int| i <= k < s.len()
                implies !((#[trigger] s[k]).start == start && s[k].end == end) by {
                if s[k].start == start && s[k].end == end {
                    if k < j {
                        // the scan passed this entry, so it ends at or
                        // before the new start; an equal range is then
                        // empty and would have stopped the scan
                        assert(s[k].end <= start);
                        lemma_scan_hits_duplicate(s, start, end, i, k as usize);
                    } else if k == j {
                        // the new range lies strictly before this entry
                        assert(end <= s[j as int].start);
                    } else {
                        // entries after the insertion point begin at or
                        // after the new end, and the scan stopped because
                        // the new range starts before entry j
                        assert(s[j as int].end <= s[k].start);
                    }
                }
            }
        }
        PatchIndex::Replace(j) => {
            lemma_locate_replace_facts(s, start, end, i, j);
            assert forall|k: int| i <= k < s.len()
                implies !((#[trigger] s[k]).start == start && s[k].end == end) by {
                if s[k].start == start && s[k].end == end {
                    if k < j {
                        assert(s[k].end <= start);
                        lemma_scan_hits_duplicate(s, start, end, i, k as usize);
                    } else if k > j {
                        assert(s[j as int].end <= s[k].start);
                        lemma_scan_reaches(s, start, end, i, j);
                    } else {
                        lemma_scan_reaches(s, start, end, i, j);
                    }
                }
            }
        }
        _ => {}
    }
}

/// When the scan's outcome carries index `j`, the scan reached `j`: the
/// branch conditions of position `j` itself hold.
proof fn lemma_scan_reaches(s: Seq<PatchV>, start: int, end: int, i: int, j: usize)
    requires
        patches_wf(s),
        s.len() <= usize::MAX,
        0 <= i <= s.len(),
        start <= end,
        spec_locate_from(s, start, end, i) == PatchIndex::Replace(j),
    ensures
        j < s.len(),
        start < s[j as int].end,
        !(s[j as int].start == start && s[j as int].end == end),
    decreases s.len() - i,
{
    if i < s.len() {
        let e = s[i];
        if e.start == start && e.end == end {
        } else if start < e.start {
        } else if start < e.end {
        } else {
            lemma_scan_reaches(s, start, end, i + 1, j);
        }
    }
}

/// Adding an entry at a place the scan computed keeps the ranges distinct.
pub proof fn lemma_add_preserves_distinct(s: Seq<PatchV>, at: PatchIndex, e: PatchV)
    requires
        patches_wf(s),
        ranges_distinct(s),
        s.len() <= usize::MAX,
        entry_wf(e),
        locate_places(at),
        at == spec_locate(s, e.start, e.end),
    ensures
        ranges_distinct(spec_add(s, at, e)),
{
    lemma_locate_not_present(s, e.start, e.end, 0);
    match at {
        PatchIndex::Insert(j) => {
            lemma_locate_insert_facts(s, e.start, e.end, 0, j);
            let t = s.insert(j as int, e);
            assert forall|p: int, q: int| 0 <= p < q < t.len()
                implies !((#[trigger] t[p]).start == (#[trigger] t[q]).start
                    && t[p].end == t[q].end) by {
                if p < j && q == j {
                    assert(t[p] == s[p]);
                } else if p == j && q > j {
                    assert(t[q] == s[q - 1]);
                } else if p < j && q > j {
                    assert(t[p] == s[p] && t[q] == s[q - 1]);
                } else if q < j {
                    assert(t[p] == s[p] && t[q] == s[q]);
                } else {
                    assert(t[p] == s[p - 1] && t[q] == s[q - 1]);
                }
            }
        }
        PatchIndex::Replace(j) => {
            lemma_locate_replace_facts(s, e.start, e.end, 0, j);
            let t = s.update(j as int, e);
            assert forall|p: int, q: int| 0 <= p < q < t.len()
                implies !((#[trigger] t[p]).start == (#[trigger] t[q]).start
                    && t[p].end == t[q].end) by {
                if p != j && q != j {
                    assert(t[p] == s[p] && t[q] == s[q]);
                } else if p == j {
                    assert(t[q] == s[q]);
                } else {
                    assert(t[p] == s[p]);
                }
            }
        }
        _ => {}
    }
}

/// A well-formed, bounded sequence of distinct ranges whose starts all lie
/// at or after `s0` holds at most two entries per available offset: one
/// empty range and one following it.
proof fn lemma_wf_distinct_count_from(s: Seq<PatchV>, n: int, s0: int)
    requires
        patches_wf(s),
        patches_bounded(s, n),
        ranges_distinct(s),
        forall|i: int| 0 <= i < s.len() ==> s0 <= (#[trigger] s[i]).start,
        s0 <= n + 1,
    ensures
        s.len() <= 2 * (n - s0) + 2,
    decreases s.len(),
{
    if s.len() > 0 {
        let e0 = s[0];
        if e0.end > e0.start {
            let rest = s.skip(1);
            shift_facts(s, n);
            assert forall|i: int| 0 <= i < rest.len()
                implies e0.end <= (#[trigger] rest[i]).start by {
                assert(rest[i] == s[i + 1]);
            }
            lemma_wf_distinct_count_from(rest, n, e0.end);
        } else {
            if s.len() == 1 {
            } else {
                let e1 = s[1];
                if e1.start == e0.start {
                    // distinct ranges with equal starts: the second is
                    // non-empty, so entries after it start strictly later
                    assert(e1.end > e1.start);
                    let rest = s.skip(2);
                    shift_facts2(s, n);
                    assert forall|i: int| 0 <= i < rest.len()
                        implies e1.end <= (#[trigger] rest[i]).start by {
                        assert(rest[i] == s[i + 2]);
                    }
                    lemma_wf_distinct_count_from(rest, n, e1.end);
                } else {
                    let rest = s.skip(1);
                    shift_facts(s, n);
                    assert forall|i: int| 0 <= i < rest.len()
                        implies e0.start + 1 <= (#[trigger] rest[i]).start by {
                        assert(rest[i] == s[i + 1]);
                        if i > 0 {
                            assert(s[1].end <= s[i + 1].start);
                        }
                    }
                    lemma_wf_distinct_count_from(rest, n, e0.start + 1);
                }
            }
        }
    }
}

/// The well-formedness facts carry over to the sequence without its first
/// entry.
proof fn shift_facts(s: Seq<PatchV>, n: int)
    requires
        patches_wf(s),
        patches_bounded(s, n),
        ranges_distinct(s),
        s.len() > 0,
    ensures
        patches_wf(s.skip(1)),
        patches_bounded(s.skip(1), n),
        ranges_distinct(s.skip(1)),
{
    let rest = s.skip(1);
    assert forall|i: int| 0 <= i < rest.len()
        implies 0 <= (#[trigger] rest[i]).start <= rest[i].end && rest[i].end <= n by {
        assert(rest[i] == s[i + 1]);
    }
    assert forall|i: int, j: int| 0 <= i < j < rest.len()
        implies (#[trigger] rest[i]).end <= (#[trigger] rest[j]).start by {
        assert(rest[i] == s[i + 1] && rest[j] == s[j + 1]);
    }
    assert forall|i: int, j: int| 0 <= i < j < rest.len()
        implies !((#[trigger] rest[i]).start == (#[trigger] rest[j]).start
            && rest[i].end == rest[j].end) by {
        assert(rest[i] == s[i + 1] && rest[j] == s[j + 1]);
    }
}

/// The same, without the first two entries.
proof fn shift_facts2(s: Seq<PatchV>, n: int)
    requires
        patches_wf(s),
        patches_bounded(s, n),
        ranges_distinct(s),
        s.len() > 1,
    ensures
        patches_wf(s.skip(2)),
        patches_bounded(s.skip(2), n),
        ranges_distinct(s.skip(2)),
{
    let rest = s.skip(2);
    assert forall|i: int| 0 <= i < rest.len()
        implies 0 <= (#[trigger] rest[i]).start <= rest[i].end && rest[i].end <= n by {
        assert(rest[i] == s[i + 2]);
    }
    assert forall|i: int, j: int| 0 <= i < j < rest.len()
        implies (#[trigger] rest[i]).end <= (#[trigger] rest[j]).start by {
        assert(rest[i] == s[i + 2] && rest[j] == s[j + 2]);
    }
    assert forall|i: int, j: int| 0 <= i < j < rest.len()
        implies !((#[trigger] rest[i]).start == (#[trigger] rest[j]).start
            && rest[i].end == rest[j].end) by {
        assert(rest[i] == s[i + 2] && rest[j] == s[j + 2]);
    }
}

/// The count of a well-formed, bounded sequence of distinct ranges is
/// bounded by the source length.
pub proof fn lemma_wf_distinct_count(s: Seq<PatchV>, n: int)
    requires
        patches_wf(s),
        patches_bounded(s, n),
        ranges_distinct(s),
        n >= 0,
    ensures
        s.len() <= 2 * n + 2,
{
    lemma_wf_distinct_count_from(s, n, 0);
}

/// Non-overlap invariant, read off the well-formedness predicate: entries of
/// a well-formed patch set are sorted by start and pairwise disjoint, so no
/// partial overlap ever persists.
pub proof fn lemma_patches_nonoverlapping(s: Seq<PatchV>, i: int, j: int)
    requires
        patches_wf(s),
        0 <= i < j < s.len(),
    ensures
        s[i].start <= s[i].end,
        s[i].end <= s[j].start,
        s[j].start <= s[j].end,
{
}

} // verus!
