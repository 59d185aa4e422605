//! Rendering the patched script.
//!
//! One left-to-right pass over the final patch set: source bytes are copied
//! verbatim up to each patch range, the replacement text is written
//! shell-escaped, the range is skipped, and the tail after the last patch is
//! copied verbatim.  A replacement of only safe bytes stands as it is; any
//! other valid text is single-quoted with embedded quotes and exclamation
//! marks escaped; bytes that are not valid text fall back to a raw
//! single-quoted form.

use vstd::prelude::*;
use crate::bytes::push_range;
use crate::literal::{valid_text, check_valid_text};
use crate::patches::{PatchEntry, PatchV, patches_view, patches_wf, patches_bounded};

verus! {

/// A byte that needs no quoting in a shell word.
pub open spec fn safe_byte(b: u8) -> bool {
    ||| 0x61 <= b <= 0x7A  // a-z
    ||| 0x41 <= b <= 0x5A  // A-Z
    ||| 0x30 <= b <= 0x39  // 0-9
    ||| b == 0x2D  // -
    ||| b == 0x5F  // _
    ||| b == 0x3D  // =
    ||| b == 0x2F  // /
    ||| b == 0x2C  // ,
    ||| b == 0x2E  // .
    ||| b == 0x2B  // +
}

/// Whether every byte is safe.
pub open spec fn all_safe(s: Seq<u8>) -> bool {
    forall|i: int| 0 <= i < s.len() ==> safe_byte(#[trigger] s[i])
}

/// The body of a single-quoted form: an embedded single quote or
/// exclamation mark closes the quote, is written backslash-escaped, and
/// reopens it.
pub open spec fn quote_escaped(s: Seq<u8>) -> Seq<u8>
    decreases s.len(),
{
    if s.len() == 0 {
        seq![]
    } else if s[0] == 0x27 || s[0] == 0x21 {
        seq![0x27u8, 0x5Cu8, s[0], 0x27u8] + quote_escaped(s.skip(1))
    } else {
        seq![s[0]] + quote_escaped(s.skip(1))
    }
}

/// The shell-escaped form of a replacement: a non-empty all-safe text stands
/// as it is; other valid text is single-quoted with embedded quotes escaped;
/// bytes that are not valid text are single-quoted raw.
pub open spec fn spec_escape(s: Seq<u8>) -> Seq<u8> {
    if s.len() > 0 && all_safe(s) {
        s
    } else if valid_text(s) {
        seq![0x27u8] + quote_escaped(s) + seq![0x27u8]
    } else {
        seq![0x27u8] + s + seq![0x27u8]
    }
}

/// Computes the shell-escaped form of the replacement text.
pub fn escape_bytes(s: &Vec<u8>) -> (r: Vec<u8>)
    ensures
        r@ == spec_escape(s@),
{
    let n = s.len();
    let mut safe = n > 0;
    let mut i: usize = 0;
    while i < n
        invariant
            i <= n,
            n == s@.len(),
            safe == (n > 0 && (forall|k: int| 0 <= k < i ==> safe_byte(#[trigger] s@[k]))),
        decreases n - i,
    {
        let b = s[i];
        let b_safe = (0x61 <= b && b <= 0x7A) || (0x41 <= b && b <= 0x5A)
            || (0x30 <= b && b <= 0x39) || b == 0x2D || b == 0x5F || b == 0x3D || b == 0x2F
            || b == 0x2C || b == 0x2E || b == 0x2B;
        safe = safe && b_safe;
        i = i + 1;
    }
    if safe {
        let r = crate::bytes::copy_bytes(s);
        return r;
    }
    let mut r: Vec<u8> = Vec::new();
    r.push(0x27);
    if check_valid_text(s) {
        let ghost head = r@;
        let mut j: usize = 0;
        proof {
            assert(s@.skip(0) =~= s@);
        }
        while j < n
            invariant
                j <= n,
                n == s@.len(),
                head == seq![0x27u8],
                r@ + quote_escaped(s@.skip(j as int)) == head + quote_escaped(s@),
            decreases n - j,
        {
            let b = s[j];
            proof {
                assert(s@.skip(j as int).skip(1) =~= s@.skip(j as int + 1));
            }
            if b == 0x27 || b == 0x21 {
                r.push(0x27);
                r.push(0x5C);
                r.push(b);
                r.push(0x27);
            } else {
                r.push(b);
            }
            proof {
                assert(r@ + quote_escaped(s@.skip(j as int + 1)) =~= head + quote_escaped(s@));
            }
            j = j + 1;
        }
        proof {
            assert(s@.skip(n as int) =~= Seq::<u8>::empty());
            assert(r@ =~= head + quote_escaped(s@));
        }
        r.push(0x27);
        proof {
            assert(r@ =~= spec_escape(s@));
        }
        return r;
    }
    push_range(&mut r, s, 0, n);
    r.push(0x27);
    proof {
        assert(s@.subrange(0, n as int) =~= s@);
        assert(r@ =~= spec_escape(s@));
    }
    r
}

/// The rendered output from offset `from` of the source on, under the given
/// remaining patches.
pub open spec fn spec_emit_from(src: Seq<u8>, ps: Seq<PatchV>, from: int) -> Seq<u8>
    decreases ps.len(),
{
    if ps.len() == 0 {
        src.subrange(from, src.len() as int)
    } else {
        src.subrange(from, ps[0].start) + spec_escape(ps[0].text)
            + spec_emit_from(src, ps.skip(1), ps[0].end)
    }
}

/// The rendered output of the whole source under the given patches.
pub open spec fn spec_emit(src: Seq<u8>, ps: Seq<PatchV>) -> Seq<u8> {
    spec_emit_from(src, ps, 0)
}

/// With no patches, the output is the source, byte for byte.
pub proof fn lemma_emit_empty(src: Seq<u8>)
    ensures
        spec_emit(src, seq![]) == src,
{
    assert(spec_emit(src, seq![]) =~= src);
}

/// An identity patch: the entry's escaped replacement equals the source
/// bytes of its own range.
pub open spec fn entry_reproduces(src: Seq<u8>, e: PatchV) -> bool {
    spec_escape(e.text) == src.subrange(e.start, e.end)
}

/// Rendering from `from` under identity patches alone reproduces the rest of
/// the source.
proof fn lemma_emit_identity_from(src: Seq<u8>, ps: Seq<PatchV>, from: int)
    requires
        patches_wf(ps),
        patches_bounded(ps, src.len() as int),
        forall|i: int| 0 <= i < ps.len() ==> entry_reproduces(src, #[trigger] ps[i]),
        0 <= from <= src.len(),
        ps.len() > 0 ==> from <= ps[0].start,
    ensures
        spec_emit_from(src, ps, from) == src.subrange(from, src.len() as int),
    decreases ps.len(),
{
    if ps.len() > 0 {
        let e = ps[0];
        let rest = ps.skip(1);
        assert forall|i: int| 0 <= i < rest.len() implies entry_reproduces(
            src, #[trigger] rest[i]) by {
            assert(rest[i] == ps[i + 1]);
        }
        assert forall|i: int| 0 <= i < rest.len() implies 0 <= (#[trigger] rest[i]).start
            <= rest[i].end <= src.len() by {
            assert(rest[i] == ps[i + 1]);
        }
        assert forall|i: int, j: int| 0 <= i < j < rest.len() implies (#[trigger] rest[i]).end
            <= (#[trigger] rest[j]).start by {
            assert(rest[i] == ps[i + 1] && rest[j] == ps[j + 1]);
        }
        if rest.len() > 0 {
            assert(rest[0] == ps[1]);
            assert(e.end <= ps[1].start);
        }
        lemma_emit_identity_from(src, rest, e.end);
        assert(spec_escape(e.text) == src.subrange(e.start, e.end));
        assert(src.subrange(from, e.start) + src.subrange(e.start, e.end)
            + src.subrange(e.end, src.len() as int) =~= src.subrange(from, src.len() as int));
    }
}

/// Identity patches do not change the output: a well-formed patch set whose
/// every entry's escaped replacement equals the source bytes of its own
/// range renders the source, byte for byte.
pub proof fn lemma_identity_patches_reproduce(src: Seq<u8>, ps: Seq<PatchV>)
    requires
        patches_wf(ps),
        patches_bounded(ps, src.len() as int),
        forall|i: int| 0 <= i < ps.len() ==> entry_reproduces(src, #[trigger] ps[i]),
    ensures
        spec_emit(src, ps) == src,
{
    lemma_emit_identity_from(src, ps, 0);
    assert(src.subrange(0, src.len() as int) =~= src);
}

/// Renders the patched script: source bytes verbatim between patch ranges,
/// each replacement shell-escaped in place of its range.
pub fn emit(src: &Vec<u8>, patches: &Vec<PatchEntry>) -> (out: Vec<u8>)
    requires
        patches_wf(patches_view(patches@)),
        patches_bounded(patches_view(patches@), src@.len() as int),
    ensures
        out@ == spec_emit(src@, patches_view(patches@)),
{
    let n = patches.len();
    let mut out: Vec<u8> = Vec::new();
    let mut last: usize = 0;
    let mut i: usize = 0;
    let ghost pv = patches_view(patches@);
    proof {
        assert(pv.len() == patches@.len());
        assert(pv.skip(0) =~= pv);
        assert(out@ + spec_emit_from(src@, pv, 0) =~= spec_emit_from(src@, pv, 0));
    }
    loop
        invariant
            i <= n,
            n == patches@.len(),
            pv == patches_view(patches@),
            pv.len() == n,
            patches_wf(pv),
            patches_bounded(pv, src@.len() as int),
            last <= src@.len(),
            i < n ==> last <= pv[i as int].start,
            out@ + spec_emit_from(src@, pv.skip(i as int), last as int)
                == spec_emit_from(src@, pv, 0),
        decreases n - i,
    {
        if i >= n {
            let sn = src.len();
            push_range(&mut out, src, last, sn);
            proof {
                assert(pv.skip(i as int) =~= Seq::<PatchV>::empty());
                assert(out@ =~= spec_emit_from(src@, pv, 0));
            }
            return out;
        }
        proof {
            assert(pv[i as int] == crate::patches::patch_view(patches@[i as int]));
            assert(pv.skip(i as int)[0] == pv[i as int]);
            assert(pv.skip(i as int).skip(1) =~= pv.skip(i as int + 1));
        }
        let e_start = patches[i].start;
        let e_end = patches[i].end;
        push_range(&mut out, src, last, e_start);
        let mut esc = escape_bytes(&patches[i].text);
        out.append(&mut esc);
        proof {
            if i + 1 < n {
                assert(pv[i as int].end <= pv[i as int + 1].start);
            }
            assert(out@ + spec_emit_from(src@, pv.skip(i as int + 1), e_end as int)
                =~= spec_emit_from(src@, pv, 0));
        }
        last = e_end;
        i = i + 1;
    }
}

} // verus!
