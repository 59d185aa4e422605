//! Conservative decoding of literal shell tokens.
//!
//! A token is decoded only when its run-time value is statically known.  A
//! raw-quoted token is its bytes verbatim; an escaped-quoted token processes
//! a small fixed set of backslash escapes and allows a dollar sign only as
//! its very last byte; a bare word lets a backslash escape anything and
//! allows a dollar sign only at the end.  Everything else — and any token
//! that is not valid text — fails to decode and is left untouched.

use vstd::prelude::*;
use crate::bytes::push_range;
use crate::tree::NodeKind;

verus! {

/// A UTF-8 continuation byte.
pub open spec fn is_cont(b: u8) -> bool {
    0x80 <= b < 0xC0
}

/// Whether the byte sequence is valid UTF-8 text.
pub open spec fn valid_text(s: Seq<u8>) -> bool
    decreases s.len(),
{
    if s.len() == 0 {
        true
    } else {
        let b0 = s[0];
        if b0 < 0x80 {
            valid_text(s.skip(1))
        } else if 0xC2 <= b0 && b0 <= 0xDF {
            s.len() >= 2 && is_cont(s[1]) && valid_text(s.skip(2))
        } else if b0 == 0xE0 {
            s.len() >= 3 && 0xA0 <= s[1] && s[1] <= 0xBF && is_cont(s[2]) && valid_text(s.skip(3))
        } else if 0xE1 <= b0 && b0 <= 0xEF && b0 != 0xED {
            s.len() >= 3 && is_cont(s[1]) && is_cont(s[2]) && valid_text(s.skip(3))
        } else if b0 == 0xED {
            s.len() >= 3 && 0x80 <= s[1] && s[1] <= 0x9F && is_cont(s[2]) && valid_text(s.skip(3))
        } else if b0 == 0xF0 {
            s.len() >= 4 && 0x90 <= s[1] && s[1] <= 0xBF && is_cont(s[2]) && is_cont(s[3])
                && valid_text(s.skip(4))
        } else if 0xF1 <= b0 && b0 <= 0xF3 {
            s.len() >= 4 && is_cont(s[1]) && is_cont(s[2]) && is_cont(s[3]) && valid_text(s.skip(4))
        } else if b0 == 0xF4 {
            s.len() >= 4 && 0x80 <= s[1] && s[1] <= 0x8F && is_cont(s[2]) && is_cont(s[3])
                && valid_text(s.skip(4))
        } else {
            false
        }
    }
}

/// Checks that the byte vector is valid UTF-8 text.
pub fn check_valid_text(s: &Vec<u8>) -> (r: bool)
    ensures
        r == valid_text(s@),
{
    let n = s.len();
    let mut i: usize = 0;
    proof {
        assert(s@.skip(0) =~= s@);
    }
    loop
        invariant
            i <= n,
            n == s@.len(),
            valid_text(s@) == valid_text(s@.skip(i as int)),
        decreases n - i,
    {
        if i >= n {
            assert(s@.skip(i as int) =~= Seq::<u8>::empty());
            return true;
        }
        let b0 = s[i];
        let width: usize = if b0 < 0x80 {
            1
        } else if 0xC2 <= b0 && b0 <= 0xDF {
            if i + 1 >= n || !(0x80 <= s[i + 1] && s[i + 1] < 0xC0) {
                return false;
            }
            2
        } else if b0 == 0xE0 {
            if n - i < 3 || !(0xA0 <= s[i + 1] && s[i + 1] <= 0xBF)
                || !(0x80 <= s[i + 2] && s[i + 2] < 0xC0) {
                return false;
            }
            3
        } else if 0xE1 <= b0 && b0 <= 0xEF && b0 != 0xED {
            if n - i < 3 || !(0x80 <= s[i + 1] && s[i + 1] < 0xC0)
                || !(0x80 <= s[i + 2] && s[i + 2] < 0xC0) {
                return false;
            }
            3
        } else if b0 == 0xED {
            if n - i < 3 || !(0x80 <= s[i + 1] && s[i + 1] <= 0x9F)
                || !(0x80 <= s[i + 2] && s[i + 2] < 0xC0) {
                return false;
            }
            3
        } else if b0 == 0xF0 {
            if n - i < 4 || !(0x90 <= s[i + 1] && s[i + 1] <= 0xBF)
                || !(0x80 <= s[i + 2] && s[i + 2] < 0xC0)
                || !(0x80 <= s[i + 3] && s[i + 3] < 0xC0) {
                return false;
            }
            4
        } else if 0xF1 <= b0 && b0 <= 0xF3 {
            if n - i < 4 || !(0x80 <= s[i + 1] && s[i + 1] < 0xC0)
                || !(0x80 <= s[i + 2] && s[i + 2] < 0xC0)
                || !(0x80 <= s[i + 3] && s[i + 3] < 0xC0) {
                return false;
            }
            4
        } else if b0 == 0xF4 {
            if n - i < 4 || !(0x80 <= s[i + 1] && s[i + 1] <= 0x8F)
                || !(0x80 <= s[i + 2] && s[i + 2] < 0xC0)
                || !(0x80 <= s[i + 3] && s[i + 3] < 0xC0) {
                return false;
            }
            4
        } else {
            return false;
        };
        proof {
            assert(s@.skip(i as int).skip(width as int) =~= s@.skip(i as int + width as int));
        }
        i = i + width;
    }
}

/// Decoding of a bare word: a backslash escapes the next byte, whatever it
/// is; a dollar sign is allowed only as the very last byte.
pub open spec fn decode_word_from(s: Seq<u8>) -> Option<Seq<u8>>
    decreases s.len(),
{
    if s.len() == 0 {
        Some(seq![])
    } else if s[0] == 0x5C {
        if s.len() == 1 {
            None
        } else {
            match decode_word_from(s.skip(2)) {
                None => None,
                Some(t) => Some(seq![s[1]] + t),
            }
        }
    } else if s[0] == 0x24 {
        if s.len() == 1 {
            Some(seq![0x24u8])
        } else {
            None
        }
    } else {
        match decode_word_from(s.skip(1)) {
            None => None,
            Some(t) => Some(seq![s[0]] + t),
        }
    }
}

/// Decoding of an escaped-quoted token body: a backslash followed by one of
/// dollar, backtick, double-quote or backslash yields just that byte; a
/// backslash followed by anything else keeps both bytes; a dollar sign is
/// allowed only as the very last byte.
pub open spec fn decode_quoted_from(s: Seq<u8>) -> Option<Seq<u8>>
    decreases s.len(),
{
    if s.len() == 0 {
        Some(seq![])
    } else if s[0] == 0x5C {
        if s.len() == 1 {
            None
        } else {
            let c = s[1];
            match decode_quoted_from(s.skip(2)) {
                None => None,
                Some(t) => if c == 0x24 || c == 0x60 || c == 0x22 || c == 0x5C {
                    Some(seq![c] + t)
                } else {
                    Some(seq![0x5Cu8, c] + t)
                },
            }
        }
    } else if s[0] == 0x24 {
        if s.len() == 1 {
            Some(seq![0x24u8])
        } else {
            None
        }
    } else {
        match decode_quoted_from(s.skip(1)) {
            None => None,
            Some(t) => Some(seq![s[0]] + t),
        }
    }
}

/// What a syntax-tree token at `[start, end)` of the source decodes to: raw
/// quotes pass their body through, escaped quotes and bare words process
/// escapes, any other node kind is not a simple literal.  A token that is
/// not valid text never decodes.
pub open spec fn spec_decode_node(
    kind: NodeKind,
    src: Seq<u8>,
    start: int,
    end: int,
) -> Option<Seq<u8>> {
    match kind {
        NodeKind::RawString => if end - start >= 2 && valid_text(
            src.subrange(start + 1, end - 1),
        ) {
            Some(src.subrange(start + 1, end - 1))
        } else {
            None
        },
        NodeKind::Quoted => if end - start >= 2 && valid_text(src.subrange(start + 1, end - 1)) {
            decode_quoted_from(src.subrange(start + 1, end - 1))
        } else {
            None
        },
        NodeKind::Word => if valid_text(src.subrange(start, end)) {
            decode_word_from(src.subrange(start, end))
        } else {
            None
        },
        _ => None,
    }
}

/// Runs the bare-word escape processing.
fn run_decode_word(content: &Vec<u8>) -> (r: Option<Vec<u8>>)
    ensures
        match r {
            Some(v) => decode_word_from(content@) == Some(v@),
            None => decode_word_from(content@) is None,
        },
{
    let n = content.len();
    let mut out: Vec<u8> = Vec::new();
    let mut i: usize = 0;
    proof {
        assert(content@.skip(0) =~= content@);
        if decode_word_from(content@) is Some {
            assert(out@ + decode_word_from(content@)->Some_0 =~= decode_word_from(content@)->Some_0);
        }
    }
    loop
        invariant
            i <= n,
            n == content@.len(),
            decode_word_from(content@) is Some
                <==> decode_word_from(content@.skip(i as int)) is Some,
            decode_word_from(content@) is Some ==> decode_word_from(content@)->Some_0
                == out@ + decode_word_from(content@.skip(i as int))->Some_0,
        decreases n - i,
    {
        if i >= n {
            proof {
                assert(content@.skip(i as int) =~= Seq::<u8>::empty());
                if decode_word_from(content@) is Some {
                    assert(decode_word_from(content@)->Some_0 =~= out@);
                }
            }
            return Some(out);
        }
        let b = content[i];
        if b == 0x5C {
            if i + 1 >= n {
                return None;
            }
            proof {
                assert(content@.skip(i as int).skip(2) =~= content@.skip(i as int + 2));
                assert(content@.skip(i as int)[1] == content@[i as int + 1]);
            }
            out.push(content[i + 1]);
            proof {
                if decode_word_from(content@) is Some {
                    assert(decode_word_from(content@)->Some_0 =~= out@
                        + decode_word_from(content@.skip(i as int + 2))->Some_0);
                }
            }
            i = i + 2;
        } else if b == 0x24 {
            if i + 1 < n {
                return None;
            }
            out.push(0x24);
            proof {
                assert(content@.skip(i as int) =~= seq![0x24u8]);
                assert(content@.skip(i as int + 1) =~= Seq::<u8>::empty());
                if decode_word_from(content@) is Some {
                    assert(decode_word_from(content@)->Some_0 =~= out@);
                    assert(decode_word_from(content@)->Some_0 =~= out@
                        + decode_word_from(content@.skip(i as int + 1))->Some_0);
                }
            }
            i = i + 1;
        } else {
            proof {
                assert(content@.skip(i as int).skip(1) =~= content@.skip(i as int + 1));
            }
            out.push(b);
            proof {
                if decode_word_from(content@) is Some {
                    assert(decode_word_from(content@)->Some_0 =~= out@
                        + decode_word_from(content@.skip(i as int + 1))->Some_0);
                }
            }
            i = i + 1;
        }
    }
}

/// Runs the escaped-quote processing.
fn run_decode_quoted(content: &Vec<u8>) -> (r: Option<Vec<u8>>)
    ensures
        match r {
            Some(v) => decode_quoted_from(content@) == Some(v@),
            None => decode_quoted_from(content@) is None,
        },
{
    let n = content.len();
    let mut out: Vec<u8> = Vec::new();
    let mut i: usize = 0;
    proof {
        assert(content@.skip(0) =~= content@);
        if decode_quoted_from(content@) is Some {
            assert(out@ + decode_quoted_from(content@)->Some_0 =~= decode_quoted_from(content@)->Some_0);
        }
    }
    loop
        invariant
            i <= n,
            n == content@.len(),
            decode_quoted_from(content@) is Some
                <==> decode_quoted_from(content@.skip(i as int)) is Some,
            decode_quoted_from(content@) is Some ==> decode_quoted_from(content@)->Some_0
                == out@ + decode_quoted_from(content@.skip(i as int))->Some_0,
        decreases n - i,
    {
        if i >= n {
            proof {
                assert(content@.skip(i as int) =~= Seq::<u8>::empty());
                if decode_quoted_from(content@) is Some {
                    assert(decode_quoted_from(content@)->Some_0 =~= out@);
                }
            }
            return Some(out);
        }
        let b = content[i];
        if b == 0x5C {
            if i + 1 >= n {
                return None;
            }
            proof {
                assert(content@.skip(i as int).skip(2) =~= content@.skip(i as int + 2));
                assert(content@.skip(i as int)[1] == content@[i as int + 1]);
            }
            let c = content[i + 1];
            if !(c == 0x24 || c == 0x60 || c == 0x22 || c == 0x5C) {
                out.push(0x5C);
            }
            out.push(c);
            proof {
                if decode_quoted_from(content@) is Some {
                    assert(decode_quoted_from(content@)->Some_0 =~= out@
                        + decode_quoted_from(content@.skip(i as int + 2))->Some_0);
                }
            }
            i = i + 2;
        } else if b == 0x24 {
            if i + 1 < n {
                return None;
            }
            out.push(0x24);
            proof {
                assert(content@.skip(i as int) =~= seq![0x24u8]);
                assert(content@.skip(i as int + 1) =~= Seq::<u8>::empty());
                if decode_quoted_from(content@) is Some {
                    assert(decode_quoted_from(content@)->Some_0 =~= out@);
                    assert(decode_quoted_from(content@)->Some_0 =~= out@
                        + decode_quoted_from(content@.skip(i as int + 1))->Some_0);
                }
            }
            i = i + 1;
        } else {
            proof {
                assert(content@.skip(i as int).skip(1) =~= content@.skip(i as int + 1));
            }
            out.push(b);
            proof {
                if decode_quoted_from(content@) is Some {
                    assert(decode_quoted_from(content@)->Some_0 =~= out@
                        + decode_quoted_from(content@.skip(i as int + 1))->Some_0);
                }
            }
            i = i + 1;
        }
    }
}

/// Decodes the token at `[start, end)` of the source with the given node
/// kind, yielding its literal byte value or nothing when the value is not
/// statically known.
pub fn decode_literal(src: &Vec<u8>, kind: NodeKind, start: usize, end: usize) -> (r: Option<
    Vec<u8>,
>)
    requires
        start <= end <= src@.len(),
    ensures
        match r {
            Some(v) => spec_decode_node(kind, src@, start as int, end as int) == Some(v@),
            None => spec_decode_node(kind, src@, start as int, end as int) is None,
        },
{
    match kind {
        NodeKind::RawString => {
            if end - start < 2 {
                return None;
            }
            let mut content: Vec<u8> = Vec::new();
            push_range(&mut content, src, start + 1, end - 1);
            assert(content@ =~= src@.subrange(start as int + 1, end as int - 1));
            if !check_valid_text(&content) {
                return None;
            }
            Some(content)
        }
        NodeKind::Quoted => {
            if end - start < 2 {
                return None;
            }
            let mut content: Vec<u8> = Vec::new();
            push_range(&mut content, src, start + 1, end - 1);
            assert(content@ =~= src@.subrange(start as int + 1, end as int - 1));
            if !check_valid_text(&content) {
                return None;
            }
            run_decode_quoted(&content)
        }
        NodeKind::Word => {
            let mut content: Vec<u8> = Vec::new();
            push_range(&mut content, src, start, end);
            assert(content@ =~= src@.subrange(start as int, end as int));
            if !check_valid_text(&content) {
                return None;
            }
            run_decode_word(&content)
        }
        _ => None,
    }
}

/// An unescaped dollar sign somewhere before the final byte, read the way
/// the escape-processing decoders read their input: a backslash always
/// shields the byte after it.
pub open spec fn has_unescaped_inner_dollar(s: Seq<u8>) -> bool
    decreases s.len(),
{
    if s.len() == 0 {
        false
    } else if s[0] == 0x5C {
        s.len() >= 2 && has_unescaped_inner_dollar(s.skip(2))
    } else if s[0] == 0x24 {
        s.len() > 1
    } else {
        has_unescaped_inner_dollar(s.skip(1))
    }
}

/// Decoder conservatism for bare words: a word holding an unescaped dollar
/// sign that is not its final byte never decodes.
pub proof fn lemma_decoder_conservative_word(s: Seq<u8>)
    requires
        has_unescaped_inner_dollar(s),
    ensures
        decode_word_from(s) is None,
    decreases s.len(),
{
    if s.len() > 0 {
        if s[0] == 0x5C {
            lemma_decoder_conservative_word(s.skip(2));
        } else if s[0] == 0x24 {
        } else {
            lemma_decoder_conservative_word(s.skip(1));
        }
    }
}

/// Decoder conservatism for escaped-quoted bodies: a body holding an
/// unescaped dollar sign that is not its final byte never decodes.
pub proof fn lemma_decoder_conservative_quoted(s: Seq<u8>)
    requires
        has_unescaped_inner_dollar(s),
    ensures
        decode_quoted_from(s) is None,
    decreases s.len(),
{
    if s.len() > 0 {
        if s[0] == 0x5C {
            lemma_decoder_conservative_quoted(s.skip(2));
        } else if s[0] == 0x24 {
        } else {
            lemma_decoder_conservative_quoted(s.skip(1));
        }
    }
}

/// Decoder conservatism at the token level: a bare word or escaped-quoted
/// token whose content holds an unescaped dollar sign before the final byte
/// never decodes, so no candidate ever arises from it.
pub proof fn lemma_decoder_conservative(kind: NodeKind, src: Seq<u8>, start: int, end: int)
    requires
        match kind {
            NodeKind::Word => has_unescaped_inner_dollar(src.subrange(start, end)),
            NodeKind::Quoted => end - start >= 2 && has_unescaped_inner_dollar(
                src.subrange(start + 1, end - 1),
            ),
            _ => false,
        },
    ensures
        spec_decode_node(kind, src, start, end) is None,
{
    match kind {
        NodeKind::Word => lemma_decoder_conservative_word(src.subrange(start, end)),
        NodeKind::Quoted => lemma_decoder_conservative_quoted(src.subrange(start + 1, end - 1)),
        _ => {}
    }
}

} // verus!
