//! Unit tests for the decoder, the path model, the patch set, the escaper,
//! and the context loaders.

use patsh::{
    add_patch, decode_literal, emit, escape_bytes, file_name, get_patch_index, lookup_key,
    path_components, path_join, path_starts_with, Context, NodeKind, PatchEntry, PatchIndex,
    PathPart,
};

fn entry(start: usize, end: usize, text: &[u8]) -> PatchEntry {
    PatchEntry { start, end, text: text.to_vec() }
}

#[test]
fn decode_word_plain() {
    let src = b"hello".to_vec();
    let r = decode_literal(&src, NodeKind::Word, 0, 5).unwrap();
    assert_eq!(&r[..], b"hello");
}

#[test]
fn decode_word_backslash_escapes_anything() {
    // a\$b decodes to a$b: the backslash shields the dollar sign
    let src = b"a\\$b".to_vec();
    let r = decode_literal(&src, NodeKind::Word, 0, 4).unwrap();
    assert_eq!(&r[..], b"a$b");
}

#[test]
fn decode_word_trailing_dollar_kept() {
    let src = b"name$".to_vec();
    let r = decode_literal(&src, NodeKind::Word, 0, 5).unwrap();
    assert_eq!(&r[..], b"name$");
}

#[test]
fn decode_word_inner_dollar_fails() {
    // an unescaped dollar sign before the end means expansion: unknown
    let src = b"$HOME".to_vec();
    assert!(decode_literal(&src, NodeKind::Word, 0, 5).is_none());
}

#[test]
fn decode_word_trailing_backslash_fails() {
    let src = b"abc\\".to_vec();
    assert!(decode_literal(&src, NodeKind::Word, 0, 4).is_none());
}

#[test]
fn decode_raw_string_verbatim() {
    // '$x y' : content is raw, dollar signs and all
    let src = b"'$x y'".to_vec();
    let r = decode_literal(&src, NodeKind::RawString, 0, 6).unwrap();
    assert_eq!(&r[..], b"$x y");
}

#[test]
fn decode_quoted_real_escapes_consumed() {
    // "a\"b\\c" decodes to a"b\c
    let src = b"\"a\\\"b\\\\c\"".to_vec();
    let r = decode_literal(&src, NodeKind::Quoted, 0, src.len()).unwrap();
    assert_eq!(&r[..], b"a\"b\\c");
}

#[test]
fn decode_quoted_other_escape_kept() {
    // "a\nb" keeps the backslash: this quoting style does not consume it
    let src = b"\"a\\nb\"".to_vec();
    let r = decode_literal(&src, NodeKind::Quoted, 0, 6).unwrap();
    assert_eq!(&r[..], b"a\\nb");
}

#[test]
fn decode_quoted_inner_dollar_fails() {
    let src = b"\"$x\"".to_vec();
    assert!(decode_literal(&src, NodeKind::Quoted, 0, 4).is_none());
}

#[test]
fn decode_quoted_final_dollar_kept() {
    let src = b"\"x$\"".to_vec();
    let r = decode_literal(&src, NodeKind::Quoted, 0, 4).unwrap();
    assert_eq!(&r[..], b"x$");
}

#[test]
fn decode_other_kind_fails() {
    let src = b"xyz".to_vec();
    assert!(decode_literal(&src, NodeKind::Other, 0, 3).is_none());
}

#[test]
fn decode_invalid_text_fails() {
    let src = vec![0x61, 0xFF, 0x62];
    assert!(decode_literal(&src, NodeKind::Word, 0, 3).is_none());
}

#[test]
fn file_name_of_paths() {
    assert_eq!(&file_name(&b"/usr/bin/env".to_vec()).unwrap()[..], b"env");
    assert_eq!(&file_name(&b"foo".to_vec()).unwrap()[..], b"foo");
    assert_eq!(&file_name(&b"a/b/".to_vec()).unwrap()[..], b"b");
    assert!(file_name(&b"/".to_vec()).is_none());
    assert!(file_name(&b"a/..".to_vec()).is_none());
    assert!(file_name(&b"".to_vec()).is_none());
}

#[test]
fn components_reading() {
    let c = path_components(&b"./a/../b/".to_vec());
    assert_eq!(c.len(), 4);
    assert!(matches!(c[0], PathPart::Cur));
    assert!(matches!(&c[1], PathPart::Name(v) if &v[..] == b"a"));
    assert!(matches!(c[2], PathPart::Parent));
    assert!(matches!(&c[3], PathPart::Name(v) if &v[..] == b"b"));
    let c = path_components(&b"//x/./y".to_vec());
    assert_eq!(c.len(), 3);
    assert!(matches!(c[0], PathPart::Root));
    assert!(matches!(&c[1], PathPart::Name(v) if &v[..] == b"x"));
    assert!(matches!(&c[2], PathPart::Name(v) if &v[..] == b"y"));
}

#[test]
fn starts_with_is_component_wise() {
    let store = b"/nix/store".to_vec();
    assert!(path_starts_with(&b"/nix/store/abc/bin/x".to_vec(), &store));
    assert!(path_starts_with(&b"/nix/store".to_vec(), &store));
    // a byte prefix that is not a component prefix does not count
    assert!(!path_starts_with(&b"/nix/storeX/abc".to_vec(), &store));
    assert!(!path_starts_with(&b"/nix".to_vec(), &store));
    // repeated slashes collapse
    assert!(path_starts_with(&b"/nix//store/abc".to_vec(), &store));
}

#[test]
fn join_inserts_separator_when_needed() {
    assert_eq!(&path_join(&b"/bin".to_vec(), &b"ls".to_vec())[..], b"/bin/ls");
    assert_eq!(&path_join(&b"/bin/".to_vec(), &b"ls".to_vec())[..], b"/bin/ls");
    assert_eq!(&path_join(&b"".to_vec(), &b"ls".to_vec())[..], b"ls");
}

#[test]
fn lookup_key_shapes() {
    let builtins = vec![b"ls".to_vec()];
    let store = b"/nix/store".to_vec();
    // absolute: the final component is the key
    assert_eq!(&lookup_key(&b"/usr/bin/env".to_vec(), &builtins, false, &store).unwrap()[..],
        b"env");
    // bare name not a builtin
    assert_eq!(&lookup_key(&b"cp".to_vec(), &builtins, false, &store).unwrap()[..], b"cp");
    // builtin without bypass: no key; with bypass: the name
    assert!(lookup_key(&b"ls".to_vec(), &builtins, false, &store).is_none());
    assert_eq!(&lookup_key(&b"ls".to_vec(), &builtins, true, &store).unwrap()[..], b"ls");
    // store-rooted names are left alone
    assert!(lookup_key(&b"/nix/store/x/bin/cp".to_vec(), &builtins, false, &store).is_none());
    // multi-component relative paths are left alone
    assert!(lookup_key(&b"a/b".to_vec(), &builtins, false, &store).is_none());
}

#[test]
fn patch_index_duplicate_suppressed() {
    let mut patches: Vec<PatchEntry> = Vec::new();
    let at = get_patch_index(&patches, 5, 9);
    assert!(matches!(at, PatchIndex::Insert(0)));
    add_patch(&mut patches, at, entry(5, 9, b"x"));
    // the same exact range again: already present, do nothing
    let again = get_patch_index(&patches, 5, 9);
    assert!(matches!(again, PatchIndex::Duplicate));
    assert_eq!(patches.len(), 1);
}

#[test]
fn patch_index_keeps_order() {
    let mut patches: Vec<PatchEntry> = Vec::new();
    let at = get_patch_index(&patches, 10, 14);
    add_patch(&mut patches, at, entry(10, 14, b"b"));
    let at = get_patch_index(&patches, 0, 4);
    assert!(matches!(at, PatchIndex::Insert(0)));
    add_patch(&mut patches, at, entry(0, 4, b"a"));
    let at = get_patch_index(&patches, 20, 24);
    assert!(matches!(at, PatchIndex::Insert(2)));
    add_patch(&mut patches, at, entry(20, 24, b"c"));
    assert_eq!(patches[0].start, 0);
    assert_eq!(patches[1].start, 10);
    assert_eq!(patches[2].start, 20);
}

#[test]
fn patch_index_nested_replaces() {
    let mut patches: Vec<PatchEntry> = Vec::new();
    let at = get_patch_index(&patches, 5, 15);
    add_patch(&mut patches, at, entry(5, 15, b"outer"));
    let at = get_patch_index(&patches, 7, 12);
    assert!(matches!(at, PatchIndex::Replace(0)));
    add_patch(&mut patches, at, entry(7, 12, b"inner"));
    assert_eq!(patches.len(), 1);
    assert_eq!(patches[0].start, 7);
    assert_eq!(patches[0].end, 12);
    assert_eq!(&patches[0].text[..], b"inner");
}

#[test]
fn patch_index_partial_overlap_conflicts() {
    let mut patches: Vec<PatchEntry> = Vec::new();
    let at = get_patch_index(&patches, 5, 15);
    add_patch(&mut patches, at, entry(5, 15, b"x"));
    assert!(matches!(get_patch_index(&patches, 10, 20), PatchIndex::Conflict(0)));
    assert!(matches!(get_patch_index(&patches, 0, 10), PatchIndex::Conflict(0)));
    // a strict superset conflicts too
    assert!(matches!(get_patch_index(&patches, 0, 20), PatchIndex::Conflict(0)));
}

#[test]
fn escape_safe_text_unchanged() {
    assert_eq!(&escape_bytes(&b"/nix/store/abc-foo/bin/foo".to_vec())[..],
        b"/nix/store/abc-foo/bin/foo");
    assert_eq!(&escape_bytes(&b"a-b_c=d/e,f.g+h".to_vec())[..], b"a-b_c=d/e,f.g+h");
}

#[test]
fn escape_quotes_unsafe_text() {
    assert_eq!(&escape_bytes(&b"a b".to_vec())[..], b"'a b'");
    assert_eq!(&escape_bytes(&b"".to_vec())[..], b"''");
    // an embedded single quote becomes '\''
    assert_eq!(&escape_bytes(&b"a'b".to_vec())[..], b"'a'\\''b'");
}

#[test]
fn escape_invalid_text_raw_quoted() {
    let raw = vec![0x61, 0xFF, 0x62];
    let out = escape_bytes(&raw);
    assert_eq!(out[0], b'\'');
    assert_eq!(&out[1..4], &raw[..]);
    assert_eq!(out[4], b'\'');
}

#[test]
fn emit_renders_patches_in_order() {
    let src = b"one two three".to_vec();
    let mut patches: Vec<PatchEntry> = Vec::new();
    let at = get_patch_index(&patches, 4, 7);
    add_patch(&mut patches, at, entry(4, 7, b"2"));
    let at = get_patch_index(&patches, 0, 3);
    add_patch(&mut patches, at, entry(0, 3, b"num 1"));
    let out = emit(&src, &patches);
    assert_eq!(&out[..], b"'num 1' 2 three");
}

#[test]
fn emit_without_patches_is_identity() {
    let src = b"echo hi\n".to_vec();
    let patches: Vec<PatchEntry> = Vec::new();
    let out = emit(&src, &patches);
    assert_eq!(&out[..], &src[..]);
}

#[test]
fn load_parses_builtins_and_paths() {
    let listing = b"enable alias\nenable cd\nnot a builtin line\nenable type\n".to_vec();
    let ctx = Context::load(
        listing,
        Some(b"/usr/local/bin:/usr/bin::/bin".to_vec()),
        b"".to_vec(),
        b"/nix/store".to_vec(),
    );
    assert_eq!(ctx.builtins.len(), 3);
    assert_eq!(&ctx.builtins[0][..], b"alias");
    assert_eq!(&ctx.builtins[1][..], b"cd");
    assert_eq!(&ctx.builtins[2][..], b"type");
    assert_eq!(ctx.paths.len(), 4);
    assert_eq!(&ctx.paths[0][..], b"/usr/local/bin");
    assert_eq!(&ctx.paths[1][..], b"/usr/bin");
    assert_eq!(&ctx.paths[2][..], b"");
    assert_eq!(&ctx.paths[3][..], b"/bin");
    assert!(ctx.patches.is_empty());
}

#[test]
fn load_drops_invalid_text_lines() {
    // a line that is not valid text is dropped even with the prefix
    let mut listing = b"enable cd\nenable ".to_vec();
    listing.push(0xFF);
    listing.extend_from_slice(b"\nenable pwd\n");
    let ctx = Context::load(listing, None, b"".to_vec(), b"/s".to_vec());
    assert_eq!(ctx.builtins.len(), 2);
    assert_eq!(&ctx.builtins[0][..], b"cd");
    assert_eq!(&ctx.builtins[1][..], b"pwd");
}

#[test]
fn load_with_crlf_lines() {
    let listing = b"enable cd\r\nenable pwd\r\n".to_vec();
    let ctx = Context::load(listing, None, b"".to_vec(), b"/s".to_vec());
    assert_eq!(ctx.builtins.len(), 2);
    assert_eq!(&ctx.builtins[0][..], b"cd");
    assert_eq!(&ctx.builtins[1][..], b"pwd");
    assert!(ctx.paths.is_empty());
}
