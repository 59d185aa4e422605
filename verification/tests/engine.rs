//! End-to-end scenarios driving the patching engine with a scripted
//! filesystem.

use patsh::{
    patch, Context, FsQuery, Multiplicity, NodeKind, Patcher, SyntaxTree, TreeNode,
    scan_arguments,
};

fn node(kind: NodeKind, start: usize, end: usize, arg: bool, children: Vec<usize>) -> TreeNode {
    TreeNode { kind, start, end, is_argument: arg, children }
}

/// Answers the engine's filesystem questions from a fixed script: a list of
/// executable paths and a list of symlinks with their targets.
fn run_fs(p: &mut Patcher, execs: &[&[u8]], links: &[(&[u8], &[u8])]) {
    while let Some(q) = p.next_query() {
        match q {
            FsQuery::IsExecutable(path) => {
                let yes = execs.iter().any(|e| *e == &path[..]);
                p.answer_exec(yes).unwrap();
            }
            FsQuery::ReadLink(path) => {
                let target = links
                    .iter()
                    .find(|(f, _)| *f == &path[..])
                    .map(|(_, t)| t.to_vec());
                p.answer_link(target).unwrap();
            }
        }
    }
}

/// A command whose name resolves through a symlink chain into the store is
/// rewritten to the resolved path, quoted per the escaping rule.
#[test]
fn scenario_store_symlink_chain() {
    // #!/bin/sh\nfoo bar\n : foo at 10..13, bar at 14..17
    let src = b"#!/bin/sh\nfoo bar\n".to_vec();
    let tree = SyntaxTree {
        nodes: vec![
            node(NodeKind::Other, 0, 18, false, vec![1]),
            node(NodeKind::Other, 10, 17, false, vec![2, 4]),
            node(NodeKind::CommandName, 10, 13, false, vec![3]),
            node(NodeKind::Word, 10, 13, false, vec![]),
            node(NodeKind::Word, 14, 17, true, vec![]),
        ],
    };
    let ctx = Context::load(
        Vec::new(),
        Some(b"/bin".to_vec()),
        src,
        b"<store>".to_vec(),
    );
    let mut p = patch(ctx, &tree).unwrap();
    run_fs(
        &mut p,
        &[b"/bin/foo"],
        &[
            (b"/bin/foo", b"/usr/local/foo"),
            (b"/usr/local/foo", b"<store>/foo-1.0/bin/foo"),
        ],
    );
    let out = p.output();
    assert_eq!(&out[..], &b"#!/bin/sh\n'<store>/foo-1.0/bin/foo' bar\n"[..]);
}

/// A privilege wrapper is pinned in place: `sudo` keeps its own range as an
/// identity patch while the wrapped command is resolved and substituted.
#[test]
fn scenario_wrapper_pinning() {
    // sudo -u root foo\n : sudo 0..4, -u 5..7, root 8..12, foo 13..16
    let src = b"sudo -u root foo\n".to_vec();
    let tree = SyntaxTree {
        nodes: vec![
            node(NodeKind::Other, 0, 17, false, vec![1]),
            node(NodeKind::Other, 0, 16, false, vec![2, 4, 5, 6]),
            node(NodeKind::CommandName, 0, 4, false, vec![3]),
            node(NodeKind::Word, 0, 4, false, vec![]),
            node(NodeKind::Word, 5, 7, true, vec![]),
            node(NodeKind::Word, 8, 12, true, vec![]),
            node(NodeKind::Word, 13, 16, true, vec![]),
        ],
    };
    let ctx = Context::load(
        Vec::new(),
        Some(b"/bin".to_vec()),
        src,
        b"/nix/store".to_vec(),
    );
    let mut p = patch(ctx, &tree).unwrap();
    run_fs(
        &mut p,
        &[b"/bin/foo", b"/bin/sudo"],
        &[(b"/bin/foo", b"/nix/store/abc-foo/bin/foo")],
    );
    // the identity patch claims sudo's own range
    assert_eq!(p.ctx.patches[0].start, 0);
    assert_eq!(p.ctx.patches[0].end, 4);
    assert_eq!(&p.ctx.patches[0].text[..], &b"sudo"[..]);
    // the wrapped command's range carries the resolved path
    assert_eq!(p.ctx.patches[1].start, 13);
    assert_eq!(p.ctx.patches[1].end, 16);
    assert_eq!(&p.ctx.patches[1].text[..], &b"/nix/store/abc-foo/bin/foo"[..]);
    let out = p.output();
    assert_eq!(&out[..], &b"sudo -u root /nix/store/abc-foo/bin/foo\n"[..]);
}

/// `type` always lists target names, so its argument is a candidate even
/// after an option; a builtin name without the exclusion bypass is still
/// left unresolved.
#[test]
fn scenario_type_builtin() {
    // type -p ls\n : type 0..4, -p 5..7, ls 8..10
    let src = b"type -p ls\n".to_vec();
    let tree = SyntaxTree {
        nodes: vec![
            node(NodeKind::Other, 0, 11, false, vec![1]),
            node(NodeKind::Other, 0, 10, false, vec![2, 4, 5]),
            node(NodeKind::CommandName, 0, 4, false, vec![3]),
            node(NodeKind::Word, 0, 4, false, vec![]),
            node(NodeKind::Word, 5, 7, true, vec![]),
            node(NodeKind::Word, 8, 10, true, vec![]),
        ],
    };
    // `ls` is a shell builtin here
    let ctx = Context::load(
        b"enable ls\n".to_vec(),
        Some(b"/bin".to_vec()),
        src.clone(),
        b"/nix/store".to_vec(),
    );
    // the scanner still yields `ls` as a candidate under multiplicity Always
    let cands = scan_arguments(
        &tree,
        &src,
        1,
        &[],
        &Vec::new(),
        &Multiplicity::Always,
        false,
    );
    assert_eq!(cands.len(), 1);
    assert_eq!(&cands[0].name[..], &b"ls"[..]);
    assert_eq!(cands[0].start, 8);
    assert_eq!(cands[0].end, 10);
    // but resolution leaves the builtin alone: no question is ever asked
    let mut p = patch(ctx, &tree).unwrap();
    assert!(p.next_query().is_none());
    let out = p.output();
    assert_eq!(&out[..], &b"type -p ls\n"[..]);
}

/// An absolute command path is looked up by its final component; when it
/// resolves outside the store the token is left byte-identical.
#[test]
fn scenario_env_outside_store() {
    // /usr/bin/env bash\n : name 0..12, bash 13..17
    let src = b"/usr/bin/env bash\n".to_vec();
    let tree = SyntaxTree {
        nodes: vec![
            node(NodeKind::Other, 0, 18, false, vec![1]),
            node(NodeKind::Other, 0, 17, false, vec![2, 4]),
            node(NodeKind::CommandName, 0, 12, false, vec![3]),
            node(NodeKind::Word, 0, 12, false, vec![]),
            node(NodeKind::Word, 13, 17, true, vec![]),
        ],
    };
    let ctx = Context::load(
        Vec::new(),
        Some(b"/usr/bin".to_vec()),
        src,
        b"/nix/store".to_vec(),
    );
    let mut p = patch(ctx, &tree).unwrap();
    run_fs(&mut p, &[b"/usr/bin/env"], &[]);
    assert!(p.ctx.patches.is_empty());
    let out = p.output();
    assert_eq!(&out[..], &b"/usr/bin/env bash\n"[..]);
}

/// A script that already names only store-rooted command paths is emitted
/// byte-identically, without a single filesystem question.
#[test]
fn scenario_already_pinned() {
    // /nix/store/abc/bin/foo x\n : name 0..22, x 23..24
    let src = b"/nix/store/abc/bin/foo x\n".to_vec();
    let tree = SyntaxTree {
        nodes: vec![
            node(NodeKind::Other, 0, 25, false, vec![1]),
            node(NodeKind::Other, 0, 24, false, vec![2, 4]),
            node(NodeKind::CommandName, 0, 22, false, vec![3]),
            node(NodeKind::Word, 0, 22, false, vec![]),
            node(NodeKind::Word, 23, 24, true, vec![]),
        ],
    };
    let ctx = Context::load(
        Vec::new(),
        Some(b"/bin".to_vec()),
        src.clone(),
        b"/nix/store".to_vec(),
    );
    let mut p = patch(ctx, &tree).unwrap();
    assert!(p.next_query().is_none());
    let out = p.output();
    assert_eq!(&out[..], &src[..]);
}

/// `exec` bypasses the builtin exclusion: its target resolves even when the
/// name is also a builtin, and `-a NAME` consumes its value.
#[test]
fn scenario_exec_bypasses_builtins() {
    // exec -a x pwd\n : exec 0..4, -a 5..7, x 8..9, pwd 10..13
    let src = b"exec -a x pwd\n".to_vec();
    let tree = SyntaxTree {
        nodes: vec![
            node(NodeKind::Other, 0, 14, false, vec![1]),
            node(NodeKind::Other, 0, 13, false, vec![2, 4, 5, 6]),
            node(NodeKind::CommandName, 0, 4, false, vec![3]),
            node(NodeKind::Word, 0, 4, false, vec![]),
            node(NodeKind::Word, 5, 7, true, vec![]),
            node(NodeKind::Word, 8, 9, true, vec![]),
            node(NodeKind::Word, 10, 13, true, vec![]),
        ],
    };
    let ctx = Context::load(
        b"enable pwd\n".to_vec(),
        Some(b"/bin".to_vec()),
        src,
        b"/nix/store".to_vec(),
    );
    let mut p = patch(ctx, &tree).unwrap();
    run_fs(
        &mut p,
        &[b"/bin/pwd"],
        &[(b"/bin/pwd", b"/nix/store/zzz-coreutils/bin/pwd")],
    );
    let out = p.output();
    assert_eq!(&out[..], &b"exec -a x /nix/store/zzz-coreutils/bin/pwd\n"[..]);
}

/// `command -v NAME` expects several targets once the trigger byte is seen,
/// but candidates stay subject to the builtin exclusion.
#[test]
fn scenario_command_triggered_multiplicity() {
    // command -v cp mv\n : command 0..7, -v 8..10, cp 11..13, mv 14..16
    let src = b"command -v cp mv\n".to_vec();
    let tree = SyntaxTree {
        nodes: vec![
            node(NodeKind::Other, 0, 17, false, vec![1]),
            node(NodeKind::Other, 0, 16, false, vec![2, 4, 5, 6]),
            node(NodeKind::CommandName, 0, 7, false, vec![3]),
            node(NodeKind::Word, 0, 7, false, vec![]),
            node(NodeKind::Word, 8, 10, true, vec![]),
            node(NodeKind::Word, 11, 13, true, vec![]),
            node(NodeKind::Word, 14, 16, true, vec![]),
        ],
    };
    let ctx = Context::load(
        Vec::new(),
        Some(b"/bin".to_vec()),
        src,
        b"/nix/store".to_vec(),
    );
    let mut p = patch(ctx, &tree).unwrap();
    run_fs(
        &mut p,
        &[b"/bin/cp", b"/bin/mv"],
        &[
            (b"/bin/cp", b"/nix/store/c-coreutils/bin/cp"),
            (b"/bin/mv", b"/nix/store/c-coreutils/bin/mv"),
        ],
    );
    let out = p.output();
    assert_eq!(
        &out[..],
        &b"command -v /nix/store/c-coreutils/bin/cp /nix/store/c-coreutils/bin/mv\n"[..]
    );
}

/// A token whose value is not statically known (an unescaped dollar sign
/// before the end) is never patched.
#[test]
fn scenario_dynamic_token_untouched() {
    // $FOO arg\n : name 0..4, arg 5..8
    let src = b"$FOO arg\n".to_vec();
    let tree = SyntaxTree {
        nodes: vec![
            node(NodeKind::Other, 0, 9, false, vec![1]),
            node(NodeKind::Other, 0, 8, false, vec![2, 4]),
            node(NodeKind::CommandName, 0, 4, false, vec![3]),
            node(NodeKind::Word, 0, 4, false, vec![]),
            node(NodeKind::Word, 5, 8, true, vec![]),
        ],
    };
    let ctx = Context::load(
        Vec::new(),
        Some(b"/bin".to_vec()),
        src.clone(),
        b"/nix/store".to_vec(),
    );
    let mut p = patch(ctx, &tree).unwrap();
    assert!(p.next_query().is_none());
    assert!(p.ctx.patches.is_empty());
    let out = p.output();
    assert_eq!(&out[..], &src[..]);
}

/// The symlink chain stops at the first target whose final component is not
/// the lookup key; that earlier path decides store membership.
#[test]
fn scenario_chain_stops_on_divergence() {
    // foo\n : foo 0..3
    let src = b"foo\n".to_vec();
    let tree = SyntaxTree {
        nodes: vec![
            node(NodeKind::Other, 0, 4, false, vec![1]),
            node(NodeKind::Other, 0, 3, false, vec![2]),
            node(NodeKind::CommandName, 0, 3, false, vec![3]),
            node(NodeKind::Word, 0, 3, false, vec![]),
        ],
    };
    let ctx = Context::load(
        Vec::new(),
        Some(b"/bin".to_vec()),
        src.clone(),
        b"/nix/store".to_vec(),
    );
    let mut p = patch(ctx, &tree).unwrap();
    // /bin/foo links to /etc/alternatives/foo-wrapper: the final component
    // differs from `foo`, so the chain ends at /bin/foo, which is outside
    // the store
    run_fs(
        &mut p,
        &[b"/bin/foo"],
        &[(b"/bin/foo", b"/etc/alternatives/foo-wrapper")],
    );
    assert!(p.ctx.patches.is_empty());
    let out = p.output();
    assert_eq!(&out[..], &src[..]);
}

/// The search path is probed in order and the first directory with an
/// executable wins.
#[test]
fn scenario_search_path_order() {
    // foo\n : foo 0..3
    let src = b"foo\n".to_vec();
    let tree = SyntaxTree {
        nodes: vec![
            node(NodeKind::Other, 0, 4, false, vec![1]),
            node(NodeKind::Other, 0, 3, false, vec![2]),
            node(NodeKind::CommandName, 0, 3, false, vec![3]),
            node(NodeKind::Word, 0, 3, false, vec![]),
        ],
    };
    let ctx = Context::load(
        Vec::new(),
        Some(b"/opt/bin:/bin".to_vec()),
        src,
        b"/nix/store".to_vec(),
    );
    let mut p = patch(ctx, &tree).unwrap();
    // /opt/bin/foo does not exist; /bin/foo does and is already a store link
    run_fs(
        &mut p,
        &[b"/bin/foo"],
        &[(b"/bin/foo", b"/nix/store/abc-foo/bin/foo")],
    );
    let out = p.output();
    assert_eq!(&out[..], &b"/nix/store/abc-foo/bin/foo\n"[..]);
}

/// A path-qualified wrapper is recognized by its basename: its token is
/// claimed by an identity patch carrying the token's own literal, so the
/// wrapper is reproduced unchanged while the wrapped command is pinned.
#[test]
fn scenario_wrapper_path_qualified() {
    // /usr/bin/sudo foo\n : name 0..13, foo 14..17
    let src = b"/usr/bin/sudo foo\n".to_vec();
    let tree = SyntaxTree {
        nodes: vec![
            node(NodeKind::Other, 0, 18, false, vec![1]),
            node(NodeKind::Other, 0, 17, false, vec![2, 4]),
            node(NodeKind::CommandName, 0, 13, false, vec![3]),
            node(NodeKind::Word, 0, 13, false, vec![]),
            node(NodeKind::Word, 14, 17, true, vec![]),
        ],
    };
    let ctx = Context::load(
        Vec::new(),
        Some(b"/bin".to_vec()),
        src,
        b"/nix/store".to_vec(),
    );
    let mut p = patch(ctx, &tree).unwrap();
    run_fs(
        &mut p,
        &[b"/bin/foo"],
        &[(b"/bin/foo", b"/nix/store/abc-foo/bin/foo")],
    );
    // the identity patch carries the token's own literal
    assert_eq!(p.ctx.patches[0].start, 0);
    assert_eq!(p.ctx.patches[0].end, 13);
    assert_eq!(&p.ctx.patches[0].text[..], &b"/usr/bin/sudo"[..]);
    let out = p.output();
    assert_eq!(&out[..], &b"/usr/bin/sudo /nix/store/abc-foo/bin/foo\n"[..]);
}

/// A script whose only command is a store-rooted wrapper path is emitted
/// byte-identically: the identity patch reproduces the token.
#[test]
fn scenario_pinned_wrapper_idempotent() {
    // /s/sudo\n : name 0..7
    let src = b"/s/sudo\n".to_vec();
    let tree = SyntaxTree {
        nodes: vec![
            node(NodeKind::Other, 0, 8, false, vec![1]),
            node(NodeKind::Other, 0, 7, false, vec![2]),
            node(NodeKind::CommandName, 0, 7, false, vec![3]),
            node(NodeKind::Word, 0, 7, false, vec![]),
        ],
    };
    let ctx = Context::load(Vec::new(), Some(b"/bin".to_vec()), src.clone(), b"/s".to_vec());
    let mut p = patch(ctx, &tree).unwrap();
    // the wrapper has no arguments, so nothing is left to resolve
    assert!(p.next_query().is_none());
    assert_eq!(p.ctx.patches.len(), 1);
    assert_eq!(&p.ctx.patches[0].text[..], &b"/s/sudo"[..]);
    let out = p.output();
    assert_eq!(&out[..], &src[..]);
}

/// A raw-quoted command token is replaced quotes and all: the patch range
/// covers the whole token.
#[test]
fn scenario_raw_quoted_command() {
    // 'foo'\n : raw string 0..5
    let src = b"'foo'\n".to_vec();
    let tree = SyntaxTree {
        nodes: vec![
            node(NodeKind::Other, 0, 6, false, vec![1]),
            node(NodeKind::Other, 0, 5, false, vec![2]),
            node(NodeKind::CommandName, 0, 5, false, vec![3]),
            node(NodeKind::RawString, 0, 5, false, vec![]),
        ],
    };
    let ctx = Context::load(
        Vec::new(),
        Some(b"/bin".to_vec()),
        src,
        b"/nix/store".to_vec(),
    );
    let mut p = patch(ctx, &tree).unwrap();
    run_fs(
        &mut p,
        &[b"/bin/foo"],
        &[(b"/bin/foo", b"/nix/store/abc-foo/bin/foo")],
    );
    let out = p.output();
    assert_eq!(&out[..], &b"/nix/store/abc-foo/bin/foo\n"[..]);
}

/// A trigger byte switches the scan to multiple targets even when it also
/// takes a value.
#[test]
fn scanner_trigger_on_value_taking_byte() {
    // cmd -v x y z : -v 4..6, x 7..8, y 9..10, z 11..12
    let src = b"cmd -v x y z".to_vec();
    let tree = SyntaxTree {
        nodes: vec![
            node(NodeKind::Other, 0, 12, false, vec![1]),
            node(NodeKind::Other, 0, 12, false, vec![2, 4, 5, 6, 7]),
            node(NodeKind::CommandName, 0, 3, false, vec![3]),
            node(NodeKind::Word, 0, 3, false, vec![]),
            node(NodeKind::Word, 4, 6, true, vec![]),
            node(NodeKind::Word, 7, 8, true, vec![]),
            node(NodeKind::Word, 9, 10, true, vec![]),
            node(NodeKind::Word, 11, 12, true, vec![]),
        ],
    };
    // `v` both takes a value and triggers multiple targets: it consumes `x`,
    // and from then on every remaining name is a candidate
    let cands = scan_arguments(
        &tree,
        &src,
        1,
        b"v",
        &Vec::new(),
        &Multiplicity::TriggeredBy(b"v".to_vec()),
        false,
    );
    assert_eq!(cands.len(), 2);
    assert_eq!(&cands[0].name[..], b"y");
    assert_eq!(&cands[1].name[..], b"z");
}

/// A pinned wrapper with a pinned wrapped command stays byte-identical: the
/// identity patch reproduces the wrapper and the store-rooted target is
/// skipped without a filesystem question.
#[test]
fn scenario_pinned_wrapper_and_target_idempotent() {
    // /s/sudo /s/b/foo\n : name 0..7, target 8..16
    let src = b"/s/sudo /s/b/foo\n".to_vec();
    let tree = SyntaxTree {
        nodes: vec![
            node(NodeKind::Other, 0, 17, false, vec![1]),
            node(NodeKind::Other, 0, 16, false, vec![2, 4]),
            node(NodeKind::CommandName, 0, 7, false, vec![3]),
            node(NodeKind::Word, 0, 7, false, vec![]),
            node(NodeKind::Word, 8, 16, true, vec![]),
        ],
    };
    let ctx = Context::load(Vec::new(), Some(b"/bin".to_vec()), src.clone(), b"/s".to_vec());
    let mut p = patch(ctx, &tree).unwrap();
    assert!(p.next_query().is_none());
    let out = p.output();
    assert_eq!(&out[..], &src[..]);
}

/// An empty script passes through untouched.
#[test]
fn scenario_empty_script() {
    let src: Vec<u8> = Vec::new();
    let tree = SyntaxTree { nodes: vec![node(NodeKind::Other, 0, 0, false, vec![])] };
    let ctx = Context::load(Vec::new(), None, src, b"/nix/store".to_vec());
    let mut p = patch(ctx, &tree).unwrap();
    assert!(p.next_query().is_none());
    assert!(p.output().is_empty());
}

/// Multi-byte text passes through the decoder unchanged; the name simply
/// fails to resolve.
#[test]
fn scenario_multibyte_command() {
    let src = "héllo\n".as_bytes().to_vec();
    let end = "héllo".len();
    let tree = SyntaxTree {
        nodes: vec![
            node(NodeKind::Other, 0, src.len(), false, vec![1]),
            node(NodeKind::Other, 0, end, false, vec![2]),
            node(NodeKind::CommandName, 0, end, false, vec![3]),
            node(NodeKind::Word, 0, end, false, vec![]),
        ],
    };
    let ctx = Context::load(
        Vec::new(),
        Some(b"/bin".to_vec()),
        src.clone(),
        b"/nix/store".to_vec(),
    );
    let mut p = patch(ctx, &tree).unwrap();
    run_fs(&mut p, &[], &[]);
    assert_eq!(&p.output()[..], &src[..]);
}

/// Two command tokens with partially overlapping ranges are a structural
/// inconsistency: once the first is patched, resolving the second aborts
/// with both ranges.
#[test]
fn scenario_partial_overlap_is_fatal() {
    // two overlapping word tokens over "abcdefg": [0,5) and [2,7)
    let src = b"abcdefg".to_vec();
    let tree = SyntaxTree {
        nodes: vec![
            node(NodeKind::Other, 0, 7, false, vec![1, 3]),
            node(NodeKind::CommandName, 0, 5, false, vec![2]),
            node(NodeKind::Word, 0, 5, false, vec![]),
            node(NodeKind::CommandName, 2, 7, false, vec![4]),
            node(NodeKind::Word, 2, 7, false, vec![]),
        ],
    };
    let ctx = Context::load(
        Vec::new(),
        Some(b"/bin".to_vec()),
        src,
        b"/nix/store".to_vec(),
    );
    let mut p = patch(ctx, &tree).unwrap();
    let mut conflict = None;
    while let Some(q) = p.next_query() {
        let step = match q {
            FsQuery::IsExecutable(_) => p.answer_exec(true),
            FsQuery::ReadLink(path) => {
                // each /bin/NAME is a link to /nix/store/x/bin/NAME; the
                // store path itself is not a link
                let mut target = b"/nix/store/x/bin/".to_vec();
                target.extend_from_slice(&path[5..]);
                if path.starts_with(b"/bin/") {
                    p.answer_link(Some(target))
                } else {
                    p.answer_link(None)
                }
            }
        };
        if let Err(e) = step {
            conflict = Some(e);
            break;
        }
    }
    let e = conflict.expect("overlap must be fatal");
    let patsh::PatchError::Conflict { start, end, other_start, other_end } = e;
    assert_eq!((start, end), (2, 7));
    assert_eq!((other_start, other_end), (0, 5));
}
