//! Pins shell-script commands to store paths.
//!
//! The library walks a concrete syntax tree of a shell script, decodes
//! command-name tokens conservatively, resolves bare names through a search
//! path, and maintains an ordered, non-overlapping set of byte-range
//! substitutions that an emitter renders into the patched script.

mod bytes;
mod context;
mod emit;
mod laws;
mod literal;
mod lookup;
mod machine;
mod patches;
mod path;
mod resolve;
mod scan;
mod tree;
mod walk;

pub use context::Context;
pub use emit::{emit, escape_bytes, lemma_identity_patches_reproduce};
pub use laws::{
    lemma_identity_idempotence, lemma_pinned_idempotence, lemma_undecodable_token_untouched,
    lemma_wrapper_pinned,
};
pub use literal::decode_literal;
pub use lookup::lookup_key;
pub use machine::{patch, FsQuery, Patcher, Phase};
pub use patches::{add_patch, get_patch_index, PatchEntry, PatchIndex};
pub use path::{file_name, path_components, path_join, path_starts_with, PathPart};
pub use resolve::{parse_command, PatchError};
pub use scan::{scan_arguments, Candidate, Multiplicity};
pub use tree::{NodeKind, SyntaxTree, TreeNode};
pub use walk::walk;
