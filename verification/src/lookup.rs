//! Deriving the search-path lookup key from a candidate name.
//!
//! A candidate already under the store root needs no pinning.  An absolute
//! path is looked up by its final path component; a single bare name is
//! looked up as itself unless it names a shell builtin (which the exclusion
//! bypass overrides); any other shape — a multi-component relative path, or
//! a name ending in a parent or root component — yields no key.

use vstd::prelude::*;
use crate::path::{PathPart, part_view, parts_view, path_components, path_starts_with, file_name,
    spec_components, spec_file_name, spec_starts_with};
use crate::scan::{vecs_view, longs_contain};

verus! {

/// The lookup key of a candidate name, if any.
pub open spec fn spec_lookup_key(
    name: Seq<u8>,
    builtins: Seq<Seq<u8>>,
    no_builtins: bool,
    store: Seq<u8>,
) -> Option<Seq<u8>> {
    if spec_starts_with(name, store) {
        Option::None
    } else {
        let c = spec_components(name);
        if c.len() > 0 && c[0] is Root {
            spec_file_name(name)
        } else if c.len() == 1 && c[0] is Name
            && (no_builtins || !builtins.contains(c[0]->Name_0)) {
            Option::Some(c[0]->Name_0)
        } else {
            Option::None
        }
    }
}

/// Derives the lookup key of a candidate name against the builtin set and
/// the store root.
pub fn lookup_key(
    name: &Vec<u8>,
    builtins: &Vec<Vec<u8>>,
    no_builtins: bool,
    store: &Vec<u8>,
) -> (r: Option<Vec<u8>>)
    ensures
        match r {
            Option::Some(k) => spec_lookup_key(name@, vecs_view(builtins@), no_builtins, store@)
                == Option::Some(k@),
            Option::None => spec_lookup_key(name@, vecs_view(builtins@), no_builtins, store@)
                is None,
        },
{
    if path_starts_with(name, store) {
        return Option::None;
    }
    let mut c = path_components(name);
    let n = c.len();
    if n == 0 {
        return Option::None;
    }
    proof {
        assert(parts_view(c@)[0] == part_view(c@[0]));
    }
    let first_is_root = match &c[0] {
        PathPart::Root => true,
        _ => false,
    };
    if first_is_root {
        return file_name(name);
    }
    if n == 1 {
        match c.pop() {
            Option::Some(PathPart::Name(v)) => {
                if no_builtins || !longs_contain(builtins, &v) {
                    Option::Some(v)
                } else {
                    Option::None
                }
            }
            _ => Option::None,
        }
    } else {
        Option::None
    }
}

} // verus!
