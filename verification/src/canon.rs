//! Canonicalization of resolved definition references into stable string
//! labels, under the inclusion/exclusion policy: only definitions owned by
//! one of the three core standard libraries are labeled, and the two
//! sub-namespaces that re-export foreign-ABI primitives under native-looking
//! paths are excluded.

use vstd::prelude::*;
use vstd::string::StringExecFns;
use crate::model::ResolvedDefinition;
use crate::text::{spec_starts_with, str_eq, str_starts_with};

verus! {

/// The canonical label of a definition reference, or `None` when the policy
/// excludes it: local definitions, definitions outside the three core
/// libraries, and paths under the two reserved raw/foreign-aliasing
/// sub-namespaces all yield no label.
pub open spec fn canonical_label(d: ResolvedDefinition) -> Option<Seq<char>> {
    if d.local {
        None
    } else if d.library@ == "std"@ || d.library@ == "alloc"@ || d.library@ == "core"@ {
        let full = d.library@ + d.path@;
        if spec_starts_with(full, "std::os::raw::"@) || spec_starts_with(full, "core::ffi::"@) {
            None
        } else {
            Some(full)
        }
    } else {
        None
    }
}

/// Computes the canonical label of `d` under the inclusion/exclusion policy.
pub fn canonicalize(d: &ResolvedDefinition) -> (r: Option<String>)
    ensures
        r is Some <==> canonical_label(*d) is Some,
        r is Some ==> r->0@ == canonical_label(*d)->0,
{
    if d.local {
        return None;
    }
    let lib = d.library.as_str();
    if !(str_eq(lib, "std") || str_eq(lib, "alloc") || str_eq(lib, "core")) {
        return None;
    }
    let mut full = d.library.clone();
    full.append(d.path.as_str());
    if str_starts_with(full.as_str(), "std::os::raw::")
        || str_starts_with(full.as_str(), "core::ffi::") {
        return None;
    }
    Some(full)
}

/// A reference to a definition local to the analyzed unit never yields a
/// label, whatever its name — even one colliding with a core-library name.
pub proof fn lemma_local_never_labeled(d: ResolvedDefinition)
    requires
        d.local,
    ensures
        canonical_label(d) is None,
{
}

} // verus!
