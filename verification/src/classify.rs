//! Classification of canonical labels by provenance: a label is foreign-ABI
//! when it falls under one of the configured foreign namespace prefixes, and
//! native otherwise. The predicate is pure and total over the label's text.

use vstd::prelude::*;
use crate::labels::{
    is_structural_label, never_label, reference_label, slice_label, str_label, tuple_label,
};
use crate::text::{spec_starts_with, str_starts_with};

verus! {

/// Whether `label` falls under one of the foreign namespace `prefixes`.
pub open spec fn spec_is_foreign(prefixes: Seq<Seq<char>>, label: Seq<char>) -> bool {
    exists|i: int| 0 <= i < prefixes.len() && spec_starts_with(label, prefixes[i])
}

/// A pure predicate over canonical labels partitioning them into native and
/// foreign-ABI, driven by a configured set of foreign-library namespace
/// prefixes. A well-formed classifier never matches a structural/primitive
/// synthetic label, so those are always native.
pub struct ForeignClassifier {
    pub prefixes: Vec<String>,
}

impl ForeignClassifier {
    /// The configured prefixes, as character sequences.
    pub open spec fn view(&self) -> Seq<Seq<char>> {
        self.prefixes.deep_view()
    }

    /// No configured prefix matches a structural label.
    pub open spec fn wf(&self) -> bool {
        forall|l: Seq<char>| is_structural_label(l) ==> !spec_is_foreign(self@, l)
    }

    /// Builds a classifier from foreign namespace prefixes. Construction
    /// succeeds exactly when no prefix would claim one of the structural
    /// labels as foreign.
    pub fn new(prefixes: Vec<String>) -> (r: Option<ForeignClassifier>)
        ensures
            r is Some <==> (forall|l: Seq<char>|
                is_structural_label(l) ==> !spec_is_foreign(prefixes.deep_view(), l)),
            r is Some ==> r->0.wf() && r->0@ == prefixes.deep_view(),
    {
        let n = prefixes.len();
        let mut i: usize = 0;
        while i < n
            invariant
                n == prefixes@.len(),
                0 <= i <= n,
                forall|j: int, l: Seq<char>|
                    0 <= j < i && is_structural_label(l) ==> !spec_starts_with(
                        l,
                        prefixes.deep_view()[j],
                    ),
            decreases n - i,
        {
            let p = prefixes[i].as_str();
            proof {
                assert(prefixes.deep_view()[i as int] == prefixes@[i as int]@);
            }
            let m1 = str_starts_with("primitive::slice", p);
            let m2 = str_starts_with("primitive::ref", p);
            let m3 = str_starts_with("primitive::never", p);
            let m4 = str_starts_with("primitive::tuple", p);
            let m5 = str_starts_with("primitive::str", p);
            if m1 || m2 || m3 || m4 || m5 {
                proof {
                    let ghost pi = prefixes.deep_view()[i as int];
                    let ghost l: Seq<char> = if m1 {
                        slice_label()
                    } else if m2 {
                        reference_label()
                    } else if m3 {
                        never_label()
                    } else if m4 {
                        tuple_label()
                    } else {
                        str_label()
                    };
                    assert(is_structural_label(l) && spec_starts_with(l, pi));
                    assert(spec_is_foreign(prefixes.deep_view(), l));
                }
                return None;
            }
            proof {
                assert forall|l: Seq<char>| is_structural_label(l) implies !spec_starts_with(
                    l,
                    prefixes.deep_view()[i as int],
                ) by {
                    assert(!spec_starts_with(slice_label(), prefixes.deep_view()[i as int]));
                    assert(!spec_starts_with(reference_label(), prefixes.deep_view()[i as int]));
                    assert(!spec_starts_with(never_label(), prefixes.deep_view()[i as int]));
                    assert(!spec_starts_with(tuple_label(), prefixes.deep_view()[i as int]));
                    assert(!spec_starts_with(str_label(), prefixes.deep_view()[i as int]));
                }
            }
            i += 1;
        }
        Some(ForeignClassifier { prefixes })
    }

    /// Whether `label` is foreign-ABI under the configured prefixes.
    pub fn is_foreign(&self, label: &str) -> (r: bool)
        ensures
            r == spec_is_foreign(self@, label@),
    {
        let n = self.prefixes.len();
        let mut i: usize = 0;
        while i < n
            invariant
                n == self.prefixes@.len(),
                0 <= i <= n,
                forall|j: int| 0 <= j < i ==> !spec_starts_with(label@, self@[j]),
            decreases n - i,
        {
            if str_starts_with(label, self.prefixes[i].as_str()) {
                proof {
                    assert(spec_starts_with(label@, self@[i as int]));
                }
                return true;
            }
            i += 1;
        }
        false
    }
}

/// Whether `label` is native: the complement of foreign.
pub open spec fn spec_is_native(prefixes: Seq<Seq<char>>, label: Seq<char>) -> bool {
    !spec_is_foreign(prefixes, label)
}

/// Under a well-formed classifier, every label is exactly one of native and
/// foreign — the partition is exhaustive and mutually exclusive — and every
/// structural/primitive synthetic label is native.
pub proof fn lemma_classification_partition(c: ForeignClassifier, label: Seq<char>)
    requires
        c.wf(),
    ensures
        spec_is_native(c@, label) != spec_is_foreign(c@, label),
        is_structural_label(label) ==> spec_is_native(c@, label),
{
}

} // verus!
