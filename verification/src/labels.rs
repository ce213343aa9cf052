//! Structural labels and the per-function label set.

use vstd::prelude::*;
use crate::text::str_eq;

verus! {

/// The label emitted for a slice type.
pub open spec fn slice_label() -> Seq<char> {
    "primitive::slice"@
}

/// The label emitted for a reference type.
pub open spec fn reference_label() -> Seq<char> {
    "primitive::ref"@
}

/// The label emitted for the never type.
pub open spec fn never_label() -> Seq<char> {
    "primitive::never"@
}

/// The label emitted for a tuple type of two or more elements.
pub open spec fn tuple_label() -> Seq<char> {
    "primitive::tuple"@
}

/// The label emitted for the built-in string slice.
pub open spec fn str_label() -> Seq<char> {
    "primitive::str"@
}

/// Whether `l` is one of the fixed structural/primitive labels.
pub open spec fn is_structural_label(l: Seq<char>) -> bool {
    l == slice_label() || l == reference_label() || l == never_label() || l == tuple_label()
        || l == str_label()
}

/// The set of canonical labels gathered from one function's signature:
/// deduplicated and order-irrelevant. Its mathematical view is the set of
/// the character sequences it holds.
pub struct LabelSet {
    pub labels: Vec<String>,
}

impl LabelSet {
    /// The set of labels held.
    pub open spec fn view(&self) -> Set<Seq<char>> {
        Set::new(|l: Seq<char>| exists|i: int| 0 <= i < self.labels@.len() && self.labels@[i]@ == l)
    }

    /// The labels hold no duplicates.
    pub open spec fn wf(&self) -> bool {
        forall|i: int, j: int|
            0 <= i < j < self.labels@.len() ==> self.labels@[i]@ != self.labels@[j]@
    }

    /// The empty label set.
    pub fn new() -> (r: LabelSet)
        ensures
            r.wf(),
            r@ == Set::<Seq<char>>::empty(),
    {
        let r = LabelSet { labels: Vec::new() };
        proof {
            assert(r@ =~= Set::<Seq<char>>::empty());
        }
        r
    }

    /// Whether `label` is in the set.
    pub fn contains(&self, label: &str) -> (r: bool)
        ensures
            r == self@.contains(label@),
    {
        let n = self.labels.len();
        let mut i: usize = 0;
        while i < n
            invariant
                n == self.labels@.len(),
                0 <= i <= n,
                forall|j: int| 0 <= j < i ==> self.labels@[j]@ != label@,
            decreases n - i,
        {
            if str_eq(self.labels[i].as_str(), label) {
                return true;
            }
            i += 1;
        }
        false
    }

    /// Adds `label`; the set gains it, and nothing else changes. Re-insertion
    /// of a label already present leaves the set as it was.
    pub fn insert(&mut self, label: String)
        requires
            old(self).wf(),
        ensures
            final(self).wf(),
            final(self)@ == old(self)@.insert(label@),
    {
        let ghost glabel = label@;
        if !self.contains(label.as_str()) {
            let ghost prelen = self.labels@.len();
            self.labels.push(label);
            proof {
                assert forall|x: Seq<char>| old(self)@.insert(glabel).contains(x)
                    implies self@.contains(x) by {
                    if x == glabel {
                        assert(self.labels@[prelen as int]@ == x);
                    } else {
                        let i = choose|i: int|
                            0 <= i < old(self).labels@.len() && old(self).labels@[i]@ == x;
                        assert(self.labels@[i]@ == x);
                    }
                }
                assert forall|x: Seq<char>| self@.contains(x)
                    implies old(self)@.insert(glabel).contains(x) by {
                    let i = choose|i: int| 0 <= i < self.labels@.len() && self.labels@[i]@ == x;
                    if i < prelen {
                        assert(old(self).labels@[i]@ == x);
                    }
                }
                assert(self@ =~= old(self)@.insert(glabel));
            }
        } else {
            proof {
                assert(old(self)@.contains(glabel));
                assert(self@ =~= old(self)@.insert(glabel));
            }
        }
    }

    /// How many labels the set holds.
    pub fn len(&self) -> (r: usize)
        requires
            self.wf(),
        ensures
            r == self.labels@.len(),
            (r == 0) == (self@ == Set::<Seq<char>>::empty()),
    {
        proof {
            if self.labels@.len() == 0 {
                assert(self@ =~= Set::<Seq<char>>::empty());
            } else {
                assert(self@.contains(self.labels@[0]@));
            }
        }
        self.labels.len()
    }

    /// The label at position `i` of the set's internal order.
    pub fn label_at(&self, i: usize) -> (r: &String)
        requires
            i < self.labels@.len(),
        ensures
            r == self.labels@[i as int],
            self@.contains(r@),
    {
        &self.labels[i]
    }
}

} // verus!
