//! Aggregation of per-function label sets into corpus-wide statistics: a
//! label histogram and categorical function counts (empty, entirely native,
//! entirely foreign, mixed). Merging is commutative: feeding the same
//! functions in any order yields the same histogram and the same counts.

use vstd::prelude::*;
use crate::classify::{spec_is_foreign, ForeignClassifier};
use crate::labels::LabelSet;
use crate::text::str_eq;

verus! {

/// The mathematical state of the aggregation: how many functions were seen,
/// how many fell in each category, and how often each label occurred.
#[verifier::ext_equal]
pub struct AggState {
    pub total: nat,
    pub empty: nat,
    pub native_only: nat,
    pub foreign_only: nat,
    pub mixed: nat,
    pub hist: Map<Seq<char>, nat>,
}

/// The state before any function was aggregated.
pub open spec fn initial_state() -> AggState {
    AggState {
        total: 0,
        empty: 0,
        native_only: 0,
        foreign_only: 0,
        mixed: 0,
        hist: Map::empty(),
    }
}

/// A label's count in a histogram, zero when the label never occurred.
pub open spec fn count_of(h: Map<Seq<char>, nat>, l: Seq<char>) -> nat {
    if h.dom().contains(l) {
        h[l]
    } else {
        0
    }
}

/// The histogram after one function's label set: every label of `s` is
/// counted once more, every other label keeps its count.
pub open spec fn stepped_hist(h: Map<Seq<char>, nat>, s: Set<Seq<char>>) -> Map<Seq<char>, nat> {
    Map::new(
        |l: Seq<char>| h.dom().contains(l) || s.contains(l),
        |l: Seq<char>|
            if s.contains(l) {
                (count_of(h, l) + 1) as nat
            } else {
                h[l]
            },
    )
}

/// A non-empty label set whose labels are all native.
pub open spec fn cat_native(p: Seq<Seq<char>>, s: Set<Seq<char>>) -> bool {
    s != Set::<Seq<char>>::empty() && (forall|l: Seq<char>|
        s.contains(l) ==> !spec_is_foreign(p, l))
}

/// A non-empty label set whose labels are all foreign.
pub open spec fn cat_foreign(p: Seq<Seq<char>>, s: Set<Seq<char>>) -> bool {
    s != Set::<Seq<char>>::empty() && (forall|l: Seq<char>|
        s.contains(l) ==> spec_is_foreign(p, l))
}

/// A label set holding both a native and a foreign label.
pub open spec fn cat_mixed(p: Seq<Seq<char>>, s: Set<Seq<char>>) -> bool {
    (exists|l: Seq<char>| s.contains(l) && spec_is_foreign(p, l)) && (exists|l: Seq<char>|
        s.contains(l) && !spec_is_foreign(p, l))
}

/// The aggregation state after one more function whose label set is `s`,
/// under the foreign prefixes `p`.
pub open spec fn step(p: Seq<Seq<char>>, st: AggState, s: Set<Seq<char>>) -> AggState {
    AggState {
        total: st.total + 1,
        empty: st.empty + (if s == Set::<Seq<char>>::empty() {
            1nat
        } else {
            0nat
        }),
        native_only: st.native_only + (if cat_native(p, s) {
            1nat
        } else {
            0nat
        }),
        foreign_only: st.foreign_only + (if cat_foreign(p, s) {
            1nat
        } else {
            0nat
        }),
        mixed: st.mixed + (if cat_mixed(p, s) {
            1nat
        } else {
            0nat
        }),
        hist: stepped_hist(st.hist, s),
    }
}

/// The aggregation state after a whole sequence of label sets, in order.
pub open spec fn run_steps(p: Seq<Seq<char>>, st: AggState, ss: Seq<Set<Seq<char>>>) -> AggState
    decreases ss,
{
    if ss.len() == 0 {
        st
    } else {
        step(p, run_steps(p, st, ss.drop_last()), ss.last())
    }
}

/// Aggregating two functions commutes: the order of two adjacent merges does
/// not matter.
pub proof fn lemma_step_commutes(
    p: Seq<Seq<char>>,
    st: AggState,
    a: Set<Seq<char>>,
    b: Set<Seq<char>>,
)
    ensures
        step(p, step(p, st, a), b) == step(p, step(p, st, b), a),
{
    assert(stepped_hist(stepped_hist(st.hist, a), b) =~= stepped_hist(stepped_hist(st.hist, b), a));
    assert(step(p, step(p, st, a), b) =~= step(p, step(p, st, b), a));
}

/// Aggregating a sequence equals aggregating it with any one element pulled
/// out and merged last.
pub proof fn lemma_run_steps_remove(
    p: Seq<Seq<char>>,
    st: AggState,
    ss: Seq<Set<Seq<char>>>,
    i: int,
)
    requires
        0 <= i < ss.len(),
    ensures
        run_steps(p, st, ss) == step(p, run_steps(p, st, ss.remove(i)), ss[i]),
    decreases ss.len(),
{
    if i == ss.len() - 1 {
        assert(ss.remove(i) =~= ss.drop_last());
    } else {
        let s0 = ss.drop_last();
        lemma_run_steps_remove(p, st, s0, i);
        lemma_step_commutes(p, run_steps(p, st, s0.remove(i)), s0[i], ss.last());
        assert(ss.remove(i).drop_last() =~= s0.remove(i));
        assert(ss.remove(i).last() == ss.last());
    }
}

/// Merging per-function label sets is order-independent: two sequences of
/// label sets that hold the same sets with the same multiplicities aggregate,
/// from any common starting state, to the same histogram and the same
/// categorical counts.
pub proof fn lemma_aggregation_order_independent(
    p: Seq<Seq<char>>,
    st: AggState,
    s1: Seq<Set<Seq<char>>>,
    s2: Seq<Set<Seq<char>>>,
)
    requires
        s1.to_multiset() == s2.to_multiset(),
    ensures
        run_steps(p, st, s1) == run_steps(p, st, s2),
    decreases s1.len(),
{
    broadcast use vstd::seq_lib::group_to_multiset_ensures;

    if s1.len() == 0 {
        assert(s2.to_multiset().len() == 0);
        assert(s2.len() == 0);
    } else {
        let x = s1.last();
        let rest = s1.drop_last();
        assert(s1 =~= rest.push(x));
        assert(s1.to_multiset() == rest.to_multiset().insert(x));
        assert(s2.to_multiset().count(x) > 0);
        assert(s2.contains(x));
        let i = choose|i: int| 0 <= i < s2.len() && s2[i] == x;
        assert(s2.remove(i).to_multiset() == s2.to_multiset().remove(x));
        assert(rest.to_multiset() =~= s2.remove(i).to_multiset());
        lemma_aggregation_order_independent(p, st, rest, s2.remove(i));
        lemma_run_steps_remove(p, st, s2, i);
    }
}

/// The histogram a sequence of label/count entries stands for.
pub open spec fn kv_map(s: Seq<(String, u64)>) -> Map<Seq<char>, nat>
    decreases s,
{
    if s.len() == 0 {
        Map::empty()
    } else {
        kv_map(s.drop_last()).insert(s.last().0@, s.last().1 as nat)
    }
}

/// No two entries share a label.
pub open spec fn keys_unique(s: Seq<(String, u64)>) -> bool {
    forall|i: int, j: int| 0 <= i < j < s.len() ==> s[i].0@ != s[j].0@
}

/// A label no entry holds is not in the histogram.
proof fn lemma_kv_not_contains(s: Seq<(String, u64)>, l: Seq<char>)
    requires
        forall|j: int| 0 <= j < s.len() ==> s[j].0@ != l,
    ensures
        !kv_map(s).dom().contains(l),
    decreases s.len(),
{
    if s.len() > 0 {
        lemma_kv_not_contains(s.drop_last(), l);
    }
}

/// With unique labels, each entry is the histogram's value at its label.
proof fn lemma_kv_lookup(s: Seq<(String, u64)>, i: int)
    requires
        keys_unique(s),
        0 <= i < s.len(),
    ensures
        kv_map(s).dom().contains(s[i].0@),
        kv_map(s)[s[i].0@] == s[i].1 as nat,
    decreases s.len(),
{
    if i < s.len() - 1 {
        lemma_kv_lookup(s.drop_last(), i);
    }
}

/// Replacing one entry's count replaces exactly that label's value.
proof fn lemma_kv_update(s: Seq<(String, u64)>, i: int, e: (String, u64))
    requires
        keys_unique(s),
        0 <= i < s.len(),
        e.0@ == s[i].0@,
    ensures
        kv_map(s.update(i, e)) == kv_map(s).insert(e.0@, e.1 as nat),
        keys_unique(s.update(i, e)),
    decreases s.len(),
{
    if i == s.len() - 1 {
        assert(s.update(i, e).drop_last() =~= s.drop_last());
        assert(kv_map(s.update(i, e)) =~= kv_map(s).insert(e.0@, e.1 as nat));
    } else {
        assert(s.update(i, e).drop_last() =~= s.drop_last().update(i, e));
        lemma_kv_update(s.drop_last(), i, e);
        assert(kv_map(s.update(i, e)) =~= kv_map(s).insert(e.0@, e.1 as nat));
    }
}

/// Counting a label not in `s` once more is an insertion into the stepped
/// histogram.
proof fn lemma_stepped_insert(h: Map<Seq<char>, nat>, s: Set<Seq<char>>, l: Seq<char>)
    requires
        !s.contains(l),
    ensures
        stepped_hist(h, s.insert(l)) == stepped_hist(h, s).insert(l, (count_of(h, l) + 1) as nat),
{
    assert(stepped_hist(h, s.insert(l)) =~= stepped_hist(h, s).insert(
        l,
        (count_of(h, l) + 1) as nat,
    ));
}

/// The labels of the first `n` entries of a label vector, as a set.
pub open spec fn prefix_views(labels: Seq<String>, n: int) -> Set<Seq<char>> {
    Set::new(|l: Seq<char>| exists|j: int| 0 <= j < n && labels[j]@ == l)
}

/// Whether some label of `ls` is foreign under `c`.
fn any_foreign(c: &ForeignClassifier, ls: &LabelSet) -> (r: bool)
    ensures
        r == (exists|l: Seq<char>| ls@.contains(l) && spec_is_foreign(c@, l)),
{
    let n = ls.labels.len();
    let mut i: usize = 0;
    while i < n
        invariant
            n == ls.labels@.len(),
            0 <= i <= n,
            forall|j: int| 0 <= j < i ==> !spec_is_foreign(c@, ls.labels@[j]@),
        decreases n - i,
    {
        let lab = ls.label_at(i);
        if c.is_foreign(lab.as_str()) {
            return true;
        }
        i += 1;
    }
    proof {
        assert forall|l: Seq<char>| ls@.contains(l) implies !spec_is_foreign(c@, l) by {
            let j = choose|j: int| 0 <= j < ls.labels@.len() && ls.labels@[j]@ == l;
            assert(!spec_is_foreign(c@, ls.labels@[j]@));
        }
    }
    false
}

/// Whether some label of `ls` is native under `c`.
fn any_native(c: &ForeignClassifier, ls: &LabelSet) -> (r: bool)
    ensures
        r == (exists|l: Seq<char>| ls@.contains(l) && !spec_is_foreign(c@, l)),
{
    let n = ls.labels.len();
    let mut i: usize = 0;
    while i < n
        invariant
            n == ls.labels@.len(),
            0 <= i <= n,
            forall|j: int| 0 <= j < i ==> spec_is_foreign(c@, ls.labels@[j]@),
        decreases n - i,
    {
        let lab = ls.label_at(i);
        if !c.is_foreign(lab.as_str()) {
            return true;
        }
        i += 1;
    }
    proof {
        assert forall|l: Seq<char>| ls@.contains(l) implies spec_is_foreign(c@, l) by {
            let j = choose|j: int| 0 <= j < ls.labels@.len() && ls.labels@[j]@ == l;
            assert(spec_is_foreign(c@, ls.labels@[j]@));
        }
    }
    false
}

/// The aggregation engine: consumes one `(function name, label set)` pair per
/// analyzed function and maintains the categorical counts and the label
/// histogram.
pub struct Aggregator {
    pub classifier: ForeignClassifier,
    pub total: u64,
    pub empty_fns: u64,
    pub native_fns: u64,
    pub foreign_fns: u64,
    pub mixed_fns: u64,
    pub hist: Vec<(String, u64)>,
}

impl Aggregator {
    /// The classifier is well-formed, histogram labels are unique, no label
    /// count exceeds the function total, and the categories partition the
    /// functions seen.
    pub open spec fn wf(&self) -> bool {
        &&& self.classifier.wf()
        &&& keys_unique(self.hist@)
        &&& forall|j: int|
            0 <= j < self.hist@.len() ==> (#[trigger] self.hist@[j]).1 as int <= self.total as int
        &&& self.total as int == self.empty_fns as int + self.native_fns as int
            + self.foreign_fns as int + self.mixed_fns as int
    }

    /// The mathematical aggregation state this engine has reached.
    pub open spec fn view(&self) -> AggState {
        AggState {
            total: self.total as nat,
            empty: self.empty_fns as nat,
            native_only: self.native_fns as nat,
            foreign_only: self.foreign_fns as nat,
            mixed: self.mixed_fns as nat,
            hist: kv_map(self.hist@),
        }
    }

    /// A fresh engine that has seen no function yet.
    pub fn new(classifier: ForeignClassifier) -> (r: Aggregator)
        requires
            classifier.wf(),
        ensures
            r.wf(),
            r@ == initial_state(),
            r.classifier == classifier,
    {
        let r = Aggregator {
            classifier,
            total: 0,
            empty_fns: 0,
            native_fns: 0,
            foreign_fns: 0,
            mixed_fns: 0,
            hist: Vec::new(),
        };
        proof {
            assert(r@ =~= initial_state());
        }
        r
    }

    /// Counts `label` once more in the histogram; nothing else changes.
    fn bump(&mut self, label: &String)
        requires
            keys_unique(old(self).hist@),
            forall|j: int|
                0 <= j < old(self).hist@.len() && (#[trigger] old(self).hist@[j]).0@ == label@
                    ==> old(self).hist@[j].1 < u64::MAX,
        ensures
            final(self).classifier == old(self).classifier,
            final(self).total == old(self).total,
            final(self).empty_fns == old(self).empty_fns,
            final(self).native_fns == old(self).native_fns,
            final(self).foreign_fns == old(self).foreign_fns,
            final(self).mixed_fns == old(self).mixed_fns,
            keys_unique(final(self).hist@),
            kv_map(final(self).hist@) == kv_map(old(self).hist@).insert(
                label@,
                (count_of(kv_map(old(self).hist@), label@) + 1) as nat,
            ),
            old(self).hist@.len() <= final(self).hist@.len() <= old(self).hist@.len() + 1,
            forall|j: int|
                0 <= j < old(self).hist@.len() ==> (#[trigger] final(self).hist@[j]).0
                    == old(self).hist@[j].0 && final(self).hist@[j].1 as int
                    == old(self).hist@[j].1 as int + (if old(self).hist@[j].0@ == label@ {
                    1int
                } else {
                    0int
                }),
            final(self).hist@.len() == old(self).hist@.len() + 1
                ==> final(self).hist@.last().0@ == label@ && final(self).hist@.last().1 == 1,
    {
        let n = self.hist.len();
        let mut i: usize = 0;
        while i < n
            invariant
                *self == *old(self),
                keys_unique(old(self).hist@),
                forall|j: int|
                    0 <= j < old(self).hist@.len() && (#[trigger] old(self).hist@[j]).0@ == label@
                        ==> old(self).hist@[j].1 < u64::MAX,
                n == self.hist@.len(),
                0 <= i <= n,
                forall|j: int| 0 <= j < i ==> (#[trigger] self.hist@[j]).0@ != label@,
            decreases n - i,
        {
            if str_eq(self.hist[i].0.as_str(), label.as_str()) {
                let c = self.hist[i].1;
                let k = self.hist[i].0.clone();
                self.hist[i] = (k, c + 1);
                proof {
                    lemma_kv_lookup(old(self).hist@, i as int);
                    lemma_kv_update(
                        old(self).hist@,
                        i as int,
                        (old(self).hist@[i as int].0, (c + 1) as u64),
                    );
                    assert(self.hist@ =~= old(self).hist@.update(
                        i as int,
                        (old(self).hist@[i as int].0, (c + 1) as u64),
                    ));
                }
                return;
            }
            i += 1;
        }
        self.hist.push((label.clone(), 1));
        proof {
            lemma_kv_not_contains(old(self).hist@, label@);
            assert(self.hist@.drop_last() =~= old(self).hist@);
            assert(kv_map(self.hist@) == kv_map(old(self).hist@).insert(
                label@,
                (count_of(kv_map(old(self).hist@), label@) + 1) as nat,
            ));
        }
    }

    /// Merges one analyzed function into the statistics: the total grows by
    /// one, exactly one category count grows by one, and every label of `ls`
    /// is counted once more in the histogram.
    pub fn record(&mut self, ls: &LabelSet)
        requires
            old(self).wf(),
            ls.wf(),
            old(self).total < u64::MAX,
        ensures
            final(self).wf(),
            final(self).classifier == old(self).classifier,
            final(self)@ == step(old(self).classifier@, old(self)@, ls@),
    {
        let ghost p = old(self).classifier@;
        let ghost s = ls@;
        let n = ls.len();
        let has_f = any_foreign(&self.classifier, ls);
        let has_n = any_native(&self.classifier, ls);
        self.total = self.total + 1;
        if n == 0 {
            self.empty_fns = self.empty_fns + 1;
        } else if !has_f {
            proof {
                assert(s.contains(ls.labels@[0]@));
            }
            self.native_fns = self.native_fns + 1;
        } else if !has_n {
            self.foreign_fns = self.foreign_fns + 1;
        } else {
            self.mixed_fns = self.mixed_fns + 1;
        }
        let ghost mid = *self;
        let mut i: usize = 0;
        while i < n
            invariant
                self.classifier == mid.classifier,
                self.total == mid.total,
                self.empty_fns == mid.empty_fns,
                self.native_fns == mid.native_fns,
                self.foreign_fns == mid.foreign_fns,
                self.mixed_fns == mid.mixed_fns,
                mid.total as int == old(self).total as int + 1,
                mid.hist@ == old(self).hist@,
                old(self).wf(),
                ls.wf(),
                n == ls.labels@.len(),
                0 <= i <= n,
                keys_unique(self.hist@),
                kv_map(self.hist@) == stepped_hist(
                    kv_map(old(self).hist@),
                    prefix_views(ls.labels@, i as int),
                ),
                forall|j: int|
                    0 <= j < self.hist@.len() ==> (#[trigger] self.hist@[j]).1 as int <= old(
                        self,
                    ).total as int + (if prefix_views(ls.labels@, i as int).contains(
                        self.hist@[j].0@,
                    ) {
                        1int
                    } else {
                        0int
                    }),
            decreases n - i,
        {
            let label = ls.label_at(i);
            let ghost seen = prefix_views(ls.labels@, i as int);
            proof {
                assert(!seen.contains(label@)) by {
                    if seen.contains(label@) {
                        let j = choose|j: int| 0 <= j < i && ls.labels@[j]@ == label@;
                        assert(ls.labels@[j]@ == ls.labels@[i as int]@);
                    }
                }
            }
            let ghost pre = *self;
            self.bump(label);
            proof {
                lemma_stepped_insert(kv_map(old(self).hist@), seen, label@);
                assert(count_of(kv_map(pre.hist@), label@) == count_of(
                    kv_map(old(self).hist@),
                    label@,
                ));
                assert(prefix_views(ls.labels@, i + 1 as int) =~= seen.insert(label@));
            }
            i += 1;
        }
        proof {
            assert(prefix_views(ls.labels@, n as int) =~= s);
            if n != 0 && has_f && has_n {
                assert(!(s == Set::<Seq<char>>::empty())) by {
                    let l = choose|l: Seq<char>| s.contains(l) && spec_is_foreign(p, l);
                    assert(s.contains(l));
                }
            }
            assert(self@ =~= step(p, old(self)@, s));
        }
    }
}

/// The label sets of a sequence of `(name, label set)` pairs, in order.
pub open spec fn pair_sets(ps: Seq<(String, LabelSet)>) -> Seq<Set<Seq<char>>> {
    ps.map_values(|q: (String, LabelSet)| q.1@)
}

/// Aggregation grows the function total by exactly the number of sets merged.
pub proof fn lemma_run_steps_total(p: Seq<Seq<char>>, st: AggState, ss: Seq<Set<Seq<char>>>)
    ensures
        run_steps(p, st, ss).total == st.total + ss.len(),
    decreases ss,
{
    if ss.len() > 0 {
        lemma_run_steps_total(p, st, ss.drop_last());
    }
}

/// The number of distinct histogram labels classified as foreign (or, with
/// `foreign` false, as native).
pub open spec fn part_distinct(es: Seq<(String, u64)>, p: Seq<Seq<char>>, foreign: bool) -> int
    decreases es,
{
    if es.len() == 0 {
        0
    } else {
        part_distinct(es.drop_last(), p, foreign) + (if spec_is_foreign(p, es.last().0@)
            == foreign {
            1int
        } else {
            0int
        })
    }
}

/// The total number of occurrences of histogram labels classified as foreign
/// (or, with `foreign` false, as native).
pub open spec fn part_total(es: Seq<(String, u64)>, p: Seq<Seq<char>>, foreign: bool) -> int
    decreases es,
{
    if es.len() == 0 {
        0
    } else {
        part_total(es.drop_last(), p, foreign) + (if spec_is_foreign(p, es.last().0@) == foreign {
            es.last().1 as int
        } else {
            0int
        })
    }
}

/// The native and foreign sub-histograms partition the histogram: together
/// they hold every distinct label once and every occurrence once.
pub proof fn lemma_partition_covers(es: Seq<(String, u64)>, p: Seq<Seq<char>>)
    ensures
        part_distinct(es, p, true) + part_distinct(es, p, false) == es.len(),
        part_total(es, p, true) + part_total(es, p, false) == occurrence_total(es),
    decreases es.len(),
{
    if es.len() > 0 {
        lemma_partition_covers(es.drop_last(), p);
    }
}

/// The sum of all histogram counts: one per label occurrence.
pub open spec fn occurrence_total(es: Seq<(String, u64)>) -> int
    decreases es,
{
    if es.len() == 0 {
        0
    } else {
        occurrence_total(es.drop_last()) + es.last().1 as int
    }
}

/// With unique labels, the histogram's domain is exactly one label per entry.
proof fn lemma_kv_dom(s: Seq<(String, u64)>)
    requires
        keys_unique(s),
    ensures
        kv_map(s).dom().finite(),
        kv_map(s).dom().len() == s.len(),
    decreases s.len(),
{
    if s.len() > 0 {
        lemma_kv_dom(s.drop_last());
        lemma_kv_not_contains(s.drop_last(), s.last().0@);
    }
}

impl Aggregator {
    /// How many functions were aggregated.
    pub fn total_functions(&self) -> (r: u64)
        ensures
            r as nat == self@.total,
    {
        self.total
    }

    /// How many functions had an empty label set.
    pub fn empty_count(&self) -> (r: u64)
        ensures
            r as nat == self@.empty,
    {
        self.empty_fns
    }

    /// How many functions had a non-empty, entirely native label set.
    pub fn native_only_count(&self) -> (r: u64)
        ensures
            r as nat == self@.native_only,
    {
        self.native_fns
    }

    /// How many functions had a non-empty, entirely foreign label set.
    pub fn foreign_only_count(&self) -> (r: u64)
        ensures
            r as nat == self@.foreign_only,
    {
        self.foreign_fns
    }

    /// How many functions mixed native and foreign labels.
    pub fn mixed_count(&self) -> (r: u64)
        ensures
            r as nat == self@.mixed,
    {
        self.mixed_fns
    }

    /// How often `label` occurred over all aggregated functions.
    pub fn label_count(&self, label: &str) -> (r: u64)
        requires
            self.wf(),
        ensures
            r as nat == count_of(self@.hist, label@),
    {
        let n = self.hist.len();
        let mut i: usize = 0;
        while i < n
            invariant
                self.wf(),
                n == self.hist@.len(),
                0 <= i <= n,
                forall|j: int| 0 <= j < i ==> (#[trigger] self.hist@[j]).0@ != label@,
            decreases n - i,
        {
            if str_eq(self.hist[i].0.as_str(), label) {
                proof {
                    lemma_kv_lookup(self.hist@, i as int);
                }
                return self.hist[i].1;
            }
            i += 1;
        }
        proof {
            lemma_kv_not_contains(self.hist@, label@);
        }
        0
    }

    /// How many distinct labels occurred at all.
    pub fn distinct_labels(&self) -> (r: usize)
        requires
            self.wf(),
        ensures
            r == self@.hist.dom().len(),
    {
        proof {
            lemma_kv_dom(self.hist@);
        }
        self.hist.len()
    }

    /// How many distinct foreign (or native) labels occurred at all.
    pub fn partition_distinct(&self, foreign: bool) -> (r: usize)
        ensures
            r == part_distinct(self.hist@, self.classifier@, foreign),
    {
        let n = self.hist.len();
        let mut r: usize = 0;
        let mut i: usize = 0;
        while i < n
            invariant
                n == self.hist@.len(),
                0 <= i <= n,
                r <= i,
                r == part_distinct(self.hist@.take(i as int), self.classifier@, foreign),
            decreases n - i,
        {
            if self.classifier.is_foreign(self.hist[i].0.as_str()) == foreign {
                r += 1;
            }
            proof {
                assert(self.hist@.take(i + 1 as int).drop_last() =~= self.hist@.take(i as int));
                assert(self.hist@.take(i + 1 as int).last() == self.hist@[i as int]);
            }
            i += 1;
        }
        proof {
            assert(self.hist@.take(n as int) =~= self.hist@);
        }
        r
    }

    /// The total occurrence count over all foreign (or native) labels.
    pub fn partition_total(&self, foreign: bool) -> (r: u128)
        ensures
            r == part_total(self.hist@, self.classifier@, foreign),
    {
        let n = self.hist.len();
        let mut r: u128 = 0;
        let mut i: usize = 0;
        while i < n
            invariant
                n == self.hist@.len(),
                0 <= i <= n,
                r as int <= (i as int) * (u64::MAX as int),
                r == part_total(self.hist@.take(i as int), self.classifier@, foreign),
            decreases n - i,
        {
            if self.classifier.is_foreign(self.hist[i].0.as_str()) == foreign {
                let c = self.hist[i].1;
                r = r + (c as u128);
            }
            proof {
                assert(self.hist@.take(i + 1 as int).drop_last() =~= self.hist@.take(i as int));
                assert(self.hist@.take(i + 1 as int).last() == self.hist@[i as int]);
            }
            i += 1;
        }
        proof {
            assert(self.hist@.take(n as int) =~= self.hist@);
        }
        r
    }

    /// Merges a whole sequence of analyzed functions, in order.
    pub fn record_all(&mut self, pairs: &Vec<(String, LabelSet)>)
        requires
            old(self).wf(),
            forall|i: int| 0 <= i < pairs@.len() ==> (#[trigger] pairs@[i]).1.wf(),
            old(self).total as int + pairs@.len() <= u64::MAX,
        ensures
            final(self).wf(),
            final(self).classifier == old(self).classifier,
            final(self)@ == run_steps(old(self).classifier@, old(self)@, pair_sets(pairs@)),
    {
        let ghost p = old(self).classifier@;
        let n = pairs.len();
        let mut i: usize = 0;
        while i < n
            invariant
                p == old(self).classifier@,
                self.wf(),
                self.classifier == old(self).classifier,
                old(self).wf(),
                forall|j: int| 0 <= j < pairs@.len() ==> (#[trigger] pairs@[j]).1.wf(),
                old(self).total as int + pairs@.len() <= u64::MAX,
                n == pairs@.len(),
                0 <= i <= n,
                self@ == run_steps(p, old(self)@, pair_sets(pairs@.take(i as int))),
            decreases n - i,
        {
            proof {
                lemma_run_steps_total(p, old(self)@, pair_sets(pairs@.take(i as int)));
            }
            let ghost pre = *self;
            self.record(&pairs[i].1);
            proof {
                let psets = pair_sets(pairs@.take(i + 1 as int));
                assert(psets.len() == i + 1);
                assert(psets.drop_last() =~= pair_sets(pairs@.take(i as int)));
                assert(psets.last() == pairs@[i as int].1@);
                assert(self@ == step(p, pre@, pairs@[i as int].1@));
                assert(run_steps(p, old(self)@, psets) == step(
                    p,
                    run_steps(p, old(self)@, psets.drop_last()),
                    psets.last(),
                ));
            }
            i += 1;
        }
        proof {
            assert(pairs@.take(n as int) =~= pairs@);
        }
    }
}

} // verus!
