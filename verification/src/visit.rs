//! Traversal of a function signature's type nodes: every parameter type, the
//! return type and every generic bound is walked depth-first, structural
//! labels and canonical definition labels are gathered into one deduplicated
//! set, and functions under excluded scaffolding namespaces are dropped.

use vstd::prelude::*;
use crate::canon::{canonical_label, canonicalize};
use crate::labels::{
    never_label, reference_label, slice_label, str_label, tuple_label, LabelSet,
};
use crate::model::{FunctionSignature, GenericBound, ResolvedDefinition, TypeNode};
use crate::text::{spec_starts_with, str_starts_with};

verus! {

/// The labels a single definition reference contributes: its canonical label
/// if the policy includes it, nothing otherwise.
pub open spec fn def_labels(d: ResolvedDefinition) -> Set<Seq<char>> {
    match canonical_label(d) {
        Some(l) => Set::empty().insert(l),
        None => Set::empty(),
    }
}

/// The labels gathered from one type node: its own structural or canonical
/// label, if any, together with the labels of every nested type.
pub open spec fn node_labels(t: TypeNode) -> Set<Seq<char>>
    decreases t,
{
    match t {
        TypeNode::Slice(inner) => node_labels(*inner).insert(slice_label()),
        TypeNode::Reference(inner) => node_labels(*inner).insert(reference_label()),
        TypeNode::Never => Set::empty().insert(never_label()),
        TypeNode::Tuple(elems) => if elems@.len() >= 2 {
            nodes_labels(elems@).insert(tuple_label())
        } else {
            nodes_labels(elems@)
        },
        TypeNode::NamedPath(d, args) => nodes_labels(args@).union(def_labels(d)),
        TypeNode::PrimitiveStr => Set::empty().insert(str_label()),
        TypeNode::Other(children) => nodes_labels(children@),
    }
}

/// The labels gathered from a sequence of type nodes.
pub open spec fn nodes_labels(ts: Seq<TypeNode>) -> Set<Seq<char>>
    decreases ts,
{
    if ts.len() == 0 {
        Set::empty()
    } else {
        nodes_labels(ts.drop_last()).union(node_labels(ts.last()))
    }
}

/// The labels gathered from one generic bound: the trait reference's
/// canonical label, if resolved and included, and the labels of the generic
/// arguments applied at the bound site.
pub open spec fn bound_labels(b: GenericBound) -> Set<Seq<char>> {
    let trait_part = match b.trait_def {
        Some(d) => def_labels(d),
        None => Set::<Seq<char>>::empty(),
    };
    nodes_labels(b.args@).union(trait_part)
}

/// The labels gathered from a sequence of generic bounds.
pub open spec fn bounds_labels(bs: Seq<GenericBound>) -> Set<Seq<char>>
    decreases bs,
{
    if bs.len() == 0 {
        Set::empty()
    } else {
        bounds_labels(bs.drop_last()).union(bound_labels(bs.last()))
    }
}

/// The full label set of a function signature: parameters, return type and
/// generic bounds together.
pub open spec fn sig_labels(f: FunctionSignature) -> Set<Seq<char>> {
    nodes_labels(f.params@).union(node_labels(f.ret)).union(bounds_labels(f.bounds@))
}

/// An element of a node sequence contributes only labels that the whole
/// sequence contributes.
pub proof fn lemma_nodes_labels_element(ts: Seq<TypeNode>, i: int)
    requires
        0 <= i < ts.len(),
    ensures
        node_labels(ts[i]).subset_of(nodes_labels(ts)),
    decreases ts.len(),
{
    if i == ts.len() - 1 {
    } else {
        lemma_nodes_labels_element(ts.drop_last(), i);
        assert(ts.drop_last()[i] == ts[i]);
    }
}

/// The tuple policy: a tuple of fewer than two elements contributes exactly
/// its elements' labels and never its own structural label; a tuple of two
/// or more elements always adds the tuple structural label; and every
/// element is visited independently, so its labels are contributed either
/// way.
pub proof fn lemma_tuple_policy(t: TypeNode)
    requires
        t is Tuple,
    ensures
        t->Tuple_0@.len() < 2 ==> node_labels(t) == nodes_labels(t->Tuple_0@),
        t->Tuple_0@.len() >= 2 ==> node_labels(t) == nodes_labels(t->Tuple_0@).insert(
            tuple_label(),
        ),
        forall|i: int|
            0 <= i < t->Tuple_0@.len() ==> #[trigger] node_labels(t->Tuple_0@[i]).subset_of(
                node_labels(t),
            ),
{
    assert forall|i: int| 0 <= i < t->Tuple_0@.len() implies #[trigger] node_labels(
        t->Tuple_0@[i],
    ).subset_of(node_labels(t)) by {
        lemma_nodes_labels_element(t->Tuple_0@, i);
    }
}

/// The visitor is deterministic and reproducible: any two label sets
/// gathered from the same resolved signature — as `visit_signature`
/// guarantees of its result — are the same set.
pub proof fn lemma_visit_deterministic(r1: LabelSet, r2: LabelSet, f: FunctionSignature)
    requires
        r1@ == sig_labels(f),
        r2@ == sig_labels(f),
    ensures
        r1@ == r2@,
{
}

/// Adds the labels of `t` to `acc`: the node's own structural or canonical
/// label, if any, and those of every nested type, depth-first.
pub fn visit_node(acc: &mut LabelSet, t: &TypeNode)
    requires
        old(acc).wf(),
    ensures
        final(acc).wf(),
        final(acc)@ == old(acc)@.union(node_labels(*t)),
    decreases *t,
{
    match t {
        TypeNode::Slice(inner) => {
            acc.insert("primitive::slice".to_owned());
            visit_node(acc, &**inner);
            proof {
                assert(acc@ =~= old(acc)@.union(node_labels(*t)));
            }
        },
        TypeNode::Reference(inner) => {
            acc.insert("primitive::ref".to_owned());
            visit_node(acc, &**inner);
            proof {
                assert(acc@ =~= old(acc)@.union(node_labels(*t)));
            }
        },
        TypeNode::Never => {
            acc.insert("primitive::never".to_owned());
            proof {
                assert(acc@ =~= old(acc)@.union(node_labels(*t)));
            }
        },
        TypeNode::Tuple(elems) => {
            if elems.len() >= 2 {
                acc.insert("primitive::tuple".to_owned());
            }
            visit_nodes(acc, elems);
            proof {
                assert(acc@ =~= old(acc)@.union(node_labels(*t)));
            }
        },
        TypeNode::NamedPath(d, args) => {
            if let Some(label) = canonicalize(d) {
                acc.insert(label);
            }
            visit_nodes(acc, args);
            proof {
                assert(acc@ =~= old(acc)@.union(node_labels(*t)));
            }
        },
        TypeNode::PrimitiveStr => {
            acc.insert("primitive::str".to_owned());
            proof {
                assert(acc@ =~= old(acc)@.union(node_labels(*t)));
            }
        },
        TypeNode::Other(children) => {
            visit_nodes(acc, children);
        },
    }
}

/// Adds the labels of every node of `ts` to `acc`.
pub fn visit_nodes(acc: &mut LabelSet, ts: &Vec<TypeNode>)
    requires
        old(acc).wf(),
    ensures
        final(acc).wf(),
        final(acc)@ == old(acc)@.union(nodes_labels(ts@)),
    decreases *ts,
{
    let ghost base = old(acc)@;
    let n = ts.len();
    let mut i: usize = 0;
    while i < n
        invariant
            acc.wf(),
            n == ts@.len(),
            0 <= i <= n,
            acc@ == base.union(nodes_labels(ts@.take(i as int))),
        decreases n - i,
    {
        visit_node(acc, &ts[i]);
        proof {
            assert(ts@.take(i + 1 as int).drop_last() =~= ts@.take(i as int));
            assert(ts@.take(i + 1 as int).last() == ts@[i as int]);
            assert(acc@ =~= base.union(nodes_labels(ts@.take(i + 1 as int))));
        }
        i += 1;
    }
    proof {
        assert(ts@.take(n as int) =~= ts@);
    }
}

/// Whether `f`'s definition path falls under one of the excluded scaffolding
/// namespace prefixes.
pub open spec fn is_excluded(f: FunctionSignature, excluded: Seq<Seq<char>>) -> bool {
    exists|i: int| 0 <= i < excluded.len() && spec_starts_with(f.def_path@, excluded[i])
}

/// The analysis of a sequence of resolved functions: every function under an
/// excluded scaffolding namespace is dropped, every other yields the pair of
/// its name and its signature's label set, in order.
pub open spec fn analyzed(fs: Seq<FunctionSignature>, excluded: Seq<Seq<char>>) -> Seq<
    (Seq<char>, Set<Seq<char>>),
>
    decreases fs,
{
    if fs.len() == 0 {
        Seq::empty()
    } else {
        let rest = analyzed(fs.drop_last(), excluded);
        if is_excluded(fs.last(), excluded) {
            rest
        } else {
            rest.push((fs.last().name@, sig_labels(fs.last())))
        }
    }
}

/// Whether `f` falls under one of the excluded namespace prefixes.
fn is_excluded_exec(f: &FunctionSignature, excluded: &Vec<String>) -> (r: bool)
    ensures
        r == is_excluded(*f, excluded.deep_view()),
{
    let n = excluded.len();
    let mut i: usize = 0;
    while i < n
        invariant
            n == excluded@.len(),
            0 <= i <= n,
            forall|j: int|
                0 <= j < i ==> !spec_starts_with(f.def_path@, excluded.deep_view()[j]),
        decreases n - i,
    {
        if str_starts_with(f.def_path.as_str(), excluded[i].as_str()) {
            proof {
                assert(spec_starts_with(f.def_path@, excluded.deep_view()[i as int]));
            }
            return true;
        }
        i += 1;
    }
    false
}

/// Computes the full label set of `f`'s signature: its parameter types, its
/// return type and its generic bounds, walked depth-first with every label
/// deduplicated.
pub fn visit_signature(f: &FunctionSignature) -> (r: LabelSet)
    ensures
        r.wf(),
        r@ == sig_labels(*f),
{
    let mut acc = LabelSet::new();
    visit_nodes(&mut acc, &f.params);
    visit_node(&mut acc, &f.ret);
    let ghost base = acc@;
    let n = f.bounds.len();
    let mut i: usize = 0;
    while i < n
        invariant
            acc.wf(),
            n == f.bounds@.len(),
            0 <= i <= n,
            base == nodes_labels(f.params@).union(node_labels(f.ret)),
            acc@ == base.union(bounds_labels(f.bounds@.take(i as int))),
        decreases n - i,
    {
        let b = &f.bounds[i];
        if let Some(d) = &b.trait_def {
            if let Some(label) = canonicalize(d) {
                acc.insert(label);
            }
        }
        visit_nodes(&mut acc, &b.args);
        proof {
            assert(f.bounds@.take(i + 1 as int).drop_last() =~= f.bounds@.take(i as int));
            assert(f.bounds@.take(i + 1 as int).last() == f.bounds@[i as int]);
            assert(acc@ =~= base.union(bounds_labels(f.bounds@.take(i + 1 as int))));
        }
        i += 1;
    }
    proof {
        assert(f.bounds@.take(n as int) =~= f.bounds@);
        assert(acc@ =~= sig_labels(*f));
    }
    acc
}

/// Analyzes a resolved unit's function items: drops every function whose
/// definition path lies under one of the `excluded` scaffolding namespace
/// prefixes, and pairs every remaining function's name with its signature's
/// label set, keeping their order.
pub fn run(functions: &Vec<FunctionSignature>, excluded: &Vec<String>) -> (r: Vec<
    (String, LabelSet),
>)
    ensures
        r@.len() == analyzed(functions@, excluded.deep_view()).len(),
        forall|i: int|
            0 <= i < r@.len() ==> {
                &&& (#[trigger] r@[i]).1.wf()
                &&& r@[i].0@ == analyzed(functions@, excluded.deep_view())[i].0
                &&& r@[i].1@ == analyzed(functions@, excluded.deep_view())[i].1
            },
{
    let mut r: Vec<(String, LabelSet)> = Vec::new();
    let n = functions.len();
    let mut i: usize = 0;
    while i < n
        invariant
            n == functions@.len(),
            0 <= i <= n,
            r@.len() == analyzed(functions@.take(i as int), excluded.deep_view()).len(),
            forall|j: int|
                0 <= j < r@.len() ==> {
                    &&& (#[trigger] r@[j]).1.wf()
                    &&& r@[j].0@ == analyzed(functions@.take(i as int), excluded.deep_view())[j].0
                    &&& r@[j].1@ == analyzed(functions@.take(i as int), excluded.deep_view())[j].1
                },
        decreases n - i,
    {
        let f = &functions[i];
        if !is_excluded_exec(f, excluded) {
            let labels = visit_signature(f);
            let name = f.name.clone();
            r.push((name, labels));
        }
        proof {
            assert(functions@.take(i + 1 as int).drop_last() =~= functions@.take(i as int));
            assert(functions@.take(i + 1 as int).last() == functions@[i as int]);
        }
        i += 1;
    }
    proof {
        assert(functions@.take(n as int) =~= functions@);
    }
    r
}

} // verus!
