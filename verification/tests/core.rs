use typecollector::aggregate::Aggregator;
use typecollector::canon::canonicalize;
use typecollector::classify::ForeignClassifier;
use typecollector::labels::LabelSet;
use typecollector::model::{FunctionSignature, GenericBound, ResolvedDefinition, TypeNode};
use typecollector::toolchain::toolchain_path;
use typecollector::visit::{run, visit_signature};

fn def(local: bool, library: &str, path: &str) -> ResolvedDefinition {
    ResolvedDefinition { local, library: library.to_string(), path: path.to_string() }
}

fn named(local: bool, library: &str, path: &str) -> TypeNode {
    TypeNode::NamedPath(def(local, library, path), vec![])
}

fn sig(name: &str, params: Vec<TypeNode>) -> FunctionSignature {
    FunctionSignature {
        name: name.to_string(),
        def_path: format!("::{}", name),
        params,
        ret: TypeNode::Tuple(vec![]),
        bounds: vec![],
    }
}

fn classifier(prefixes: &[&str]) -> ForeignClassifier {
    ForeignClassifier::new(prefixes.iter().map(|p| p.to_string()).collect()).unwrap()
}

#[test]
fn canonicalize_core_library_type() {
    let r = canonicalize(&def(false, "std", "::vec::Vec"));
    assert_eq!(r, Some("std::vec::Vec".to_string()));
    let r = canonicalize(&def(false, "alloc", "::string::String"));
    assert_eq!(r, Some("alloc::string::String".to_string()));
    let r = canonicalize(&def(false, "core", "::option::Option"));
    assert_eq!(r, Some("core::option::Option".to_string()));
}

#[test]
fn canonicalize_excludes_local_definitions() {
    // A local definition yields no label even when its name collides with a
    // core-library type's.
    assert_eq!(canonicalize(&def(true, "std", "::vec::Vec")), None);
    assert_eq!(canonicalize(&def(true, "mycrate", "::Thing")), None);
}

#[test]
fn canonicalize_excludes_other_libraries() {
    assert_eq!(canonicalize(&def(false, "serde", "::Deserialize")), None);
    assert_eq!(canonicalize(&def(false, "libc", "::c_int")), None);
}

#[test]
fn canonicalize_excludes_raw_interop_namespaces() {
    assert_eq!(canonicalize(&def(false, "std", "::os::raw::c_int")), None);
    assert_eq!(canonicalize(&def(false, "core", "::ffi::c_void")), None);
    // Other paths in the same libraries stay included.
    assert_eq!(
        canonicalize(&def(false, "core", "::ffi_like::T")),
        Some("core::ffi_like::T".to_string())
    );
}

#[test]
fn visit_is_deterministic() {
    let f = sig(
        "f",
        vec![
            TypeNode::Reference(Box::new(named(false, "std", "::vec::Vec"))),
            TypeNode::Slice(Box::new(TypeNode::PrimitiveStr)),
        ],
    );
    let a = visit_signature(&f);
    let b = visit_signature(&f);
    assert_eq!(a.len(), b.len());
    for l in ["primitive::ref", "primitive::slice", "primitive::str", "std::vec::Vec"] {
        assert!(a.contains(l));
        assert!(b.contains(l));
    }
}

#[test]
fn empty_signature_yields_empty_set_and_empty_category() {
    let f = sig("nothing", vec![]);
    let ls = visit_signature(&f);
    assert_eq!(ls.len(), 0);
    let mut agg = Aggregator::new(classifier(&["libc::"]));
    agg.record(&ls);
    assert_eq!(agg.total_functions(), 1);
    assert_eq!(agg.empty_count(), 1);
    assert_eq!(agg.native_only_count(), 0);
    assert_eq!(agg.foreign_only_count(), 0);
    assert_eq!(agg.mixed_count(), 0);
}

#[test]
fn str_reference_yields_exactly_two_native_labels() {
    let f = sig("f", vec![TypeNode::Reference(Box::new(TypeNode::PrimitiveStr))]);
    let ls = visit_signature(&f);
    assert_eq!(ls.len(), 2);
    assert!(ls.contains("primitive::ref"));
    assert!(ls.contains("primitive::str"));
    let cl = classifier(&["libc::"]);
    assert!(!cl.is_foreign("primitive::ref"));
    assert!(!cl.is_foreign("primitive::str"));
}

#[test]
fn single_element_tuple_yields_no_tuple_label() {
    let f = sig("f", vec![TypeNode::Tuple(vec![named(false, "std", "::vec::Vec")])]);
    let ls = visit_signature(&f);
    assert!(!ls.contains("primitive::tuple"));
    // The element is still visited.
    assert!(ls.contains("std::vec::Vec"));
    assert_eq!(ls.len(), 1);
}

#[test]
fn two_element_tuple_yields_tuple_label_and_visits_elements() {
    let f = sig("f", vec![TypeNode::Tuple(vec![TypeNode::PrimitiveStr, TypeNode::Never])]);
    let ls = visit_signature(&f);
    assert!(ls.contains("primitive::tuple"));
    assert!(ls.contains("primitive::str"));
    assert!(ls.contains("primitive::never"));
    assert_eq!(ls.len(), 3);
}

#[test]
fn generic_arguments_at_reference_site_are_visited() {
    let inner = named(false, "alloc", "::string::String");
    let f = sig("f", vec![TypeNode::NamedPath(def(false, "std", "::vec::Vec"), vec![inner])]);
    let ls = visit_signature(&f);
    assert!(ls.contains("std::vec::Vec"));
    assert!(ls.contains("alloc::string::String"));
    assert_eq!(ls.len(), 2);
}

#[test]
fn trait_bounds_are_canonicalized_like_types() {
    let f = FunctionSignature {
        name: "g".to_string(),
        def_path: "::g".to_string(),
        params: vec![],
        ret: TypeNode::Tuple(vec![]),
        bounds: vec![GenericBound {
            trait_def: Some(def(false, "core", "::clone::Clone")),
            args: vec![TypeNode::PrimitiveStr],
        }],
    };
    let ls = visit_signature(&f);
    assert!(ls.contains("core::clone::Clone"));
    assert!(ls.contains("primitive::str"));
    assert_eq!(ls.len(), 2);
}

#[test]
fn other_forms_yield_no_label_but_children_are_visited() {
    let f = sig("f", vec![TypeNode::Other(vec![named(false, "std", "::vec::Vec")])]);
    let ls = visit_signature(&f);
    assert!(ls.contains("std::vec::Vec"));
    assert_eq!(ls.len(), 1);
}

#[test]
fn classifier_rejects_prefixes_claiming_structural_labels() {
    assert!(ForeignClassifier::new(vec!["primitive::".to_string()]).is_none());
    assert!(ForeignClassifier::new(vec!["primitive".to_string()]).is_none());
    assert!(ForeignClassifier::new(vec!["libc::".to_string()]).is_some());
    assert!(ForeignClassifier::new(vec![]).is_some());
}

#[test]
fn classification_is_a_partition() {
    let cl = classifier(&["std::ffi::"]);
    for l in ["std::ffi::OsString", "std::vec::Vec", "primitive::ref"] {
        let foreign = cl.is_foreign(l);
        let native = !cl.is_foreign(l);
        assert!(foreign != native);
    }
    assert!(cl.is_foreign("std::ffi::OsString"));
    assert!(!cl.is_foreign("std::vec::Vec"));
}

#[test]
fn mixed_signature_counts_mixed_and_grows_foreign_distinct_by_one() {
    // One core-library reference and one reference under the designated
    // foreign-ABI namespace.
    let f = sig(
        "f",
        vec![
            named(false, "std", "::vec::Vec"),
            named(false, "std", "::ffi::OsString"),
        ],
    );
    let ls = visit_signature(&f);
    let mut agg = Aggregator::new(classifier(&["std::ffi::"]));
    let foreign_before = agg.partition_distinct(true);
    agg.record(&ls);
    let foreign_after = agg.partition_distinct(true);
    assert_eq!(agg.mixed_count(), 1);
    assert_eq!(agg.native_only_count(), 0);
    assert_eq!(agg.foreign_only_count(), 0);
    assert_eq!(foreign_after, foreign_before + 1);
    assert_eq!(agg.partition_total(true), 1);
    assert_eq!(agg.partition_distinct(false), 1);
}

#[test]
fn scaffolding_namespaces_are_omitted_entirely() {
    let mut shown = sig("real", vec![TypeNode::PrimitiveStr]);
    shown.def_path = "::real".to_string();
    let mut hidden = sig("helper", vec![named(false, "std", "::vec::Vec")]);
    hidden.def_path = "::support_rt::helper".to_string();
    let excluded = vec!["::support_rt::".to_string(), "::support_arr::".to_string()];
    let pairs = run(&vec![hidden, shown], &excluded);
    assert_eq!(pairs.len(), 1);
    assert_eq!(pairs[0].0, "real");
    assert!(pairs[0].1.contains("primitive::str"));
}

#[test]
fn aggregation_is_order_independent() {
    let f1 = sig("a", vec![named(false, "std", "::vec::Vec")]);
    let f2 = sig("b", vec![named(false, "std", "::ffi::OsString"), TypeNode::PrimitiveStr]);
    let f3 = sig("c", vec![]);
    let s1 = visit_signature(&f1);
    let s2 = visit_signature(&f2);
    let s3 = visit_signature(&f3);

    let mut one = Aggregator::new(classifier(&["std::ffi::"]));
    one.record(&s1);
    one.record(&s2);
    one.record(&s3);

    let mut two = Aggregator::new(classifier(&["std::ffi::"]));
    two.record(&s3);
    two.record(&s2);
    two.record(&s1);

    assert_eq!(one.total_functions(), two.total_functions());
    assert_eq!(one.empty_count(), two.empty_count());
    assert_eq!(one.native_only_count(), two.native_only_count());
    assert_eq!(one.foreign_only_count(), two.foreign_only_count());
    assert_eq!(one.mixed_count(), two.mixed_count());
    for l in ["std::vec::Vec", "std::ffi::OsString", "primitive::str"] {
        assert_eq!(one.label_count(l), two.label_count(l));
    }
    assert_eq!(one.distinct_labels(), two.distinct_labels());
}

#[test]
fn histogram_counts_each_occurrence() {
    let f1 = sig("a", vec![named(false, "std", "::vec::Vec")]);
    let f2 = sig("b", vec![named(false, "std", "::vec::Vec"), TypeNode::PrimitiveStr]);
    let mut agg = Aggregator::new(classifier(&["libc::"]));
    agg.record_all(&run(&vec![f1, f2], &vec![]));
    assert_eq!(agg.total_functions(), 2);
    assert_eq!(agg.label_count("std::vec::Vec"), 2);
    assert_eq!(agg.label_count("primitive::str"), 1);
    assert_eq!(agg.label_count("primitive::never"), 0);
    assert_eq!(agg.distinct_labels(), 2);
    assert_eq!(agg.partition_total(false), 3);
    assert_eq!(agg.partition_total(true), 0);
    assert_eq!(agg.native_only_count(), 2);
}

#[test]
fn duplicate_references_are_deduplicated_per_function() {
    let f = sig(
        "f",
        vec![named(false, "std", "::vec::Vec"), named(false, "std", "::vec::Vec")],
    );
    let ls = visit_signature(&f);
    assert_eq!(ls.len(), 1);
    assert!(ls.contains("std::vec::Vec"));
}

#[test]
fn toolchain_path_composes_home_and_name() {
    let r = toolchain_path(Some("/opt/rust".to_string()), Some("stable".to_string()));
    assert_eq!(r, Some("/opt/rust/toolchains/stable".to_string()));
    assert_eq!(toolchain_path(None, Some("stable".to_string())), None);
    assert_eq!(toolchain_path(Some("/opt/rust".to_string()), None), None);
    assert_eq!(toolchain_path(None, None), None);
}
