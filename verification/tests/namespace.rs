use std::cmp::Ordering;

use oscal_gen::name_space::Namespace;
use oscal_gen::schema_type::SchemaType;

#[test]
fn test_namespace_cmp() {
    let super_ns = "a::b";
    let empty_ns = "";
    let lt_ns = "a";
    let gt_ns = "a::b::c";
    let bad_ns = "c";

    assert_eq!(Namespace::cmp(empty_ns, super_ns), Some(Ordering::Less));
    assert_eq!(Namespace::cmp(lt_ns, super_ns), Some(Ordering::Less));
    assert_eq!(Namespace::cmp(gt_ns, super_ns), Some(Ordering::Greater));
    assert_eq!(Namespace::cmp(super_ns, super_ns), Some(Ordering::Equal));
    assert_eq!(Namespace::cmp(bad_ns, super_ns), None);
}

#[test]
fn test_use_crates() {
    let ns = "oscal_ar::assessment_results";
    let name = "AssessmentResults";
    let schema_type = SchemaType::new(ns, name);

    let mut namespace = Namespace::new("");
    namespace.add_type(&schema_type).expect("oops");

    let ns = "oscal_ar::assessment_results::local_definitions";
    let name = "LocalDefinitions";
    let schema_type = SchemaType::new(ns, name);
    namespace.add_type(&schema_type).expect("oops");

    // The engine yields the group body; the emitter wraps it in the
    // literal `use crate::...;` line.
    assert_eq!("use crate::oscal_ar::assessment_results::{AssessmentResults, local_definitions::LocalDefinitions};",
     &format!("use crate::{};", &namespace.use_crates("", "")));
}

#[test]
fn test_use_supers() {
    let ns = "oscal_ar::assessment_results";
    let name = "AssessmentResults";
    let schema_type = SchemaType::new(ns, name);

    let mut namespace = Namespace::new("");
    namespace.add_type(&schema_type).expect("oops");

    let ns = "oscal_ar::assessment_results::local_definitions";
    let name = "LocalDefinitions";
    let schema_type = SchemaType::new(ns, name);
    namespace.add_type(&schema_type).expect("oops");

    println!(
        "{}",
        &namespace
            .use_supers("oscal_ar::assessment_results", "", "")
            .expect("oops")
    );
}

#[test]
fn test_complex_supers() {
    let mut namespace = Namespace::new("");
    namespace
        .add_type(&SchemaType::new("oscal_assessment_common::activity", "Activity"))
        .expect("oops");
    namespace
        .add_type(&SchemaType::new(
            "oscal_assessment_common::local_objective",
            "LocalObjective",
        ))
        .expect("oops");
    namespace
        .add_type(&SchemaType::new(
            "oscal_implementation_common::inventory_item",
            "InventoryItem",
        ))
        .expect("oops");
    namespace
        .add_type(&SchemaType::new(
            "oscal_implementation_common::system_component",
            "SystemComponent",
        ))
        .expect("oops");
    namespace
        .add_type(&SchemaType::new(
            "oscal_implementation_common::system_user",
            "SystemUser",
        ))
        .expect("oops");
    namespace
        .add_type(&SchemaType::new("oscal_metadata::remarks", "Remarks"))
        .expect("oops");

    let super_ns = "oscal_ap::assessment_plan::local_definitions";
    let use_supers = namespace.use_supers(super_ns, "", "").expect("oops");
    println!("{}", &use_supers);
}

#[test]
fn test_use_supers_exact_value() {
    let mut namespace = Namespace::new("");
    namespace
        .add_type(&SchemaType::new("oscal_ar::assessment_results", "AssessmentResults"))
        .expect("oops");
    namespace
        .add_type(&SchemaType::new(
            "oscal_ar::assessment_results::local_definitions",
            "LocalDefinitions",
        ))
        .expect("oops");

    assert_eq!(
        namespace
            .use_supers("oscal_ar::assessment_results", "", "")
            .expect("oops"),
        "{AssessmentResults, local_definitions::LocalDefinitions}"
    );
}

#[test]
fn test_use_supers_excludes_own_name() {
    let mut namespace = Namespace::new("");
    namespace.add_type(&SchemaType::new("a::b", "B")).expect("oops");
    namespace.add_type(&SchemaType::new("a::b", "Other")).expect("oops");

    // The unit `B` at its own path never imports itself.
    assert_eq!(namespace.use_supers("a::b", "B", "").expect("oops"), "Other");
}

#[test]
fn test_use_supers_disjoint_contributes_nothing() {
    let mut namespace = Namespace::new("");
    namespace.add_type(&SchemaType::new("c::d", "D")).expect("oops");

    assert_eq!(namespace.use_supers("a::b", "", "").expect("oops"), "");
}

#[test]
fn test_use_types() {
    let mut namespace = Namespace::new("");
    namespace
        .add_type(&SchemaType::new("oscal_types", "UUIDDatatype"))
        .expect("oops");
    assert_eq!(namespace.use_types(), Some("UUIDDatatype".to_owned()));

    namespace
        .add_type(&SchemaType::new("oscal_types", "TokenDatatype"))
        .expect("oops");
    assert_eq!(
        namespace.use_types(),
        Some("{ UUIDDatatype, TokenDatatype }".to_owned())
    );
}

#[test]
fn test_use_types_absent() {
    let namespace = Namespace::new("");
    assert_eq!(namespace.use_types(), None);
}

#[test]
fn test_use_crates_skips_the_context_namespace() {
    let mut namespace = Namespace::new("");
    namespace.add_type(&SchemaType::new("a::b", "B")).expect("oops");
    assert_eq!(namespace.use_crates("a::b", ""), "");
}

#[test]
fn test_subs_keep_sorted_order() {
    let mut namespace = Namespace::new("");
    namespace.add_type(&SchemaType::new("zebra", "Z")).expect("oops");
    namespace.add_type(&SchemaType::new("alpha", "A")).expect("oops");

    // Children are visited in ascending key order regardless of the order
    // in which they were recorded.
    assert_eq!(namespace.use_crates("", ""), "{alpha::A, zebra::Z}");
}
