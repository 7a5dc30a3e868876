use oscal_gen::names::{is_namespace, name_parts, strip_oscal, NamespaceEntry, UnPlural};

#[test]
fn test_from_plural() {
    assert_eq!(
        "assessment_assets".unplural(),
        "assessment_asset".to_owned()
    );
}

#[test]
fn test_is_namespace() {
    assert!(is_namespace("oscal-complete-oscal-ap:assessment-plan"));

    assert!(!is_namespace("StringDatatype"));
}

#[test]
fn test_strip_oscal() {
    assert_eq!(
        strip_oscal("oscal-complete-oscal-ap:assessment-plan"),
        "oscal-ap:assessment-plan"
    );
}

#[test]
fn test_name_parts() {
    assert_eq!(
        name_parts("oscal-complete-oscal-ap:assessment-plan"),
        vec!["oscal-ap", "assessment-plan"]
    )
}

#[test]
fn test_name_rutify_namespace() {
    assert_eq!(
        NamespaceEntry::from("oscal-complete-oscal-ap:assessment-plan"),
        NamespaceEntry {
            left: String::from("oscal_ap"),
            right: String::from("assessment_plan"),
            rust: String::from("AssessmentPlan")
        }
    );
}

#[test]
fn test_name_rutify_not_namespace() {
    assert_eq!(
        NamespaceEntry::from("StringDatatype"),
        NamespaceEntry {
            left: String::from(""),
            right: String::from("string_datatype"),
            rust: String::from("StringDatatype")
        }
    );
}

#[test]
fn test_unplural_keeps_singular() {
    assert_eq!("metadata".unplural(), "metadata".to_owned());
}

#[test]
fn test_strip_oscal_leaves_other_names() {
    assert_eq!(strip_oscal("StringDatatype"), "StringDatatype");
}
