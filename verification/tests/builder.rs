use oscal_gen::any_of::AnyOf;
use oscal_gen::error::Error;
use oscal_gen::json::{JsonMap, JsonValue};
use oscal_gen::parse::{get_required, parse_schema, parse_version_from_id};
use oscal_gen::resolver::Resolver;
use oscal_gen::type_ref::TypeRef;

fn obj(members: Vec<(&str, JsonValue)>) -> JsonValue {
    let mut m = JsonMap::new();
    for (k, v) in members {
        m.push(k.to_owned(), v);
    }
    JsonValue::Object(m)
}

fn s(text: &str) -> JsonValue {
    JsonValue::Str(text.to_owned())
}

fn arr(items: Vec<JsonValue>) -> JsonValue {
    JsonValue::Array(items)
}

#[test]
fn test_version_from_id() {
    let id = "http://csrc.nist.gov/ns/oscal/1.0/1.0.4/oscal-complete-schema.json";
    assert_eq!(parse_version_from_id(id).expect("version"), "1.0.4");
}

#[test]
fn test_version_from_bad_id() {
    let r = parse_version_from_id("http://csrc.nist.gov/ns/oscal/1.0/x.0.4/oscal-complete-schema.json");
    assert!(matches!(r, Err(Error::VersionParse)));
    let r = parse_version_from_id("not a url at all");
    assert!(matches!(r, Err(Error::VersionParse)));
}

#[test]
fn test_get_required_reads_the_names() {
    let v = obj(vec![("required", arr(vec![s("uuid"), s("tasks")]))]);
    if let JsonValue::Object(m) = v {
        let names = get_required(&m).expect("required");
        assert_eq!(names, vec!["uuid".to_owned(), "tasks".to_owned()]);
    } else {
        unreachable!();
    }
}

#[test]
fn test_get_required_rejects_non_strings() {
    let v = obj(vec![("required", arr(vec![s("uuid"), JsonValue::Null]))]);
    if let JsonValue::Object(m) = v {
        assert!(matches!(get_required(&m), Err(Error::StringExpected)));
    } else {
        unreachable!();
    }
}

#[test]
fn test_any_of_pair() {
    let pair = arr(vec![
        obj(vec![("$ref", s("#/definitions/RoleId"))]),
        obj(vec![("enum", arr(vec![s("a"), s("b")]))]),
    ]);
    let a = AnyOf::try_from(&pair).expect("well-shaped pair");
    assert_eq!(a.ref_name, "#/definitions/RoleId");
    assert_eq!(a.enums, vec!["a".to_owned(), "b".to_owned()]);

    // Once RoleId is registered, the constrained reference resolves to it.
    let mut resolver = Resolver::new();
    resolver.add_type(
        "#/definitions/RoleId",
        oscal_gen::schema_type::SchemaType::new("oscal_metadata::role_id", "RoleId"),
    );
    let tr = TypeRef::from_ref(Some(a.ref_name.clone()));
    let t = resolver.resolve(&tr).expect("registered");
    assert_eq!(t.name, "RoleId");
}

#[test]
fn test_any_of_with_three_members_is_malformed() {
    let triple = arr(vec![
        obj(vec![("$ref", s("#/definitions/RoleId"))]),
        obj(vec![("enum", arr(vec![s("a")]))]),
        obj(vec![("enum", arr(vec![s("b")]))]),
    ]);
    assert!(matches!(AnyOf::try_from(&triple), Err(Error::MalformedAnyOf)));
}

#[test]
fn test_any_of_without_ref_is_missing_ref() {
    let pair = arr(vec![
        obj(vec![("title", s("no reference here"))]),
        obj(vec![("enum", arr(vec![s("a")]))]),
    ]);
    assert!(matches!(AnyOf::try_from(&pair), Err(Error::MissingAnyOfRef)));
}

#[test]
fn test_any_of_without_enum_is_missing_enum() {
    let pair = arr(vec![
        obj(vec![("$ref", s("#/definitions/RoleId"))]),
        obj(vec![("title", s("no enum here"))]),
    ]);
    assert!(matches!(AnyOf::try_from(&pair), Err(Error::MissingAnyOfEnum)));
}

fn sample_document() -> JsonValue {
    let uuid_prop = obj(vec![("$ref", s("#/definitions/UUIDDatatype"))]);
    let tasks_prop = obj(vec![
        ("type", s("array")),
        (
            "items",
            obj(vec![
                ("type", s("object")),
                (
                    "properties",
                    obj(vec![("title", obj(vec![("type", s("string"))]))]),
                ),
            ]),
        ),
    ]);
    let plan = obj(vec![
        ("$id", s("#assembly_oscal-ap_assessment-plan")),
        ("type", s("object")),
        (
            "properties",
            obj(vec![("uuid", uuid_prop), ("tasks", tasks_prop)]),
        ),
        ("required", arr(vec![s("tasks")])),
    ]);
    let string_datatype = obj(vec![("type", s("string"))]);
    obj(vec![
        ("$schema", s("http://json-schema.org/draft-07/schema#")),
        (
            "$id",
            s("http://csrc.nist.gov/ns/oscal/1.0/1.0.4/oscal-complete-schema.json"),
        ),
        ("$comment", s("OSCAL Unified Model of Models: JSON Schema")),
        (
            "definitions",
            obj(vec![
                ("StringDatatype", string_datatype),
                ("oscal-complete-oscal-ap:assessment-plan", plan),
            ]),
        ),
    ])
}

#[test]
fn test_document_builds_the_expected_tree() {
    let doc = sample_document();
    let mut resolver = Resolver::new();
    let schema = parse_schema(&doc, &mut resolver).expect("valid document");

    assert_eq!(schema.version, "1.0.4");
    assert_eq!(schema.comment, "OSCAL Unified Model of Models: JSON Schema");

    // The built-in StringDatatype entry is skipped entirely.
    assert_eq!(schema.keys(), vec!["oscal_ap".to_owned()]);
    assert!(!schema.has("string_datatype"));
    assert!(!schema.has("StringDatatype"));

    let oscal_ap = schema.get_tree("oscal_ap").expect("subtree");
    let plan_tree = oscal_ap.get_tree("assessment_plan").expect("subtree");
    let plan = plan_tree.get_object("assessment_plan").expect("object");
    assert_eq!(plan.ns, "oscal_ap::assessment_plan");
    assert_eq!(plan.name, "AssessmentPlan");
    assert_eq!(plan.id.as_deref(), Some("#assembly_oscal-ap_assessment-plan"));

    let props = plan.props.as_ref().expect("properties");
    assert_eq!(props.len(), 2);

    let uuid = &props[0].1;
    assert_eq!(uuid.name, "uuid");
    assert!(uuid.optional);
    assert!(!uuid.array);
    assert_eq!(uuid.type_ref._ref.as_deref(), Some("#/definitions/UUIDDatatype"));
    let uuid_target = resolver.resolve(&uuid.type_ref).expect("built-in");
    assert_eq!(uuid_target.ns, "oscal_types");
    assert_eq!(uuid_target.name, "UUIDDatatype");

    let tasks = &props[1].1;
    assert_eq!(tasks.name, "tasks");
    assert!(!tasks.optional);
    assert!(tasks.array);
    let task_type = tasks.type_ref._type.as_ref().expect("synthesized item type");
    assert_eq!(task_type.ns, "oscal_ap::assessment_plan::task");
    assert_eq!(task_type.name, "Task");

    // The synthesized item object sits one level down, reducible.
    let task_tree = plan_tree.get_tree("task").expect("subtree");
    assert!(task_tree.is_reducable("task"));
    let task = task_tree.get_object("task").expect("object");
    assert_eq!(task.ns, "oscal_ap::assessment_plan::task");
    assert_eq!(task.name, "Task");

    // The identified plan registered itself for forward references.
    let tr = TypeRef::from_ref(Some("#assembly_oscal-ap_assessment-plan".to_owned()));
    let target = resolver.resolve(&tr).expect("registered");
    assert_eq!(target.ns, "oscal_ap::assessment_plan");
    assert_eq!(target.name, "AssessmentPlan");
}

#[test]
fn test_document_without_comment_fails() {
    let doc = obj(vec![
        ("$schema", s("http://json-schema.org/draft-07/schema#")),
        (
            "$id",
            s("http://csrc.nist.gov/ns/oscal/1.0/1.0.4/oscal-complete-schema.json"),
        ),
        ("definitions", obj(vec![])),
    ]);
    let mut resolver = Resolver::new();
    let r = parse_schema(&doc, &mut resolver);
    assert!(matches!(r, Err(Error::AttributeNotFound(k)) if k == "$comment"));
}

#[test]
fn test_document_without_definitions_fails() {
    let doc = obj(vec![
        ("$schema", s("http://json-schema.org/draft-07/schema#")),
        (
            "$id",
            s("http://csrc.nist.gov/ns/oscal/1.0/1.0.4/oscal-complete-schema.json"),
        ),
        ("$comment", s("c")),
    ]);
    let mut resolver = Resolver::new();
    let r = parse_schema(&doc, &mut resolver);
    assert!(matches!(r, Err(Error::AttributeNotFound(k)) if k == "definitions"));
}

#[test]
fn test_malformed_array_items() {
    // An items map with neither $ref, a pair, nor a type is a hard error.
    let doc = obj(vec![
        ("$schema", s("d")),
        (
            "$id",
            s("http://csrc.nist.gov/ns/oscal/1.0/1.0.4/oscal-complete-schema.json"),
        ),
        ("$comment", s("c")),
        (
            "definitions",
            obj(vec![(
                "oscal-complete-oscal-ap:assessment-plan",
                obj(vec![(
                    "properties",
                    obj(vec![(
                        "things",
                        obj(vec![("type", s("array")), ("items", obj(vec![]))]),
                    )]),
                )]),
            )]),
        ),
    ]);
    let mut resolver = Resolver::new();
    let r = parse_schema(&doc, &mut resolver);
    assert!(matches!(r, Err(Error::MalformedArray)));
}

#[test]
fn test_unhandled_property_shapes_are_skipped() {
    // A boolean-typed property is unhandled: omitted, not an error.
    let doc = obj(vec![
        ("$schema", s("d")),
        (
            "$id",
            s("http://csrc.nist.gov/ns/oscal/1.0/1.0.4/oscal-complete-schema.json"),
        ),
        ("$comment", s("c")),
        (
            "definitions",
            obj(vec![(
                "oscal-complete-oscal-ap:assessment-plan",
                obj(vec![(
                    "properties",
                    obj(vec![
                        ("flag", obj(vec![("type", s("boolean"))])),
                        ("name", obj(vec![("type", s("string"))])),
                    ]),
                )]),
            )]),
        ),
    ]);
    let mut resolver = Resolver::new();
    let schema = parse_schema(&doc, &mut resolver).expect("valid document");
    let plan = schema
        .get_tree("oscal_ap")
        .expect("subtree")
        .get_tree("assessment_plan")
        .expect("subtree")
        .get_object("assessment_plan")
        .expect("object");
    let props = plan.props.as_ref().expect("properties");
    assert_eq!(props.len(), 1);
    assert_eq!(props[0].1.name, "name");
}

#[test]
fn test_array_of_refs_and_enums() {
    let doc = obj(vec![
        ("$schema", s("d")),
        (
            "$id",
            s("http://csrc.nist.gov/ns/oscal/1.0/1.0.4/oscal-complete-schema.json"),
        ),
        ("$comment", s("c")),
        (
            "definitions",
            obj(vec![(
                "oscal-complete-oscal-ap:assessment-plan",
                obj(vec![(
                    "properties",
                    obj(vec![
                        (
                            "roles",
                            obj(vec![
                                ("type", s("array")),
                                ("items", obj(vec![("$ref", s("#/definitions/Role"))])),
                            ]),
                        ),
                        (
                            "kinds",
                            obj(vec![
                                ("type", s("array")),
                                (
                                    "items",
                                    arr_pair("#/definitions/TokenDatatype", vec!["x", "y"]),
                                ),
                            ]),
                        ),
                    ]),
                )]),
            )]),
        ),
    ]);
    let mut resolver = Resolver::new();
    let schema = parse_schema(&doc, &mut resolver).expect("valid document");
    let plan = schema
        .get_tree("oscal_ap")
        .expect("subtree")
        .get_tree("assessment_plan")
        .expect("subtree")
        .get_object("assessment_plan")
        .expect("object");
    let props = plan.props.as_ref().expect("properties");
    assert_eq!(props.len(), 2);
    assert!(props[0].1.array);
    assert_eq!(props[0].1.type_ref._ref.as_deref(), Some("#/definitions/Role"));
    assert!(props[1].1.array);
    assert_eq!(
        props[1].1.type_ref._ref.as_deref(),
        Some("#/definitions/TokenDatatype")
    );
    assert_eq!(
        props[1].1.enums,
        Some(vec!["x".to_owned(), "y".to_owned()])
    );
}

fn arr_pair(reference: &str, enums: Vec<&str>) -> JsonValue {
    let mut enum_items = Vec::new();
    for e in enums {
        enum_items.push(s(e));
    }
    obj(vec![(
        "anyOf",
        arr(vec![
            obj(vec![("$ref", s(reference))]),
            obj(vec![("enum", arr(enum_items))]),
        ]),
    )])
}

#[test]
fn test_array_item_title_is_used_as_given() {
    // An explicit items title is case-normalized only: no singularization.
    let doc = obj(vec![
        ("$schema", s("d")),
        (
            "$id",
            s("http://csrc.nist.gov/ns/oscal/1.0/1.0.4/oscal-complete-schema.json"),
        ),
        ("$comment", s("c")),
        (
            "definitions",
            obj(vec![(
                "oscal-complete-oscal-ap:assessment-plan",
                obj(vec![(
                    "properties",
                    obj(vec![(
                        "things",
                        obj(vec![
                            ("type", s("array")),
                            (
                                "items",
                                obj(vec![("type", s("object")), ("title", s("Tasks"))]),
                            ),
                        ]),
                    )]),
                )]),
            )]),
        ),
    ]);
    let mut resolver = Resolver::new();
    let schema = parse_schema(&doc, &mut resolver).expect("valid document");
    let plan_tree = schema
        .get_tree("oscal_ap")
        .expect("subtree")
        .get_tree("assessment_plan")
        .expect("subtree");
    // The synthesized item keeps the title's own (plural) spelling.
    let item_tree = plan_tree.get_tree("tasks").expect("subtree");
    let item = item_tree.get_object("tasks").expect("object");
    assert_eq!(item.ns, "oscal_ap::assessment_plan::tasks");
    assert_eq!(item.name, "Tasks");
}

#[test]
fn test_refinement_members_are_kept() {
    let doc = obj(vec![
        ("$schema", s("d")),
        (
            "$id",
            s("http://csrc.nist.gov/ns/oscal/1.0/1.0.4/oscal-complete-schema.json"),
        ),
        ("$comment", s("c")),
        (
            "definitions",
            obj(vec![(
                "oscal-complete-oscal-ap:assessment-plan",
                obj(vec![("type", s("string")), ("format", s("token"))]),
            )]),
        ),
    ]);
    let mut resolver = Resolver::new();
    let schema = parse_schema(&doc, &mut resolver).expect("valid document");
    let plan = schema
        .get_tree("oscal_ap")
        .expect("subtree")
        .get_tree("assessment_plan")
        .expect("subtree")
        .get_object("assessment_plan")
        .expect("object");
    let st = plan.string_type.as_ref().expect("a refinement member is present");
    assert_eq!(st.format.as_deref(), Some("token"));

    // A definition without refinement members carries none.
    let doc = obj(vec![
        ("$schema", s("d")),
        (
            "$id",
            s("http://csrc.nist.gov/ns/oscal/1.0/1.0.4/oscal-complete-schema.json"),
        ),
        ("$comment", s("c")),
        (
            "definitions",
            obj(vec![(
                "oscal-complete-oscal-ap:assessment-plan",
                obj(vec![("type", s("object"))]),
            )]),
        ),
    ]);
    let mut resolver = Resolver::new();
    let schema = parse_schema(&doc, &mut resolver).expect("valid document");
    let plan = schema
        .get_tree("oscal_ap")
        .expect("subtree")
        .get_tree("assessment_plan")
        .expect("subtree")
        .get_object("assessment_plan")
        .expect("object");
    assert!(plan.string_type.is_none());
}
