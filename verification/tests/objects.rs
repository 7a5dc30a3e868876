use oscal_gen::data_type::is_datatype;
use oscal_gen::error::Error;
use oscal_gen::gen::{add_type_ref, resolve_props, split_str_on_words};
use oscal_gen::json::{value_to_array, value_to_map, value_to_string, JsonMap, JsonValue};
use oscal_gen::name_space::Namespace;
use oscal_gen::property::Property;
use oscal_gen::resolver::Resolver;
use oscal_gen::schema_object::SchemaObject;
use oscal_gen::schema_tree::SchemaTree;
use oscal_gen::string_type::StringType;
use oscal_gen::type_ref::TypeRef;

#[test]
fn test_is_datatype() {
    assert!(is_datatype("StringDatatype"));
    assert!(is_datatype("UUIDDatatype"));
    assert!(!is_datatype("AssessmentPlan"));
}

#[test]
fn test_property_name_escapes_reserved_words() {
    let prop = Property {
        optional: false,
        array: false,
        name: "type".to_owned(),
        title: None,
        description: None,
        type_ref: TypeRef::native_string(),
        enums: None,
    };
    assert_eq!(
        prop.name(),
        ("_type".to_owned(), "type".to_owned(), true)
    );

    let prop = Property { name: "uuid".to_owned(), ..prop };
    assert_eq!(
        prop.name(),
        ("uuid".to_owned(), "uuid".to_owned(), false)
    );
}

#[test]
fn test_string_type_kept_when_a_member_is_present() {
    let empty = JsonMap::new();
    let st = StringType::parse(&empty).expect("never fails");
    assert!(st.is_none());

    let mut with_format = JsonMap::new();
    with_format.push("format".to_owned(), JsonValue::Str("email".to_owned()));
    let st = StringType::parse(&with_format).expect("never fails");
    let st = st.expect("a refinement member is present");
    assert!(!st.is_empty());
    assert_eq!(st.format.as_deref(), Some("email"));
    assert_eq!(st.pattern, None);
}

#[test]
fn test_has_options() {
    let mut obj = SchemaObject {
        ns: "a".to_owned(),
        name: "A".to_owned(),
        id: None,
        description: None,
        _type: None,
        type_ref: None,
        props: None,
        string_type: None,
    };
    assert!(!obj.has_options());

    obj.props = Some(vec![(
        "x".to_owned(),
        Property {
            optional: false,
            array: false,
            name: "x".to_owned(),
            title: None,
            description: None,
            type_ref: TypeRef::native_string(),
            enums: None,
        },
    )]);
    assert!(!obj.has_options());

    obj.props.as_mut().unwrap().push((
        "y".to_owned(),
        Property {
            optional: true,
            array: false,
            name: "y".to_owned(),
            title: None,
            description: None,
            type_ref: TypeRef::native_string(),
            enums: None,
        },
    ));
    assert!(obj.has_options());
}

#[test]
fn test_split_short_comment_stays_whole() {
    let lines = split_str_on_words("A short description.");
    assert_eq!(lines, vec!["A short description.".to_owned()]);
}

#[test]
fn test_split_long_comment_wraps_at_words() {
    let word = "0123456789";
    let mut text = String::new();
    for i in 0..8 {
        if i > 0 {
            text.push(' ');
        }
        text.push_str(word);
    }
    // 87 bytes in all: seven words fill the first line past 75 bytes, the
    // eighth starts the second line.
    let lines = split_str_on_words(&text);
    assert_eq!(lines.len(), 2);
    assert_eq!(
        lines[0],
        "0123456789 0123456789 0123456789 0123456789 0123456789 0123456789 0123456789"
    );
    assert_eq!(lines[1], "0123456789");
}

#[test]
fn test_tree_reduction() {
    let mut tree = SchemaTree::new();
    let obj = SchemaObject {
        ns: "a".to_owned(),
        name: "A".to_owned(),
        id: None,
        description: None,
        _type: None,
        type_ref: None,
        props: None,
        string_type: None,
    };
    tree.add_object("thing", &obj).expect("insert");
    assert!(tree.is_reducable("thing"));
    assert!(!tree.is_reducable("other"));

    tree.add_tree("second").expect("insert");
    assert!(!tree.is_reducable("thing"));
}

#[test]
fn test_tree_lookup_errors() {
    let mut tree = SchemaTree::new();
    tree.add_tree("branch").expect("insert");

    assert!(tree.has("branch"));
    assert!(!tree.has("leaf"));
    assert!(matches!(tree.get("leaf"), Err(Error::EntryNotFound(k)) if k == "leaf"));
    assert!(matches!(tree.get_object("branch"), Err(Error::NotObject(k)) if k == "branch"));
    assert!(tree.get_tree("branch").is_ok());
    assert_eq!(tree.keys(), vec!["branch".to_owned()]);
}

#[test]
fn test_value_kind_errors() {
    let v = JsonValue::Bool(true);
    assert!(matches!(value_to_string(&v), Err(Error::StringExpected)));
    assert!(matches!(value_to_map(&v), Err(Error::StringExpected)));
    assert!(matches!(value_to_array(&v), Err(Error::StringExpected)));

    let s = JsonValue::Str("x".to_owned());
    assert_eq!(value_to_string(&s).expect("string"), "x");
}

#[test]
fn test_add_type_ref_records_target_and_error_type() {
    let mut resolver = Resolver::new();
    resolver.add_type(
        "#/definitions/Role",
        oscal_gen::schema_type::SchemaType::new("oscal_metadata::role", "Role"),
    );
    let mut namespace = Namespace::new("");
    add_type_ref(
        &Some("#/definitions/Role".to_owned()),
        &resolver,
        &mut namespace,
    )
    .expect("registered");
    assert_eq!(
        namespace.use_crates("", ""),
        "{error::Error, oscal_metadata::role::Role}"
    );
}

#[test]
fn test_add_type_ref_unresolvable_is_fatal() {
    let resolver = Resolver::new();
    let mut namespace = Namespace::new("");
    let r = add_type_ref(&Some("#/definitions/Ghost".to_owned()), &resolver, &mut namespace);
    assert!(matches!(r, Err(Error::ResolverFailure)));
}

#[test]
fn test_resolve_props_collects_and_reports() {
    let mut resolver = Resolver::new();
    resolver.add_type(
        "#/definitions/Role",
        oscal_gen::schema_type::SchemaType::new("oscal_metadata::role", "Role"),
    );
    let props = Some(vec![
        (
            "uuid".to_owned(),
            Property {
                optional: true,
                array: false,
                name: "uuid".to_owned(),
                title: None,
                description: None,
                type_ref: TypeRef::from_ref(Some("#/definitions/UUIDDatatype".to_owned())),
                enums: None,
            },
        ),
        (
            "role".to_owned(),
            Property {
                optional: false,
                array: false,
                name: "role".to_owned(),
                title: None,
                description: None,
                type_ref: TypeRef::from_ref(Some("#/definitions/Role".to_owned())),
                enums: None,
            },
        ),
    ]);
    let mut namespace = Namespace::new("");
    let resolved = resolve_props(&props, &resolver, &mut namespace).expect("all resolvable");
    assert_eq!(resolved.len(), 2);
    assert_eq!(resolved[0].name, "UUIDDatatype");
    assert_eq!(resolved[1].name, "Role");
    assert_eq!(namespace.use_types(), Some("UUIDDatatype".to_owned()));
    assert_eq!(
        namespace.use_crates("", ""),
        "oscal_metadata::role::Role"
    );
}

#[test]
fn test_resolve_props_unresolvable_is_fatal() {
    let resolver = Resolver::new();
    let props = Some(vec![(
        "ghost".to_owned(),
        Property {
            optional: false,
            array: false,
            name: "ghost".to_owned(),
            title: None,
            description: None,
            type_ref: TypeRef::from_ref(Some("#/definitions/Ghost".to_owned())),
            enums: None,
        },
    )]);
    let mut namespace = Namespace::new("");
    let r = resolve_props(&props, &resolver, &mut namespace);
    assert!(matches!(r, Err(Error::ResolverFailure)));
}
