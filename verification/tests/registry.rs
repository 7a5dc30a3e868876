use oscal_gen::resolver::Resolver;
use oscal_gen::schema_type::SchemaType;
use oscal_gen::type_ref::TypeRef;

#[test]
fn test_seeded_builtins_resolve() {
    let resolver = Resolver::new();
    let tr = TypeRef::from_ref(Some("#/definitions/UUIDDatatype".to_owned()));
    let t = resolver.resolve(&tr).expect("seeded");
    assert_eq!(t.ns, "oscal_types");
    assert_eq!(t.name, "UUIDDatatype");
}

#[test]
fn test_unknown_reference_resolves_to_nothing() {
    let resolver = Resolver::new();
    let tr = TypeRef::from_ref(Some("#/definitions/NoSuchThing".to_owned()));
    assert!(resolver.resolve(&tr).is_none());
}

#[test]
fn test_inline_reference_resolves_directly() {
    let resolver = Resolver::new();
    let t = SchemaType::new("oscal_metadata::metadata", "Metadata");
    let tr = TypeRef::from_type(&t);
    let r = resolver.resolve(&tr).expect("inline");
    assert_eq!(r.ns, "oscal_metadata::metadata");
    assert_eq!(r.name, "Metadata");
}

#[test]
fn test_registering_twice_keeps_the_latest() {
    let mut resolver = Resolver::new();
    resolver.add_type("#/definitions/Thing", SchemaType::new("first", "First"));
    resolver.add_type("#/definitions/Thing", SchemaType::new("second", "Second"));

    let tr = TypeRef::from_ref(Some("#/definitions/Thing".to_owned()));
    let r = resolver.resolve(&tr).expect("registered");
    assert_eq!(r.ns, "second");
    assert_eq!(r.name, "Second");
}

#[test]
fn test_reregistration_leaves_other_ids_alone() {
    let mut resolver = Resolver::new();
    resolver.add_type("#/definitions/A", SchemaType::new("a", "A"));
    resolver.add_type("#/definitions/B", SchemaType::new("b", "B"));
    resolver.add_type("#/definitions/A", SchemaType::new("a2", "A2"));

    let tr = TypeRef::from_ref(Some("#/definitions/B".to_owned()));
    let r = resolver.resolve(&tr).expect("registered");
    assert_eq!(r.ns, "b");
    assert_eq!(r.name, "B");
}

#[test]
fn test_empty_reference_resolves_to_nothing() {
    let resolver = Resolver::new();
    let tr = TypeRef { _type: None, _ref: None };
    assert!(resolver.resolve(&tr).is_none());
}
