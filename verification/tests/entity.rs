use people_clock::homeassistant_types::{
    attrs_get, AttributeValue, EntityId, EntityKind, InputBoolean, Person, Zone,
};

#[test]
fn id_accepts_bare_and_prefixed_forms() {
    let bare = EntityId::new(EntityKind::Person, "keith").unwrap();
    let prefixed = EntityId::new(EntityKind::Person, "person.keith").unwrap();
    assert_eq!(bare.suffix, "keith");
    assert_eq!(prefixed.suffix, "keith");
    assert_eq!(bare.canonical(), "person.keith");
    assert_eq!(prefixed.canonical(), "person.keith");
    assert!(bare.eq_id(&prefixed));
}

#[test]
fn id_strips_repeated_prefix() {
    let id = EntityId::new(EntityKind::Zone, "zone.zone.home").unwrap();
    assert_eq!(id.suffix, "home");
    assert_eq!(id.canonical(), "zone.home");
}

#[test]
fn id_rejects_invalid_local_names() {
    assert!(EntityId::new(EntityKind::Person, "").is_err());
    assert!(EntityId::new(EntityKind::Person, "person.").is_err());
    assert!(EntityId::new(EntityKind::Person, "bad name").is_err());
    assert!(EntityId::new(EntityKind::Person, "semi;colon").is_err());
    assert!(EntityId::new(EntityKind::Person, "dot.ted").is_err());
}

#[test]
fn id_kinds_cannot_be_mixed() {
    // A person-prefixed name handed to the zone namespace keeps its dot
    // and is rejected, so ids cannot cross namespaces.
    assert!(EntityId::new(EntityKind::Zone, "person.keith").is_err());
    let ib = EntityId::new(EntityKind::InputBoolean, "input_boolean.privacy").unwrap();
    assert_eq!(ib.canonical(), "input_boolean.privacy");
}

#[test]
fn attribute_lookup_finds_first_match() {
    let attrs = vec![
        ("a".to_string(), AttributeValue::IntValue(1)),
        ("b".to_string(), AttributeValue::BoolValue(true)),
        ("a".to_string(), AttributeValue::IntValue(2)),
    ];
    match attrs_get(&attrs, "a") {
        Some(AttributeValue::IntValue(v)) => assert_eq!(*v, 1),
        other => panic!("unexpected: {other:?}"),
    }
    assert!(attrs_get(&attrs, "missing").is_none());
}

#[test]
fn person_picture_path_needs_string_attribute() {
    let with = Person {
        id: EntityId::new(EntityKind::Person, "alice").unwrap(),
        zone_id: None,
        attributes: vec![(
            "entity_picture".to_string(),
            AttributeValue::StringValue("/api/image/alice".to_string()),
        )],
    };
    assert_eq!(with.get_entity_picture_path().unwrap(), "/api/image/alice");
    let wrong_type = Person {
        id: EntityId::new(EntityKind::Person, "bob").unwrap(),
        zone_id: None,
        attributes: vec![("entity_picture".to_string(), AttributeValue::IntValue(3))],
    };
    assert!(wrong_type.get_entity_picture_path().is_none());
}

#[test]
fn zone_friendly_name() {
    let zone = Zone {
        id: EntityId::new(EntityKind::Zone, "home").unwrap(),
        attributes: vec![(
            "friendly_name".to_string(),
            AttributeValue::StringValue("Home".to_string()),
        )],
    };
    assert_eq!(zone.get_friendly_name().unwrap(), "Home");
}

#[test]
fn input_boolean_is_on_unless_exactly_off() {
    assert!(!InputBoolean { state: "off".to_string() }.is_on());
    assert!(InputBoolean { state: "on".to_string() }.is_on());
    // A restarting backend reports `unavailable`: treated as on, so a
    // privacy switch fails closed.
    assert!(InputBoolean { state: "unavailable".to_string() }.is_on());
    assert!(InputBoolean { state: "Off".to_string() }.is_on());
}
