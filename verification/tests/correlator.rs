use people_clock::homeassistant::{
    correlate, get_snapshot, parse_zone_listing, validate_endpoint, zone_ids_from_strings,
    zone_ids_template, Error,
};
use people_clock::homeassistant_types::{AttributeValue, EntityId, EntityKind, Person, Zone};

fn person(name: &str) -> Person {
    Person {
        id: EntityId::new(EntityKind::Person, name).unwrap(),
        zone_id: None,
        attributes: vec![],
    }
}

fn zone_listing_people(name: &str, people: &[&str]) -> Zone {
    Zone {
        id: EntityId::new(EntityKind::Zone, name).unwrap(),
        attributes: vec![(
            "persons".to_string(),
            AttributeValue::ListValue(
                people
                    .iter()
                    .map(|p| AttributeValue::StringValue(p.to_string()))
                    .collect(),
            ),
        )],
    }
}

fn empty_zone(name: &str) -> Zone {
    Zone { id: EntityId::new(EntityKind::Zone, name).unwrap(), attributes: vec![] }
}

#[test]
fn one_occupied_zone_of_three_is_retained() {
    // Two people, three zones; only one zone lists one of the people: the
    // output holds both people and exactly that zone, and only the listed
    // person is linked.
    let people = vec![person("alice"), person("bob")];
    let zones = vec![
        empty_zone("garden"),
        zone_listing_people("home", &["person.alice"]),
        zone_listing_people("office", &[]),
    ];
    let snapshot = correlate(people, zones);
    assert_eq!(snapshot.people.len(), 2);
    assert_eq!(snapshot.zones.len(), 1);
    assert_eq!(snapshot.zones[0].0.canonical(), "zone.home");
    let alice = &snapshot.people[0];
    assert_eq!(alice.id.suffix, "alice");
    assert_eq!(alice.zone_id.as_ref().unwrap().canonical(), "zone.home");
    let bob = &snapshot.people[1];
    assert_eq!(bob.id.suffix, "bob");
    assert!(bob.zone_id.is_none());
}

#[test]
fn untracked_reference_is_ignored() {
    // A zone listing an id outside the tracked set: the reference is
    // ignored without error, and the zone holds no tracked person.
    let people = vec![person("alice")];
    let zones = vec![zone_listing_people("home", &["person.stranger"])];
    let snapshot = correlate(people, zones);
    assert_eq!(snapshot.people.len(), 1);
    assert!(snapshot.people[0].zone_id.is_none());
    assert!(snapshot.zones.is_empty());
}

#[test]
fn non_string_entries_are_skipped() {
    let people = vec![person("alice")];
    let zones = vec![Zone {
        id: EntityId::new(EntityKind::Zone, "home").unwrap(),
        attributes: vec![(
            "persons".to_string(),
            AttributeValue::ListValue(vec![
                AttributeValue::IntValue(7),
                AttributeValue::StringValue("person.alice".to_string()),
            ]),
        )],
    }];
    let snapshot = correlate(people, zones);
    assert_eq!(snapshot.people[0].zone_id.as_ref().unwrap().suffix, "home");
}

#[test]
fn last_listing_zone_wins() {
    // A person listed by two zones ends up linked to the later one.
    let people = vec![person("alice")];
    let zones = vec![
        zone_listing_people("home", &["person.alice"]),
        zone_listing_people("office", &["alice"]),
    ];
    let snapshot = correlate(people, zones);
    assert_eq!(snapshot.people[0].zone_id.as_ref().unwrap().suffix, "office");
    assert_eq!(snapshot.zones.len(), 1);
    assert_eq!(snapshot.zones[0].0.suffix, "office");
}

#[test]
fn failed_person_fetch_omits_only_that_person() {
    let snapshot = get_snapshot(
        vec![Some(person("alice")), None, Some(person("carol"))],
        Ok(vec![Some(zone_listing_people("home", &["person.carol"]))]),
    )
    .unwrap();
    assert_eq!(snapshot.people.len(), 2);
    assert_eq!(snapshot.people[0].id.suffix, "alice");
    assert_eq!(snapshot.people[1].id.suffix, "carol");
    assert_eq!(snapshot.zones.len(), 1);
}

#[test]
fn failed_zone_fetch_omits_only_that_zone() {
    let snapshot = get_snapshot(
        vec![Some(person("alice"))],
        Ok(vec![None, Some(zone_listing_people("home", &["alice"]))]),
    )
    .unwrap();
    assert_eq!(snapshot.zones.len(), 1);
    assert_eq!(snapshot.zones[0].0.suffix, "home");
}

#[test]
fn failed_zone_listing_is_cycle_fatal() {
    let r = get_snapshot(
        vec![Some(person("alice"))],
        Err(Error::Transport("connection refused".to_string())),
    );
    assert!(matches!(r, Err(Error::Transport(_))));
}

#[test]
fn zone_listing_parses_ids() {
    let ids = parse_zone_listing("[\"zone.home\", \"office\"]").unwrap();
    assert_eq!(ids.len(), 2);
    assert_eq!(ids[0].canonical(), "zone.home");
    assert_eq!(ids[1].canonical(), "zone.office");
}

#[test]
fn zone_listing_rejects_bad_payloads() {
    assert!(matches!(parse_zone_listing("not json"), Err(Error::JsonDecode(_))));
    assert!(matches!(parse_zone_listing("{\"a\": 1}"), Err(Error::JsonDecode(_))));
    assert!(matches!(parse_zone_listing("[\"bad id!\"]"), Err(Error::InvalidId(_))));
}

#[test]
fn zone_ids_from_names() {
    let ids = zone_ids_from_strings(&vec!["home".to_string(), "zone.office".to_string()])
        .unwrap();
    assert_eq!(ids[0].suffix, "home");
    assert_eq!(ids[1].suffix, "office");
    assert!(zone_ids_from_strings(&vec!["".to_string()]).is_err());
}

#[test]
fn template_lists_zones() {
    assert_eq!(
        zone_ids_template(),
        "{{states.zone|list|map(attribute=\"entity_id\")|list|to_json}}"
    );
}

#[test]
fn endpoint_validation() {
    assert!(validate_endpoint("http://homeassistant.local:8123").is_ok());
    assert!(matches!(validate_endpoint("not a url"), Err(Error::UrlParse(_))));
}
