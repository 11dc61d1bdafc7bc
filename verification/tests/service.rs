use people_clock::clock_service::{
    get_entity_photo, get_photo_fallback_to_homeassistant, ClockServer, Status,
};
use people_clock::homeassistant::{correlate, Error};
use people_clock::homeassistant_types::{
    AttributeValue, EntityId, EntityKind, InputBoolean, Person, Zone,
};
use people_clock::password::{AddPassword, AuthError, CheckPassword};
use people_clock::photo_manager::PhotoManager;

fn server(privacy: Option<&str>) -> ClockServer {
    ClockServer::make_server(
        b"secret".to_vec(),
        vec![EntityId::new(EntityKind::Person, "alice").unwrap()],
        privacy.map(|p| EntityId::new(EntityKind::InputBoolean, p).unwrap()),
        PhotoManager::new("/photos".to_string()),
    )
}

fn person(name: &str) -> Person {
    Person {
        id: EntityId::new(EntityKind::Person, name).unwrap(),
        zone_id: None,
        attributes: vec![],
    }
}

fn zone_listing_people(name: &str, people: &[&str]) -> Zone {
    Zone {
        id: EntityId::new(EntityKind::Zone, name).unwrap(),
        attributes: vec![(
            "persons".to_string(),
            AttributeValue::ListValue(
                people
                    .iter()
                    .map(|p| AttributeValue::StringValue(p.to_string()))
                    .collect(),
            ),
        )],
    }
}

#[test]
fn photo_read_errors_become_no_photo() {
    assert_eq!(get_entity_photo(Ok(vec![1, 2, 3])), Some(vec![1, 2, 3]));
    assert_eq!(get_entity_photo(Err("no such file".to_string())), None);
}

#[test]
fn photo_resolution_never_raises() {
    // A person with no local file and a failing remote fetch resolves to
    // "no photo"; no error reaches the caller.
    let r = get_photo_fallback_to_homeassistant(
        None,
        Some(Err(Error::Transport("timeout".to_string()))),
    );
    assert_eq!(r, None);
}

#[test]
fn local_photo_wins_over_remote() {
    let r = get_photo_fallback_to_homeassistant(Some(vec![9]), None);
    assert_eq!(r, Some(vec![9]));
    let r2 = get_photo_fallback_to_homeassistant(None, Some(Ok(Some(vec![4]))));
    assert_eq!(r2, Some(vec![4]));
    let r3 = get_photo_fallback_to_homeassistant(None, Some(Ok(None)));
    assert_eq!(r3, None);
}

#[test]
fn gate_fetch_error_empties_zones() {
    // The correlator found an occupied zone, but the privacy switch could
    // not be fetched: fail closed, no zones in the response.
    let srv = server(Some("privacy"));
    let snapshot = correlate(
        vec![person("alice")],
        vec![zone_listing_people("home", &["alice"])],
    );
    assert_eq!(snapshot.zones.len(), 1);
    let resp = srv
        .get_people_locations(
            Ok(snapshot),
            vec![None],
            vec![None],
            Some(Err(Error::Transport("unreachable".to_string()))),
        )
        .unwrap();
    assert_eq!(resp.people.len(), 1);
    assert!(resp.zones.is_empty());
}

#[test]
fn gate_off_keeps_zones() {
    let srv = server(Some("privacy"));
    let snapshot = correlate(
        vec![person("alice")],
        vec![zone_listing_people("home", &["alice"])],
    );
    let resp = srv
        .get_people_locations(
            Ok(snapshot),
            vec![None],
            vec![None],
            Some(Ok(InputBoolean { state: "off".to_string() })),
        )
        .unwrap();
    assert_eq!(resp.zones.len(), 1);
}

#[test]
fn gate_on_empties_zones() {
    let srv = server(Some("privacy"));
    let snapshot = correlate(
        vec![person("alice")],
        vec![zone_listing_people("home", &["alice"])],
    );
    let resp = srv
        .get_people_locations(
            Ok(snapshot),
            vec![None],
            vec![None],
            Some(Ok(InputBoolean { state: "on".to_string() })),
        )
        .unwrap();
    assert!(resp.zones.is_empty());
}

#[test]
fn no_gate_configured_means_no_suppression() {
    let srv = server(None);
    let snapshot = correlate(
        vec![person("alice")],
        vec![zone_listing_people("home", &["alice"])],
    );
    let resp = srv
        .get_people_locations(Ok(snapshot), vec![None], vec![None], None)
        .unwrap();
    assert_eq!(resp.zones.len(), 1);
}

#[test]
fn failed_correlation_answers_unavailable() {
    let srv = server(None);
    let r = srv.get_people_locations(
        Err(Error::Transport("down".to_string())),
        vec![],
        vec![],
        None,
    );
    assert!(matches!(r, Err(Status::Unavailable(_))));
}

#[test]
fn end_to_end_scenario() {
    // Tracked alice and bob; zone home lists alice; alice has a local
    // photo, bob has none and the remote fetch fails; privacy is off.
    let srv = server(Some("privacy"));
    let snapshot = correlate(
        vec![person("alice"), person("bob")],
        vec![zone_listing_people("home", &["alice"])],
    );
    let alice_photo = get_photo_fallback_to_homeassistant(Some(vec![0xAA]), None);
    let bob_photo = get_photo_fallback_to_homeassistant(
        None,
        Some(Err(Error::Transport("timeout".to_string()))),
    );
    let resp = srv
        .get_people_locations(
            Ok(snapshot),
            vec![alice_photo, bob_photo],
            vec![Some(vec![0xBB])],
            Some(Ok(InputBoolean { state: "off".to_string() })),
        )
        .unwrap();
    assert_eq!(resp.people.len(), 2);
    let alice = &resp.people[0];
    assert_eq!(alice.id, "person.alice");
    assert_eq!(alice.zone_id.as_deref(), Some("zone.home"));
    assert_eq!(alice.photo_data, Some(vec![0xAA]));
    let bob = &resp.people[1];
    assert_eq!(bob.id, "person.bob");
    assert_eq!(bob.zone_id, None);
    assert_eq!(bob.photo_data, None);
    assert_eq!(resp.zones.len(), 1);
    assert_eq!(resp.zones[0].id, "zone.home");
}

#[test]
fn password_check_accepts_only_the_secret() {
    let check = CheckPassword::new(b"hunter2".to_vec());
    assert!(check.call(Some(&b"hunter2".to_vec())).is_ok());
    assert_eq!(check.call(Some(&b"hunter3".to_vec())), Err(AuthError::Mismatch));
    assert_eq!(check.call(Some(&b"hunter".to_vec())), Err(AuthError::Mismatch));
    assert_eq!(check.call(None), Err(AuthError::Missing));
}

#[test]
fn outgoing_password_round_trips() {
    let add = AddPassword::new(b"tok".to_vec());
    let check = CheckPassword::new(b"tok".to_vec());
    assert!(check.call(Some(add.value())).is_ok());
}
