use people_clock::homeassistant_types::{EntityId, EntityKind};
use people_clock::photo_manager::PhotoManager;

fn manager() -> PhotoManager {
    PhotoManager::new("/var/photos".to_string())
}

#[test]
fn candidate_paths_sanitize_the_separator() {
    let id = EntityId::new(EntityKind::Person, "person.keith").unwrap();
    let paths = manager().potential_paths(&id);
    assert_eq!(
        paths,
        vec![
            "/var/photos/person_keith.png",
            "/var/photos/person_keith.jpg",
            "/var/photos/person_keith.jpeg",
        ]
    );
}

#[test]
fn zone_candidates_use_the_zone_namespace() {
    let id = EntityId::new(EntityKind::Zone, "home").unwrap();
    let paths = manager().potential_paths(&id);
    assert_eq!(paths[0], "/var/photos/zone_home.png");
}

#[test]
fn first_existing_candidate_wins() {
    let id = EntityId::new(EntityKind::Person, "alice").unwrap();
    let m = manager();
    assert_eq!(
        m.find_first_existing_path(&id, &vec![false, true, true]),
        Some("/var/photos/person_alice.jpg".to_string())
    );
    assert_eq!(
        m.find_first_existing_path(&id, &vec![true, false, true]),
        Some("/var/photos/person_alice.png".to_string())
    );
    assert_eq!(
        m.find_first_existing_path(&id, &vec![false, false, true]),
        Some("/var/photos/person_alice.jpeg".to_string())
    );
    assert_eq!(m.find_first_existing_path(&id, &vec![false, false, false]), None);
}
