use people_clock::clock_pb::{GetPeopleLocationsResponse, Person, Zone};
use people_clock::snapshot_manager::Snapshot;
use people_clock::tile::{pairs_to_tiles, people_with_zones, snapshot_to_tiles, snapshots_to_tiles, Tile};

fn person(id: &str, zone: Option<&str>, photo: Option<u8>) -> Person {
    Person {
        id: id.to_string(),
        zone_id: zone.map(str::to_string),
        photo_data: photo.map(|b| vec![b]),
    }
}

fn zone(id: &str, photo: Option<u8>) -> Zone {
    Zone { id: id.to_string(), photo_data: photo.map(|b| vec![b]) }
}

fn snapshot(people: Vec<Person>, zones: Vec<Zone>) -> Snapshot {
    Snapshot::from_response(GetPeopleLocationsResponse { people, zones })
}

#[test]
fn tile_composition_uses_zone_background() {
    let snap = snapshot(
        vec![person("person.alice", Some("zone.home"), Some(1))],
        vec![zone("zone.home", Some(2))],
    );
    let tiles = snapshot_to_tiles(&snap);
    assert_eq!(tiles.len(), 1);
    assert_eq!(tiles[0].person_texture, Some(vec![1]));
    assert_eq!(tiles[0].background_texture, Some(vec![2]));
}

#[test]
fn missing_zone_photo_leaves_blank_background() {
    // Unlinked person, and a linked person whose zone was not transmitted
    // (the privacy case): both get a blank background.
    let snap = snapshot(
        vec![
            person("person.alice", None, Some(1)),
            person("person.bob", Some("zone.gone"), None),
        ],
        vec![],
    );
    let tiles = snapshot_to_tiles(&snap);
    assert_eq!(tiles.len(), 2);
    assert!(tiles.iter().all(|t: &Tile| t.background_texture.is_none()));
}

#[test]
fn tiles_sorted_by_person_id() {
    let snap = snapshot(
        vec![
            person("person.zed", None, Some(3)),
            person("person.amy", None, Some(1)),
            person("person.mia", None, Some(2)),
        ],
        vec![],
    );
    let tiles = snapshot_to_tiles(&snap);
    let insets: Vec<_> = tiles.iter().map(|t| t.person_texture.clone()).collect();
    assert_eq!(insets, vec![Some(vec![1]), Some(vec![2]), Some(vec![3])]);
}

#[test]
fn all_snapshots_flattened_and_sorted_together() {
    let a = snapshot(vec![person("person.walt", None, Some(9))], vec![]);
    let b = snapshot(
        vec![
            person("person.amy", None, Some(1)),
            person("person.mia", None, Some(5)),
        ],
        vec![],
    );
    let tiles = snapshots_to_tiles(&vec![a, b]);
    let insets: Vec<_> = tiles.iter().map(|t| t.person_texture.clone()).collect();
    assert_eq!(insets, vec![Some(vec![1]), Some(vec![5]), Some(vec![9])]);
}

#[test]
fn pairs_carry_zone_records() {
    let snap = snapshot(
        vec![person("person.alice", Some("zone.home"), None)],
        vec![zone("zone.home", Some(7))],
    );
    let pairs = people_with_zones(&snap);
    assert_eq!(pairs.len(), 1);
    assert_eq!(pairs[0].1.as_ref().unwrap().id, "zone.home");
    let tiles = pairs_to_tiles(&pairs);
    assert_eq!(tiles[0].background_texture, Some(vec![7]));
}
