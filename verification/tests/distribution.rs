use people_clock::clock_pb::{GetPeopleLocationsResponse, Person, Zone};
use people_clock::config::{
    default_max_received_message_size, default_poll_interval, DisplayConfig, Endpoint,
};
use people_clock::snapshot_manager::{
    apply_received, poll_step, LoopAction, Snapshot, SnapshotManager, SnapshotSlot,
};

fn response(person: &str, zones: &[&str]) -> GetPeopleLocationsResponse {
    GetPeopleLocationsResponse {
        people: vec![Person {
            id: person.to_string(),
            zone_id: None,
            photo_data: None,
        }],
        zones: zones
            .iter()
            .map(|z| Zone { id: z.to_string(), photo_data: None })
            .collect(),
    }
}

fn config(n_endpoints: usize) -> DisplayConfig {
    DisplayConfig {
        endpoints: (0..n_endpoints)
            .map(|i| Endpoint {
                uri: format!("http://host{i}:12733"),
                password: b"pw".to_vec(),
            })
            .collect(),
        poll_interval_seconds: default_poll_interval(),
        max_received_message_size: default_max_received_message_size(),
    }
}

#[test]
fn latest_wins_before_any_read() {
    // Publishing V1 then V2 before any read yields exactly V2.
    let (_, mut slot) = SnapshotManager::initialise(config(1));
    let v1 = vec![Snapshot::from_response(response("person.a", &[]))];
    let v2 = vec![Snapshot::from_response(response("person.b", &[]))];
    slot.publish(v1);
    slot.publish(v2);
    let got = slot.take().unwrap();
    assert_eq!(got.len(), 1);
    assert_eq!(got[0].people[0].id, "person.b");
    assert!(slot.take().is_none());
}

#[test]
fn publish_never_needs_a_reader() {
    // With no reader present, publishing simply overwrites: it cannot
    // block, and the slot always holds the newest value.
    let mut slot = SnapshotSlot::new();
    for i in 0..100 {
        slot.publish(vec![Snapshot::from_response(response(&format!("person.p{i}"), &[]))]);
    }
    assert_eq!(slot.take().unwrap()[0].people[0].id, "person.p99");
}

#[test]
fn from_response_rebuilds_zone_map() {
    let snap = Snapshot::from_response(response("person.a", &["zone.home", "zone.office"]));
    assert_eq!(snap.zones.len(), 2);
    assert_eq!(snap.zones[0].0, "zone.home");
    assert_eq!(snap.zones[0].1.id, "zone.home");
    assert_eq!(snap.zones[1].0, "zone.office");
}

#[test]
fn from_response_last_duplicate_wins() {
    let mut resp = response("person.a", &["zone.home", "zone.home"]);
    resp.zones[1].photo_data = Some(vec![7]);
    let snap = Snapshot::from_response(resp);
    assert_eq!(snap.zones.len(), 1);
    assert_eq!(snap.zones[0].1.photo_data, Some(vec![7]));
}

#[test]
fn cycle_publishes_only_when_every_endpoint_answered() {
    let mgr = SnapshotManager { config: config(2) };
    let ok = mgr.update_snapshots(vec![
        Ok(response("person.a", &[])),
        Ok(response("person.b", &["zone.home"])),
    ]);
    let snaps = ok.unwrap();
    assert_eq!(snaps.len(), 2);
    assert_eq!(snaps[1].zones.len(), 1);
}

#[test]
fn single_endpoint_failure_aborts_the_cycle() {
    // One endpoint failing aborts this cycle's publish with that error;
    // the next interval retries.
    let mgr = SnapshotManager { config: config(2) };
    let r = mgr.update_snapshots(vec![
        Ok(response("person.a", &[])),
        Err("bad response from server".to_string()),
    ]);
    assert_eq!(r.unwrap_err(), "bad response from server");
}

#[test]
fn poll_decisions() {
    let ok: Result<_, String> = Ok(vec![]);
    let err: Result<Vec<Snapshot>, String> = Err("x".to_string());
    assert_eq!(poll_step(&ok, false), LoopAction::Publish);
    assert_eq!(poll_step(&err, false), LoopAction::Retry);
    assert_eq!(poll_step(&ok, true), LoopAction::Stop);
    assert_eq!(poll_step(&err, true), LoopAction::Stop);
}

#[test]
fn renderer_keeps_last_value_when_nothing_arrives() {
    let last = vec![Snapshot::from_response(response("person.a", &[]))];
    let kept = apply_received(last, None);
    assert_eq!(kept[0].people[0].id, "person.a");
    let newer = vec![Snapshot::from_response(response("person.b", &[]))];
    let swapped = apply_received(kept, Some(newer));
    assert_eq!(swapped[0].people[0].id, "person.b");
}

#[test]
fn display_config_validates_endpoints() {
    assert!(config(2).validate().is_ok());
    let mut bad = config(1);
    bad.endpoints[0].uri = "::notaurl::".to_string();
    assert!(bad.validate().is_err());
}
