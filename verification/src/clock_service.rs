//! The snapshot publisher's request boundary: photo fallback resolution,
//! the privacy gate, and assembly of the transmissible response.

use vstd::prelude::*;

use crate::clock_pb;
use crate::clock_pb::{spec_opt_str, GetPeopleLocationsResponse};
use crate::homeassistant::{Error, Snapshot};
use crate::homeassistant_types::{EntityId, InputBoolean};
use crate::password::CheckPassword;
use crate::photo_manager::PhotoManager;

verus! {

/// The failure signals a request can end in.
#[derive(Debug)]
pub enum Status {
    /// The backend could not be reached or queried; try again later.
    Unavailable(String),
    /// The service itself could not be set up.
    Internal(String),
}

/// The view of an optional id as its canonical text.
pub open spec fn spec_opt_canonical(o: Option<EntityId>) -> Option<Seq<char>> {
    match o {
        Some(id) => Some(id.spec_canonical()),
        None => None,
    }
}

/// A photo file read's outcome, as a photo: a failed read means no photo,
/// never an error.
pub fn get_entity_photo(read_result: Result<Vec<u8>, String>) -> (r: Option<Vec<u8>>)
    ensures
        match read_result {
            Ok(b) => r == Some(b),
            Err(_) => r is None,
        },
{
    match read_result {
        Ok(b) => Some(b),
        Err(_) => None,
    }
}

/// Resolve a person's photo: the local file wins; with no local file the
/// remote fetch's finding stands, and a failed (or unattempted) remote
/// fetch means no photo. Nothing here ever fails the caller.
pub fn get_photo_fallback_to_homeassistant(
    local: Option<Vec<u8>>,
    remote: Option<Result<Option<Vec<u8>>, Error>>,
) -> (r: Option<Vec<u8>>)
    ensures
        match local {
            Some(b) => r == Some(b),
            None => match remote {
                Some(Ok(p)) => r == p,
                _ => r is None,
            },
        },
{
    match local {
        Some(b) => Some(b),
        None => match remote {
            Some(Ok(p)) => p,
            _ => None,
        },
    }
}

/// Whether privacy suppresses zones, from the switch entity's fetch
/// outcome. Without a switch entity nothing is suppressed; with one, only
/// a fetched state of exactly `off` disables suppression, and an errored
/// or missing fetch fails closed.
pub open spec fn spec_privacy_enabled(
    gate: Option<EntityId>,
    fetch: Option<Result<InputBoolean, Error>>,
) -> bool {
    match gate {
        None => false,
        Some(_) => match fetch {
            Some(Ok(b)) => b.state@ != "off"@,
            _ => true,
        },
    }
}

/// What the assembled response must say about its inputs: people in order
/// under canonical ids with their resolved photos, and the zones likewise
/// unless the privacy gate suppressed them all.
pub open spec fn spec_response_matches(
    r: GetPeopleLocationsResponse,
    snapshot: Snapshot,
    person_photos: Seq<Option<Vec<u8>>>,
    privacy_enabled: bool,
    zone_photos: Seq<Option<Vec<u8>>>,
) -> bool {
    &&& r.people@.len() == snapshot.people@.len()
    &&& forall|i: int|
        0 <= i < r.people@.len() ==> {
            &&& (#[trigger] r.people@[i]).id@ == snapshot.people@[i].id.spec_canonical()
            &&& spec_opt_str(r.people@[i].zone_id) == spec_opt_canonical(
                snapshot.people@[i].zone_id,
            )
            &&& r.people@[i].photo_data == person_photos[i]
        }
    &&& privacy_enabled ==> r.zones@.len() == 0
    &&& !privacy_enabled ==> {
        &&& r.zones@.len() == snapshot.zones@.len()
        &&& forall|k: int|
            0 <= k < r.zones@.len() ==> {
                &&& (#[trigger] r.zones@[k]).id@ == snapshot.zones@[k].0.spec_canonical()
                &&& r.zones@[k].photo_data == zone_photos[k]
            }
    }
}

/// The publisher: answers "give me the current snapshot" requests for a
/// fixed set of tracked people, behind the shared-secret check.
#[derive(Debug)]
pub struct ClockServer {
    pub person_ids: Vec<EntityId>,
    pub privacy_switch_entity_id: Option<EntityId>,
    pub photo_manager: PhotoManager,
    pub check: CheckPassword,
}

impl ClockServer {
    /// Assemble the server with its shared-secret gate.
    pub fn make_server(
        password: Vec<u8>,
        person_ids: Vec<EntityId>,
        privacy_switch_entity_id: Option<EntityId>,
        photo_manager: PhotoManager,
    ) -> (r: ClockServer)
        ensures
            r.person_ids == person_ids,
            r.privacy_switch_entity_id == privacy_switch_entity_id,
            r.photo_manager == photo_manager,
            r.check.password == password,
    {
        ClockServer {
            person_ids,
            privacy_switch_entity_id,
            photo_manager,
            check: CheckPassword::new(password),
        }
    }

    /// Evaluate the privacy gate from its fetch outcome, fail-closed.
    pub fn privacy_enabled(&self, fetch: Option<Result<InputBoolean, Error>>) -> (r: bool)
        ensures
            r == spec_privacy_enabled(self.privacy_switch_entity_id, fetch),
    {
        match &self.privacy_switch_entity_id {
            None => false,
            Some(_) => match fetch {
                Some(Ok(b)) => b.is_on(),
                _ => true,
            },
        }
    }

    /// Assemble the transmissible response from the correlated snapshot,
    /// the resolved photos, and the evaluated privacy gate.
    pub fn snapshot_to_response(
        &self,
        snapshot: Snapshot,
        person_photos: Vec<Option<Vec<u8>>>,
        privacy_enabled: bool,
        zone_photos: Vec<Option<Vec<u8>>>,
    ) -> (r: GetPeopleLocationsResponse)
        requires
            person_photos@.len() == snapshot.people@.len(),
            zone_photos@.len() == snapshot.zones@.len(),
        ensures
            spec_response_matches(r, snapshot, person_photos@, privacy_enabled, zone_photos@),
    {
        let ghost snap0 = snapshot;
        let ghost pp0 = person_photos@;
        let ghost zp0 = zone_photos@;
        let mut people_pending = snapshot.people;
        let mut photos_pending = person_photos;
        let mut people: Vec<clock_pb::Person> = Vec::new();
        proof {
            assert(snap0.people@.skip(0) =~= snap0.people@);
            assert(pp0.skip(0) =~= pp0);
        }
        while people_pending.len() > 0
            invariant
                people@.len() + people_pending@.len() == snap0.people@.len(),
                people_pending@ == snap0.people@.skip(people@.len() as int),
                photos_pending@ == pp0.skip(people@.len() as int),
                pp0.len() == snap0.people@.len(),
                forall|i: int|
                    0 <= i < people@.len() ==> {
                        &&& (#[trigger] people@[i]).id@ == snap0.people@[i].id.spec_canonical()
                        &&& spec_opt_str(people@[i].zone_id) == spec_opt_canonical(
                            snap0.people@[i].zone_id,
                        )
                        &&& people@[i].photo_data == pp0[i]
                    },
            decreases people_pending@.len(),
        {
            let ghost k = people@.len();
            let p = people_pending.remove(0);
            let photo = photos_pending.remove(0);
            proof {
                assert(p == snap0.people@[k as int]);
                assert(photo == pp0[k as int]);
                assert(snap0.people@.skip(k as int).remove(0) =~= snap0.people@.skip(
                    k as int + 1,
                ));
                assert(pp0.skip(k as int).remove(0) =~= pp0.skip(k as int + 1));
            }
            let zone_id = match p.zone_id {
                Some(id) => Some(id.canonical()),
                None => None,
            };
            people.push(clock_pb::Person { id: p.id.canonical(), zone_id, photo_data: photo });
        }
        let mut zones: Vec<clock_pb::Zone> = Vec::new();
        if !privacy_enabled {
            let mut zones_pending = snapshot.zones;
            let mut zphotos_pending = zone_photos;
            proof {
                assert(snap0.zones@.skip(0) =~= snap0.zones@);
                assert(zp0.skip(0) =~= zp0);
            }
            while zones_pending.len() > 0
                invariant
                    zones@.len() + zones_pending@.len() == snap0.zones@.len(),
                    zones_pending@ == snap0.zones@.skip(zones@.len() as int),
                    zphotos_pending@ == zp0.skip(zones@.len() as int),
                    zp0.len() == snap0.zones@.len(),
                    forall|k: int|
                        0 <= k < zones@.len() ==> {
                            &&& (#[trigger] zones@[k]).id@ == snap0.zones@[k].0.spec_canonical()
                            &&& zones@[k].photo_data == zp0[k]
                        },
                decreases zones_pending@.len(),
            {
                let ghost k = zones@.len();
                let pair = zones_pending.remove(0);
                let photo = zphotos_pending.remove(0);
                proof {
                    assert(pair == snap0.zones@[k as int]);
                    assert(photo == zp0[k as int]);
                    assert(snap0.zones@.skip(k as int).remove(0) =~= snap0.zones@.skip(
                        k as int + 1,
                    ));
                    assert(zp0.skip(k as int).remove(0) =~= zp0.skip(k as int + 1));
                }
                zones.push(clock_pb::Zone { id: pair.0.canonical(), photo_data: photo });
            }
        }
        GetPeopleLocationsResponse { people, zones }
    }

    /// Answer one snapshot request from the gathered outcomes. A failed
    /// correlation answers "service unavailable" — never success with
    /// empty data; a successful one is assembled with the privacy gate
    /// applied.
    pub fn get_people_locations(
        &self,
        snapshot_result: Result<Snapshot, Error>,
        person_photos: Vec<Option<Vec<u8>>>,
        zone_photos: Vec<Option<Vec<u8>>>,
        gate_fetch: Option<Result<InputBoolean, Error>>,
    ) -> (r: Result<GetPeopleLocationsResponse, Status>)
        requires
            snapshot_result matches Ok(s) ==> person_photos@.len() == s.people@.len()
                && zone_photos@.len() == s.zones@.len(),
        ensures
            r is Ok <==> snapshot_result is Ok,
            snapshot_result is Err ==> (r matches Err(st) && st matches Status::Unavailable(_)),
            snapshot_result matches Ok(s) ==> (r matches Ok(resp) && spec_response_matches(
                resp,
                s,
                person_photos@,
                spec_privacy_enabled(self.privacy_switch_entity_id, gate_fetch),
                zone_photos@,
            )),
    {
        match snapshot_result {
            Err(_) => Err(
                Status::Unavailable(String::from_str("Failed to get snapshot from HA")),
            ),
            Ok(snapshot) => {
                let privacy = self.privacy_enabled(gate_fetch);
                Ok(self.snapshot_to_response(snapshot, person_photos, privacy, zone_photos))
            },
        }
    }
}

/// The privacy gate fails closed: with a gate configured, anything but a
/// successful fetch of its state suppresses every zone in the assembled
/// response, whatever the correlator produced.
pub proof fn lemma_gate_error_fails_closed(
    gate: EntityId,
    fetch: Option<Result<InputBoolean, Error>>,
    r: GetPeopleLocationsResponse,
    snapshot: Snapshot,
    person_photos: Seq<Option<Vec<u8>>>,
    zone_photos: Seq<Option<Vec<u8>>>,
)
    requires
        !(fetch matches Some(f) && f is Ok),
        spec_response_matches(
            r,
            snapshot,
            person_photos,
            spec_privacy_enabled(Some(gate), fetch),
            zone_photos,
        ),
    ensures
        r.zones@.len() == 0,
{
}

} // verus!
