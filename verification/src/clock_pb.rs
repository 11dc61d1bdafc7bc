//! The transmissible snapshot shapes exchanged between the publisher and
//! its display consumers: people and zones carrying optional photo bytes
//! instead of raw attributes.

use vstd::prelude::*;

verus! {

/// The view of an optional owned string.
pub open spec fn spec_opt_str(o: Option<String>) -> Option<Seq<char>> {
    match o {
        Some(s) => Some(s@),
        None => None,
    }
}

/// The view of an optional byte buffer.
pub open spec fn spec_opt_bytes(o: Option<Vec<u8>>) -> Option<Seq<u8>> {
    match o {
        Some(b) => Some(b@),
        None => None,
    }
}

/// Copy a byte buffer.
pub fn clone_bytes(v: &Vec<u8>) -> (r: Vec<u8>)
    ensures
        r@ == v@,
{
    let r = v.clone();
    proof {
        assert(forall|i: int| 0 <= i < v@.len() ==> v@[i] == r@[i]);
        assert(r@ =~= v@);
    }
    r
}

/// Copy an optional byte buffer.
pub fn clone_opt_bytes(v: &Option<Vec<u8>>) -> (r: Option<Vec<u8>>)
    ensures
        spec_opt_bytes(r) == spec_opt_bytes(*v),
{
    match v {
        Some(b) => Some(clone_bytes(b)),
        None => None,
    }
}

/// A person as transmitted to display consumers.
#[derive(Debug)]
pub struct Person {
    pub id: String,
    pub zone_id: Option<String>,
    pub photo_data: Option<Vec<u8>>,
}

impl Person {
    /// A copy whose fields read the same.
    pub fn duplicate(&self) -> (r: Person)
        ensures
            r.id@ == self.id@,
            spec_opt_str(r.zone_id) == spec_opt_str(self.zone_id),
            spec_opt_bytes(r.photo_data) == spec_opt_bytes(self.photo_data),
    {
        Person {
            id: self.id.clone(),
            zone_id: match &self.zone_id {
                Some(s) => Some(s.clone()),
                None => None,
            },
            photo_data: clone_opt_bytes(&self.photo_data),
        }
    }
}

/// A zone as transmitted to display consumers.
#[derive(Debug)]
pub struct Zone {
    pub id: String,
    pub photo_data: Option<Vec<u8>>,
}

impl Zone {
    /// A copy whose fields read the same.
    pub fn duplicate(&self) -> (r: Zone)
        ensures
            r.id@ == self.id@,
            spec_opt_bytes(r.photo_data) == spec_opt_bytes(self.photo_data),
    {
        Zone { id: self.id.clone(), photo_data: clone_opt_bytes(&self.photo_data) }
    }
}

/// The request for the current people-locations snapshot. It carries no
/// parameters; the tracked-person set is publisher-side configuration.
#[derive(Debug)]
pub struct GetPeopleLocationsRequest {}

/// The publisher's answer: every tracked person it could fetch, and the
/// occupied zones unless the privacy gate suppressed them.
#[derive(Debug)]
pub struct GetPeopleLocationsResponse {
    pub people: Vec<Person>,
    pub zones: Vec<Zone>,
}

} // verus!
