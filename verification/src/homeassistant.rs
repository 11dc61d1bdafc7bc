//! The entity correlator: reconciling raw person and zone records into a
//! consistent snapshot, plus the zone-listing query helpers.

use vstd::prelude::*;

use crate::homeassistant_types::{
    spec_attrs_get, spec_parse_id, AttributeValue, EntityId, EntityKind, Person, Zone,
};
use crate::homeassistant_types::attrs_get;
use crate::text::str_eq_str;

verus! {

/// What can go wrong talking to the backend. Transport-level failures are
/// reported by the caller at the boundary; the rest arise from the payloads
/// themselves.
#[derive(Debug)]
pub enum Error {
    /// The HTTP layer failed; carries its report.
    Transport(String),
    /// An endpoint address did not parse as a URL.
    UrlParse(String),
    /// A response body did not decode as the expected JSON shape.
    JsonDecode(String),
    /// A listed entity id was not a valid id.
    InvalidId(String),
}

/// The suffix view of an optional id.
pub open spec fn spec_opt_id_suffix(o: Option<EntityId>) -> Option<Seq<char>> {
    match o {
        Some(id) => Some(id.suffix@),
        None => None,
    }
}

/// Does this attribute entry name the person with the given local-name?
/// Only a string entry that parses as a person id can.
pub open spec fn spec_entry_names_person(e: AttributeValue, psfx: Seq<char>) -> bool {
    match e {
        AttributeValue::StringValue(s) => spec_parse_id(EntityKind::Person, s@) == Some(psfx),
        _ => false,
    }
}

/// The zone's `persons` attribute, when it is present and is a list.
pub open spec fn spec_zone_persons(z: Zone) -> Option<Vec<AttributeValue>> {
    match spec_attrs_get(z.attributes@, "persons"@) {
        Some(AttributeValue::ListValue(entries)) => Some(entries),
        _ => None,
    }
}

/// Does the zone's `persons` attribute list the person with the given
/// local-name?
pub open spec fn spec_zone_lists_person(z: Zone, psfx: Seq<char>) -> bool {
    spec_zone_persons(z) matches Some(entries) && exists|k: int|
        0 <= k < entries@.len() && spec_entry_names_person(#[trigger] entries@[k], psfx)
}

/// The local-name of the zone the person ends up linked to: the last zone
/// in the sequence whose `persons` attribute lists the person.
pub open spec fn spec_linked_zone(zones: Seq<Zone>, psfx: Seq<char>) -> Option<Seq<char>>
    decreases zones.len(),
{
    if zones.len() == 0 {
        None
    } else if spec_zone_lists_person(zones.last(), psfx) {
        Some(zones.last().id.suffix@)
    } else {
        spec_linked_zone(zones.drop_last(), psfx)
    }
}

/// The last zone in the sequence bearing the given id local-name, if any.
pub open spec fn spec_last_zone_with_id(zones: Seq<Zone>, zsfx: Seq<char>) -> Option<Zone>
    decreases zones.len(),
{
    if zones.len() == 0 {
        None
    } else if zones.last().id.suffix@ == zsfx {
        Some(zones.last())
    } else {
        spec_last_zone_with_id(zones.drop_last(), zsfx)
    }
}

/// Is some person in the sequence linked to the zone with the given
/// local-name?
pub open spec fn spec_occupied(people: Seq<Person>, zsfx: Seq<char>) -> bool {
    exists|i: int|
        0 <= i < people.len() && match #[trigger] people[i].zone_id {
            Some(z) => z.suffix@ == zsfx,
            None => false,
        }
}

/// Does the zone map carry a zone under the given id local-name?
pub open spec fn zones_has_key(zones: Seq<(EntityId, Zone)>, zsfx: Seq<char>) -> bool {
    exists|j: int| 0 <= j < zones.len() && (#[trigger] zones[j]).0.suffix@ == zsfx
}

/// Well-formedness of a zone map: every pair keyed by its zone's own id, all
/// ids of zone kind and valid, keys unique.
pub open spec fn zones_wf(zones: Seq<(EntityId, Zone)>) -> bool {
    &&& forall|j: int| 0 <= j < zones.len() ==> {
        &&& (#[trigger] zones[j]).0.kind == EntityKind::Zone
        &&& zones[j].0.wf()
        &&& zones[j].1.wf()
        &&& zones[j].0.suffix@ == zones[j].1.id.suffix@
    }
    &&& forall|j: int, k: int|
        0 <= j < k < zones.len() ==> (#[trigger] zones[j]).0.suffix@ != (
        #[trigger] zones[k]).0.suffix@
}

/// The correlated, outward-ready view of all tracked people and occupied
/// zones at one point in time. `zones` is a map keyed by zone id.
#[derive(Debug)]
pub struct Snapshot {
    pub people: Vec<Person>,
    pub zones: Vec<(EntityId, Zone)>,
}

impl Snapshot {
    /// The snapshot invariant: records well-formed, the zone map
    /// well-formed, and every linked person's zone present in the map.
    pub open spec fn wf(&self) -> bool {
        &&& forall|i: int| 0 <= i < self.people@.len() ==> (#[trigger] self.people@[i]).wf()
        &&& zones_wf(self.zones@)
        &&& forall|i: int|
            0 <= i < self.people@.len() ==> match (#[trigger] self.people@[i]).zone_id {
                Some(z) => zones_has_key(self.zones@, z.suffix@),
                None => true,
            }
    }
}

/// What a correlated snapshot must say about its inputs: all people kept in
/// order with their links recomputed, and exactly the occupied zones
/// retained, each valued at the last fetched record bearing its id.
pub open spec fn spec_correlated(r: Snapshot, people: Seq<Person>, zones: Seq<Zone>) -> bool {
    &&& r.people@.len() == people.len()
    &&& forall|i: int|
        0 <= i < people.len() ==> {
            &&& (#[trigger] r.people@[i]).id == people[i].id
            &&& r.people@[i].attributes == people[i].attributes
            &&& spec_opt_id_suffix(r.people@[i].zone_id) == spec_linked_zone(
                zones,
                people[i].id.suffix@,
            )
        }
    &&& forall|k: int|
        0 <= k < r.zones@.len() ==> {
            &&& spec_occupied(r.people@, (#[trigger] r.zones@[k]).0.suffix@)
            &&& Some(r.zones@[k].1) == spec_last_zone_with_id(zones, r.zones@[k].0.suffix@)
        }
}

fn entry_names_person(e: &AttributeValue, psfx: &String) -> (r: bool)
    ensures
        r == spec_entry_names_person(*e, psfx@),
{
    match e {
        AttributeValue::StringValue(s) => {
            match EntityId::new(EntityKind::Person, s.as_str()) {
                Ok(id) => str_eq_str(id.suffix.as_str(), psfx.as_str()),
                Err(_) => false,
            }
        },
        _ => false,
    }
}

fn zone_lists_person(z: &Zone, psfx: &String) -> (r: bool)
    ensures
        r == spec_zone_lists_person(*z, psfx@),
{
    let got = attrs_get(&z.attributes, "persons");
    match got {
        Some(AttributeValue::ListValue(entries)) => {
            proof {
                assert(spec_zone_persons(*z) == Some(*entries));
            }
            let n = entries.len();
            let mut k: usize = 0;
            while k < n
                invariant
                    n == entries@.len(),
                    k <= n,
                    spec_zone_persons(*z) == Some(*entries),
                    forall|j: int| 0 <= j < k ==> !spec_entry_names_person(#[trigger] entries@[j], psfx@),
                decreases n - k,
            {
                if entry_names_person(&entries[k], psfx) {
                    proof {
                        let es = spec_zone_persons(*z).unwrap();
                        assert(es == *entries);
                        assert(spec_entry_names_person(es@[k as int], psfx@));
                        assert(spec_zone_lists_person(*z, psfx@));
                    }
                    return true;
                }
                k += 1;
            }
            false
        },
        _ => false,
    }
}

/// The zone the person is linked to: the last zone in `zones` whose
/// `persons` attribute lists the person.
fn find_zone_for(psfx: &String, zones: &Vec<Zone>) -> (r: Option<EntityId>)
    requires
        forall|j: int| 0 <= j < zones@.len() ==> (#[trigger] zones@[j]).wf(),
    ensures
        spec_opt_id_suffix(r) == spec_linked_zone(zones@, psfx@),
        r matches Some(id) ==> id.kind == EntityKind::Zone && id.wf(),
{
    let mut j = zones.len();
    proof {
        assert(zones@.take(zones@.len() as int) =~= zones@);
    }
    while j > 0
        invariant
            j <= zones@.len(),
            forall|j2: int| 0 <= j2 < zones@.len() ==> (#[trigger] zones@[j2]).wf(),
            spec_linked_zone(zones@, psfx@) == spec_linked_zone(zones@.take(j as int), psfx@),
        decreases j,
    {
        j -= 1;
        proof {
            assert(zones@.take(j + 1).last() == zones@[j as int]);
            assert(zones@.take(j + 1).drop_last() =~= zones@.take(j as int));
        }
        if zone_lists_person(&zones[j], psfx) {
            return Some(zones[j].id.duplicate());
        }
    }
    proof {
        assert(zones@.take(0) =~= Seq::<Zone>::empty());
    }
    None
}

/// Is some person in `people` linked to the zone with this local-name?
fn has_occupant(people: &Vec<Person>, zsfx: &String) -> (r: bool)
    ensures
        r == spec_occupied(people@, zsfx@),
{
    let n = people.len();
    let mut i: usize = 0;
    while i < n
        invariant
            n == people@.len(),
            i <= n,
            forall|j: int|
                0 <= j < i ==> match (#[trigger] people@[j]).zone_id {
                    Some(z) => z.suffix@ != zsfx@,
                    None => true,
                },
        decreases n - i,
    {
        match &people[i].zone_id {
            Some(z) => {
                if str_eq_str(z.suffix.as_str(), zsfx.as_str()) {
                    return true;
                }
            },
            None => {},
        }
        i += 1;
    }
    false
}

/// Find the index holding the given key, if any.
fn find_key(out: &Vec<(EntityId, Zone)>, zsfx: &String) -> (r: Option<usize>)
    ensures
        match r {
            Some(j) => j < out@.len() && out@[j as int].0.suffix@ == zsfx@,
            None => forall|j: int| 0 <= j < out@.len() ==> (#[trigger] out@[j]).0.suffix@ != zsfx@,
        },
{
    let n = out.len();
    let mut j: usize = 0;
    while j < n
        invariant
            n == out@.len(),
            j <= n,
            forall|j2: int| 0 <= j2 < j ==> (#[trigger] out@[j2]).0.suffix@ != zsfx@,
        decreases n - j,
    {
        if str_eq_str(out[j].0.suffix.as_str(), zsfx.as_str()) {
            return Some(j);
        }
        j += 1;
    }
    None
}

/// Insert `z` into the zone map under its own id, replacing any zone
/// already held under that id.
fn insert_replace(out: &mut Vec<(EntityId, Zone)>, z: Zone)
    requires
        z.wf(),
        zones_wf(old(out)@),
    ensures
        ({
            let o = old(out)@;
            let m = final(out)@;
            &&& zones_wf(m)
            &&& zones_has_key(m, z.id.suffix@)
            &&& if zones_has_key(o, z.id.suffix@) {
                exists|j: int|
                    0 <= j < o.len() && (#[trigger] o[j]).0.suffix@ == z.id.suffix@ && m
                        == o.update(j, m[j]) && m[j].1 == z && m[j].0.suffix@ == z.id.suffix@
            } else {
                m == o.push(m[o.len() as int]) && m[o.len() as int].1 == z && m[o.len() as int].0.suffix@
                    == z.id.suffix@
            }
        }),
{
    match find_key(out, &z.id.suffix) {
        Some(j) => {
            let key = z.id.duplicate();
            proof {
                assert(zones_has_key(old(out)@, z.id.suffix@));
            }
            out[j] = (key, z);
        },
        None => {
            let key = z.id.duplicate();
            out.push((key, z));
            proof {
                assert(final(out)@ =~= old(out)@.push(final(out)@[old(out)@.len() as int]));
            }
        },
    }
}

/// Wherever a person ends up linked, some zone in the sequence bears that
/// id local-name.
proof fn lemma_linked_zone_from_zones(zones: Seq<Zone>, psfx: Seq<char>)
    ensures
        spec_linked_zone(zones, psfx) matches Some(zsfx) ==> exists|j: int|
            0 <= j < zones.len() && (#[trigger] zones[j]).id.suffix@ == zsfx,
    decreases zones.len(),
{
    if zones.len() > 0 {
        if spec_zone_lists_person(zones.last(), psfx) {
            assert(zones[zones.len() - 1].id.suffix@ == zones.last().id.suffix@);
        } else {
            lemma_linked_zone_from_zones(zones.drop_last(), psfx);
            if spec_linked_zone(zones, psfx) is Some {
                let zsfx = spec_linked_zone(zones, psfx).unwrap();
                let j = choose|j: int|
                    0 <= j < zones.drop_last().len() && (#[trigger] zones.drop_last()[j]).id.suffix@
                        == zsfx;
                assert(zones[j].id.suffix@ == zsfx);
            }
        }
    }
}

/// Reconcile fetched person and zone records: recompute each person's zone
/// link from the zones' membership lists (the last listing zone wins), and
/// retain exactly the zones some person ends up linked to, keyed by id.
pub fn correlate(people: Vec<Person>, zones: Vec<Zone>) -> (r: Snapshot)
    requires
        forall|i: int| 0 <= i < people@.len() ==> (#[trigger] people@[i]).wf(),
        forall|j: int| 0 <= j < zones@.len() ==> (#[trigger] zones@[j]).wf(),
    ensures
        r.wf(),
        spec_correlated(r, people@, zones@),
{
    let ghost people0 = people@;
    let ghost zones0 = zones@;
    let mut pending = people;
    let mut linked: Vec<Person> = Vec::new();
    proof {
        assert(people0.skip(0) =~= people0);
    }
    while pending.len() > 0
        invariant
            pending@ == people0.skip(linked@.len() as int),
            linked@.len() <= people0.len(),
            zones@ == zones0,
            forall|i: int| 0 <= i < people0.len() ==> (#[trigger] people0[i]).wf(),
            forall|j: int| 0 <= j < zones0.len() ==> (#[trigger] zones0[j]).wf(),
            forall|i: int|
                0 <= i < linked@.len() ==> {
                    &&& (#[trigger] linked@[i]).id == people0[i].id
                    &&& linked@[i].attributes == people0[i].attributes
                    &&& spec_opt_id_suffix(linked@[i].zone_id) == spec_linked_zone(
                        zones0,
                        people0[i].id.suffix@,
                    )
                    &&& linked@[i].wf()
                },
        decreases pending@.len(),
    {
        let ghost k = linked@.len();
        let p = pending.remove(0);
        proof {
            assert(p == people0[k as int]);
            assert(people0.skip(k as int).remove(0) =~= people0.skip(k as int + 1));
        }
        let z = find_zone_for(&p.id.suffix, &zones);
        linked.push(Person { id: p.id, zone_id: z, attributes: p.attributes });
    }
    proof {
        assert(linked@.len() == people0.len());
    }
    let mut zpending = zones;
    let mut zmap: Vec<(EntityId, Zone)> = Vec::new();
    let ghost mut k: int = 0;
    proof {
        assert(zones0.skip(0) =~= zones0);
    }
    while zpending.len() > 0
        invariant
            0 <= k,
            k + zpending@.len() == zones0.len(),
            zpending@ == zones0.skip(k),
            zones_wf(zmap@),
            forall|j: int| 0 <= j < zones0.len() ==> (#[trigger] zones0[j]).wf(),
            linked@.len() == people0.len(),
            forall|i: int| 0 <= i < people0.len() ==> (#[trigger] people0[i]).wf(),
            forall|i: int|
                0 <= i < linked@.len() ==> {
                    &&& (#[trigger] linked@[i]).id == people0[i].id
                    &&& linked@[i].attributes == people0[i].attributes
                    &&& spec_opt_id_suffix(linked@[i].zone_id) == spec_linked_zone(
                        zones0,
                        people0[i].id.suffix@,
                    )
                    &&& linked@[i].wf()
                },
            forall|m: int|
                0 <= m < zmap@.len() ==> {
                    &&& spec_occupied(linked@, (#[trigger] zmap@[m]).0.suffix@)
                    &&& Some(zmap@[m].1) == spec_last_zone_with_id(
                        zones0.take(k),
                        zmap@[m].0.suffix@,
                    )
                },
            forall|j: int|
                0 <= j < k && spec_occupied(linked@, (#[trigger] zones0[j]).id.suffix@)
                    ==> zones_has_key(zmap@, zones0[j].id.suffix@),
        decreases zpending@.len(),
    {
        let ghost k0 = k;
        let ghost zmap0 = zmap@;
        let z = zpending.remove(0);
        proof {
            assert(z == zones0[k0]);
            assert(zones0.skip(k0).remove(0) =~= zones0.skip(k0 + 1));
            assert(zones0.take(k0 + 1).last() == zones0[k0]);
            assert(zones0.take(k0 + 1).drop_last() =~= zones0.take(k0));
            k = k0 + 1;
        }
        let ghost zval = z;
        if has_occupant(&linked, &z.id.suffix) {
            insert_replace(&mut zmap, z);
            proof {
                assert forall|m: int| 0 <= m < zmap@.len() implies {
                    &&& spec_occupied(linked@, (#[trigger] zmap@[m]).0.suffix@)
                    &&& Some(zmap@[m].1) == spec_last_zone_with_id(
                        zones0.take(k0 + 1),
                        zmap@[m].0.suffix@,
                    )
                } by {
                    if zmap@[m].0.suffix@ == zval.id.suffix@ {
                        assert(zmap@[m].1 == zval);
                    } else {
                        assert(zmap@[m] == zmap0[m]);
                        assert(spec_last_zone_with_id(zones0.take(k0 + 1), zmap@[m].0.suffix@)
                            == spec_last_zone_with_id(zones0.take(k0), zmap@[m].0.suffix@));
                    }
                }
                assert forall|jx: int|
                    0 <= jx < k0 + 1 && spec_occupied(
                        linked@,
                        (#[trigger] zones0[jx]).id.suffix@,
                    ) implies zones_has_key(zmap@, zones0[jx].id.suffix@) by {
                    if jx == k0 {
                        assert(zones_has_key(zmap@, zval.id.suffix@));
                    } else {
                        assert(zones_has_key(zmap0, zones0[jx].id.suffix@));
                        let j2 = choose|j2: int|
                            0 <= j2 < zmap0.len() && (#[trigger] zmap0[j2]).0.suffix@
                                == zones0[jx].id.suffix@;
                        if zones_has_key(zmap0, zval.id.suffix@) {
                            let ju = choose|ju: int|
                                0 <= ju < zmap0.len() && (#[trigger] zmap0[ju]).0.suffix@
                                    == zval.id.suffix@ && zmap@ == zmap0.update(ju, zmap@[ju])
                                    && zmap@[ju].1 == zval && zmap@[ju].0.suffix@
                                    == zval.id.suffix@;
                            if j2 == ju {
                                assert(zmap@[ju].0.suffix@ == zones0[jx].id.suffix@);
                            } else {
                                assert(zmap@[j2] == zmap0[j2]);
                            }
                        } else {
                            assert(zmap@[j2] == zmap0[j2]);
                        }
                    }
                }
            }
        } else {
            proof {
                assert forall|m: int| 0 <= m < zmap@.len() implies Some((#[trigger] zmap@[m]).1)
                    == spec_last_zone_with_id(zones0.take(k0 + 1), zmap@[m].0.suffix@) by {
                    assert(spec_occupied(linked@, zmap@[m].0.suffix@));
                    assert(zmap@[m].0.suffix@ != zval.id.suffix@);
                }
            }
        }
    }
    proof {
        assert(zones0.take(k) =~= zones0);
        assert forall|i: int|
            0 <= i < linked@.len() implies match (#[trigger] linked@[i]).zone_id {
            Some(zid) => zones_has_key(zmap@, zid.suffix@),
            None => true,
        } by {
            match linked@[i].zone_id {
                Some(zid) => {
                    lemma_linked_zone_from_zones(zones0, people0[i].id.suffix@);
                    let j = choose|j: int|
                        0 <= j < zones0.len() && (#[trigger] zones0[j]).id.suffix@ == zid.suffix@;
                    assert(spec_occupied(linked@, zones0[j].id.suffix@));
                },
                None => {},
            }
        }
    }
    Snapshot { people: linked, zones: zmap }
}

/// The present values of a sequence of optional values, in order.
pub open spec fn spec_compact<T>(s: Seq<Option<T>>) -> Seq<T>
    decreases s.len(),
{
    if s.len() == 0 {
        Seq::empty()
    } else {
        match s.first() {
            Some(x) => seq![x] + spec_compact(s.drop_first()),
            None => spec_compact(s.drop_first()),
        }
    }
}

/// A property of every present value carries over to the compacted
/// sequence.
proof fn lemma_compact_all<T>(s: Seq<Option<T>>, pred: spec_fn(T) -> bool)
    requires
        forall|i: int| 0 <= i < s.len() ==> ((#[trigger] s[i]) matches Some(x) ==> pred(x)),
    ensures
        forall|i: int| 0 <= i < spec_compact(s).len() ==> pred(#[trigger] spec_compact(s)[i]),
    decreases s.len(),
{
    if s.len() > 0 {
        assert(forall|i: int|
            0 <= i < s.drop_first().len() ==> (#[trigger] s.drop_first()[i]) == s[i + 1]);
        lemma_compact_all(s.drop_first(), pred);
        assert(s.first() == s[0]);
        let c = spec_compact(s);
        let cr = spec_compact(s.drop_first());
        match s.first() {
            Some(x) => {
                assert(c == seq![x] + cr);
                assert forall|i: int| 0 <= i < c.len() implies pred(#[trigger] c[i]) by {
                    if i == 0 {
                        assert(c[0] == x);
                    } else {
                        assert(c[i] == cr[i - 1]);
                    }
                }
            },
            None => {
                assert(c == cr);
                assert(forall|i: int| 0 <= i < c.len() ==> #[trigger] c[i] == cr[i]);
            },
        }
    }
}

/// Keep the present values of a sequence of fetch outcomes, in order.
fn compact<T>(v: Vec<Option<T>>) -> (r: Vec<T>)
    ensures
        r@ == spec_compact(v@),
{
    let ghost v0 = v@;
    let mut pending = v;
    let mut out: Vec<T> = Vec::new();
    proof {
        assert(v0.skip(0) =~= v0);
        assert(Seq::<T>::empty() + spec_compact(v0) =~= spec_compact(v0));
    }
    while pending.len() > 0
        invariant
            spec_compact(v0) == out@ + spec_compact(pending@),
        decreases pending@.len(),
    {
        let ghost before = pending@;
        let ghost out0 = out@;
        let o = pending.remove(0);
        proof {
            assert(before.remove(0) =~= before.drop_first());
            assert(o == before.first());
        }
        match o {
            Some(x) => {
                out.push(x);
                proof {
                    assert(out@ =~= out0 + seq![x]);
                    assert((out0 + seq![x]) + spec_compact(pending@) =~= out0 + (seq![x]
                        + spec_compact(pending@)));
                }
            },
            None => {},
        }
    }
    proof {
        assert(spec_compact(pending@) =~= Seq::<T>::empty());
        assert(out@ + Seq::<T>::empty() =~= out@);
    }
    out
}

/// Build the snapshot from per-entity fetch outcomes. A failed person or
/// zone fetch (`None`) merely omits that record; a failed zone listing is
/// cycle-fatal and fails the whole operation with the listing's error.
pub fn get_snapshot(
    person_results: Vec<Option<Person>>,
    zone_results: Result<Vec<Option<Zone>>, Error>,
) -> (r: Result<Snapshot, Error>)
    requires
        forall|i: int|
            0 <= i < person_results@.len() ==> ((#[trigger] person_results@[i]) matches Some(p)
                ==> p.wf()),
        zone_results matches Ok(zv) ==> forall|j: int|
            0 <= j < zv@.len() ==> ((#[trigger] zv@[j]) matches Some(z) ==> z.wf()),
    ensures
        r is Ok <==> zone_results is Ok,
        zone_results matches Err(e) ==> r matches Err(e2) && e2 == e,
        r matches Ok(s) ==> s.wf() && (zone_results matches Ok(zv) ==> spec_correlated(
            s,
            spec_compact(person_results@),
            spec_compact(zv@),
        )),
{
    match zone_results {
        Err(e) => Err(e),
        Ok(zv) => {
            let ghost zv0 = zv@;
            let people = compact(person_results);
            let zones = compact(zv);
            proof {
                lemma_compact_all(person_results@, |p: Person| p.wf());
                lemma_compact_all(zv0, |z: Zone| z.wf());
            }
            Ok(correlate(people, zones))
        },
    }
}

/// The strings a body decodes to when it is a JSON list of strings.
pub uninterp spec fn spec_json_string_list(s: Seq<char>) -> Option<Seq<Seq<char>>>;

/// Relies on serde_json::from_str::<Vec<String>>: whether a body decodes
/// as a JSON list of strings, and to which strings, depends on the body
/// alone.
#[verifier::external_body]
fn decode_string_list(s: &str) -> (r: Option<Vec<String>>)
    ensures
        r is Some <==> spec_json_string_list(s@) is Some,
        r matches Some(v) ==> v@.map(|i: int, x: String| x@) == spec_json_string_list(s@).unwrap(),
{
    serde_json::from_str::<Vec<String>>(s).ok()
}

/// Parse listed entity names as zone ids. Any name that is not a valid
/// zone id fails the whole listing, exactly as decoding it would.
pub fn zone_ids_from_strings(names: &Vec<String>) -> (r: Result<Vec<EntityId>, Error>)
    ensures
        r is Ok <==> (forall|i: int|
            0 <= i < names@.len() ==> spec_parse_id(EntityKind::Zone, (#[trigger] names@[i])@)
                is Some),
        r matches Ok(ids) ==> ids@.len() == names@.len() && forall|i: int|
            0 <= i < names@.len() ==> {
                &&& (#[trigger] ids@[i]).kind == EntityKind::Zone
                &&& ids@[i].wf()
                &&& ids@[i].suffix@ == spec_parse_id(EntityKind::Zone, names@[i]@).unwrap()
            },
        r matches Err(e) ==> e matches Error::InvalidId(_),
{
    let n = names.len();
    let mut ids: Vec<EntityId> = Vec::new();
    let mut i: usize = 0;
    while i < n
        invariant
            n == names@.len(),
            i <= n,
            ids@.len() == i,
            forall|j: int|
                0 <= j < i ==> spec_parse_id(EntityKind::Zone, (#[trigger] names@[j])@) is Some,
            forall|j: int|
                0 <= j < i ==> {
                    &&& (#[trigger] ids@[j]).kind == EntityKind::Zone
                    &&& ids@[j].wf()
                    &&& spec_parse_id(EntityKind::Zone, names@[j]@) is Some
                    &&& ids@[j].suffix@ == spec_parse_id(EntityKind::Zone, names@[j]@).unwrap()
                },
        decreases n - i,
    {
        match EntityId::new(EntityKind::Zone, names[i].as_str()) {
            Ok(id) => {
                ids.push(id);
            },
            Err(msg) => {
                proof {
                    assert(spec_parse_id(EntityKind::Zone, names@[i as int]@) is None);
                }
                return Err(Error::InvalidId(msg));
            },
        }
        i += 1;
    }
    Ok(ids)
}

/// The backend query template that lists all zone entity ids.
pub fn zone_ids_template() -> (r: &'static str)
    ensures
        r@ == "{{states.zone|list|map(attribute=\"entity_id\")|list|to_json}}"@,
{
    "{{states.zone|list|map(attribute=\"entity_id\")|list|to_json}}"
}

/// Parse a zone-listing response body: a JSON list of zone entity ids.
pub fn parse_zone_listing(body: &str) -> (r: Result<Vec<EntityId>, Error>)
    ensures
        spec_json_string_list(body@) is None ==> (r matches Err(e) && e matches Error::JsonDecode(
            _,
        )),
        spec_json_string_list(body@) matches Some(names) ==> {
            &&& (r is Ok <==> (forall|i: int|
                0 <= i < names.len() ==> spec_parse_id(EntityKind::Zone, #[trigger] names[i])
                    is Some))
            &&& (r matches Ok(ids) ==> ids@.len() == names.len() && forall|i: int|
                0 <= i < names.len() ==> {
                    &&& (#[trigger] ids@[i]).kind == EntityKind::Zone
                    &&& ids@[i].wf()
                    &&& ids@[i].suffix@ == spec_parse_id(EntityKind::Zone, names[i]).unwrap()
                })
            &&& (r matches Err(e) ==> e matches Error::InvalidId(_))
        },
{
    match decode_string_list(body) {
        None => Err(Error::JsonDecode(String::from_str("JSON decode error from zone listing"))),
        Some(names) => {
            proof {
                let ns = spec_json_string_list(body@).unwrap();
                assert(names@.map(|i: int, x: String| x@) == ns);
                assert(forall|i: int|
                    0 <= i < names@.len() ==> (#[trigger] names@[i])@ == names@.map(
                        |i2: int, x: String| x@,
                    )[i]);
            }
            zone_ids_from_strings(&names)
        },
    }
}

/// Whether a string parses as a URL.
pub uninterp spec fn spec_url_ok(s: Seq<char>) -> bool;

/// Relies on url::Url::parse: whether a string parses as a URL depends on
/// the string alone.
#[verifier::external_body]
fn endpoint_url_ok(s: &str) -> (r: bool)
    ensures
        r == spec_url_ok(s@),
{
    url::Url::parse(s).is_ok()
}

/// Check a configured backend endpoint address, as client construction
/// does: an address that does not parse as a URL is configuration-fatal.
pub fn validate_endpoint(endpoint: &str) -> (r: Result<(), Error>)
    ensures
        r is Ok <==> spec_url_ok(endpoint@),
        r matches Err(e) ==> e matches Error::UrlParse(_),
{
    if endpoint_url_ok(endpoint) {
        Ok(())
    } else {
        Err(Error::UrlParse(String::from_str("URL parse error: ").concat(endpoint)))
    }
}

/// An attribute entry that names no tracked person changes nothing about
/// whether a zone lists that person: appending such an entry to the zone's
/// `persons` list leaves the membership test unchanged.
pub proof fn lemma_unmatched_entry_ignored(
    z: Zone,
    z2: Zone,
    e: AttributeValue,
    psfx: Seq<char>,
)
    requires
        !spec_entry_names_person(e, psfx),
        spec_zone_persons(z) is Some,
        spec_zone_persons(z2) is Some,
        spec_zone_persons(z2).unwrap()@ == spec_zone_persons(z).unwrap()@.push(e),
    ensures
        spec_zone_lists_person(z2, psfx) == spec_zone_lists_person(z, psfx),
{
    let es = spec_zone_persons(z).unwrap();
    let es2 = spec_zone_persons(z2).unwrap();
    if spec_zone_lists_person(z, psfx) {
        let k = choose|k: int|
            0 <= k < es@.len() && spec_entry_names_person(#[trigger] es@[k], psfx);
        assert(es2@[k] == es@[k]);
        assert(spec_entry_names_person(es2@[k], psfx));
    }
    if spec_zone_lists_person(z2, psfx) {
        let k = choose|k: int|
            0 <= k < es2@.len() && spec_entry_names_person(#[trigger] es2@[k], psfx);
        assert(k < es@.len() + 1);
        if k < es@.len() {
            assert(es2@[k] == es@[k]);
            assert(spec_entry_names_person(es@[k], psfx));
        } else {
            assert(es2@[k] == e);
        }
    }
}

/// A `persons` reference to an id outside the tracked set is ignored: if
/// one zone's list gains an entry that names no tracked person, every
/// tracked person's computed link is exactly what it was.
pub proof fn lemma_unmatched_reference_ignored(
    zones: Seq<Zone>,
    zones2: Seq<Zone>,
    jz: int,
    e: AttributeValue,
    psfx: Seq<char>,
)
    requires
        0 <= jz < zones.len(),
        zones2.len() == zones.len(),
        forall|j: int| 0 <= j < zones.len() && j != jz ==> #[trigger] zones2[j] == zones[j],
        zones2[jz].id == zones[jz].id,
        !spec_entry_names_person(e, psfx),
        spec_zone_persons(zones[jz]) is Some,
        spec_zone_persons(zones2[jz]) is Some,
        spec_zone_persons(zones2[jz]).unwrap()@ == spec_zone_persons(zones[jz]).unwrap()@.push(e),
    ensures
        spec_linked_zone(zones2, psfx) == spec_linked_zone(zones, psfx),
    decreases zones.len(),
{
    lemma_unmatched_entry_ignored(zones[jz], zones2[jz], e, psfx);
    if jz == zones.len() - 1 {
        assert(zones2.last() == zones2[jz] && zones.last() == zones[jz]);
        assert(zones2.drop_last() =~= zones.drop_last());
    } else {
        assert(zones2.last() == zones.last());
        assert(forall|j: int|
            0 <= j < zones.drop_last().len() && j != jz ==> #[trigger] zones2.drop_last()[j]
                == zones.drop_last()[j]);
        assert(zones2.drop_last()[jz] == zones2[jz] && zones.drop_last()[jz] == zones[jz]);
        lemma_unmatched_reference_ignored(zones.drop_last(), zones2.drop_last(), jz, e, psfx);
    }
}

} // verus!
