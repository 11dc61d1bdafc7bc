//! The display-side distributor: turning publisher responses back into
//! local snapshots, the per-cycle gathering rule, and the single-slot
//! "latest wins" hand-off to the renderer.

use vstd::prelude::*;

use crate::clock_pb;
use crate::clock_pb::GetPeopleLocationsResponse;
use crate::config::DisplayConfig;
use crate::text::str_eq_str;

verus! {

/// Does the zone map carry a zone under the given id?
pub open spec fn pb_zones_has_key(zones: Seq<(String, clock_pb::Zone)>, id: Seq<char>) -> bool {
    exists|j: int| 0 <= j < zones.len() && (#[trigger] zones[j]).0@ == id
}

/// Well-formedness of the rebuilt zone map: each pair keyed by its zone's
/// own id, keys unique.
pub open spec fn pb_zones_wf(zones: Seq<(String, clock_pb::Zone)>) -> bool {
    &&& forall|j: int| 0 <= j < zones.len() ==> (#[trigger] zones[j]).0@ == zones[j].1.id@
    &&& forall|j: int, k: int|
        0 <= j < k < zones.len() ==> (#[trigger] zones[j]).0@ != (#[trigger] zones[k]).0@
}

/// The zone held under the given id: the first pair with that key.
pub open spec fn pb_zones_lookup(zones: Seq<(String, clock_pb::Zone)>, id: Seq<char>) -> Option<
    clock_pb::Zone,
>
    decreases zones.len(),
{
    if zones.len() == 0 {
        None
    } else if zones[0].0@ == id {
        Some(zones[0].1)
    } else {
        pb_zones_lookup(zones.skip(1), id)
    }
}

/// The lookup answers exactly for the keys the map carries.
pub proof fn lemma_pb_lookup_has_key(zones: Seq<(String, clock_pb::Zone)>, id: Seq<char>)
    ensures
        pb_zones_lookup(zones, id) is Some <==> pb_zones_has_key(zones, id),
    decreases zones.len(),
{
    if zones.len() > 0 {
        if zones[0].0@ == id {
        } else {
            lemma_pb_lookup_has_key(zones.skip(1), id);
            assert(forall|j: int|
                0 <= j < zones.skip(1).len() ==> #[trigger] zones.skip(1)[j] == zones[j + 1]);
            if pb_zones_has_key(zones, id) {
                let j = choose|j: int| 0 <= j < zones.len() && (#[trigger] zones[j]).0@ == id;
                assert(zones.skip(1)[j - 1] == zones[j]);
            }
        }
    }
}

/// With unique keys, the pair at any matching index is what the lookup
/// finds.
pub proof fn lemma_pb_lookup_unique(zones: Seq<(String, clock_pb::Zone)>, id: Seq<char>, j: int)
    requires
        forall|j1: int, j2: int|
            0 <= j1 < j2 < zones.len() ==> (#[trigger] zones[j1]).0@ != (#[trigger] zones[j2]).0@,
        0 <= j < zones.len(),
        zones[j].0@ == id,
    ensures
        pb_zones_lookup(zones, id) == Some(zones[j].1),
    decreases zones.len(),
{
    if j > 0 {
        assert(zones[0].0@ != id);
        assert(forall|j1: int|
            0 <= j1 < zones.skip(1).len() ==> #[trigger] zones.skip(1)[j1] == zones[j1 + 1]);
        lemma_pb_lookup_unique(zones.skip(1), id, j - 1);
    }
}

/// The last zone in the sequence bearing the given id, if any.
pub open spec fn spec_last_pb_zone_with_id(zones: Seq<clock_pb::Zone>, id: Seq<char>) -> Option<
    clock_pb::Zone,
>
    decreases zones.len(),
{
    if zones.len() == 0 {
        None
    } else if zones.last().id@ == id {
        Some(zones.last())
    } else {
        spec_last_pb_zone_with_id(zones.drop_last(), id)
    }
}

/// A received publisher response, converted back to local form: the people
/// as sent, and the zone list rebuilt into a map keyed by zone id.
#[derive(Debug)]
pub struct Snapshot {
    pub people: Vec<clock_pb::Person>,
    pub zones: Vec<(String, clock_pb::Zone)>,
}

/// What the rebuilt snapshot must say about the response it came from.
pub open spec fn spec_snapshot_of(s: Snapshot, response: GetPeopleLocationsResponse) -> bool {
    &&& s.people == response.people
    &&& pb_zones_wf(s.zones@)
    &&& forall|j: int|
        0 <= j < response.zones@.len() ==> pb_zones_has_key(
            s.zones@,
            (#[trigger] response.zones@[j]).id@,
        )
    &&& forall|k: int|
        0 <= k < s.zones@.len() ==> Some((#[trigger] s.zones@[k]).1)
            == spec_last_pb_zone_with_id(response.zones@, s.zones@[k].0@)
}

/// Find the index holding the given key, if any.
fn find_pb_key(zmap: &Vec<(String, clock_pb::Zone)>, id: &String) -> (r: Option<usize>)
    ensures
        match r {
            Some(j) => j < zmap@.len() && zmap@[j as int].0@ == id@,
            None => forall|j: int| 0 <= j < zmap@.len() ==> (#[trigger] zmap@[j]).0@ != id@,
        },
{
    let n = zmap.len();
    let mut j: usize = 0;
    while j < n
        invariant
            n == zmap@.len(),
            j <= n,
            forall|j2: int| 0 <= j2 < j ==> (#[trigger] zmap@[j2]).0@ != id@,
        decreases n - j,
    {
        if str_eq_str(zmap[j].0.as_str(), id.as_str()) {
            return Some(j);
        }
        j += 1;
    }
    None
}

impl Snapshot {
    /// Rebuild the zone-id map from a received response; with duplicate
    /// ids the last zone sent wins, as rebuilding a map does.
    pub fn from_response(response: GetPeopleLocationsResponse) -> (r: Snapshot)
        ensures
            spec_snapshot_of(r, response),
    {
        let ghost zones0 = response.zones@;
        let mut pending = response.zones;
        let mut zmap: Vec<(String, clock_pb::Zone)> = Vec::new();
        let ghost mut k: int = 0;
        proof {
            assert(zones0.skip(0) =~= zones0);
        }
        while pending.len() > 0
            invariant
                0 <= k,
                k + pending@.len() == zones0.len(),
                pending@ == zones0.skip(k),
                pb_zones_wf(zmap@),
                forall|j: int| 0 <= j < k ==> pb_zones_has_key(zmap@, (#[trigger] zones0[j]).id@),
                forall|m: int|
                    0 <= m < zmap@.len() ==> Some((#[trigger] zmap@[m]).1)
                        == spec_last_pb_zone_with_id(zones0.take(k), zmap@[m].0@),
            decreases pending@.len(),
        {
            let ghost k0 = k;
            let ghost zmap0 = zmap@;
            let z = pending.remove(0);
            let ghost zval = z;
            proof {
                assert(z == zones0[k0]);
                assert(zones0.skip(k0).remove(0) =~= zones0.skip(k0 + 1));
                assert(zones0.take(k0 + 1).last() == zones0[k0]);
                assert(zones0.take(k0 + 1).drop_last() =~= zones0.take(k0));
                k = k0 + 1;
            }
            let idx = find_pb_key(&zmap, &z.id);
            match idx {
                Some(jj) => {
                    let key = z.id.clone();
                    zmap[jj] = (key, z);
                    proof {
                        assert(zmap@ =~= zmap0.update(jj as int, zmap@[jj as int]));
                    }
                },
                None => {
                    let key = z.id.clone();
                    zmap.push((key, z));
                    proof {
                        assert(zmap@ =~= zmap0.push(zmap@[zmap0.len() as int]));
                    }
                },
            }
            proof {
                assert forall|m: int| 0 <= m < zmap@.len() implies Some((#[trigger] zmap@[m]).1)
                    == spec_last_pb_zone_with_id(zones0.take(k0 + 1), zmap@[m].0@) by {
                    if zmap@[m].0@ == zval.id@ {
                        assert(zmap@[m].1 == zval);
                    } else {
                        assert(zmap@[m] == zmap0[m]);
                        assert(spec_last_pb_zone_with_id(zones0.take(k0 + 1), zmap@[m].0@)
                            == spec_last_pb_zone_with_id(zones0.take(k0), zmap@[m].0@));
                    }
                }
                assert forall|jx: int| 0 <= jx < k0 + 1 implies pb_zones_has_key(
                    zmap@,
                    (#[trigger] zones0[jx]).id@,
                ) by {
                    if jx == k0 {
                        assert(pb_zones_has_key(zmap@, zval.id@));
                    } else {
                        let j2 = choose|j2: int|
                            0 <= j2 < zmap0.len() && (#[trigger] zmap0[j2]).0@ == zones0[jx].id@;
                        if zmap@[j2] == zmap0[j2] {
                            assert(pb_zones_has_key(zmap@, zones0[jx].id@));
                        } else {
                            assert(zmap@[j2].0@ == zval.id@ && zval.id@ == zmap0[j2].0@);
                        }
                    }
                }
            }
        }
        proof {
            assert(zones0.take(k) =~= zones0);
        }
        Snapshot { people: response.people, zones: zmap }
    }
}

/// The snapshots last gathered from every configured endpoint, in
/// configuration order.
pub type EndpointSnapshots = Vec<Snapshot>;

/// The single-slot hand-off between the poller and the renderer: a new
/// value always overwrites any undelivered previous one, and neither side
/// ever waits for the other.
#[derive(Debug)]
pub struct SnapshotSlot {
    pub latest: Option<EndpointSnapshots>,
}

/// The slot after a publish: exactly the published value, whatever was
/// there before.
pub open spec fn spec_publish(slot: SnapshotSlot, snapshots: EndpointSnapshots) -> SnapshotSlot {
    SnapshotSlot { latest: Some(snapshots) }
}

impl SnapshotSlot {
    /// An empty slot: the renderer shows a blank grid until the first
    /// publish arrives.
    pub fn new() -> (r: SnapshotSlot)
        ensures
            r.latest is None,
    {
        SnapshotSlot { latest: None }
    }

    /// Overwrite the slot with the newest complete result. Publishing
    /// never blocks and never depends on a reader being present; an
    /// undelivered previous value is simply discarded.
    pub fn publish(&mut self, snapshots: EndpointSnapshots)
        ensures
            *final(self) == spec_publish(*old(self), snapshots),
    {
        self.latest = Some(snapshots);
    }

    /// Drain the slot to its most recent value, if any, without waiting.
    pub fn take(&mut self) -> (r: Option<EndpointSnapshots>)
        ensures
            r == old(self).latest,
            final(self).latest is None,
    {
        self.latest.take()
    }
}

/// Latest wins: publishing twice before any read leaves exactly the second
/// value, and only it, to be read.
pub proof fn lemma_latest_wins(
    slot: SnapshotSlot,
    v1: EndpointSnapshots,
    v2: EndpointSnapshots,
)
    ensures
        spec_publish(spec_publish(slot, v1), v2) == spec_publish(slot, v2),
        spec_publish(spec_publish(slot, v1), v2).latest == Some(v2),
{
}

/// What the renderer displays after a drain: the drained value when one
/// arrived, else whatever it was already showing.
pub fn apply_received(
    latest: EndpointSnapshots,
    received: Option<EndpointSnapshots>,
) -> (r: EndpointSnapshots)
    ensures
        match received {
            Some(v) => r == v,
            None => r == latest,
        },
{
    match received {
        Some(v) => v,
        None => latest,
    }
}

/// What the poll loop does after one cycle.
#[derive(Debug, Clone, Copy, PartialEq, Eq, Structural)]
pub enum LoopAction {
    /// Publish the cycle's complete result, then sleep until the next.
    Publish,
    /// Log the failure and retry at the next fixed interval.
    Retry,
    /// The consumer is gone for good: exit cleanly.
    Stop,
}

/// The poller runs the fetching; this is the decision it applies after
/// each cycle.
pub fn poll_step(cycle: &Result<EndpointSnapshots, String>, receiver_gone: bool) -> (r: LoopAction)
    ensures
        receiver_gone ==> r == LoopAction::Stop,
        !receiver_gone && cycle is Ok ==> r == LoopAction::Publish,
        !receiver_gone && cycle is Err ==> r == LoopAction::Retry,
{
    if receiver_gone {
        LoopAction::Stop
    } else if cycle.is_ok() {
        LoopAction::Publish
    } else {
        LoopAction::Retry
    }
}

/// The poller's configuration and per-cycle gathering rule. The fetching
/// itself is network I/O and stays with the caller.
#[derive(Debug)]
pub struct SnapshotManager {
    pub config: DisplayConfig,
}

impl SnapshotManager {
    /// The manager and the empty hand-off slot its consumer will drain.
    pub fn initialise(config: DisplayConfig) -> (r: (SnapshotManager, SnapshotSlot))
        ensures
            r.0.config == config,
            r.1.latest is None,
    {
        (SnapshotManager { config }, SnapshotSlot::new())
    }

    /// Gather one cycle's responses. Every endpoint must have answered for
    /// this cycle to publish: any single failure aborts the cycle with the
    /// first error, and the fixed interval is the retry policy.
    pub fn update_snapshots(
        &self,
        results: Vec<Result<GetPeopleLocationsResponse, String>>,
    ) -> (r: Result<EndpointSnapshots, String>)
        ensures
            r is Ok <==> (forall|i: int| 0 <= i < results@.len() ==> (#[trigger] results@[i]) is Ok),
            r matches Ok(snaps) ==> snaps@.len() == results@.len() && forall|i: int|
                0 <= i < results@.len() ==> spec_snapshot_of(
                    #[trigger] snaps@[i],
                    results@[i].unwrap(),
                ),
            r matches Err(e) ==> exists|i: int|
                0 <= i < results@.len() && ((#[trigger] results@[i]) matches Err(e2) && e == e2
                    && (forall|j: int| 0 <= j < i ==> (#[trigger] results@[j]) is Ok)),
    {
        let ghost results0 = results@;
        let mut pending = results;
        let mut snapshots: EndpointSnapshots = Vec::new();
        proof {
            assert(results0.skip(0) =~= results0);
        }
        while pending.len() > 0
            invariant
                results@ == results0,
                snapshots@.len() + pending@.len() == results0.len(),
                pending@ == results0.skip(snapshots@.len() as int),
                forall|i: int|
                    0 <= i < snapshots@.len() ==> (#[trigger] results0[i]) is Ok
                        && spec_snapshot_of(snapshots@[i], results0[i].unwrap()),
            decreases pending@.len(),
        {
            let ghost k = snapshots@.len();
            let next = pending.remove(0);
            proof {
                assert(next == results0[k as int]);
                assert(results0.skip(k as int).remove(0) =~= results0.skip(k as int + 1));
            }
            match next {
                Ok(response) => {
                    snapshots.push(Snapshot::from_response(response));
                },
                Err(e) => {
                    proof {
                        assert(results0[k as int] is Err);
                    }
                    return Err(e);
                },
            }
        }
        Ok(snapshots)
    }
}

} // verus!
