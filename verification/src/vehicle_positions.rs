//! The position tracker: it compares each vehicle-position feed with the
//! positions that the feed before it left behind, and reports the
//! arrivals and departures in between.

use crate::gtfs_realtime::{FeedEntity, FeedMessage};
use crate::movement::{
    movement_between, record_movement, MovementEvent, MovementEventView, VehicleStatus,
};
use vstd::hash_map::StringHashMap;
use vstd::multiset::Multiset;
use vstd::prelude::*;
use vstd::seq_lib::*;

verus! {

/// The pause between two readings of the vehicle-position feed, in
/// milliseconds.
pub const POLL_INTERVAL_MS: u64 = 2000;

/// Where a vehicle was last seen.
#[derive(Clone, Debug, PartialEq, Eq)]
pub struct Snapshot {
    pub stop_id: String,
    pub status: VehicleStatus,
}

/// A snapshot with its stop as a character sequence.
pub struct SnapshotView {
    pub stop_id: Seq<char>,
    pub status: VehicleStatus,
}

impl View for Snapshot {
    type V = SnapshotView;

    open spec fn view(&self) -> SnapshotView {
        SnapshotView { stop_id: self.stop_id@, status: self.status }
    }
}

/// The snapshots of one feed, by vehicle id.
pub struct PositionMap {
    positions: StringHashMap<Snapshot>,
}

impl View for PositionMap {
    type V = Map<Seq<char>, SnapshotView>;

    closed spec fn view(&self) -> Map<Seq<char>, SnapshotView> {
        self.positions@.map_values(|s: Snapshot| s@)
    }
}

impl PositionMap {
    /// A map that has seen no vehicle.
    pub fn new() -> (map: PositionMap)
        ensures
            map@ == Map::<Seq<char>, SnapshotView>::empty(),
    {
        let map = PositionMap { positions: StringHashMap::new() };
        assert(map@ =~= Map::<Seq<char>, SnapshotView>::empty());
        map
    }

    /// The snapshot of a vehicle, if the map holds one.
    pub fn get(&self, vehicle_id: &str) -> (snapshot: Option<&Snapshot>)
        ensures
            match snapshot {
                Some(s) => self@.contains_key(vehicle_id@) && s@ == self@[vehicle_id@],
                None => !self@.contains_key(vehicle_id@),
            },
    {
        self.positions.get(vehicle_id)
    }

    /// The number of vehicles in the map.
    pub fn len(&self) -> (n: usize)
        ensures
            n == self@.len(),
    {
        assert(self@.dom() =~= self.positions@.dom());
        self.positions.len()
    }

    /// Whether the map holds a snapshot of the vehicle.
    pub fn contains(&self, vehicle_id: &str) -> (held: bool)
        ensures
            held == self@.contains_key(vehicle_id@),
    {
        self.positions.contains_key(vehicle_id)
    }

    /// Records where a vehicle is, in place of what was known of it.
    pub fn insert(&mut self, vehicle_id: String, stop_id: String, status: VehicleStatus)
        ensures
            final(self)@ == old(self)@.insert(
                vehicle_id@,
                SnapshotView { stop_id: stop_id@, status },
            ),
    {
        let ghost before = self.positions@;
        let snapshot = Snapshot { stop_id, status };
        self.positions.insert(vehicle_id, snapshot);
        assert(self.positions@.map_values(|s: Snapshot| s@) =~= before.map_values(
            |s: Snapshot| s@,
        ).insert(vehicle_id@, snapshot@));
    }
}

/// What a feed entity says of a vehicle's position.
pub struct PositionReport {
    pub vehicle_id: Seq<char>,
    pub stop_id: Seq<char>,
    pub status: VehicleStatus,
}

impl PositionReport {
    /// The snapshot that the report leaves behind.
    pub open spec fn snapshot(self) -> SnapshotView {
        SnapshotView { stop_id: self.stop_id, status: self.status }
    }
}

/// The report of an entity. There is one only where the entity carries a
/// vehicle position with a vehicle id, a stop id and a status text that
/// names a status.
pub open spec fn position_report(entity: FeedEntity) -> Option<PositionReport> {
    match entity.vehicle {
        Some(position) => match (position.vehicle, position.stop_id, position.current_status) {
            (Some(vehicle), Some(stop_id), Some(status_text)) => match (
                vehicle.id,
                VehicleStatus::parse_text(status_text@),
            ) {
                (Some(vehicle_id), Some(status)) => Some(
                    PositionReport { vehicle_id: vehicle_id@, stop_id: stop_id@, status },
                ),
                _ => None,
            },
            _ => None,
        },
        None => None,
    }
}

/// The movement that an entity reveals against the positions known
/// before. A vehicle that was not known before reveals none.
pub open spec fn movement_of(
    previous: Map<Seq<char>, SnapshotView>,
    entity: FeedEntity,
) -> Option<MovementEventView> {
    match position_report(entity) {
        Some(report) => if previous.contains_key(report.vehicle_id) {
            movement_between(
                report.vehicle_id,
                previous[report.vehicle_id].stop_id,
                previous[report.vehicle_id].status,
                report.stop_id,
                report.status,
            )
        } else {
            None
        },
        None => None,
    }
}

/// The movements that a feed reveals, in feed order.
pub open spec fn movements_of(
    previous: Map<Seq<char>, SnapshotView>,
    entities: Seq<FeedEntity>,
) -> Seq<MovementEventView> {
    entities.filter_map(|e: FeedEntity| movement_of(previous, e))
}

/// The positions after one more entity has been read.
pub open spec fn sighted(
    positions: Map<Seq<char>, SnapshotView>,
    entity: FeedEntity,
) -> Map<Seq<char>, SnapshotView> {
    match position_report(entity) {
        Some(report) => positions.insert(report.vehicle_id, report.snapshot()),
        None => positions,
    }
}

/// The positions that a feed leaves behind: for each vehicle that it
/// reports, the last report. Nothing of an earlier feed is in it.
pub open spec fn positions_of(entities: Seq<FeedEntity>) -> Map<Seq<char>, SnapshotView> {
    entities.fold_left(
        Map::<Seq<char>, SnapshotView>::empty(),
        |m: Map<Seq<char>, SnapshotView>, e: FeedEntity| sighted(m, e),
    )
}

/// The views of a list of movements.
pub open spec fn event_views(events: Seq<MovementEvent>) -> Seq<MovementEventView> {
    events.map_values(|e: MovementEvent| e@)
}

/// What an entity reports, as references into it.
fn read_report(entity: &FeedEntity) -> (r: Option<(&String, &String, VehicleStatus)>)
    ensures
        match r {
            Some((vehicle_id, stop_id, status)) => position_report(*entity) == Some(
                PositionReport { vehicle_id: vehicle_id@, stop_id: stop_id@, status },
            ),
            None => position_report(*entity) is None,
        },
{
    match &entity.vehicle {
        Some(position) => match (&position.vehicle, &position.stop_id, &position.current_status) {
            (Some(vehicle), Some(stop_id), Some(status_text)) => match (
                &vehicle.id,
                VehicleStatus::parse(status_text.as_str()),
            ) {
                (Some(vehicle_id), Some(status)) => Some((vehicle_id, stop_id, status)),
                _ => None,
            },
            _ => None,
        },
        None => None,
    }
}

/// Reads a vehicle-position feed against the positions of the feed before
/// it. Returns the positions that this feed leaves behind and the movements
/// that it reveals, in feed order. An entity without a complete report is
/// passed over; a vehicle seen for the first time gives no movement.
pub fn process_vehicle_positions(msg: &FeedMessage, old_positions: &PositionMap) -> (r: (
    PositionMap,
    Vec<MovementEvent>,
))
    ensures
        r.0@ == positions_of(msg.entity@),
        event_views(r.1@) == movements_of(old_positions@, msg.entity@),
{
    let ghost movement = |e: FeedEntity| movement_of(old_positions@, e);
    let ghost sight = |m: Map<Seq<char>, SnapshotView>, e: FeedEntity| sighted(m, e);
    let ghost nothing = Map::<Seq<char>, SnapshotView>::empty();
    let mut new_positions = PositionMap::new();
    let mut events: Vec<MovementEvent> = Vec::new();
    let mut i: usize = 0;
    assert(event_views(events@) =~= msg.entity@.take(0).filter_map(movement));
    while i < msg.entity.len()
        invariant
            i <= msg.entity.len(),
            movement == (|e: FeedEntity| movement_of(old_positions@, e)),
            sight == (|m: Map<Seq<char>, SnapshotView>, e: FeedEntity| sighted(m, e)),
            nothing == Map::<Seq<char>, SnapshotView>::empty(),
            new_positions@ == msg.entity@.take(i as int).fold_left(nothing, sight),
            event_views(events@) == msg.entity@.take(i as int).filter_map(movement),
        decreases msg.entity.len() - i,
    {
        let entity = &msg.entity[i];
        proof {
            msg.entity@.lemma_filter_map_take_succ(movement, i as int);
            assert(msg.entity@.take(i + 1).drop_last() =~= msg.entity@.take(i as int));
        }
        let ghost before = events@;
        match read_report(entity) {
            Some((vehicle_id, stop_id, status)) => {
                match old_positions.get(vehicle_id.as_str()) {
                    Some(old) => {
                        let event = record_movement(
                            vehicle_id.as_str(),
                            old.stop_id.as_str(),
                            old.status,
                            stop_id.as_str(),
                            status,
                        );
                        match event {
                            Some(e) => {
                                events.push(e);
                                assert(event_views(events@) =~= event_views(before).push(e@));
                            },
                            None => {},
                        }
                    },
                    None => {},
                }
                new_positions.insert(vehicle_id.clone(), stop_id.clone(), status);
            },
            None => {},
        }
        assert(event_views(events@) =~= msg.entity@.take(i + 1).filter_map(movement));
        i += 1;
    }
    assert(msg.entity@.take(msg.entity.len() as int) =~= msg.entity@);
    (new_positions, events)
}

/// One cycle of the position loop. With a feed it is read as
/// [`process_vehicle_positions`] reads it. Without one, because it could not
/// be fetched or decoded, the positions stay as they were and no movement
/// is reported.
pub fn do_run(feed: Option<&FeedMessage>, old_positions: PositionMap) -> (r: (
    PositionMap,
    Vec<MovementEvent>,
))
    ensures
        match feed {
            Some(msg) => r.0@ == positions_of(msg.entity@) && event_views(r.1@) == movements_of(
                old_positions@,
                msg.entity@,
            ),
            None => r.0@ == old_positions@ && r.1@.len() == 0,
        },
{
    match feed {
        Some(msg) => process_vehicle_positions(msg, &old_positions),
        None => (old_positions, Vec::new()),
    }
}

/// Whether a feed speaks of each vehicle with one voice: any two reports
/// of one vehicle are the same report.
pub open spec fn reports_agree(entities: Seq<FeedEntity>) -> bool {
    forall|i: int, j: int|
        0 <= i < entities.len() && 0 <= j < entities.len() ==> match (
            #[trigger] position_report(entities[i]),
            #[trigger] position_report(entities[j]),
        ) {
            (Some(a), Some(b)) => a.vehicle_id == b.vehicle_id ==> a == b,
            _ => true,
        }
}

/// Whether some entity of the feed reports `report`.
pub open spec fn reported(entities: Seq<FeedEntity>, report: PositionReport) -> bool {
    exists|i: int|
        0 <= i < entities.len() && #[trigger] position_report(entities[i]) == Some(report)
}

/// The positions of a feed hold exactly the vehicles that it reports, and
/// what they hold of a vehicle is one of its reports.
pub proof fn lemma_positions_are_reports(entities: Seq<FeedEntity>)
    ensures
        forall|i: int|
            0 <= i < entities.len() ==> match #[trigger] position_report(entities[i]) {
                Some(report) => positions_of(entities).contains_key(report.vehicle_id),
                None => true,
            },
        forall|v: Seq<char>| #[trigger]
            positions_of(entities).contains_key(v) ==> reported(
                entities,
                PositionReport {
                    vehicle_id: v,
                    stop_id: positions_of(entities)[v].stop_id,
                    status: positions_of(entities)[v].status,
                },
            ),
    decreases entities.len(),
{
    if entities.len() > 0 {
        let rest = entities.drop_last();
        lemma_positions_are_reports(rest);
        assert forall|i: int| 0 <= i < entities.len() implies match #[trigger] position_report(
            entities[i],
        ) {
            Some(report) => positions_of(entities).contains_key(report.vehicle_id),
            None => true,
        } by {
            if i < rest.len() {
                assert(rest[i] == entities[i]);
            }
        }
        assert forall|v: Seq<char>| #[trigger]
            positions_of(entities).contains_key(v) implies reported(
            entities,
            PositionReport {
                vehicle_id: v,
                stop_id: positions_of(entities)[v].stop_id,
                status: positions_of(entities)[v].status,
            },
        ) by {
            let held = PositionReport {
                vehicle_id: v,
                stop_id: positions_of(entities)[v].stop_id,
                status: positions_of(entities)[v].status,
            };
            let last = entities.len() - 1;
            if position_report(entities[last]) matches Some(report) && report.vehicle_id == v {
                assert(position_report(entities[last]) == Some(held));
            } else {
                assert(positions_of(rest).contains_key(v));
                assert(positions_of(rest)[v] == positions_of(entities)[v]);
                assert(reported(rest, held));
                let i = choose|i: int|
                    0 <= i < rest.len() && #[trigger] position_report(rest[i]) == Some(held);
                assert(rest[i] == entities[i]);
                assert(position_report(entities[i]) == Some(held));
            }
        }
    }
}

/// A feed in which no entity reveals a movement reveals none.
proof fn lemma_no_movement_at_all(
    previous: Map<Seq<char>, SnapshotView>,
    entities: Seq<FeedEntity>,
)
    requires
        forall|i: int|
            0 <= i < entities.len() ==> #[trigger] movement_of(previous, entities[i]) is None,
    ensures
        movements_of(previous, entities) == Seq::<MovementEventView>::empty(),
    decreases entities.len(),
{
    if entities.len() > 0 {
        let rest = entities.drop_last();
        assert forall|i: int| 0 <= i < rest.len() implies #[trigger] movement_of(
            previous,
            rest[i],
        ) is None by {
            assert(rest[i] == entities[i]);
        }
        lemma_no_movement_at_all(previous, rest);
        assert(movement_of(previous, entities[entities.len() - 1]) is None);
    }
}

/// Whether a report says of its vehicle what the positions already hold,
/// or speaks of a vehicle that they do not hold.
pub open spec fn unchanged(
    positions: Map<Seq<char>, SnapshotView>,
    report: PositionReport,
) -> bool {
    positions.contains_key(report.vehicle_id) ==> positions[report.vehicle_id] == report.snapshot()
}

/// A feed in which every vehicle is where it was, with the status that it
/// had, reveals no movement.
pub proof fn lemma_unchanged_feed_is_quiet(
    previous: Map<Seq<char>, SnapshotView>,
    entities: Seq<FeedEntity>,
)
    requires
        forall|i: int|
            0 <= i < entities.len() ==> match #[trigger] position_report(entities[i]) {
                Some(report) => unchanged(previous, report),
                None => true,
            },
    ensures
        movements_of(previous, entities) == Seq::<MovementEventView>::empty(),
{
    assert forall|i: int| 0 <= i < entities.len() implies #[trigger] movement_of(
        previous,
        entities[i],
    ) is None by {
        if position_report(entities[i]) is Some {
            assert(unchanged(previous, position_report(entities[i]).unwrap()));
        }
    }
    lemma_no_movement_at_all(previous, entities);
}

/// Reading the same feed twice in a row reveals no movement the second
/// time, provided the feed speaks of each vehicle with one voice.
pub proof fn lemma_same_feed_again_is_quiet(entities: Seq<FeedEntity>)
    requires
        reports_agree(entities),
    ensures
        movements_of(positions_of(entities), entities) == Seq::<MovementEventView>::empty(),
{
    let positions = positions_of(entities);
    lemma_positions_are_reports(entities);
    assert forall|i: int| 0 <= i < entities.len() implies match #[trigger] position_report(
        entities[i],
    ) {
        Some(report) => unchanged(positions, report),
        None => true,
    } by {
        if position_report(entities[i]) is Some {
            let report = position_report(entities[i]).unwrap();
            let v = report.vehicle_id;
            let held = PositionReport {
                vehicle_id: v,
                stop_id: positions[v].stop_id,
                status: positions[v].status,
            };
            assert(reported(entities, held));
            let j = choose|j: int|
                0 <= j < entities.len() && #[trigger] position_report(entities[j]) == Some(held);
            assert(held == report);
        }
    }
    lemma_unchanged_feed_is_quiet(positions, entities);
}

/// The movements of a feed as a bag, built up entity by entity.
spec fn bag_step(previous: Map<Seq<char>, SnapshotView>) -> spec_fn(
    Multiset<MovementEventView>,
    FeedEntity,
) -> Multiset<MovementEventView> {
    |bag: Multiset<MovementEventView>, e: FeedEntity|
        match movement_of(previous, e) {
            Some(event) => bag.insert(event),
            None => bag,
        }
}

proof fn lemma_movements_as_bag(
    previous: Map<Seq<char>, SnapshotView>,
    entities: Seq<FeedEntity>,
)
    ensures
        movements_of(previous, entities).to_multiset() == entities.fold_left(
            Multiset::<MovementEventView>::empty(),
            bag_step(previous),
        ),
    decreases entities.len(),
{
    broadcast use group_to_multiset_ensures;

    if entities.len() == 0 {
        assert(movements_of(previous, entities).to_multiset() =~= Multiset::<
            MovementEventView,
        >::empty());
    } else {
        let rest = entities.drop_last();
        lemma_movements_as_bag(previous, rest);
        match movement_of(previous, entities.last()) {
            Some(event) => {
                assert(movements_of(previous, entities) =~= movements_of(previous, rest).push(
                    event,
                ));
            },
            None => {},
        }
    }
}

/// The order of the entities within a feed does not matter: two feeds that
/// hold the same entities reveal the same movements, each as often in the
/// one as in the other; and where the feed speaks of each vehicle with one
/// voice they leave the same positions behind.
pub proof fn lemma_entity_order_is_immaterial(
    previous: Map<Seq<char>, SnapshotView>,
    entities: Seq<FeedEntity>,
    reordered: Seq<FeedEntity>,
)
    requires
        entities.to_multiset() == reordered.to_multiset(),
    ensures
        movements_of(previous, entities).to_multiset() == movements_of(
            previous,
            reordered,
        ).to_multiset(),
        reports_agree(entities) ==> positions_of(entities) == positions_of(reordered),
{
    broadcast use group_to_multiset_ensures;

    let step = bag_step(previous);
    assert forall|x: FeedEntity, y: FeedEntity, bag: Multiset<MovementEventView>| #[trigger]
        step(step(bag, x), y) == step(step(bag, y), x) by {
        assert(step(step(bag, x), y) =~= step(step(bag, y), x));
    }
    lemma_fold_left_permutation(
        entities,
        reordered,
        step,
        Multiset::<MovementEventView>::empty(),
    );
    lemma_movements_as_bag(previous, entities);
    lemma_movements_as_bag(previous, reordered);

    if reports_agree(entities) {
        let a = positions_of(entities);
        let b = positions_of(reordered);
        lemma_positions_are_reports(entities);
        lemma_positions_are_reports(reordered);
        assert forall|v: Seq<char>| a.contains_key(v) implies b.contains_key(v) && a[v] == b[v] by {
            let held = PositionReport { vehicle_id: v, stop_id: a[v].stop_id, status: a[v].status };
            assert(reported(entities, held));
            let i = choose|i: int|
                0 <= i < entities.len() && #[trigger] position_report(entities[i]) == Some(held);
            assert(entities.contains(entities[i]));
            assert(reordered.to_multiset().count(entities[i]) > 0);
            assert(reordered.contains(entities[i]));
            let j = choose|j: int| 0 <= j < reordered.len() && reordered[j] == entities[i];
            assert(position_report(reordered[j]) == Some(held));
            assert(b.contains_key(v));
            let other = PositionReport {
                vehicle_id: v,
                stop_id: b[v].stop_id,
                status: b[v].status,
            };
            assert(reported(reordered, other));
            let k = choose|k: int|
                0 <= k < reordered.len() && #[trigger] position_report(reordered[k]) == Some(other);
            assert(reordered.contains(reordered[k]));
            assert(entities.to_multiset().count(reordered[k]) > 0);
            assert(entities.contains(reordered[k]));
            let l = choose|l: int| 0 <= l < entities.len() && entities[l] == reordered[k];
            assert(position_report(entities[l]) == Some(other));
            assert(held == other);
        }
        assert forall|v: Seq<char>| b.contains_key(v) implies a.contains_key(v) by {
            let other = PositionReport {
                vehicle_id: v,
                stop_id: b[v].stop_id,
                status: b[v].status,
            };
            assert(reported(reordered, other));
            let k = choose|k: int|
                0 <= k < reordered.len() && #[trigger] position_report(reordered[k]) == Some(other);
            assert(reordered.contains(reordered[k]));
            assert(entities.to_multiset().count(reordered[k]) > 0);
            assert(entities.contains(reordered[k]));
            let l = choose|l: int| 0 <= l < entities.len() && entities[l] == reordered[k];
            assert(position_report(entities[l]) == Some(other));
        }
        assert(a =~= b);
    }
}

} // verus!
