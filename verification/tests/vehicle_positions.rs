use transit_tracker::gtfs_realtime::{
    FeedEntity, FeedHeader, FeedMessage, VehicleDescriptor, VehiclePosition,
};
use transit_tracker::movement::{MovementEvent, MovementKind, VehicleStatus};
use transit_tracker::vehicle_positions::{
    do_run, process_vehicle_positions, PositionMap, Snapshot, POLL_INTERVAL_MS,
};

fn sighting(vehicle: &str, stop: &str, status: &str) -> FeedEntity {
    FeedEntity {
        id: format!("entity-{}", vehicle),
        is_deleted: None,
        trip_update: None,
        vehicle: Some(VehiclePosition {
            trip: None,
            vehicle: Some(VehicleDescriptor { id: Some(vehicle.to_string()), label: None }),
            current_stop_sequence: None,
            stop_id: Some(stop.to_string()),
            current_status: Some(status.to_string()),
            timestamp: Some(1_500_000_000),
        }),
    }
}

fn feed(entity: Vec<FeedEntity>) -> FeedMessage {
    FeedMessage { header: FeedHeader { timestamp: None }, entity }
}

fn event(kind: MovementKind, vehicle: &str, stop: &str) -> MovementEvent {
    MovementEvent { kind, vehicle_id: vehicle.to_string(), stop_id: stop.to_string() }
}

fn snapshot(stop: &str, status: VehicleStatus) -> Snapshot {
    Snapshot { stop_id: stop.to_string(), status }
}

fn sorted(mut events: Vec<MovementEvent>) -> Vec<(String, String, bool)> {
    let mut keys: Vec<(String, String, bool)> = events
        .drain(..)
        .map(|e| (e.vehicle_id, e.stop_id, e.kind == MovementKind::Arrived))
        .collect();
    keys.sort();
    keys
}

#[test]
fn a_first_sighting_only_sets_the_baseline() {
    let (next, events) =
        process_vehicle_positions(&feed(vec![sighting("V", "S1", "STOPPED_AT")]), &PositionMap::new());
    assert!(events.is_empty());
    assert_eq!(next.len(), 1);
    assert_eq!(next.get("V"), Some(&snapshot("S1", VehicleStatus::StoppedAt)));
}

#[test]
fn the_same_feed_twice_gives_no_event_the_second_time() {
    let msg = feed(vec![
        sighting("A", "S1", "STOPPED_AT"),
        sighting("B", "S2", "INCOMING_AT"),
        sighting("C", "S3", "IN_TRANSIT_TO"),
    ]);
    let (first, _) = process_vehicle_positions(&msg, &PositionMap::new());
    let (second, events) = process_vehicle_positions(&msg, &first);
    assert!(events.is_empty());
    assert_eq!(second.len(), 3);
    assert_eq!(second.get("A"), first.get("A"));
    assert_eq!(second.get("B"), first.get("B"));
    assert_eq!(second.get("C"), first.get("C"));
}

#[test]
fn a_feed_that_contradicts_itself_may_move_on_the_second_reading() {
    let msg = feed(vec![sighting("V", "S1", "STOPPED_AT"), sighting("V", "S1", "INCOMING_AT")]);
    let (first, _) = process_vehicle_positions(&msg, &PositionMap::new());
    assert_eq!(first.get("V"), Some(&snapshot("S1", VehicleStatus::IncomingAt)));
    let (_, events) = process_vehicle_positions(&msg, &first);
    assert_eq!(events, vec![event(MovementKind::Arrived, "V", "S1")]);
}

#[test]
fn the_order_of_entities_does_not_matter() {
    let mut previous = PositionMap::new();
    previous.insert("A".to_string(), "S1".to_string(), VehicleStatus::IncomingAt);
    previous.insert("B".to_string(), "S2".to_string(), VehicleStatus::StoppedAt);
    previous.insert("C".to_string(), "S3".to_string(), VehicleStatus::InTransitTo);
    let a = sighting("A", "S1", "STOPPED_AT");
    let b = sighting("B", "S9", "IN_TRANSIT_TO");
    let c = sighting("C", "S3", "IN_TRANSIT_TO");
    let d = sighting("D", "S4", "STOPPED_AT");
    let forward = feed(vec![a.clone(), b.clone(), c.clone(), d.clone()]);
    let backward = feed(vec![d, c, b, a]);
    let (next_forward, events_forward) = process_vehicle_positions(&forward, &previous);
    let (next_backward, events_backward) = process_vehicle_positions(&backward, &previous);
    assert_eq!(
        events_forward,
        vec![event(MovementKind::Arrived, "A", "S1"), event(MovementKind::Departed, "B", "S2")]
    );
    assert_eq!(
        events_backward,
        vec![event(MovementKind::Departed, "B", "S2"), event(MovementKind::Arrived, "A", "S1")]
    );
    assert_eq!(sorted(events_forward), sorted(events_backward));
    assert_eq!(next_forward.len(), 4);
    assert_eq!(next_backward.len(), 4);
    for vehicle in ["A", "B", "C", "D"] {
        assert!(next_forward.contains(vehicle));
        assert_eq!(next_forward.get(vehicle), next_backward.get(vehicle));
    }
}

#[test]
fn a_vehicle_arrives_and_then_departs() {
    let start = PositionMap::new();
    let (after_one, events_one) =
        process_vehicle_positions(&feed(vec![sighting("V", "S1", "IN_TRANSIT_TO")]), &start);
    assert!(events_one.is_empty());
    assert_eq!(after_one.get("V"), Some(&snapshot("S1", VehicleStatus::InTransitTo)));

    let (after_two, events_two) =
        process_vehicle_positions(&feed(vec![sighting("V", "S1", "STOPPED_AT")]), &after_one);
    assert_eq!(events_two, vec![event(MovementKind::Arrived, "V", "S1")]);
    assert_eq!(after_two.get("V"), Some(&snapshot("S1", VehicleStatus::StoppedAt)));

    let (after_three, events_three) =
        process_vehicle_positions(&feed(vec![sighting("V", "S2", "IN_TRANSIT_TO")]), &after_two);
    assert_eq!(events_three, vec![event(MovementKind::Departed, "V", "S1")]);
    assert_eq!(after_three.len(), 1);
    assert_eq!(after_three.get("V"), Some(&snapshot("S2", VehicleStatus::InTransitTo)));
}

#[test]
fn a_vehicle_missing_from_the_feed_is_dropped() {
    let mut previous = PositionMap::new();
    previous.insert("A".to_string(), "S1".to_string(), VehicleStatus::StoppedAt);
    previous.insert("B".to_string(), "S2".to_string(), VehicleStatus::StoppedAt);
    let (next, events) =
        process_vehicle_positions(&feed(vec![sighting("B", "S2", "STOPPED_AT")]), &previous);
    assert!(events.is_empty());
    assert_eq!(next.len(), 1);
    assert!(!next.contains("A"));
    assert_eq!(next.get("A"), None);
    assert!(next.contains("B"));
}

#[test]
fn an_incomplete_entity_is_passed_over() {
    let mut previous = PositionMap::new();
    previous.insert("V".to_string(), "S1".to_string(), VehicleStatus::IncomingAt);

    let mut no_position = sighting("V", "S1", "STOPPED_AT");
    no_position.vehicle = None;

    let mut no_descriptor = sighting("V", "S1", "STOPPED_AT");
    no_descriptor.vehicle.as_mut().unwrap().vehicle = None;

    let mut no_id = sighting("V", "S1", "STOPPED_AT");
    no_id.vehicle.as_mut().unwrap().vehicle = Some(VehicleDescriptor { id: None, label: None });

    let mut no_stop = sighting("V", "S1", "STOPPED_AT");
    no_stop.vehicle.as_mut().unwrap().stop_id = None;

    let mut no_status = sighting("V", "S1", "STOPPED_AT");
    no_status.vehicle.as_mut().unwrap().current_status = None;

    let msg = feed(vec![no_position, no_descriptor, no_id, no_stop, no_status]);
    let (next, events) = process_vehicle_positions(&msg, &previous);
    assert!(events.is_empty());
    assert_eq!(next.len(), 0);
}

#[test]
fn an_unrecognized_status_is_passed_over() {
    let mut previous = PositionMap::new();
    previous.insert("V".to_string(), "S1".to_string(), VehicleStatus::IncomingAt);
    let (next, events) =
        process_vehicle_positions(&feed(vec![sighting("V", "S1", "PARKED_AT")]), &previous);
    assert!(events.is_empty());
    assert_eq!(next.len(), 0);
}

#[test]
fn the_last_report_of_a_vehicle_stays() {
    let msg = feed(vec![sighting("V", "S1", "STOPPED_AT"), sighting("V", "S2", "INCOMING_AT")]);
    let (next, _) = process_vehicle_positions(&msg, &PositionMap::new());
    assert_eq!(next.len(), 1);
    assert_eq!(next.get("V"), Some(&snapshot("S2", VehicleStatus::IncomingAt)));
}

#[test]
fn an_empty_feed_leaves_an_empty_map() {
    let mut previous = PositionMap::new();
    previous.insert("V".to_string(), "S1".to_string(), VehicleStatus::StoppedAt);
    let (next, events) = process_vehicle_positions(&feed(vec![]), &previous);
    assert!(events.is_empty());
    assert_eq!(next.len(), 0);
}

#[test]
fn a_cycle_without_a_feed_keeps_the_positions() {
    let mut previous = PositionMap::new();
    previous.insert("V".to_string(), "S1".to_string(), VehicleStatus::IncomingAt);
    let (kept, events) = do_run(None, previous);
    assert!(events.is_empty());
    assert_eq!(kept.len(), 1);
    assert_eq!(kept.get("V"), Some(&snapshot("S1", VehicleStatus::IncomingAt)));

    let msg = feed(vec![sighting("V", "S1", "STOPPED_AT")]);
    let (next, events) = do_run(Some(&msg), kept);
    assert_eq!(events, vec![event(MovementKind::Arrived, "V", "S1")]);
    assert_eq!(next.get("V"), Some(&snapshot("S1", VehicleStatus::StoppedAt)));
}

#[test]
fn positions_are_read_every_two_seconds() {
    assert_eq!(POLL_INTERVAL_MS, 2000);
}
