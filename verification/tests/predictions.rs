use transit_tracker::gtfs_realtime::{
    FeedEntity, FeedHeader, FeedMessage, TripDescriptor, TripUpdate, TripUpdateStopTimeEvent,
    TripUpdateStopTimeUpdate, VehicleDescriptor,
};
use transit_tracker::predictions::{
    build_predictions, process_trip_updates, Prediction, POLL_INTERVAL_MS,
};
use transit_tracker::time::Timestamp;

fn at(time: i64) -> Option<TripUpdateStopTimeEvent> {
    Some(TripUpdateStopTimeEvent { delay: None, time: Some(time), uncertainty: None })
}

fn stop_time(
    stop: &str,
    sequence: u32,
    arrival: Option<TripUpdateStopTimeEvent>,
    departure: Option<TripUpdateStopTimeEvent>,
) -> TripUpdateStopTimeUpdate {
    TripUpdateStopTimeUpdate {
        stop_sequence: Some(sequence),
        stop_id: Some(stop.to_string()),
        arrival,
        departure,
        schedule_relationship: None,
        boarding_status: None,
    }
}

fn trip(
    trip_id: &str,
    direction: u32,
    vehicle: &str,
    updates: Vec<TripUpdateStopTimeUpdate>,
) -> FeedEntity {
    FeedEntity {
        id: format!("entity-{}", trip_id),
        is_deleted: None,
        trip_update: Some(TripUpdate {
            trip: TripDescriptor {
                trip_id: Some(trip_id.to_string()),
                route_id: Some("Red".to_string()),
                direction_id: Some(direction),
                schedule_relationship: None,
            },
            vehicle: Some(VehicleDescriptor { id: Some(vehicle.to_string()), label: None }),
            stop_time_update: updates,
            timestamp: None,
        }),
        vehicle: None,
    }
}

fn message(entity: Vec<FeedEntity>) -> FeedMessage {
    FeedMessage { header: FeedHeader { timestamp: Some(1_500_000_000) }, entity }
}

fn stamp() -> Timestamp {
    Timestamp { secs: 1_500_000_000, nanos: 250_000_000 }
}

fn row(trip_id: &str, vehicle: &str, stop: &str, sequence: i32, direction: i32) -> Prediction {
    Prediction {
        file_at: stamp(),
        trip_id: trip_id.to_string(),
        vehicle_id: vehicle.to_string(),
        stop_id: stop.to_string(),
        stop_sequence: sequence,
        direction_id: direction,
        predicted_arrive_at: None,
        predicted_depart_at: None,
        boarding_status: None,
        nth_at_stop: None,
        actual_arrive_at: None,
        actual_depart_at: None,
    }
}

#[test]
fn each_stop_time_update_gives_one_row() {
    let mut boarding = stop_time("70063", 20, at(1_500_000_200), at(1_500_000_230));
    boarding.boarding_status = Some("Now boarding".to_string());
    let msg = message(vec![
        trip("T1", 0, "V1", vec![stop_time("70061", 10, at(1_500_000_100), None), boarding]),
        trip("T2", 1, "V2", vec![stop_time("70061", 3, None, at(1_500_000_300))]),
    ]);
    let batch = build_predictions(stamp(), &msg);

    let mut first = row("T1", "V1", "70061", 10, 0);
    first.predicted_arrive_at = Some(Timestamp { secs: 1_500_000_100, nanos: 0 });
    let mut second = row("T1", "V1", "70063", 20, 0);
    second.predicted_arrive_at = Some(Timestamp { secs: 1_500_000_200, nanos: 0 });
    second.predicted_depart_at = Some(Timestamp { secs: 1_500_000_230, nanos: 0 });
    second.boarding_status = Some("Now boarding".to_string());
    let mut third = row("T2", "V2", "70061", 3, 1);
    third.predicted_depart_at = Some(Timestamp { secs: 1_500_000_300, nanos: 0 });

    assert_eq!(batch, vec![first, second, third]);
}

#[test]
fn an_event_without_a_time_predicts_nothing() {
    let untimed = Some(TripUpdateStopTimeEvent { delay: Some(30), time: None, uncertainty: None });
    let msg = message(vec![trip("T1", 0, "V1", vec![stop_time("70061", 1, untimed, None)])]);
    let batch = build_predictions(stamp(), &msg);
    assert_eq!(batch, vec![row("T1", "V1", "70061", 1, 0)]);
}

#[test]
fn an_update_without_stop_or_sequence_is_passed_over() {
    let mut no_stop = stop_time("70061", 1, at(10), None);
    no_stop.stop_id = None;
    let mut no_sequence = stop_time("70063", 2, at(20), None);
    no_sequence.stop_sequence = None;
    let kept = stop_time("70065", 3, None, None);
    let msg = message(vec![trip("T1", 1, "V1", vec![no_stop, no_sequence, kept])]);
    let batch = build_predictions(stamp(), &msg);
    assert_eq!(batch, vec![row("T1", "V1", "70065", 3, 1)]);
}

#[test]
fn a_trip_without_its_ids_is_passed_over() {
    let mut no_update = trip("T0", 0, "V0", vec![stop_time("s", 1, None, None)]);
    no_update.trip_update = None;

    let mut no_trip_id = trip("T1", 0, "V1", vec![stop_time("s", 1, None, None)]);
    no_trip_id.trip_update.as_mut().unwrap().trip.trip_id = None;

    let mut no_direction = trip("T2", 0, "V2", vec![stop_time("s", 1, None, None)]);
    no_direction.trip_update.as_mut().unwrap().trip.direction_id = None;

    let mut no_vehicle = trip("T3", 0, "V3", vec![stop_time("s", 1, None, None)]);
    no_vehicle.trip_update.as_mut().unwrap().vehicle = None;

    let mut no_vehicle_id = trip("T4", 0, "V4", vec![stop_time("s", 1, None, None)]);
    no_vehicle_id.trip_update.as_mut().unwrap().vehicle =
        Some(VehicleDescriptor { id: None, label: Some("1701".to_string()) });

    let complete = trip("T5", 1, "V5", vec![stop_time("s", 7, None, None)]);

    let msg =
        message(vec![no_update, no_trip_id, no_direction, no_vehicle, no_vehicle_id, complete]);
    let batch = build_predictions(stamp(), &msg);
    assert_eq!(batch, vec![row("T5", "V5", "s", 7, 1)]);
}

#[test]
fn an_empty_feed_gives_an_empty_batch() {
    assert!(build_predictions(stamp(), &message(vec![])).is_empty());
    let no_updates = message(vec![trip("T1", 0, "V1", vec![])]);
    assert!(build_predictions(stamp(), &no_updates).is_empty());
}

#[test]
fn a_large_sequence_number_wraps_as_the_column_does() {
    let msg = message(vec![trip("T1", 4_294_967_295, "V1", vec![stop_time("s", 2_147_483_648, None, None)])]);
    let batch = build_predictions(stamp(), &msg);
    assert_eq!(batch, vec![row("T1", "V1", "s", i32::MIN, -1)]);
}

#[test]
fn a_batch_shares_one_fresh_stamp() {
    let msg = message(vec![
        trip("T1", 0, "V1", vec![stop_time("a", 1, at(5), None), stop_time("b", 2, at(6), None)]),
        trip("T2", 0, "V2", vec![stop_time("a", 1, at(7), None)]),
    ]);
    let (file_at, batch) = process_trip_updates(&msg);
    assert_eq!(batch.len(), 3);
    for prediction in &batch {
        assert_eq!(prediction.file_at, file_at);
    }
    assert_eq!(batch, build_predictions(file_at, &msg));
    assert!(file_at.secs > 1_500_000_000);
}

#[test]
fn trip_updates_are_read_every_minute() {
    assert_eq!(POLL_INTERVAL_MS, 60_000);
}
