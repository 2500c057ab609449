use transit_tracker::movement::{
    classify, record_movement, touched_one_row, MovementEvent, MovementKind, VehicleStatus,
};

const STATUSES: [VehicleStatus; 3] =
    [VehicleStatus::IncomingAt, VehicleStatus::StoppedAt, VehicleStatus::InTransitTo];

#[test]
fn parse_reads_the_three_status_names() {
    assert_eq!(VehicleStatus::parse("INCOMING_AT"), Some(VehicleStatus::IncomingAt));
    assert_eq!(VehicleStatus::parse("STOPPED_AT"), Some(VehicleStatus::StoppedAt));
    assert_eq!(VehicleStatus::parse("IN_TRANSIT_TO"), Some(VehicleStatus::InTransitTo));
}

#[test]
fn parse_turns_down_any_other_text() {
    assert_eq!(VehicleStatus::parse(""), None);
    assert_eq!(VehicleStatus::parse("stopped_at"), None);
    assert_eq!(VehicleStatus::parse("STOPPED_AT "), None);
    assert_eq!(VehicleStatus::parse("DWELLING"), None);
}

#[test]
fn two_of_nine_pairs_arrive_at_an_unchanged_stop() {
    let mut arrivals = 0;
    for old in STATUSES {
        for new in STATUSES {
            match classify(true, old, new) {
                Some(MovementKind::Arrived) => arrivals += 1,
                Some(MovementKind::Departed) => panic!("departure at an unchanged stop"),
                None => {}
            }
        }
    }
    assert_eq!(arrivals, 2);
    assert_eq!(
        classify(true, VehicleStatus::IncomingAt, VehicleStatus::StoppedAt),
        Some(MovementKind::Arrived)
    );
    assert_eq!(
        classify(true, VehicleStatus::InTransitTo, VehicleStatus::StoppedAt),
        Some(MovementKind::Arrived)
    );
}

#[test]
fn two_of_nine_pairs_depart_from_a_changed_stop() {
    let mut departures = 0;
    for old in STATUSES {
        for new in STATUSES {
            match classify(false, old, new) {
                Some(MovementKind::Departed) => departures += 1,
                Some(MovementKind::Arrived) => panic!("arrival at a changed stop"),
                None => {}
            }
        }
    }
    assert_eq!(departures, 2);
    assert_eq!(
        classify(false, VehicleStatus::StoppedAt, VehicleStatus::InTransitTo),
        Some(MovementKind::Departed)
    );
    assert_eq!(
        classify(false, VehicleStatus::StoppedAt, VehicleStatus::IncomingAt),
        Some(MovementKind::Departed)
    );
}

#[test]
fn an_arrival_is_at_the_new_stop() {
    let event = record_movement(
        "y1234",
        "70061",
        VehicleStatus::InTransitTo,
        "70061",
        VehicleStatus::StoppedAt,
    );
    assert_eq!(
        event,
        Some(MovementEvent {
            kind: MovementKind::Arrived,
            vehicle_id: "y1234".to_string(),
            stop_id: "70061".to_string(),
        })
    );
}

#[test]
fn a_departure_is_from_the_old_stop() {
    let event = record_movement(
        "y1234",
        "70061",
        VehicleStatus::StoppedAt,
        "70063",
        VehicleStatus::IncomingAt,
    );
    assert_eq!(
        event,
        Some(MovementEvent {
            kind: MovementKind::Departed,
            vehicle_id: "y1234".to_string(),
            stop_id: "70061".to_string(),
        })
    );
}

#[test]
fn an_unchanged_sighting_is_no_movement() {
    for status in STATUSES {
        assert_eq!(record_movement("v", "s", status, "s", status), None);
    }
}

#[test]
fn a_stopped_vehicle_at_a_new_stop_is_no_movement() {
    assert_eq!(
        record_movement("v", "a", VehicleStatus::InTransitTo, "b", VehicleStatus::StoppedAt),
        None
    );
    assert_eq!(
        record_movement("v", "a", VehicleStatus::StoppedAt, "b", VehicleStatus::StoppedAt),
        None
    );
}

#[test]
fn only_one_touched_row_is_expected() {
    assert!(touched_one_row(1));
    assert!(!touched_one_row(0));
    assert!(!touched_one_row(2));
}
