//! Vehicle statuses and the movements that two successive statuses of one
//! vehicle reveal.

use crate::time::Timestamp;
use vstd::prelude::*;

verus! {

/// What a vehicle is doing with respect to its current stop.
#[derive(Clone, Copy, Debug, PartialEq, Eq, Structural)]
pub enum VehicleStatus {
    IncomingAt,
    StoppedAt,
    InTransitTo,
}

/// The two movements that are told apart.
#[derive(Clone, Copy, Debug, PartialEq, Eq, Structural)]
pub enum MovementKind {
    Arrived,
    Departed,
}

/// A movement of a vehicle at a stop.
#[derive(Clone, Debug, PartialEq, Eq)]
pub struct MovementEvent {
    pub kind: MovementKind,
    pub vehicle_id: String,
    pub stop_id: String,
}

/// A movement with its texts as character sequences.
pub struct MovementEventView {
    pub kind: MovementKind,
    pub vehicle_id: Seq<char>,
    pub stop_id: Seq<char>,
}

impl View for MovementEvent {
    type V = MovementEventView;

    open spec fn view(&self) -> MovementEventView {
        MovementEventView { kind: self.kind, vehicle_id: self.vehicle_id@, stop_id: self.stop_id@ }
    }
}

/// One row of the `vehicle_movements` table: the latest stay of a vehicle
/// at a stop. Its key is `(vehicle_id, stop_id)`.
#[derive(Clone, Debug, PartialEq, Eq)]
pub struct Movement {
    pub vehicle_id: String,
    pub stop_id: String,
    pub arrived_at: Option<Timestamp>,
    pub departed_at: Option<Timestamp>,
}

/// A movement row with its texts as character sequences.
pub struct MovementView {
    pub vehicle_id: Seq<char>,
    pub stop_id: Seq<char>,
    pub arrived_at: Option<Timestamp>,
    pub departed_at: Option<Timestamp>,
}

impl View for Movement {
    type V = MovementView;

    open spec fn view(&self) -> MovementView {
        MovementView {
            vehicle_id: self.vehicle_id@,
            stop_id: self.stop_id@,
            arrived_at: self.arrived_at,
            departed_at: self.departed_at,
        }
    }
}

impl VehicleStatus {
    /// The status that a feed's status text names, if it names one.
    pub open spec fn parse_text(text: Seq<char>) -> Option<VehicleStatus> {
        if text == "INCOMING_AT"@ {
            Some(VehicleStatus::IncomingAt)
        } else if text == "STOPPED_AT"@ {
            Some(VehicleStatus::StoppedAt)
        } else if text == "IN_TRANSIT_TO"@ {
            Some(VehicleStatus::InTransitTo)
        } else {
            None
        }
    }

    /// Reads a status text. An unrecognized text gives `None`.
    pub fn parse(text: &str) -> (status: Option<VehicleStatus>)
        ensures
            status == Self::parse_text(text@),
    {
        if text.eq("INCOMING_AT") {
            Some(VehicleStatus::IncomingAt)
        } else if text.eq("STOPPED_AT") {
            Some(VehicleStatus::StoppedAt)
        } else if text.eq("IN_TRANSIT_TO") {
            Some(VehicleStatus::InTransitTo)
        } else {
            None
        }
    }
}

/// The movement that a change of status reveals. At an unchanged stop, a
/// vehicle that was incoming or in transit and is now stopped has arrived.
/// At a changed stop, a vehicle that was stopped and is now in transit or
/// incoming has departed. Nothing else is a movement.
pub open spec fn movement_kind(
    same_stop: bool,
    old_status: VehicleStatus,
    new_status: VehicleStatus,
) -> Option<MovementKind> {
    if same_stop {
        if new_status == VehicleStatus::StoppedAt && (old_status == VehicleStatus::IncomingAt
            || old_status == VehicleStatus::InTransitTo) {
            Some(MovementKind::Arrived)
        } else {
            None
        }
    } else {
        if old_status == VehicleStatus::StoppedAt && (new_status == VehicleStatus::InTransitTo
            || new_status == VehicleStatus::IncomingAt) {
            Some(MovementKind::Departed)
        } else {
            None
        }
    }
}

/// The movement of a vehicle between two sightings. An arrival is at the
/// new stop, a departure is from the old one.
pub open spec fn movement_between(
    vehicle_id: Seq<char>,
    old_stop_id: Seq<char>,
    old_status: VehicleStatus,
    new_stop_id: Seq<char>,
    new_status: VehicleStatus,
) -> Option<MovementEventView> {
    match movement_kind(old_stop_id == new_stop_id, old_status, new_status) {
        Some(MovementKind::Arrived) => Some(
            MovementEventView { kind: MovementKind::Arrived, vehicle_id, stop_id: new_stop_id },
        ),
        Some(MovementKind::Departed) => Some(
            MovementEventView { kind: MovementKind::Departed, vehicle_id, stop_id: old_stop_id },
        ),
        None => None,
    }
}

/// The ordered pairs of an old and a new status that are a movement.
pub open spec fn moving_pairs(same_stop: bool) -> Set<(VehicleStatus, VehicleStatus)> {
    Set::new(|p: (VehicleStatus, VehicleStatus)| movement_kind(same_stop, p.0, p.1) is Some)
}

/// There are nine ordered pairs of statuses. With the stop unchanged exactly
/// two of them are a movement, and both are arrivals; with the stop changed
/// exactly two are a movement, and both are departures.
pub proof fn lemma_two_pairs_in_nine_move(same_stop: bool)
    ensures
        Set::<(VehicleStatus, VehicleStatus)>::full().finite(),
        Set::<(VehicleStatus, VehicleStatus)>::full().len() == 9,
        moving_pairs(same_stop).finite(),
        moving_pairs(same_stop).len() == 2,
        forall|old_status: VehicleStatus, new_status: VehicleStatus|
            #![trigger movement_kind(same_stop, old_status, new_status)]
            movement_kind(same_stop, old_status, new_status) is Some ==> movement_kind(
                same_stop,
                old_status,
                new_status,
            ) == Some(
                if same_stop {
                    MovementKind::Arrived
                } else {
                    MovementKind::Departed
                },
            ),
{
    let incoming = VehicleStatus::IncomingAt;
    let stopped = VehicleStatus::StoppedAt;
    let transit = VehicleStatus::InTransitTo;
    let all = set![
        (incoming, incoming),
        (incoming, stopped),
        (incoming, transit),
        (stopped, incoming),
        (stopped, stopped),
        (stopped, transit),
        (transit, incoming),
        (transit, stopped),
        (transit, transit),
    ];
    assert forall|p: (VehicleStatus, VehicleStatus)| all.contains(p) by {
        assert(p == (p.0, p.1));
        assert(p.0 == incoming || p.0 == stopped || p.0 == transit);
        assert(p.1 == incoming || p.1 == stopped || p.1 == transit);
    }
    assert(Set::<(VehicleStatus, VehicleStatus)>::full() =~= all);
    let moving = if same_stop {
        set![(incoming, stopped), (transit, stopped)]
    } else {
        set![(stopped, transit), (stopped, incoming)]
    };
    assert forall|p: (VehicleStatus, VehicleStatus)|
        moving_pairs(same_stop).contains(p) implies moving.contains(p) by {
        assert(p == (p.0, p.1));
    }
    assert(moving_pairs(same_stop) =~= moving);
}

/// The view of an optional movement.
pub open spec fn event_view(event: Option<MovementEvent>) -> Option<MovementEventView> {
    match event {
        Some(e) => Some(e@),
        None => None,
    }
}

/// Classifies a change of status.
pub fn classify(same_stop: bool, old_status: VehicleStatus, new_status: VehicleStatus) -> (kind:
    Option<MovementKind>)
    ensures
        kind == movement_kind(same_stop, old_status, new_status),
{
    if same_stop {
        match (old_status, new_status) {
            (VehicleStatus::IncomingAt, VehicleStatus::StoppedAt) => Some(MovementKind::Arrived),
            (VehicleStatus::InTransitTo, VehicleStatus::StoppedAt) => Some(MovementKind::Arrived),
            _ => None,
        }
    } else {
        match (old_status, new_status) {
            (VehicleStatus::StoppedAt, VehicleStatus::InTransitTo) => Some(MovementKind::Departed),
            (VehicleStatus::StoppedAt, VehicleStatus::IncomingAt) => Some(MovementKind::Departed),
            _ => None,
        }
    }
}

/// Whether a write for a movement touched the one movement row that it is
/// about. Any other number of rows, none included, deserves a warning.
pub fn touched_one_row(rows: u64) -> (one: bool)
    ensures
        one == (rows == 1),
{
    rows == 1
}

/// Compares the old sighting of a vehicle with the new one and gives the
/// movement between them, if there is one.
pub fn record_movement(
    vehicle_id: &str,
    old_stop_id: &str,
    old_status: VehicleStatus,
    new_stop_id: &str,
    new_status: VehicleStatus,
) -> (event: Option<MovementEvent>)
    ensures
        event_view(event) == movement_between(
            vehicle_id@,
            old_stop_id@,
            old_status,
            new_stop_id@,
            new_status,
        ),
{
    match classify(old_stop_id.eq(new_stop_id), old_status, new_status) {
        Some(MovementKind::Arrived) => Some(
            MovementEvent {
                kind: MovementKind::Arrived,
                vehicle_id: vehicle_id.to_owned(),
                stop_id: new_stop_id.to_owned(),
            },
        ),
        Some(MovementKind::Departed) => Some(
            MovementEvent {
                kind: MovementKind::Departed,
                vehicle_id: vehicle_id.to_owned(),
                stop_id: old_stop_id.to_owned(),
            },
        ),
        None => None,
    }
}

} // verus!
