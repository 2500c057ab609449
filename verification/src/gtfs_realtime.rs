//! The normalized feed message: a header and a list of entities, each of
//! which may carry a trip update or a vehicle position. Every field that a
//! feed may leave out is an `Option`.

use vstd::prelude::*;

verus! {

#[derive(Clone, Debug, PartialEq, Eq)]
pub struct FeedMessage {
    pub header: FeedHeader,
    pub entity: Vec<FeedEntity>,
}

#[derive(Clone, Debug, PartialEq, Eq)]
pub struct FeedHeader {
    pub timestamp: Option<u64>,
}

#[derive(Clone, Debug, PartialEq, Eq)]
pub struct FeedEntity {
    pub id: String,
    pub is_deleted: Option<bool>,
    pub trip_update: Option<TripUpdate>,
    pub vehicle: Option<VehiclePosition>,
}

#[derive(Clone, Debug, PartialEq, Eq)]
pub struct TripUpdate {
    pub trip: TripDescriptor,
    pub vehicle: Option<VehicleDescriptor>,
    pub stop_time_update: Vec<TripUpdateStopTimeUpdate>,
    pub timestamp: Option<u64>,
}

#[derive(Clone, Debug, PartialEq, Eq)]
pub struct TripUpdateStopTimeEvent {
    pub delay: Option<i32>,
    pub time: Option<i64>,
    pub uncertainty: Option<i32>,
}

#[derive(Clone, Debug, PartialEq, Eq)]
pub struct TripUpdateStopTimeUpdate {
    pub stop_sequence: Option<u32>,
    pub stop_id: Option<String>,
    pub arrival: Option<TripUpdateStopTimeEvent>,
    pub departure: Option<TripUpdateStopTimeEvent>,
    pub schedule_relationship: Option<String>,
    pub boarding_status: Option<String>,
}

#[derive(Clone, Debug, PartialEq, Eq)]
pub struct VehiclePosition {
    pub trip: Option<TripDescriptor>,
    pub vehicle: Option<VehicleDescriptor>,
    pub current_stop_sequence: Option<u32>,
    pub stop_id: Option<String>,
    pub current_status: Option<String>,
    pub timestamp: Option<u64>,
}

#[derive(Clone, Debug, PartialEq, Eq)]
pub struct TripDescriptor {
    pub trip_id: Option<String>,
    pub route_id: Option<String>,
    pub direction_id: Option<u32>,
    pub schedule_relationship: Option<String>,
}

#[derive(Clone, Debug, PartialEq, Eq)]
pub struct VehicleDescriptor {
    pub id: Option<String>,
    pub label: Option<String>,
}

} // verus!
