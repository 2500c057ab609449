//! Prediction rows and the batch that one trip-update feed gives rise to.

use crate::gtfs_realtime::{
    FeedEntity, FeedMessage, TripUpdateStopTimeEvent, TripUpdateStopTimeUpdate,
};
use crate::text::{copy_optional_text, text_of};
use crate::time::{now, Timestamp};
use vstd::prelude::*;

verus! {

/// The pause between two readings of the trip-update feed, in milliseconds.
pub const POLL_INTERVAL_MS: u64 = 60_000;

/// One row of the `predictions` table. Its key is
/// `(file_at, trip_id, vehicle_id, stop_id)`.
#[derive(Clone, Debug, PartialEq, Eq)]
pub struct Prediction {
    pub file_at: Timestamp,
    pub trip_id: String,
    pub vehicle_id: String,
    pub stop_id: String,
    pub stop_sequence: i32,
    pub direction_id: i32,
    pub predicted_arrive_at: Option<Timestamp>,
    pub predicted_depart_at: Option<Timestamp>,
    pub boarding_status: Option<String>,
    pub nth_at_stop: Option<i32>,
    pub actual_arrive_at: Option<Timestamp>,
    pub actual_depart_at: Option<Timestamp>,
}

/// A prediction row with its texts as character sequences.
pub struct PredictionView {
    pub file_at: Timestamp,
    pub trip_id: Seq<char>,
    pub vehicle_id: Seq<char>,
    pub stop_id: Seq<char>,
    pub stop_sequence: i32,
    pub direction_id: i32,
    pub predicted_arrive_at: Option<Timestamp>,
    pub predicted_depart_at: Option<Timestamp>,
    pub boarding_status: Option<Seq<char>>,
    pub nth_at_stop: Option<i32>,
    pub actual_arrive_at: Option<Timestamp>,
    pub actual_depart_at: Option<Timestamp>,
}

impl View for Prediction {
    type V = PredictionView;

    open spec fn view(&self) -> PredictionView {
        PredictionView {
            file_at: self.file_at,
            trip_id: self.trip_id@,
            vehicle_id: self.vehicle_id@,
            stop_id: self.stop_id@,
            stop_sequence: self.stop_sequence,
            direction_id: self.direction_id,
            predicted_arrive_at: self.predicted_arrive_at,
            predicted_depart_at: self.predicted_depart_at,
            boarding_status: text_of(self.boarding_status),
            nth_at_stop: self.nth_at_stop,
            actual_arrive_at: self.actual_arrive_at,
            actual_depart_at: self.actual_depart_at,
        }
    }
}

/// The rows of a table, each by its view.
pub open spec fn rows_of(table: Seq<Prediction>) -> Seq<PredictionView> {
    table.map_values(|p: Prediction| p@)
}

/// The key of a prediction row.
pub open spec fn prediction_key(row: PredictionView) -> (
    Timestamp,
    Seq<char>,
    Seq<char>,
    Seq<char>,
) {
    (row.file_at, row.trip_id, row.vehicle_id, row.stop_id)
}

/// No two prediction rows have the same key.
pub open spec fn predictions_distinct(rows: Seq<PredictionView>) -> bool {
    forall|i: int, j: int|
        0 <= i < j < rows.len() ==> prediction_key(#[trigger] rows[i]) != prediction_key(
            #[trigger] rows[j],
        )
}

/// The instant that a stop-time event predicts: its epoch seconds, where
/// the event is there and carries a time.
pub open spec fn predicted_time(event: Option<TripUpdateStopTimeEvent>) -> Option<Timestamp> {
    match event {
        Some(e) => match e.time {
            Some(secs) => Some(Timestamp { secs, nanos: 0 }),
            None => None,
        },
        None => None,
    }
}

/// The row that one stop-time update of a trip gives, or `None` where the
/// update names no stop or no stop sequence. The stop sequence and the
/// direction are kept in 32 signed bits, as the table keeps them, so a number
/// above `i32::MAX` wraps around. A fresh row has no rank and no actual
/// times.
pub open spec fn stop_time_row(
    file_at: Timestamp,
    trip_id: Seq<char>,
    direction_id: u32,
    vehicle_id: Seq<char>,
    update: TripUpdateStopTimeUpdate,
) -> Option<PredictionView> {
    match (update.stop_id, update.stop_sequence) {
        (Some(stop_id), Some(stop_sequence)) => Some(
            PredictionView {
                file_at,
                trip_id,
                vehicle_id,
                stop_id: stop_id@,
                stop_sequence: stop_sequence as i32,
                direction_id: direction_id as i32,
                predicted_arrive_at: predicted_time(update.arrival),
                predicted_depart_at: predicted_time(update.departure),
                boarding_status: text_of(update.boarding_status),
                nth_at_stop: None,
                actual_arrive_at: None,
                actual_depart_at: None,
            },
        ),
        _ => None,
    }
}

/// The rows of one trip update: one for each of its stop-time updates that
/// names a stop and a stop sequence, in their order.
pub open spec fn trip_rows(
    file_at: Timestamp,
    trip_id: Seq<char>,
    direction_id: u32,
    vehicle_id: Seq<char>,
    updates: Seq<TripUpdateStopTimeUpdate>,
) -> Seq<PredictionView> {
    updates.filter_map(
        |u: TripUpdateStopTimeUpdate| stop_time_row(file_at, trip_id, direction_id, vehicle_id, u),
    )
}

/// The rows of one feed entity. An entity counts only if it carries a trip
/// update whose trip has an id and a direction and whose vehicle has an id;
/// any other entity gives no row.
pub open spec fn entity_rows(file_at: Timestamp, entity: FeedEntity) -> Seq<PredictionView> {
    match entity.trip_update {
        Some(update) => match (update.trip.trip_id, update.trip.direction_id, update.vehicle) {
            (Some(trip_id), Some(direction_id), Some(vehicle)) => match vehicle.id {
                Some(vehicle_id) => trip_rows(
                    file_at,
                    trip_id@,
                    direction_id,
                    vehicle_id@,
                    update.stop_time_update@,
                ),
                None => Seq::empty(),
            },
            _ => Seq::empty(),
        },
        None => Seq::empty(),
    }
}

/// The batch of a feed: the rows of its entities, in feed order, all with
/// the one stamp `file_at`.
pub open spec fn batch_rows(file_at: Timestamp, entities: Seq<FeedEntity>) -> Seq<PredictionView> {
    entities.flat_map(|e: FeedEntity| entity_rows(file_at, e))
}

fn event_time(event: &Option<TripUpdateStopTimeEvent>) -> (t: Option<Timestamp>)
    ensures
        t == predicted_time(*event),
{
    match event {
        Some(e) => match e.time {
            Some(secs) => Some(Timestamp::from_epoch_seconds(secs)),
            None => None,
        },
        None => None,
    }
}

/// Appends the rows of one trip to `out`.
fn push_trip_rows(
    out: &mut Vec<Prediction>,
    file_at: Timestamp,
    trip_id: &String,
    direction_id: u32,
    vehicle_id: &String,
    updates: &Vec<TripUpdateStopTimeUpdate>,
)
    ensures
        rows_of(final(out)@) == rows_of(old(out)@) + trip_rows(
            file_at,
            trip_id@,
            direction_id,
            vehicle_id@,
            updates@,
        ),
{
    let ghost row = |u: TripUpdateStopTimeUpdate|
        stop_time_row(file_at, trip_id@, direction_id, vehicle_id@, u);
    let mut i: usize = 0;
    assert(updates@.take(0).filter_map(row) =~= Seq::empty());
    assert(rows_of(out@) + Seq::empty() =~= rows_of(out@));
    while i < updates.len()
        invariant
            i <= updates.len(),
            row == (|u: TripUpdateStopTimeUpdate|
                stop_time_row(file_at, trip_id@, direction_id, vehicle_id@, u)),
            rows_of(out@) == rows_of(old(out)@) + updates@.take(i as int).filter_map(row),
        decreases updates.len() - i,
    {
        let update = &updates[i];
        proof {
            updates@.lemma_filter_map_take_succ(row, i as int);
        }
        let ghost before = out@;
        match (&update.stop_id, &update.stop_sequence) {
            (Some(stop_id), Some(stop_sequence)) => {
                let prediction = Prediction {
                    file_at,
                    trip_id: trip_id.clone(),
                    vehicle_id: vehicle_id.clone(),
                    stop_id: stop_id.clone(),
                    stop_sequence: #[verifier::truncate]
                    (*stop_sequence as i32),
                    direction_id: #[verifier::truncate]
                    (direction_id as i32),
                    predicted_arrive_at: event_time(&update.arrival),
                    predicted_depart_at: event_time(&update.departure),
                    boarding_status: copy_optional_text(&update.boarding_status),
                    nth_at_stop: None,
                    actual_arrive_at: None,
                    actual_depart_at: None,
                };
                assert(Some(prediction@) == row(updates@[i as int]));
                out.push(prediction);
                assert(rows_of(out@) =~= rows_of(before).push(prediction@));
            },
            _ => {
                assert(row(updates@[i as int]) is None);
            },
        }
        i += 1;
    }
    assert(updates@.take(updates.len() as int) =~= updates@);
}

/// Builds the batch of a trip-update feed under the stamp `file_at`: one row
/// for each stop-time update that names a stop and a stop sequence, of each
/// trip update that names its trip, direction and vehicle. Updates and
/// entities that lack one of these give no row.
pub fn build_predictions(file_at: Timestamp, msg: &FeedMessage) -> (batch: Vec<Prediction>)
    ensures
        rows_of(batch@) == batch_rows(file_at, msg.entity@),
{
    let ghost rows = |e: FeedEntity| entity_rows(file_at, e);
    let mut batch: Vec<Prediction> = Vec::new();
    let mut i: usize = 0;
    assert(rows_of(batch@) =~= msg.entity@.take(0).flat_map(rows)) by {
        assert(msg.entity@.take(0).map_values(rows) =~= Seq::<Seq<PredictionView>>::empty());
    }
    while i < msg.entity.len()
        invariant
            i <= msg.entity.len(),
            rows == (|e: FeedEntity| entity_rows(file_at, e)),
            rows_of(batch@) == msg.entity@.take(i as int).flat_map(rows),
        decreases msg.entity.len() - i,
    {
        let entity = &msg.entity[i];
        proof {
            msg.entity@.lemma_flat_map_take_append(rows, i as int);
        }
        let ghost before = batch@;
        match &entity.trip_update {
            Some(update) => match (
                &update.trip.trip_id,
                &update.trip.direction_id,
                &update.vehicle,
            ) {
                (Some(trip_id), Some(direction_id), Some(vehicle)) => match &vehicle.id {
                    Some(vehicle_id) => {
                        push_trip_rows(
                            &mut batch,
                            file_at,
                            trip_id,
                            *direction_id,
                            vehicle_id,
                            &update.stop_time_update,
                        );
                    },
                    None => {},
                },
                _ => {},
            },
            None => {},
        }
        assert(rows_of(batch@) =~= rows_of(before) + rows(msg.entity@[i as int]));
        i += 1;
    }
    assert(msg.entity@.take(msg.entity.len() as int) =~= msg.entity@);
    batch
}

/// Stamps a batch with the current instant and builds it as
/// [`build_predictions`] does. The stamp is read from the system clock once,
/// before any row is built, and comes back with the rows, all of which
/// carry it. A clock that is set before the Unix epoch cannot be read.
pub fn process_trip_updates(msg: &FeedMessage) -> (r: (Timestamp, Vec<Prediction>))
    ensures
        rows_of(r.1@) == batch_rows(r.0, msg.entity@),
{
    let file_at = now();
    let batch = build_predictions(file_at, msg);
    (file_at, batch)
}

} // verus!
