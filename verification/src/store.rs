//! The two tables that movements and predictions are kept in, held in
//! memory, with the writes that the movement sink and the prediction
//! pipeline make to them.

use crate::movement::{Movement, MovementEvent, MovementEventView, MovementKind, MovementView};
use crate::predictions::{
    prediction_key, predictions_distinct, rows_of, Prediction, PredictionView,
};
use crate::ranking::{count_before, rank_of};
use crate::text::copy_optional_text;
use crate::time::Timestamp;
use vstd::prelude::*;

verus! {

/// The views of the rows of a movement table.
pub open spec fn stays_of(table: Seq<Movement>) -> Seq<MovementView> {
    table.map_values(|m: Movement| m@)
}

/// Whether a movement row is the one of vehicle `v` at stop `s`.
pub open spec fn same_stay(row: MovementView, v: Seq<char>, s: Seq<char>) -> bool {
    row.vehicle_id == v && row.stop_id == s
}

/// Whether the movement table has a row of vehicle `v` at stop `s`.
pub open spec fn has_stay(rows: Seq<MovementView>, v: Seq<char>, s: Seq<char>) -> bool {
    exists|i: int| 0 <= i < rows.len() && same_stay(#[trigger] rows[i], v, s)
}

/// No two movement rows have the same vehicle and stop.
pub open spec fn stays_distinct(rows: Seq<MovementView>) -> bool {
    forall|i: int, j: int|
        0 <= i < j < rows.len() ==> !same_stay(
            #[trigger] rows[i],
            (#[trigger] rows[j]).vehicle_id,
            rows[j].stop_id,
        )
}

/// Every stay that has ended has begun.
pub open spec fn stays_begun(rows: Seq<MovementView>) -> bool {
    forall|i: int|
        0 <= i < rows.len() ==> ((#[trigger] rows[i]).departed_at is Some
            ==> rows[i].arrived_at is Some)
}

/// A stay that begins at `at` and has not ended.
pub open spec fn fresh_stay(v: Seq<char>, s: Seq<char>, at: Timestamp) -> MovementView {
    MovementView { vehicle_id: v, stop_id: s, arrived_at: Some(at), departed_at: None }
}

/// A movement row after the arrival of vehicle `v` at stop `s`: the row of
/// that vehicle at that stop begins anew, any other row stays.
pub open spec fn restarted(
    row: MovementView,
    v: Seq<char>,
    s: Seq<char>,
    at: Timestamp,
) -> MovementView {
    if same_stay(row, v, s) {
        fresh_stay(v, s, at)
    } else {
        row
    }
}

/// The movement table after an arrival: the row of the vehicle at the stop
/// is overwritten by a fresh stay, or added where there was none.
pub open spec fn stays_after_arrival(
    rows: Seq<MovementView>,
    v: Seq<char>,
    s: Seq<char>,
    at: Timestamp,
) -> Seq<MovementView> {
    if has_stay(rows, v, s) {
        rows.map_values(|r: MovementView| restarted(r, v, s, at))
    } else {
        rows.push(fresh_stay(v, s, at))
    }
}

/// Whether a movement row is a stay of vehicle `v` at stop `s` that has
/// begun and not ended.
pub open spec fn open_stay(row: MovementView, v: Seq<char>, s: Seq<char>) -> bool {
    same_stay(row, v, s) && row.arrived_at is Some && row.departed_at is None
}

/// Whether the movement table has an open stay of vehicle `v` at stop `s`.
pub open spec fn has_open_stay(rows: Seq<MovementView>, v: Seq<char>, s: Seq<char>) -> bool {
    exists|i: int| 0 <= i < rows.len() && open_stay(#[trigger] rows[i], v, s)
}

/// A movement row after the departure of vehicle `v` from stop `s`: an
/// open stay of that vehicle at that stop ends at `at`, any other row stays.
pub open spec fn ended(
    row: MovementView,
    v: Seq<char>,
    s: Seq<char>,
    at: Timestamp,
) -> MovementView {
    if open_stay(row, v, s) {
        MovementView { departed_at: Some(at), ..row }
    } else {
        row
    }
}

/// The movement table after a departure.
pub open spec fn stays_after_departure(
    rows: Seq<MovementView>,
    v: Seq<char>,
    s: Seq<char>,
    at: Timestamp,
) -> Seq<MovementView> {
    rows.map_values(|r: MovementView| ended(r, v, s, at))
}

/// A prediction row after the arrival of vehicle `v` at stop `s`: a row of
/// that vehicle and stop that has no actual arrival yet gets `at`.
pub open spec fn with_actual_arrival(
    row: PredictionView,
    v: Seq<char>,
    s: Seq<char>,
    at: Timestamp,
) -> PredictionView {
    if row.vehicle_id == v && row.stop_id == s && row.actual_arrive_at is None {
        PredictionView { actual_arrive_at: Some(at), ..row }
    } else {
        row
    }
}

/// A prediction row after the departure of vehicle `v` from stop `s`: a row
/// of that vehicle and stop that has no actual departure yet gets `at`,
/// whether or not it has an actual arrival.
pub open spec fn with_actual_departure(
    row: PredictionView,
    v: Seq<char>,
    s: Seq<char>,
    at: Timestamp,
) -> PredictionView {
    if row.vehicle_id == v && row.stop_id == s && row.actual_depart_at is None {
        PredictionView { actual_depart_at: Some(at), ..row }
    } else {
        row
    }
}

/// A prediction row after the batch stamped `file_at` has been ranked
/// within `rows`: a row of that batch gets its rank, any other row stays.
pub open spec fn with_rank(
    rows: Seq<PredictionView>,
    row: PredictionView,
    file_at: Timestamp,
) -> PredictionView {
    if row.file_at == file_at {
        PredictionView { nth_at_stop: Some(rank_of(rows, row) as i32), ..row }
    } else {
        row
    }
}

/// Why a write to the store was turned down.
#[derive(Clone, Copy, Debug, PartialEq, Eq, Structural)]
pub enum StoreError {
    /// The write would have left two prediction rows under one key.
    DuplicateKey,
}

/// The contents of a store: the rows of its two tables.
pub struct StoreView {
    pub movements: Seq<MovementView>,
    pub predictions: Seq<PredictionView>,
}

impl StoreView {
    /// Each table holds at most one row under a key, and no stay has ended
    /// without having begun.
    pub open spec fn wf(self) -> bool {
        &&& stays_distinct(self.movements)
        &&& stays_begun(self.movements)
        &&& predictions_distinct(self.predictions)
    }

    /// The store after vehicle `v` has arrived at stop `s` at `at`: the
    /// movement row of the pair is a fresh stay, and every prediction of the
    /// pair that had no actual arrival has `at`.
    pub open spec fn arrived(self, v: Seq<char>, s: Seq<char>, at: Timestamp) -> StoreView {
        StoreView {
            movements: stays_after_arrival(self.movements, v, s, at),
            predictions: self.predictions.map_values(
                |p: PredictionView| with_actual_arrival(p, v, s, at),
            ),
        }
    }

    /// The store after vehicle `v` has departed from stop `s` at `at`: an
    /// open stay of the pair has ended, and every prediction of the pair
    /// that had no actual departure has `at`.
    pub open spec fn departed(self, v: Seq<char>, s: Seq<char>, at: Timestamp) -> StoreView {
        StoreView {
            movements: stays_after_departure(self.movements, v, s, at),
            predictions: self.predictions.map_values(
                |p: PredictionView| with_actual_departure(p, v, s, at),
            ),
        }
    }

    /// The store after a movement has been recorded at `at`.
    pub open spec fn moved(self, event: MovementEventView, at: Timestamp) -> StoreView {
        match event.kind {
            MovementKind::Arrived => self.arrived(event.vehicle_id, event.stop_id, at),
            MovementKind::Departed => self.departed(event.vehicle_id, event.stop_id, at),
        }
    }

    /// The store with a batch added behind the rows that it had.
    pub open spec fn with_batch(self, batch: Seq<PredictionView>) -> StoreView {
        StoreView { predictions: self.predictions + batch, ..self }
    }

    /// The store after the batch stamped `file_at` has been ranked: each of
    /// its rows holds its rank among the rows of the table, which only rows
    /// of its own batch and stop can raise.
    pub open spec fn ranked(self, file_at: Timestamp) -> StoreView {
        StoreView {
            predictions: self.predictions.map_values(
                |p: PredictionView| with_rank(self.predictions, p, file_at),
            ),
            ..self
        }
    }
}

/// The movement and prediction tables.
pub struct Store {
    movements: Vec<Movement>,
    predictions: Vec<Prediction>,
}

impl View for Store {
    type V = StoreView;

    closed spec fn view(&self) -> StoreView {
        StoreView { movements: stays_of(self.movements@), predictions: rows_of(self.predictions@) }
    }
}

fn copy_stay(row: &Movement) -> (r: Movement)
    ensures
        r@ == row@,
{
    Movement {
        vehicle_id: row.vehicle_id.clone(),
        stop_id: row.stop_id.clone(),
        arrived_at: row.arrived_at,
        departed_at: row.departed_at,
    }
}

fn copy_row(row: &Prediction) -> (r: Prediction)
    ensures
        r@ == row@,
{
    Prediction {
        file_at: row.file_at,
        trip_id: row.trip_id.clone(),
        vehicle_id: row.vehicle_id.clone(),
        stop_id: row.stop_id.clone(),
        stop_sequence: row.stop_sequence,
        direction_id: row.direction_id,
        predicted_arrive_at: row.predicted_arrive_at,
        predicted_depart_at: row.predicted_depart_at,
        boarding_status: copy_optional_text(&row.boarding_status),
        nth_at_stop: row.nth_at_stop,
        actual_arrive_at: row.actual_arrive_at,
        actual_depart_at: row.actual_depart_at,
    }
}

fn is_stay_of(row: &Movement, vehicle_id: &str, stop_id: &str) -> (b: bool)
    ensures
        b == same_stay(row@, vehicle_id@, stop_id@),
{
    row.vehicle_id.as_str().eq(vehicle_id) && row.stop_id.as_str().eq(stop_id)
}

fn is_row_of(row: &Prediction, vehicle_id: &str, stop_id: &str) -> (b: bool)
    ensures
        b == (row@.vehicle_id == vehicle_id@ && row@.stop_id == stop_id@),
{
    row.vehicle_id.as_str().eq(vehicle_id) && row.stop_id.as_str().eq(stop_id)
}

fn movements_with_arrival(
    rows: &Vec<Movement>,
    vehicle_id: &str,
    stop_id: &str,
    at: Timestamp,
) -> (out: Vec<Movement>)
    ensures
        stays_of(out@) == stays_after_arrival(stays_of(rows@), vehicle_id@, stop_id@, at),
{
    let ghost old_rows = stays_of(rows@);
    let ghost restart = |r: MovementView| restarted(r, vehicle_id@, stop_id@, at);
    let mut out: Vec<Movement> = Vec::new();
    let mut found = false;
    let mut i: usize = 0;
    assert(stays_of(out@) =~= old_rows.take(0).map_values(restart));
    while i < rows.len()
        invariant
            i <= rows.len(),
            old_rows == stays_of(rows@),
            restart == (|r: MovementView| restarted(r, vehicle_id@, stop_id@, at)),
            stays_of(out@) == old_rows.take(i as int).map_values(restart),
            found == has_stay(old_rows.take(i as int), vehicle_id@, stop_id@),
        decreases rows.len() - i,
    {
        let row = &rows[i];
        let ghost before = out@;
        let ghost seen = old_rows.take(i as int);
        let ghost seen_next = old_rows.take(i + 1);
        assert(seen_next =~= seen.push(row@));
        if is_stay_of(row, vehicle_id, stop_id) {
            let stay = Movement {
                vehicle_id: row.vehicle_id.clone(),
                stop_id: row.stop_id.clone(),
                arrived_at: Some(at),
                departed_at: None,
            };
            out.push(stay);
            found = true;
            assert(stays_of(out@) =~= stays_of(before).push(stay@));
            assert(same_stay(seen_next[i as int], vehicle_id@, stop_id@));
        } else {
            let stay = copy_stay(row);
            out.push(stay);
            assert(stays_of(out@) =~= stays_of(before).push(stay@));
            proof {
                if has_stay(seen_next, vehicle_id@, stop_id@) {
                    let j = choose|j: int|
                        0 <= j < seen_next.len() && same_stay(
                            #[trigger] seen_next[j],
                            vehicle_id@,
                            stop_id@,
                        );
                    assert(same_stay(seen[j], vehicle_id@, stop_id@));
                }
                if has_stay(seen, vehicle_id@, stop_id@) {
                    let j = choose|j: int|
                        0 <= j < seen.len() && same_stay(#[trigger] seen[j], vehicle_id@, stop_id@);
                    assert(same_stay(seen_next[j], vehicle_id@, stop_id@));
                }
            }
        }
        assert(stays_of(out@) =~= seen_next.map_values(restart));
        i += 1;
    }
    assert(old_rows.take(rows.len() as int) =~= old_rows);
    if !found {
        let ghost before = out@;
        assert(stays_of(before) =~= old_rows) by {
            assert forall|j: int| 0 <= j < old_rows.len() implies restart(old_rows[j])
                == old_rows[j] by {
                assert(!same_stay(old_rows[j], vehicle_id@, stop_id@));
            }
        }
        let stay = Movement {
            vehicle_id: vehicle_id.to_owned(),
            stop_id: stop_id.to_owned(),
            arrived_at: Some(at),
            departed_at: None,
        };
        out.push(stay);
        assert(stays_of(out@) =~= stays_of(before).push(stay@));
    }
    out
}

fn movements_with_departure(
    rows: &Vec<Movement>,
    vehicle_id: &str,
    stop_id: &str,
    at: Timestamp,
) -> (r: (Vec<Movement>, bool))
    ensures
        stays_of(r.0@) == stays_after_departure(stays_of(rows@), vehicle_id@, stop_id@, at),
        r.1 == has_open_stay(stays_of(rows@), vehicle_id@, stop_id@),
{
    let ghost old_rows = stays_of(rows@);
    let ghost end = |r: MovementView| ended(r, vehicle_id@, stop_id@, at);
    let mut out: Vec<Movement> = Vec::new();
    let mut closed = false;
    let mut i: usize = 0;
    assert(stays_of(out@) =~= old_rows.take(0).map_values(end));
    while i < rows.len()
        invariant
            i <= rows.len(),
            old_rows == stays_of(rows@),
            end == (|r: MovementView| ended(r, vehicle_id@, stop_id@, at)),
            stays_of(out@) == old_rows.take(i as int).map_values(end),
            closed == has_open_stay(old_rows.take(i as int), vehicle_id@, stop_id@),
        decreases rows.len() - i,
    {
        let row = &rows[i];
        let ghost before = out@;
        let ghost seen = old_rows.take(i as int);
        let ghost seen_next = old_rows.take(i + 1);
        assert(seen_next =~= seen.push(row@));
        if is_stay_of(row, vehicle_id, stop_id) && row.arrived_at.is_some()
            && row.departed_at.is_none() {
            let stay = Movement {
                vehicle_id: row.vehicle_id.clone(),
                stop_id: row.stop_id.clone(),
                arrived_at: row.arrived_at,
                departed_at: Some(at),
            };
            out.push(stay);
            closed = true;
            assert(stays_of(out@) =~= stays_of(before).push(stay@));
            assert(open_stay(seen_next[i as int], vehicle_id@, stop_id@));
        } else {
            let stay = copy_stay(row);
            out.push(stay);
            assert(stays_of(out@) =~= stays_of(before).push(stay@));
            proof {
                if has_open_stay(seen_next, vehicle_id@, stop_id@) {
                    let j = choose|j: int|
                        0 <= j < seen_next.len() && open_stay(
                            #[trigger] seen_next[j],
                            vehicle_id@,
                            stop_id@,
                        );
                    assert(open_stay(seen[j], vehicle_id@, stop_id@));
                }
                if has_open_stay(seen, vehicle_id@, stop_id@) {
                    let j = choose|j: int|
                        0 <= j < seen.len() && open_stay(#[trigger] seen[j], vehicle_id@, stop_id@);
                    assert(open_stay(seen_next[j], vehicle_id@, stop_id@));
                }
            }
        }
        assert(stays_of(out@) =~= seen_next.map_values(end));
        i += 1;
    }
    assert(old_rows.take(rows.len() as int) =~= old_rows);
    (out, closed)
}

fn predictions_with_arrival(
    rows: &Vec<Prediction>,
    vehicle_id: &str,
    stop_id: &str,
    at: Timestamp,
) -> (out: Vec<Prediction>)
    ensures
        rows_of(out@) == rows_of(rows@).map_values(
            |p: PredictionView| with_actual_arrival(p, vehicle_id@, stop_id@, at),
        ),
{
    let ghost old_rows = rows_of(rows@);
    let ghost fill = |p: PredictionView| with_actual_arrival(p, vehicle_id@, stop_id@, at);
    let mut out: Vec<Prediction> = Vec::new();
    let mut i: usize = 0;
    assert(rows_of(out@) =~= old_rows.take(0).map_values(fill));
    while i < rows.len()
        invariant
            i <= rows.len(),
            old_rows == rows_of(rows@),
            fill == (|p: PredictionView| with_actual_arrival(p, vehicle_id@, stop_id@, at)),
            rows_of(out@) == old_rows.take(i as int).map_values(fill),
        decreases rows.len() - i,
    {
        let mut row = copy_row(&rows[i]);
        let ghost before = out@;
        if is_row_of(&row, vehicle_id, stop_id) && row.actual_arrive_at.is_none() {
            row.actual_arrive_at = Some(at);
        }
        out.push(row);
        assert(rows_of(out@) =~= rows_of(before).push(row@));
        assert(rows_of(out@) =~= old_rows.take(i + 1).map_values(fill));
        i += 1;
    }
    assert(old_rows.take(rows.len() as int) =~= old_rows);
    out
}

fn predictions_with_departure(
    rows: &Vec<Prediction>,
    vehicle_id: &str,
    stop_id: &str,
    at: Timestamp,
) -> (out: Vec<Prediction>)
    ensures
        rows_of(out@) == rows_of(rows@).map_values(
            |p: PredictionView| with_actual_departure(p, vehicle_id@, stop_id@, at),
        ),
{
    let ghost old_rows = rows_of(rows@);
    let ghost fill = |p: PredictionView| with_actual_departure(p, vehicle_id@, stop_id@, at);
    let mut out: Vec<Prediction> = Vec::new();
    let mut i: usize = 0;
    assert(rows_of(out@) =~= old_rows.take(0).map_values(fill));
    while i < rows.len()
        invariant
            i <= rows.len(),
            old_rows == rows_of(rows@),
            fill == (|p: PredictionView| with_actual_departure(p, vehicle_id@, stop_id@, at)),
            rows_of(out@) == old_rows.take(i as int).map_values(fill),
        decreases rows.len() - i,
    {
        let mut row = copy_row(&rows[i]);
        let ghost before = out@;
        if is_row_of(&row, vehicle_id, stop_id) && row.actual_depart_at.is_none() {
            row.actual_depart_at = Some(at);
        }
        out.push(row);
        assert(rows_of(out@) =~= rows_of(before).push(row@));
        assert(rows_of(out@) =~= old_rows.take(i + 1).map_values(fill));
        i += 1;
    }
    assert(old_rows.take(rows.len() as int) =~= old_rows);
    out
}

fn has_same_key(a: &Prediction, b: &Prediction) -> (same: bool)
    ensures
        same == (prediction_key(a@) == prediction_key(b@)),
{
    a.file_at == b.file_at && a.trip_id.as_str().eq(b.trip_id.as_str())
        && a.vehicle_id.as_str().eq(b.vehicle_id.as_str()) && a.stop_id.as_str().eq(
        b.stop_id.as_str(),
    )
}

/// Whether one of the first `upto` rows has the key of `candidate`.
fn holds_key(rows: &Vec<Prediction>, upto: usize, candidate: &Prediction) -> (held: bool)
    requires
        upto <= rows.len(),
    ensures
        held == exists|i: int|
            0 <= i < upto && prediction_key(#[trigger] rows_of(rows@)[i]) == prediction_key(
                candidate@,
            ),
{
    let mut i: usize = 0;
    while i < upto
        invariant
            i <= upto <= rows.len(),
            forall|j: int|
                0 <= j < i ==> prediction_key(#[trigger] rows_of(rows@)[j]) != prediction_key(
                    candidate@,
                ),
        decreases upto - i,
    {
        if has_same_key(&rows[i], candidate) {
            assert(prediction_key(rows_of(rows@)[i as int]) == prediction_key(candidate@));
            return true;
        }
        i += 1;
    }
    false
}

/// Whether the rows of `batch` can join `rows` without two rows sharing a key.
fn batch_fits(rows: &Vec<Prediction>, batch: &Vec<Prediction>) -> (fits: bool)
    requires
        predictions_distinct(rows_of(rows@)),
    ensures
        fits == predictions_distinct(rows_of(rows@) + rows_of(batch@)),
{
    let ghost all = rows_of(rows@) + rows_of(batch@);
    let ghost n = rows@.len() as int;
    let mut k: usize = 0;
    assert(all.take(n) =~= rows_of(rows@));
    while k < batch.len()
        invariant
            k <= batch.len(),
            n == rows@.len(),
            all == rows_of(rows@) + rows_of(batch@),
            predictions_distinct(all.take(n + k)),
        decreases batch.len() - k,
    {
        let candidate = &batch[k];
        assert(all[n + k] == candidate@);
        let held = holds_key(rows, rows.len(), candidate);
        let repeated = holds_key(batch, k, candidate);
        if held || repeated {
            proof {
                let i = if held {
                    choose|i: int|
                        0 <= i < n && prediction_key(#[trigger] rows_of(rows@)[i])
                            == prediction_key(candidate@)
                } else {
                    n + choose|i: int|
                        0 <= i < k && prediction_key(#[trigger] rows_of(batch@)[i])
                            == prediction_key(candidate@)
                };
                assert(prediction_key(all[i]) == prediction_key(all[n + k]));
            }
            return false;
        }
        proof {
            let seen = all.take(n + k);
            let next = all.take(n + k + 1);
            assert forall|i: int, j: int| 0 <= i < j < next.len() implies prediction_key(
                #[trigger] next[i],
            ) != prediction_key(#[trigger] next[j]) by {
                if j < n + k {
                    assert(prediction_key(seen[i]) != prediction_key(seen[j]));
                } else if i < n {
                    assert(next[i] == rows_of(rows@)[i]);
                } else {
                    assert(next[i] == rows_of(batch@)[i - n]);
                }
            }
        }
        k += 1;
    }
    assert(all.take(n + batch.len()) =~= all);
    true
}

fn predictions_with_ranks(rows: &Vec<Prediction>, file_at: Timestamp) -> (out: Vec<Prediction>)
    requires
        rows@.len() < i32::MAX,
    ensures
        rows_of(out@) == rows_of(rows@).map_values(
            |p: PredictionView| with_rank(rows_of(rows@), p, file_at),
        ),
{
    let ghost old_rows = rows_of(rows@);
    let ghost rank = |p: PredictionView| with_rank(old_rows, p, file_at);
    let mut out: Vec<Prediction> = Vec::new();
    let mut i: usize = 0;
    assert(rows_of(out@) =~= old_rows.take(0).map_values(rank));
    while i < rows.len()
        invariant
            i <= rows.len(),
            rows@.len() < i32::MAX,
            old_rows == rows_of(rows@),
            rank == (|p: PredictionView| with_rank(old_rows, p, file_at)),
            rows_of(out@) == old_rows.take(i as int).map_values(rank),
        decreases rows.len() - i,
    {
        let mut row = copy_row(&rows[i]);
        let ghost before = out@;
        if row.file_at == file_at {
            let count = count_before(rows, &row);
            row.nth_at_stop = Some((count + 1) as i32);
        }
        out.push(row);
        assert(rows_of(out@) =~= rows_of(before).push(row@));
        assert(rows_of(out@) =~= old_rows.take(i + 1).map_values(rank));
        i += 1;
    }
    assert(old_rows.take(rows.len() as int) =~= old_rows);
    out
}

/// The rows of `rows`, then those of `batch`.
fn with_batch_behind(rows: &Vec<Prediction>, batch: Vec<Prediction>) -> (out: Vec<Prediction>)
    ensures
        rows_of(out@) == rows_of(rows@) + rows_of(batch@),
{
    let mut out: Vec<Prediction> = Vec::new();
    let mut i: usize = 0;
    assert(rows_of(out@) =~= rows_of(rows@).take(0));
    while i < rows.len()
        invariant
            i <= rows.len(),
            rows_of(out@) == rows_of(rows@).take(i as int),
        decreases rows.len() - i,
    {
        let row = copy_row(&rows[i]);
        let ghost before = out@;
        out.push(row);
        assert(rows_of(out@) =~= rows_of(before).push(row@));
        assert(rows_of(out@) =~= rows_of(rows@).take(i + 1));
        i += 1;
    }
    assert(rows_of(rows@).take(rows.len() as int) =~= rows_of(rows@));
    let ghost copied = out@;
    let mut batch = batch;
    let ghost added = batch@;
    out.append(&mut batch);
    assert(rows_of(out@) =~= rows_of(copied) + rows_of(added));
    out
}

/// Ranking leaves a well-formed store well-formed.
pub proof fn lemma_ranking_keeps_store_in_order(store: StoreView, file_at: Timestamp)
    requires
        store.wf(),
    ensures
        store.ranked(file_at).wf(),
{
    let after = store.ranked(file_at);
    assert forall|i: int, j: int| 0 <= i < j < after.predictions.len() implies prediction_key(
        #[trigger] after.predictions[i],
    ) != prediction_key(#[trigger] after.predictions[j]) by {
        assert(prediction_key(store.predictions[i]) != prediction_key(store.predictions[j]));
    }
}

/// An arrival leaves a well-formed store well-formed.
pub proof fn lemma_arrival_keeps_store_in_order(
    store: StoreView,
    v: Seq<char>,
    s: Seq<char>,
    at: Timestamp,
)
    requires
        store.wf(),
    ensures
        store.arrived(v, s, at).wf(),
{
    let after = store.arrived(v, s, at);
    assert forall|i: int, j: int| 0 <= i < j < after.movements.len() implies !same_stay(
        #[trigger] after.movements[i],
        (#[trigger] after.movements[j]).vehicle_id,
        after.movements[j].stop_id,
    ) by {
        if has_stay(store.movements, v, s) {
            assert(!same_stay(
                store.movements[i],
                store.movements[j].vehicle_id,
                store.movements[j].stop_id,
            ));
        } else if j < store.movements.len() {
            assert(!same_stay(
                store.movements[i],
                store.movements[j].vehicle_id,
                store.movements[j].stop_id,
            ));
        } else {
            assert(!same_stay(store.movements[i], v, s));
        }
    }
    assert forall|i: int, j: int| 0 <= i < j < after.predictions.len() implies prediction_key(
        #[trigger] after.predictions[i],
    ) != prediction_key(#[trigger] after.predictions[j]) by {
        assert(prediction_key(store.predictions[i]) != prediction_key(store.predictions[j]));
    }
}

/// A departure leaves a well-formed store well-formed.
pub proof fn lemma_departure_keeps_store_in_order(
    store: StoreView,
    v: Seq<char>,
    s: Seq<char>,
    at: Timestamp,
)
    requires
        store.wf(),
    ensures
        store.departed(v, s, at).wf(),
{
    let after = store.departed(v, s, at);
    assert forall|i: int, j: int| 0 <= i < j < after.movements.len() implies !same_stay(
        #[trigger] after.movements[i],
        (#[trigger] after.movements[j]).vehicle_id,
        after.movements[j].stop_id,
    ) by {
        assert(!same_stay(
            store.movements[i],
            store.movements[j].vehicle_id,
            store.movements[j].stop_id,
        ));
    }
    assert forall|i: int, j: int| 0 <= i < j < after.predictions.len() implies prediction_key(
        #[trigger] after.predictions[i],
    ) != prediction_key(#[trigger] after.predictions[j]) by {
        assert(prediction_key(store.predictions[i]) != prediction_key(store.predictions[j]));
    }
}

/// A vehicle that arrives at a stop and later departs from it leaves one
/// movement row for the pair, and that row holds both instants, whatever
/// the table held of the pair before.
pub proof fn lemma_arrival_then_departure(
    store: StoreView,
    v: Seq<char>,
    s: Seq<char>,
    t1: Timestamp,
    t2: Timestamp,
)
    requires
        store.wf(),
    ensures
        ({
            let after = store.arrived(v, s, t1).departed(v, s, t2);
            &&& after.wf()
            &&& exists|i: int|
                0 <= i < after.movements.len() && #[trigger] after.movements[i] == (MovementView {
                    vehicle_id: v,
                    stop_id: s,
                    arrived_at: Some(t1),
                    departed_at: Some(t2),
                })
            &&& forall|i: int, j: int|
                0 <= i < after.movements.len() && 0 <= j < after.movements.len() && same_stay(
                    #[trigger] after.movements[i],
                    v,
                    s,
                ) && same_stay(#[trigger] after.movements[j], v, s) ==> i == j
        }),
{
    let between = store.arrived(v, s, t1);
    let after = between.departed(v, s, t2);
    lemma_arrival_keeps_store_in_order(store, v, s, t1);
    lemma_departure_keeps_store_in_order(between, v, s, t2);
    let i = if has_stay(store.movements, v, s) {
        choose|i: int|
            0 <= i < store.movements.len() && same_stay(#[trigger] store.movements[i], v, s)
    } else {
        store.movements.len() as int
    };
    assert(between.movements[i] == fresh_stay(v, s, t1));
    assert(after.movements[i] == (MovementView {
        vehicle_id: v,
        stop_id: s,
        arrived_at: Some(t1),
        departed_at: Some(t2),
    }));
    assert forall|i: int, j: int|
        0 <= i < after.movements.len() && 0 <= j < after.movements.len() && same_stay(
            #[trigger] after.movements[i],
            v,
            s,
        ) && same_stay(#[trigger] after.movements[j], v, s) implies i == j by {
        if i < j {
            assert(!same_stay(
                after.movements[i],
                after.movements[j].vehicle_id,
                after.movements[j].stop_id,
            ));
        } else if j < i {
            assert(!same_stay(
                after.movements[j],
                after.movements[i].vehicle_id,
                after.movements[i].stop_id,
            ));
        }
    }
}

/// An arrival reaches every prediction of the vehicle at the stop that has
/// no actual arrival yet, from whichever batch it is, and leaves every other
/// prediction as it was.
pub proof fn lemma_arrival_fills_every_open_prediction(
    store: StoreView,
    v: Seq<char>,
    s: Seq<char>,
    at: Timestamp,
)
    ensures
        store.arrived(v, s, at).predictions.len() == store.predictions.len(),
        forall|i: int|
            #![trigger store.predictions[i]]
            0 <= i < store.predictions.len() ==> store.arrived(v, s, at).predictions[i] == (if {
                &&& store.predictions[i].vehicle_id == v
                &&& store.predictions[i].stop_id == s
                &&& store.predictions[i].actual_arrive_at is None
            } {
                PredictionView { actual_arrive_at: Some(at), ..store.predictions[i] }
            } else {
                store.predictions[i]
            }),
{
}

/// A departure reaches every prediction of the vehicle at the stop that has
/// no actual departure yet, whether or not it has an actual arrival, and
/// leaves every other prediction as it was.
pub proof fn lemma_departure_fills_every_open_prediction(
    store: StoreView,
    v: Seq<char>,
    s: Seq<char>,
    at: Timestamp,
)
    ensures
        store.departed(v, s, at).predictions.len() == store.predictions.len(),
        forall|i: int|
            #![trigger store.predictions[i]]
            0 <= i < store.predictions.len() ==> store.departed(v, s, at).predictions[i] == (if {
                &&& store.predictions[i].vehicle_id == v
                &&& store.predictions[i].stop_id == s
                &&& store.predictions[i].actual_depart_at is None
            } {
                PredictionView { actual_depart_at: Some(at), ..store.predictions[i] }
            } else {
                store.predictions[i]
            }),
{
}

impl Store {
    #[verifier::type_invariant]
    spec fn in_order(&self) -> bool {
        self@.wf()
    }

    /// A store with two empty tables.
    pub fn new() -> (store: Store)
        ensures
            store@.movements.len() == 0,
            store@.predictions.len() == 0,
            store@.wf(),
    {
        Store { movements: Vec::new(), predictions: Vec::new() }
    }

    /// The rows of the movement table.
    pub fn movements(&self) -> (rows: &Vec<Movement>)
        ensures
            stays_of(rows@) == self@.movements,
            self@.wf(),
    {
        proof {
            use_type_invariant(self);
        }
        &self.movements
    }

    /// The rows of the prediction table.
    pub fn predictions(&self) -> (rows: &Vec<Prediction>)
        ensures
            rows_of(rows@) == self@.predictions,
            self@.wf(),
    {
        proof {
            use_type_invariant(self);
        }
        &self.predictions
    }

    /// Records that a vehicle has arrived at a stop at `at`. Its movement
    /// row begins a fresh stay, whatever it held before, and every prediction
    /// of the vehicle at the stop that had no actual arrival gets `at`.
    pub fn train_arrived(&mut self, vehicle_id: &str, stop_id: &str, at: Timestamp)
        ensures
            final(self)@ == old(self)@.arrived(vehicle_id@, stop_id@, at),
            final(self)@.wf(),
    {
        proof {
            use_type_invariant(&*self);
            lemma_arrival_keeps_store_in_order(self@, vehicle_id@, stop_id@, at);
        }
        let movements = movements_with_arrival(&self.movements, vehicle_id, stop_id, at);
        let predictions = predictions_with_arrival(&self.predictions, vehicle_id, stop_id, at);
        self.movements = movements;
        self.predictions = predictions;
    }

    /// Records that a vehicle has departed from a stop at `at`. Its stay at
    /// the stop ends if it had begun and not ended; the result says whether
    /// there was such a stay. Every prediction of the vehicle at the stop
    /// that had no actual departure gets `at`.
    pub fn train_departed(&mut self, vehicle_id: &str, stop_id: &str, at: Timestamp) -> (closed:
        bool)
        ensures
            final(self)@ == old(self)@.departed(vehicle_id@, stop_id@, at),
            closed == has_open_stay(old(self)@.movements, vehicle_id@, stop_id@),
            final(self)@.wf(),
    {
        proof {
            use_type_invariant(&*self);
            lemma_departure_keeps_store_in_order(self@, vehicle_id@, stop_id@, at);
        }
        let (movements, closed) = movements_with_departure(
            &self.movements,
            vehicle_id,
            stop_id,
            at,
        );
        let predictions = predictions_with_departure(&self.predictions, vehicle_id, stop_id, at);
        self.movements = movements;
        self.predictions = predictions;
        closed
    }
    /// Records a movement at `at`: an arrival as [`Store::train_arrived`]
    /// does, a departure as [`Store::train_departed`] does. The result says
    /// whether the movement found the one movement row that it is about: an
    /// arrival always does, a departure only where a stay was open.
    pub fn record(&mut self, event: &MovementEvent, at: Timestamp) -> (found: bool)
        ensures
            final(self)@ == old(self)@.moved(event@, at),
            found == match event@.kind {
                MovementKind::Arrived => true,
                MovementKind::Departed => has_open_stay(
                    old(self)@.movements,
                    event@.vehicle_id,
                    event@.stop_id,
                ),
            },
            final(self)@.wf(),
    {
        match event.kind {
            MovementKind::Arrived => {
                self.train_arrived(event.vehicle_id.as_str(), event.stop_id.as_str(), at);
                true
            },
            MovementKind::Departed => self.train_departed(
                event.vehicle_id.as_str(),
                event.stop_id.as_str(),
                at,
            ),
        }
    }

    /// The movement row of a vehicle at a stop, if the table has one.
    pub fn movement(&self, vehicle_id: &str, stop_id: &str) -> (row: Option<&Movement>)
        ensures
            match row {
                Some(r) => same_stay(r@, vehicle_id@, stop_id@) && self@.movements.contains(r@),
                None => !has_stay(self@.movements, vehicle_id@, stop_id@),
            },
    {
        let mut i: usize = 0;
        while i < self.movements.len()
            invariant
                i <= self.movements.len(),
                forall|j: int|
                    0 <= j < i ==> !same_stay(
                        #[trigger] stays_of(self.movements@)[j],
                        vehicle_id@,
                        stop_id@,
                    ),
            decreases self.movements.len() - i,
        {
            if is_stay_of(&self.movements[i], vehicle_id, stop_id) {
                assert(stays_of(self.movements@)[i as int] == self.movements[i as int]@);
                return Some(&self.movements[i]);
            }
            i += 1;
        }
        None
    }

    /// Adds a batch of predictions in one step. Where the table would then
    /// hold two rows under one key, nothing is added and the batch is turned
    /// down; otherwise all its rows are added, behind those already there, and
    /// their number is returned.
    pub fn insert_batch(&mut self, batch: Vec<Prediction>) -> (added: Result<usize, StoreError>)
        ensures
            predictions_distinct(old(self)@.predictions + rows_of(batch@)) ==> added == Ok::<
                usize,
                StoreError,
            >(batch@.len() as usize) && final(self)@ == old(self)@.with_batch(rows_of(batch@)),
            !predictions_distinct(old(self)@.predictions + rows_of(batch@)) ==> added == Err::<
                usize,
                StoreError,
            >(StoreError::DuplicateKey) && final(self)@ == old(self)@,
            final(self)@.wf(),
    {
        proof {
            use_type_invariant(&*self);
        }
        if !batch_fits(&self.predictions, &batch) {
            return Err(StoreError::DuplicateKey);
        }
        let count = batch.len();
        let predictions = with_batch_behind(&self.predictions, batch);
        self.predictions = predictions;
        Ok(count)
    }

    /// Ranks the batch stamped `file_at`: each of its rows gets, as
    /// `nth_at_stop`, one more than the number of rows of its batch and stop
    /// that are ranked before it. Rows of other batches stay as they are; a
    /// stamp that no row carries changes nothing. The table must be short
    /// enough for every rank to fit the column.
    pub fn rank_batch(&mut self, file_at: Timestamp)
        requires
            old(self)@.predictions.len() < i32::MAX,
        ensures
            final(self)@ == old(self)@.ranked(file_at),
            final(self)@.wf(),
    {
        proof {
            use_type_invariant(&*self);
            lemma_ranking_keeps_store_in_order(self@, file_at);
        }
        let predictions = predictions_with_ranks(&self.predictions, file_at);
        self.predictions = predictions;
    }
}

} // verus!
