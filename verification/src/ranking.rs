//! The order in which the predictions of one batch reach one stop.
//!
//! Rows are ordered by the earlier of their two predicted instants; a row
//! with neither comes after every row that has one. Rows with equal instants
//! are ordered by trip id, then by vehicle id, each compared character by
//! character as Unicode scalar values. Within one batch and stop no two rows
//! share both ids, so the order leaves no two rows tied.

use crate::predictions::{
    prediction_key, predictions_distinct, rows_of, Prediction, PredictionView,
};
use crate::text::{
    is_text_before, lemma_text_not_before_itself, lemma_text_order_is_transitive,
    lemma_texts_are_ordered, text_before,
};
use crate::time::earliest;
use vstd::prelude::*;

verus! {

/// The instant by which a row is ordered: the earlier of its predicted
/// arrival and departure.
pub open spec fn sort_key(row: PredictionView) -> Option<int> {
    earliest(row.predicted_arrive_at, row.predicted_depart_at)
}

/// Whether sort key `a` comes before sort key `b`. An absent key comes last.
pub open spec fn key_before(a: Option<int>, b: Option<int>) -> bool {
    match (a, b) {
        (Some(x), Some(y)) => x < y,
        (Some(_), None) => true,
        (None, _) => false,
    }
}

/// Whether `a` wins a tie against `b`.
pub open spec fn tie_before(a: PredictionView, b: PredictionView) -> bool {
    text_before(a.trip_id, b.trip_id) || (a.trip_id == b.trip_id && text_before(
        a.vehicle_id,
        b.vehicle_id,
    ))
}

/// Whether `a` and `b` belong to one batch and stop.
pub open spec fn same_group(a: PredictionView, b: PredictionView) -> bool {
    a.file_at == b.file_at && a.stop_id == b.stop_id
}

/// Whether row `a` is ranked before row `b`: both belong to one batch and
/// stop, and `a` has the earlier sort key or wins the tie.
pub open spec fn ranks_before(a: PredictionView, b: PredictionView) -> bool {
    same_group(a, b) && (key_before(sort_key(a), sort_key(b)) || (sort_key(a) == sort_key(b)
        && tie_before(a, b)))
}

/// The rank of a row among the rows of a table: one more than the number
/// of rows that are ranked before it.
pub open spec fn rank_of(rows: Seq<PredictionView>, row: PredictionView) -> nat {
    1 + rows.filter(|q: PredictionView| ranks_before(q, row)).len()
}

/// The sort key of a row.
pub fn sort_instant(row: &Prediction) -> (key: Option<i128>)
    ensures
        match key {
            Some(k) => sort_key(row@) == Some(k as int),
            None => sort_key(row@) is None,
        },
{
    match (&row.predicted_arrive_at, &row.predicted_depart_at) {
        (Some(x), Some(y)) => {
            let a = x.nanos_since_epoch();
            let d = y.nanos_since_epoch();
            if a <= d {
                Some(a)
            } else {
                Some(d)
            }
        },
        (Some(x), None) => Some(x.nanos_since_epoch()),
        (None, Some(y)) => Some(y.nanos_since_epoch()),
        (None, None) => None,
    }
}

/// Whether row `a` is ranked before row `b`.
pub fn is_ranked_before(a: &Prediction, b: &Prediction) -> (before: bool)
    ensures
        before == ranks_before(a@, b@),
{
    if !(a.file_at == b.file_at && a.stop_id.as_str().eq(b.stop_id.as_str())) {
        return false;
    }
    let ka = sort_instant(a);
    let kb = sort_instant(b);
    let tied = match (ka, kb) {
        (Some(x), Some(y)) => {
            if x < y {
                return true;
            }
            x == y
        },
        (Some(_), None) => {
            return true;
        },
        (None, Some(_)) => false,
        (None, None) => true,
    };
    if !tied {
        return false;
    }
    if is_text_before(a.trip_id.as_str(), b.trip_id.as_str()) {
        return true;
    }
    a.trip_id.as_str().eq(b.trip_id.as_str()) && is_text_before(
        a.vehicle_id.as_str(),
        b.vehicle_id.as_str(),
    )
}

/// The number of rows of `rows` that are ranked before `row`.
pub fn count_before(rows: &Vec<Prediction>, row: &Prediction) -> (count: usize)
    ensures
        count == rows_of(rows@).filter(|q: PredictionView| ranks_before(q, row@)).len(),
        count <= rows@.len(),
{
    let ghost all = rows_of(rows@);
    let ghost before = |q: PredictionView| ranks_before(q, row@);
    let mut count: usize = 0;
    let mut j: usize = 0;
    assert(all.take(0).filter(before).len() == 0) by {
        all.take(0).lemma_filter_len(before);
    }
    while j < rows.len()
        invariant
            j <= rows.len(),
            all == rows_of(rows@),
            before == (|q: PredictionView| ranks_before(q, row@)),
            count == all.take(j as int).filter(before).len(),
            count <= j,
        decreases rows.len() - j,
    {
        proof {
            assert(all.take(j + 1) =~= all.take(j as int).push(all[j as int]));
            all.take(j as int).lemma_filter_len_push(before, all[j as int]);
        }
        if is_ranked_before(&rows[j], row) {
            count += 1;
        }
        j += 1;
    }
    assert(all.take(rows.len() as int) =~= all);
    count
}

/// The ranks of the rows of a batch among themselves, row by row.
pub fn batch_ranks(batch: &Vec<Prediction>) -> (ranks: Vec<usize>)
    ensures
        ranks@.len() == batch@.len(),
        forall|i: int|
            0 <= i < batch@.len() ==> #[trigger] ranks@[i] == rank_of(
                rows_of(batch@),
                batch@[i]@,
            ),
{
    let mut ranks: Vec<usize> = Vec::new();
    let mut i: usize = 0;
    while i < batch.len()
        invariant
            i <= batch.len(),
            ranks@.len() == i,
            forall|j: int|
                0 <= j < i ==> #[trigger] ranks@[j] == rank_of(rows_of(batch@), batch@[j]@),
        decreases batch.len() - i,
    {
        let count = count_before(batch, &batch[i]);
        proof {
            assert(rows_of(batch@)[i as int] == batch@[i as int]@);
            lemma_rank_within_group(rows_of(batch@), batch@[i as int]@);
            rows_of(batch@).lemma_filter_len(|q: PredictionView| same_group(q, batch@[i as int]@));
        }
        ranks.push(count + 1);
        i += 1;
    }
    ranks
}

/// No row is ranked before itself.
pub proof fn lemma_no_row_before_itself(row: PredictionView)
    ensures
        !ranks_before(row, row),
{
    lemma_text_not_before_itself(row.trip_id);
    lemma_text_not_before_itself(row.vehicle_id);
}

/// A row that is ranked before a second, which is ranked before a third,
/// is ranked before the third.
pub proof fn lemma_rank_order_is_transitive(
    a: PredictionView,
    b: PredictionView,
    c: PredictionView,
)
    requires
        ranks_before(a, b),
        ranks_before(b, c),
    ensures
        ranks_before(a, c),
{
    if sort_key(a) == sort_key(b) && sort_key(b) == sort_key(c) {
        if text_before(a.trip_id, b.trip_id) && text_before(b.trip_id, c.trip_id) {
            lemma_text_order_is_transitive(a.trip_id, b.trip_id, c.trip_id);
        } else if a.trip_id == b.trip_id && b.trip_id == c.trip_id {
            lemma_text_order_is_transitive(a.vehicle_id, b.vehicle_id, c.vehicle_id);
        }
    }
}

/// Of two rows of one batch and stop that differ in trip or vehicle, one
/// is ranked before the other.
pub proof fn lemma_rows_are_ordered(a: PredictionView, b: PredictionView)
    requires
        same_group(a, b),
        a.trip_id != b.trip_id || a.vehicle_id != b.vehicle_id,
    ensures
        ranks_before(a, b) || ranks_before(b, a),
{
    lemma_texts_are_ordered(a.trip_id, b.trip_id);
    lemma_texts_are_ordered(a.vehicle_id, b.vehicle_id);
}

/// A row of the table that is ranked before another row has the smaller
/// rank.
pub proof fn lemma_rank_follows_order(
    rows: Seq<PredictionView>,
    a: PredictionView,
    b: PredictionView,
)
    requires
        rows.contains(a),
        ranks_before(a, b),
    ensures
        rank_of(rows, a) < rank_of(rows, b),
{
    let before_a = |q: PredictionView| ranks_before(q, a);
    let before_b = |q: PredictionView| ranks_before(q, b);
    lemma_no_row_before_itself(a);
    assert forall|q: PredictionView| #[trigger] before_a(q) implies before_b(q) by {
        lemma_rank_order_is_transitive(q, a, b);
    }
    let i = choose|i: int| 0 <= i < rows.len() && rows[i] == a;
    lemma_more_rows_pass(rows, before_a, before_b, i);
}

/// The rank of a row of the table is at least one and at most the number
/// of rows of its batch and stop.
pub proof fn lemma_rank_within_group(rows: Seq<PredictionView>, row: PredictionView)
    requires
        rows.contains(row),
    ensures
        1 <= rank_of(rows, row) <= rows.filter(|q: PredictionView| same_group(q, row)).len(),
{
    let before = |q: PredictionView| ranks_before(q, row);
    let beside = |q: PredictionView| same_group(q, row);
    lemma_no_row_before_itself(row);
    assert forall|q: PredictionView| #[trigger] before(q) implies beside(q) by {}
    let i = choose|i: int| 0 <= i < rows.len() && rows[i] == row;
    lemma_more_rows_pass(rows, before, beside, i);
}

/// In a table without two rows under one key, no two rows of one batch and
/// stop have the same rank.
pub proof fn lemma_ranks_differ(rows: Seq<PredictionView>, i: int, j: int)
    requires
        0 <= i < rows.len(),
        0 <= j < rows.len(),
        i != j,
        same_group(rows[i], rows[j]),
        predictions_distinct(rows),
    ensures
        rank_of(rows, rows[i]) != rank_of(rows, rows[j]),
{
    if i < j {
        assert(prediction_key(rows[i]) != prediction_key(rows[j]));
    } else {
        assert(prediction_key(rows[j]) != prediction_key(rows[i]));
    }
    lemma_rows_are_ordered(rows[i], rows[j]);
    assert(rows.contains(rows[i]));
    assert(rows.contains(rows[j]));
    if ranks_before(rows[i], rows[j]) {
        lemma_rank_follows_order(rows, rows[i], rows[j]);
    } else {
        lemma_rank_follows_order(rows, rows[j], rows[i]);
    }
}

/// Rows of other batches do not change a rank: where no row of `others`
/// carries the stamp of `row`, the rank of `row` among `others` followed by
/// `batch` is its rank within `batch`.
pub proof fn lemma_rank_within_batch(
    others: Seq<PredictionView>,
    batch: Seq<PredictionView>,
    row: PredictionView,
)
    requires
        forall|i: int| 0 <= i < others.len() ==> (#[trigger] others[i]).file_at != row.file_at,
    ensures
        rank_of(others + batch, row) == rank_of(batch, row),
{
    let before = |q: PredictionView| ranks_before(q, row);
    Seq::filter_distributes_over_add(others, batch, before);
    assert(others.all(|q: PredictionView| !before(q)));
    others.lemma_all_neg_filter_empty(before);
}

/// Three rows that make up a batch's predictions for one stop, with sort
/// keys in ascending order, have the ranks one, two and three.
pub proof fn lemma_three_rows_rank_in_order(
    rows: Seq<PredictionView>,
    a: PredictionView,
    b: PredictionView,
    c: PredictionView,
)
    requires
        rows.contains(a),
        rows.contains(b),
        rows.contains(c),
        same_group(a, b),
        same_group(b, c),
        key_before(sort_key(a), sort_key(b)),
        key_before(sort_key(b), sort_key(c)),
        rows.filter(|q: PredictionView| same_group(q, c)).len() == 3,
    ensures
        rank_of(rows, a) == 1,
        rank_of(rows, b) == 2,
        rank_of(rows, c) == 3,
{
    lemma_rank_follows_order(rows, a, b);
    lemma_rank_follows_order(rows, b, c);
    lemma_rank_within_group(rows, a);
    lemma_rank_within_group(rows, c);
}

/// Where every row that passes `p` passes `q`, and some row passes `q`
/// alone, fewer rows pass `p` than `q`.
proof fn lemma_more_rows_pass(
    rows: Seq<PredictionView>,
    p: spec_fn(PredictionView) -> bool,
    q: spec_fn(PredictionView) -> bool,
    i: int,
)
    requires
        forall|r: PredictionView| #[trigger] p(r) ==> q(r),
        0 <= i < rows.len(),
        q(rows[i]),
        !p(rows[i]),
    ensures
        rows.filter(p).len() < rows.filter(q).len(),
    decreases rows.len(),
{
    let rest = rows.drop_last();
    assert(rows =~= rest.push(rows.last()));
    rest.lemma_filter_len_push(p, rows.last());
    rest.lemma_filter_len_push(q, rows.last());
    if i == rows.len() - 1 {
        lemma_no_fewer_rows_pass(rest, p, q);
    } else {
        lemma_more_rows_pass(rest, p, q, i);
    }
}

/// Where every row that passes `p` passes `q`, no more rows pass `p`
/// than `q`.
proof fn lemma_no_fewer_rows_pass(
    rows: Seq<PredictionView>,
    p: spec_fn(PredictionView) -> bool,
    q: spec_fn(PredictionView) -> bool,
)
    requires
        forall|r: PredictionView| #[trigger] p(r) ==> q(r),
    ensures
        rows.filter(p).len() <= rows.filter(q).len(),
    decreases rows.len(),
{
    if rows.len() == 0 {
        reveal(Seq::filter);
    } else {
        let rest = rows.drop_last();
        assert(rows =~= rest.push(rows.last()));
        rest.lemma_filter_len_push(p, rows.last());
        rest.lemma_filter_len_push(q, rows.last());
        lemma_no_fewer_rows_pass(rest, p, q);
    }
}

} // verus!
