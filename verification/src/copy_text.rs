//! The text form in which a batch of predictions is bulk-loaded: one line
//! per row, fields separated by tabs, `\N` for an absent field.

use crate::predictions::{rows_of, Prediction, PredictionView};
use crate::text::text_of;
use crate::time::{rfc3339, rfc3339_text, Timestamp};
use vstd::prelude::*;
use vstd::string::*;

verus! {

/// The character of one decimal digit.
pub open spec fn digit_text(d: int) -> Seq<char> {
    if d == 0 {
        "0"@
    } else if d == 1 {
        "1"@
    } else if d == 2 {
        "2"@
    } else if d == 3 {
        "3"@
    } else if d == 4 {
        "4"@
    } else if d == 5 {
        "5"@
    } else if d == 6 {
        "6"@
    } else if d == 7 {
        "7"@
    } else if d == 8 {
        "8"@
    } else {
        "9"@
    }
}

/// The decimal digits of a natural number, without leading zeros.
pub open spec fn natural_text(n: nat) -> Seq<char>
    decreases n,
{
    if n < 10 {
        digit_text(n as int)
    } else {
        natural_text(n / 10) + digit_text((n % 10) as int)
    }
}

/// The decimal text of an integer: a minus sign where it is negative, then
/// the digits of its magnitude.
pub open spec fn decimal_text(n: int) -> Seq<char> {
    if n < 0 {
        "-"@ + natural_text((-n) as nat)
    } else {
        natural_text(n as nat)
    }
}

/// A field's text, or `\N` where the field is absent.
pub open spec fn field_text(text: Option<Seq<char>>) -> Seq<char> {
    match text {
        Some(t) => t,
        None => "\\N"@,
    }
}

/// The line of one row, given the texts of its three instants: nine fields
/// in the order of the load statement's column list, a tab between each two,
/// and a newline at the end.
pub open spec fn copy_line_text(
    row: PredictionView,
    file_at: Seq<char>,
    arrive_at: Option<Seq<char>>,
    depart_at: Option<Seq<char>>,
) -> Seq<char> {
    file_at + "\t"@ + row.trip_id + "\t"@ + row.vehicle_id + "\t"@ + row.stop_id + "\t"@
        + decimal_text(row.stop_sequence as int) + "\t"@ + decimal_text(row.direction_id as int)
        + "\t"@ + field_text(arrive_at) + "\t"@ + field_text(depart_at) + "\t"@ + field_text(
        row.boarding_status,
    ) + "\n"@
}

/// The RFC 3339 text of an instant.
pub open spec fn instant_text(t: Timestamp) -> Option<Seq<char>> {
    rfc3339_text(t.secs, t.nanos)
}

/// Whether an optional instant can be written down: it is absent, or it has
/// an RFC 3339 text.
pub open spec fn writable(t: Option<Timestamp>) -> bool {
    match t {
        Some(i) => instant_text(i) is Some,
        None => true,
    }
}

/// The text of an optional instant that can be written down.
pub open spec fn optional_instant_text(t: Option<Timestamp>) -> Option<Seq<char>> {
    match t {
        Some(i) => instant_text(i),
        None => None,
    }
}

/// Whether a row has a line: its stamp has an RFC 3339 text, and so does
/// each predicted instant that it carries.
pub open spec fn has_line(row: PredictionView) -> bool {
    &&& instant_text(row.file_at) is Some
    &&& writable(row.predicted_arrive_at)
    &&& writable(row.predicted_depart_at)
}

/// The line of a row that has one.
pub open spec fn line_of(row: PredictionView) -> Seq<char> {
    copy_line_text(
        row,
        instant_text(row.file_at).unwrap(),
        optional_instant_text(row.predicted_arrive_at),
        optional_instant_text(row.predicted_depart_at),
    )
}

/// The load text of a batch: the lines of its rows, in order. There is none
/// where some row has no line.
pub open spec fn copy_text(rows: Seq<PredictionView>) -> Option<Seq<char>> {
    if forall|i: int| 0 <= i < rows.len() ==> has_line(#[trigger] rows[i]) {
        Some(rows.flat_map(|r: PredictionView| line_of(r)))
    } else {
        None
    }
}

fn digit_str(d: u32) -> (s: &'static str)
    requires
        d < 10,
    ensures
        s@ == digit_text(d as int),
{
    if d == 0 {
        "0"
    } else if d == 1 {
        "1"
    } else if d == 2 {
        "2"
    } else if d == 3 {
        "3"
    } else if d == 4 {
        "4"
    } else if d == 5 {
        "5"
    } else if d == 6 {
        "6"
    } else if d == 7 {
        "7"
    } else if d == 8 {
        "8"
    } else {
        "9"
    }
}

fn natural_string(n: u32) -> (s: String)
    ensures
        s@ == natural_text(n as nat),
    decreases n,
{
    if n < 10 {
        String::from_str(digit_str(n))
    } else {
        let mut s = natural_string(n / 10);
        s.append(digit_str(n % 10));
        s
    }
}

/// Writes an integer in decimal.
pub fn decimal_string(v: i32) -> (s: String)
    ensures
        s@ == decimal_text(v as int),
{
    if v < 0 {
        let magnitude: u32 = (-(v as i64)) as u32;
        let digits = natural_string(magnitude);
        String::from_str("-").concat(digits.as_str())
    } else {
        natural_string(v as u32)
    }
}

fn push_field(line: &mut String, text: &Option<String>)
    ensures
        final(line)@ == old(line)@ + field_text(text_of(*text)),
{
    match text {
        Some(t) => line.append(t.as_str()),
        None => line.append("\\N"),
    }
}

/// Writes the line of one row from the row and the texts of its instants.
pub fn copy_line(
    row: &Prediction,
    file_at: &str,
    arrive_at: &Option<String>,
    depart_at: &Option<String>,
) -> (line: String)
    ensures
        line@ == copy_line_text(row@, file_at@, text_of(*arrive_at), text_of(*depart_at)),
{
    let mut line = String::from_str(file_at);
    line.append("\t");
    line.append(row.trip_id.as_str());
    line.append("\t");
    line.append(row.vehicle_id.as_str());
    line.append("\t");
    line.append(row.stop_id.as_str());
    line.append("\t");
    line.append(decimal_string(row.stop_sequence).as_str());
    line.append("\t");
    line.append(decimal_string(row.direction_id).as_str());
    line.append("\t");
    push_field(&mut line, arrive_at);
    line.append("\t");
    push_field(&mut line, depart_at);
    line.append("\t");
    push_field(&mut line, &row.boarding_status);
    line.append("\n");
    line
}

/// Renders an optional instant. The first component says whether it could
/// be written down.
fn optional_rfc3339(t: &Option<Timestamp>) -> (r: (bool, Option<String>))
    ensures
        r.0 == writable(*t),
        r.0 ==> text_of(r.1) == optional_instant_text(*t),
{
    match t {
        Some(i) => {
            let text = rfc3339(i.secs, i.nanos);
            (text.is_some(), text)
        },
        None => (true, None),
    }
}

/// Writes the load text of a batch, or `None` as soon as a row carries an
/// instant that has no RFC 3339 text.
pub fn generate_copy_string(predictions: &Vec<Prediction>) -> (text: Option<String>)
    ensures
        text_of(text) == copy_text(rows_of(predictions@)),
{
    let ghost rows = rows_of(predictions@);
    let ghost line = |r: PredictionView| line_of(r);
    let mut copy_string = String::new();
    let mut i: usize = 0;
    assert(rows.take(0).flat_map(line) =~= Seq::empty()) by {
        assert(rows.take(0).map_values(line) =~= Seq::<Seq<char>>::empty());
    }
    while i < predictions.len()
        invariant
            i <= predictions.len(),
            rows == rows_of(predictions@),
            line == (|r: PredictionView| line_of(r)),
            forall|j: int| 0 <= j < i ==> has_line(#[trigger] rows[j]),
            copy_string@ == rows.take(i as int).flat_map(line),
        decreases predictions.len() - i,
    {
        let p = &predictions[i];
        assert(rows[i as int] == p@);
        let file_at = rfc3339(p.file_at.secs, p.file_at.nanos);
        let (arrive_ok, arrive_at) = optional_rfc3339(&p.predicted_arrive_at);
        let (depart_ok, depart_at) = optional_rfc3339(&p.predicted_depart_at);
        match file_at {
            Some(stamp) => {
                if !arrive_ok || !depart_ok {
                    assert(!has_line(rows[i as int]));
                    return None;
                }
                let text = copy_line(p, stamp.as_str(), &arrive_at, &depart_at);
                assert(text@ == line(rows[i as int]));
                proof {
                    rows.lemma_flat_map_take_append(line, i as int);
                }
                copy_string.append(text.as_str());
            },
            None => {
                assert(!has_line(rows[i as int]));
                return None;
            },
        }
        i += 1;
    }
    assert(rows.take(predictions.len() as int) =~= rows);
    Some(copy_string)
}

} // verus!
