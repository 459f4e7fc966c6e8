//! Conversion of a record into a store write: timestamp normalization and
//! per-value field classification (numeric text becomes a measurement field,
//! anything else a tag).
use vstd::prelude::*;

use crate::numeric::{is_numeric_literal, is_numeric_text};
use crate::record::{pairs_view, Record};

verus! {

/// A classified column value: numeric text is stored as a measurement
/// field, any other text as a categorical tag. The raw text is kept either
/// way; the store conversion reads the number out of a `Numeric` value.
#[derive(Debug)]
pub enum FieldValue {
    Numeric(String),
    Label(String),
}

/// Classifies one raw column value, independently per record and per
/// column: no cross-record schema unification.
pub fn classify(value: String) -> (r: FieldValue)
    ensures
        is_numeric_literal(value@) ==> r == FieldValue::Numeric(value),
        !is_numeric_literal(value@) ==> r == FieldValue::Label(value),
{
    if is_numeric_text(value.as_str()) {
        FieldValue::Numeric(value)
    } else {
        FieldValue::Label(value)
    }
}

/// A store timestamp with its declared precision. The store conversion uses
/// nanosecond precision when the parsed instant is representable in
/// nanoseconds, and falls back to second precision otherwise.
#[derive(Clone, Copy, PartialEq, Eq, Structural, Debug)]
pub enum WriteTimestamp {
    Nanoseconds(i64),
    Seconds(i64),
}

/// What the calendar library reads out of a timestamp text: `None` when the
/// text is not a valid RFC3339 instant, otherwise the instant's UTC epoch
/// seconds paired with its epoch nanoseconds where those are representable.
pub uninterp spec fn rfc3339_epoch_of(s: Seq<char>) -> Option<(i64, Option<i64>)>;

/// Relies on chrono's `DateTime::parse_from_rfc3339`, `with_timezone`,
/// `timestamp` and `timestamp_nanos_opt`: all are functions of the text
/// alone.
#[verifier::external_body]
fn parse_rfc3339_epoch(s: &str) -> (r: Option<(i64, Option<i64>)>)
    ensures
        r == rfc3339_epoch_of(s@),
{
    match chrono::DateTime::parse_from_rfc3339(s) {
        Ok(dt) => {
            let utc = dt.with_timezone(&chrono::Utc);
            Some((utc.timestamp(), utc.timestamp_nanos_opt()))
        },
        Err(_) => None,
    }
}

/// Relies on `chrono::Utc::now`: nothing is promised of the clock's value.
#[verifier::external_body]
fn now_timestamp_nanos() -> (r: i64) {
    chrono::Utc::now().timestamp_nanos_opt().unwrap_or(0)
}

/// The timestamp a record is written with, given what the calendar library
/// parsed and the current wall-clock time: nanosecond precision when
/// representable, second precision otherwise, and the current time at
/// nanosecond precision when the text did not parse — a malformed timestamp
/// never causes record loss, only timestamp drift.
pub open spec fn spec_write_timestamp(parsed: Option<(i64, Option<i64>)>, now_nanos: i64) -> WriteTimestamp {
    match parsed {
        Some((secs, nanos)) => match nanos {
            Some(n) => WriteTimestamp::Nanoseconds(n),
            None => WriteTimestamp::Seconds(secs),
        },
        None => WriteTimestamp::Nanoseconds(now_nanos),
    }
}

/// Resolves the write timestamp from a parse outcome and the current time.
pub fn write_timestamp_from_parse(parsed: Option<(i64, Option<i64>)>, now_nanos: i64) -> (r:
    WriteTimestamp)
    ensures
        r == spec_write_timestamp(parsed, now_nanos),
{
    match parsed {
        Some((secs, nanos)) => match nanos {
            Some(n) => WriteTimestamp::Nanoseconds(n),
            None => WriteTimestamp::Seconds(secs),
        },
        None => WriteTimestamp::Nanoseconds(now_nanos),
    }
}

/// The fields of a record whose value text is numeric, in field order.
pub open spec fn numeric_fields_of(fields: Seq<(Seq<char>, Seq<char>)>) -> Seq<
    (Seq<char>, Seq<char>),
>
    decreases fields.len(),
{
    if fields.len() == 0 {
        Seq::<(Seq<char>, Seq<char>)>::empty()
    } else {
        let rest = numeric_fields_of(fields.drop_last());
        if is_numeric_literal(fields.last().1) {
            rest.push(fields.last())
        } else {
            rest
        }
    }
}

/// The fields of a record whose value text is not numeric, in field order.
pub open spec fn tag_fields_of(fields: Seq<(Seq<char>, Seq<char>)>) -> Seq<(Seq<char>, Seq<char>)>
    decreases fields.len(),
{
    if fields.len() == 0 {
        Seq::<(Seq<char>, Seq<char>)>::empty()
    } else {
        let rest = tag_fields_of(fields.drop_last());
        if is_numeric_literal(fields.last().1) {
            rest
        } else {
            rest.push(fields.last())
        }
    }
}

/// One write against the store: a measurement name, a timestamp with its
/// precision, the numeric measurement fields (name and raw numeric text)
/// and the categorical tags.
#[derive(Debug)]
pub struct StoreWrite {
    pub measurement: String,
    pub timestamp: WriteTimestamp,
    pub numeric_fields: Vec<(String, String)>,
    pub tags: Vec<(String, String)>,
}

/// Converts a record into a store write against a fixed wall-clock reading:
/// the timestamp is normalized and every field is classified as measurement
/// field or tag.
pub fn record_to_write(rec: &Record, measurement: &str, now_nanos: i64) -> (w: StoreWrite)
    ensures
        w.measurement@ == measurement@,
        w.timestamp == spec_write_timestamp(rfc3339_epoch_of(rec@.timestamp), now_nanos),
        pairs_view(w.numeric_fields@) == numeric_fields_of(rec@.fields),
        pairs_view(w.tags@) == tag_fields_of(rec@.fields),
{
    let parsed = parse_rfc3339_epoch(rec.timestamp.as_str());
    let timestamp = write_timestamp_from_parse(parsed, now_nanos);
    let ghost fv = rec@.fields;
    let mut numeric_fields: Vec<(String, String)> = Vec::new();
    let mut tags: Vec<(String, String)> = Vec::new();
    let mut i: usize = 0;
    while i < rec.fields.len()
        invariant
            i <= rec.fields@.len(),
            fv == rec@.fields,
            fv.len() == rec.fields@.len(),
            pairs_view(numeric_fields@) == numeric_fields_of(fv.take(i as int)),
            pairs_view(tags@) == tag_fields_of(fv.take(i as int)),
        decreases rec.fields@.len() - i,
    {
        let name = rec.fields[i].0.clone();
        let value = rec.fields[i].1.clone();
        proof {
            assert(fv[i as int] == (rec.fields@[i as int].0@, rec.fields@[i as int].1@));
        }
        if is_numeric_text(value.as_str()) {
            numeric_fields.push((name, value));
            proof {
                assert(pairs_view(numeric_fields@) =~= numeric_fields_of(fv.take(i as int)).push(
                    fv[i as int],
                ));
            }
        } else {
            tags.push((name, value));
            proof {
                assert(pairs_view(tags@) =~= tag_fields_of(fv.take(i as int)).push(fv[i as int]));
            }
        }
        proof {
            assert(fv.take(i + 1 as int).drop_last() =~= fv.take(i as int));
            assert(fv.take(i + 1 as int).last() == fv[i as int]);
        }
        i += 1;
    }
    proof {
        assert(fv.take(rec.fields@.len() as int) =~= fv);
    }
    StoreWrite { measurement: measurement.to_owned(), timestamp, numeric_fields, tags }
}

/// Converts a record into a store write, reading the wall clock only when
/// the record's timestamp text does not parse.
pub fn into_query(rec: &Record, measurement: &str) -> (w: StoreWrite)
    ensures
        w.measurement@ == measurement@,
        rfc3339_epoch_of(rec@.timestamp) is Some ==> w.timestamp == spec_write_timestamp(
            rfc3339_epoch_of(rec@.timestamp),
            0,
        ),
        rfc3339_epoch_of(rec@.timestamp) is None ==> w.timestamp is Nanoseconds,
        pairs_view(w.numeric_fields@) == numeric_fields_of(rec@.fields),
        pairs_view(w.tags@) == tag_fields_of(rec@.fields),
{
    let parsed = parse_rfc3339_epoch(rec.timestamp.as_str());
    let now_nanos: i64 = if parsed.is_none() {
        now_timestamp_nanos()
    } else {
        0
    };
    record_to_write(rec, measurement, now_nanos)
}

} // verus!
