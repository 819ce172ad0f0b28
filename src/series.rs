use vstd::prelude::*;

use crate::datetime::{DurationWrapper, parse_time, time_offset};
use crate::error::DataError;
use crate::json::{Field, Record, decode_records, field_lookup, find_field, json_records};
use crate::measure::{decimal_micro, parse_measurement};

verus! {

/// One reading of the sensor as the server sends it; values in micro-units.
#[derive(Debug)]
pub struct Reading {
    pub timestamp: String,
    pub temperature: i64,
    pub humidity: i64,
}

/// A point of a series: time of day and value in micro-units.
pub type SeriesPoint = (DurationWrapper, i64);

/// The two series built from one response, point for point.
#[derive(Debug)]
pub struct WeatherSnapshot {
    pub temperature: Vec<SeriesPoint>,
    pub humidity: Vec<SeriesPoint>,
}

/// The value of a numeric field, if it is a number within reach.
pub open spec fn measurement_of(f: Field) -> Option<int> {
    match f {
        Field::Number(t) => decimal_micro(t@),
        _ => None,
    }
}

/// The reading that a decoded record stands for.
pub open spec fn reading_of(rec: Seq<(String, Field)>) -> Result<Reading, DataError> {
    let ts = field_lookup(rec, "timestamp"@);
    let t = field_lookup(rec, "temperature"@);
    let h = field_lookup(rec, "humidity"@);
    if ts is None || t is None || h is None {
        Err(DataError::MissingField)
    } else if !(ts.unwrap() is Text) || measurement_of(t.unwrap()) is None
        || measurement_of(h.unwrap()) is None {
        Err(DataError::DecodeError)
    } else {
        Ok(
            Reading {
                timestamp: ts.unwrap()->Text_0,
                temperature: measurement_of(t.unwrap()).unwrap() as i64,
                humidity: measurement_of(h.unwrap()).unwrap() as i64,
            },
        )
    }
}

/// The readings of a list of records, or the error of the first record that
/// is not one.
pub open spec fn readings_of(recs: Seq<Record>) -> Result<Seq<Reading>, DataError>
    decreases recs.len(),
{
    if recs.len() == 0 {
        Ok(Seq::empty())
    } else {
        match readings_of(recs.drop_last()) {
            Err(e) => Err(e),
            Ok(rs) => match reading_of(recs.last()@) {
                Err(e) => Err(e),
                Ok(r) => Ok(rs.push(r)),
            },
        }
    }
}

fn measurement_field(f: Field) -> (r: Option<i64>)
    ensures
        r matches Some(v) ==> measurement_of(f) == Some(v as int),
        r is None ==> measurement_of(f) is None,
{
    match f {
        Field::Number(t) => parse_measurement(t.as_str()),
        _ => None,
    }
}

/// Reads one record into a reading. A record without `timestamp`,
/// `temperature` or `humidity` gives `MissingField`; one whose timestamp is not
/// a string, or whose values are not decimal numbers, gives `DecodeError`.
pub fn reading_from_record(rec: &Record) -> (r: Result<Reading, DataError>)
    ensures
        r == reading_of(rec@),
{
    let ts = find_field(rec, &String::from_str("timestamp"));
    let t = find_field(rec, &String::from_str("temperature"));
    let h = find_field(rec, &String::from_str("humidity"));
    match (ts, t, h) {
        (Some(ts), Some(t), Some(h)) => {
            let tv = measurement_field(t);
            let hv = measurement_field(h);
            match (ts, tv, hv) {
                (Field::Text(s), Some(tv), Some(hv)) => Ok(
                    Reading { timestamp: s, temperature: tv, humidity: hv },
                ),
                _ => Err(DataError::DecodeError),
            }
        },
        _ => Err(DataError::MissingField),
    }
}

/// Reads every record, in order; the first record that fails decides the
/// error.
pub fn readings_from_records(recs: &Vec<Record>) -> (r: Result<Vec<Reading>, DataError>)
    ensures
        match r {
            Ok(v) => readings_of(recs@) == Ok::<Seq<Reading>, DataError>(v@),
            Err(e) => readings_of(recs@) == Err::<Seq<Reading>, DataError>(e),
        },
{
    let mut out: Vec<Reading> = Vec::new();
    let mut i: usize = 0;
    while i < recs.len()
        invariant
            i <= recs@.len(),
            readings_of(recs@.take(i as int)) == Ok::<Seq<Reading>, DataError>(out@),
        decreases recs@.len() - i,
    {
        assert(recs@.take(i as int + 1).drop_last() =~= recs@.take(i as int));
        match reading_from_record(&recs[i]) {
            Ok(rd) => out.push(rd),
            Err(e) => {
                proof {
                    lemma_readings_err_extends(recs@, i as int + 1, e);
                }
                return Err(e);
            },
        }
        i = i + 1;
    }
    assert(recs@.take(i as int) =~= recs@);
    Ok(out)
}

proof fn lemma_readings_err_extends(recs: Seq<Record>, k: int, e: DataError)
    requires
        0 <= k <= recs.len(),
        readings_of(recs.take(k)) == Err::<Seq<Reading>, DataError>(e),
    ensures
        readings_of(recs) == Err::<Seq<Reading>, DataError>(e),
    decreases recs.len() - k,
{
    if k < recs.len() {
        assert(recs.take(k + 1).drop_last() =~= recs.take(k));
        lemma_readings_err_extends(recs, k + 1, e);
    } else {
        assert(recs.take(k) =~= recs);
    }
}

/// Whether `s` holds, in order, one point per reading: the reading's time of
/// day with the value that `value` picks from it.
pub open spec fn is_series_of(
    s: Seq<SeriesPoint>,
    readings: Seq<Reading>,
    temperature: bool,
) -> bool {
    &&& s.len() == readings.len()
    &&& forall|i: int|
        0 <= i < s.len() ==> {
            &&& time_offset((#[trigger] readings[i]).timestamp@) == Ok::<DurationWrapper, DataError>(s[i].0)
            &&& s[i].1 == if temperature { readings[i].temperature } else { readings[i].humidity }
        }
}

/// Builds the temperature and humidity series of a list of readings, one point
/// of each per reading, in input order. Fails with `MalformedTimestamp` when a
/// timestamp cannot be read.
pub fn build_series(readings: &Vec<Reading>) -> (r: Result<WeatherSnapshot, DataError>)
    ensures
        r is Ok <==> forall|i: int|
            0 <= i < readings@.len() ==> (#[trigger] time_offset(readings@[i].timestamp@)) is Ok,
        r matches Err(e) ==> e == DataError::MalformedTimestamp,
        r matches Ok(snap) ==> {
            &&& is_series_of(snap.temperature@, readings@, true)
            &&& is_series_of(snap.humidity@, readings@, false)
            &&& snap.temperature@.len() == readings@.len()
            &&& snap.humidity@.len() == readings@.len()
            &&& forall|i: int| 0 <= i < readings@.len() ==> (#[trigger] snap.temperature@[i]).0.wf()
            &&& forall|i: int| 0 <= i < readings@.len() ==> snap.temperature@[i].0 == #[trigger] snap.humidity@[i].0
        },
{
    let mut temperature: Vec<SeriesPoint> = Vec::new();
    let mut humidity: Vec<SeriesPoint> = Vec::new();
    let mut i: usize = 0;
    while i < readings.len()
        invariant
            i <= readings@.len(),
            is_series_of(temperature@, readings@.take(i as int), true),
            is_series_of(humidity@, readings@.take(i as int), false),
            forall|j: int| 0 <= j < i ==> (#[trigger] temperature@[j]).0.wf(),
            forall|j: int| 0 <= j < i ==> temperature@[j].0 == #[trigger] humidity@[j].0,
            forall|j: int| 0 <= j < i ==> (#[trigger] time_offset(readings@[j].timestamp@)) is Ok,
        decreases readings@.len() - i,
    {
        let rd = &readings[i];
        match parse_time(&rd.timestamp) {
            Ok(t) => {
                temperature.push((t, rd.temperature));
                humidity.push((t, rd.humidity));
                proof {
                    assert forall|j: int| 0 <= j < i + 1 implies
                        (#[trigger] time_offset(readings@[j].timestamp@)) is Ok by {
                        if j < i {
                            assert(readings@.take(i as int)[j] == readings@[j]);
                        }
                    }
                }
            },
            Err(e) => {
                return Err(e);
            },
        }
        i = i + 1;
        assert forall|j: int| 0 <= j < i implies readings@.take(i as int)[j] == readings@[j] by {}
        assert forall|j: int| 0 <= j < i - 1 implies readings@.take(i as int)[j] == readings@.take(i - 1)[j] by {}
    }
    assert(readings@.take(i as int) =~= readings@);
    Ok(WeatherSnapshot { temperature, humidity })
}

/// Turns the body of a `/get/{date}` response into a snapshot. A body that is
/// not a JSON array of objects gives `DecodeError`; a record that is not a
/// reading gives its error (see `reading_from_record`); then `build_series`.
pub fn parse_readings_response(text: &str) -> (r: Result<WeatherSnapshot, DataError>)
    ensures
        json_records(text@) is None ==> r == Err::<WeatherSnapshot, DataError>(DataError::DecodeError),
        json_records(text@) matches Some(recs) ==> match readings_of(recs@) {
            Err(e) => r == Err::<WeatherSnapshot, DataError>(e),
            Ok(rs) => {
                &&& r is Ok <==> forall|i: int| 0 <= i < rs.len() ==> (#[trigger] time_offset(rs[i].timestamp@)) is Ok
                &&& r matches Err(e) ==> e == DataError::MalformedTimestamp
                &&& r matches Ok(snap) ==> is_series_of(snap.temperature@, rs, true)
                    && is_series_of(snap.humidity@, rs, false)
            },
        },
{
    match decode_records(text) {
        None => Err(DataError::DecodeError),
        Some(recs) => match readings_from_records(&recs) {
            Err(e) => Err(e),
            Ok(readings) => build_series(&readings),
        },
    }
}

} // verus!
