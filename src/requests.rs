use vstd::prelude::*;

use crate::error::DataError;
use crate::json::{decode_string, decode_string_list, json_string, json_string_list};

verus! {

/// An entry of the date selector: the label shown (`MM/DD/YYYY`) and the key
/// sent to the server (`YYYYMMDD`).
pub type DateEntry = (String, String);

/// Where the server is reached.
#[derive(Debug)]
pub struct Endpoints {
    pub base_url: String,
}

impl Endpoints {
    pub fn new(base_url: String) -> (r: Endpoints)
        ensures
            r.base_url == base_url,
    {
        Endpoints { base_url }
    }

    /// `{base}/dates/latest`: the key of the newest date.
    pub fn latest_date_url(&self) -> (r: String)
        ensures
            r@ == self.base_url@ + "/dates/latest"@,
    {
        self.base_url.clone().concat("/dates/latest")
    }

    /// `{base}/dates`: the keys of all dates.
    pub fn dates_url(&self) -> (r: String)
        ensures
            r@ == self.base_url@ + "/dates"@,
    {
        self.base_url.clone().concat("/dates")
    }

    /// `{base}/get/{date}`: the readings of one date.
    pub fn readings_url(&self, date: &String) -> (r: String)
        ensures
            r@ == self.base_url@ + "/get/"@ + date@,
    {
        self.base_url.clone().concat("/get/").concat(date.as_str())
    }
}

/// The `MM/DD/YYYY` label of a `YYYYMMDD` key, as chrono reads and writes it.
pub uninterp spec fn date_key_label(key: Seq<char>) -> Option<Seq<char>>;

/// Relies on chrono's `NaiveDate::parse_from_str(key, "%Y%m%d")` and on
/// `format("%m/%d/%Y")` of the date read; `None` where chrono refuses the key.
#[verifier::external_body]
fn date_label(key: &str) -> (r: Option<String>)
    ensures
        r is None <==> date_key_label(key@) is None,
        r matches Some(l) ==> date_key_label(key@) == Some(l@),
{
    match chrono::NaiveDate::parse_from_str(key, "%Y%m%d") {
        Ok(d) => Some(d.format("%m/%d/%Y").to_string()),
        Err(_) => None,
    }
}

/// Pairs a date key with its label; a key without a label is refused with
/// `DecodeError`.
pub fn date_entry(label: Option<String>, key: String) -> (r: Result<DateEntry, DataError>)
    ensures
        label is None ==> r == Err::<DateEntry, DataError>(DataError::DecodeError),
        label matches Some(l) ==> r matches Ok(e) && e.0 == l && e.1 == key,
{
    match label {
        Some(l) => Ok((l, key)),
        None => Err(DataError::DecodeError),
    }
}

/// Whether `entries` pairs each key, in order, with its label.
pub open spec fn entries_of(entries: Seq<DateEntry>, keys: Seq<String>) -> bool {
    &&& entries.len() == keys.len()
    &&& forall|i: int|
        0 <= i < keys.len() ==> {
            &&& (#[trigger] entries[i]).1 == keys[i]
            &&& date_key_label(keys[i]@) == Some(entries[i].0@)
        }
}

/// The date selector's entries for a list of keys, in order. Fails with
/// `DecodeError` when a key is not a date.
pub fn dates_from_keys(keys: Vec<String>) -> (r: Result<Vec<DateEntry>, DataError>)
    ensures
        r is Ok <==> forall|i: int| 0 <= i < keys@.len() ==> (#[trigger] date_key_label(keys@[i]@)) is Some,
        r matches Err(e) ==> e == DataError::DecodeError,
        r matches Ok(v) ==> entries_of(v@, keys@),
{
    let mut out: Vec<DateEntry> = Vec::new();
    let mut i: usize = 0;
    while i < keys.len()
        invariant
            i <= keys@.len(),
            entries_of(out@, keys@.take(i as int)),
            forall|j: int| 0 <= j < i ==> (#[trigger] date_key_label(keys@[j]@)) is Some,
        decreases keys@.len() - i,
    {
        let key = keys[i].clone();
        let e = date_entry(date_label(key.as_str()), key);
        match e {
            Ok(e) => out.push(e),
            Err(e) => return Err(e),
        }
        i = i + 1;
        assert forall|j: int| 0 <= j < i implies keys@.take(i as int)[j] == keys@[j] by {}
        assert forall|j: int| 0 <= j < i - 1 implies keys@.take(i as int)[j] == keys@.take(i - 1)[j] by {}
    }
    assert(keys@.take(i as int) =~= keys@);
    Ok(out)
}

/// Turns the body of a `/dates` response into the date selector's entries.
/// A body that is not a JSON array of strings gives `DecodeError`.
pub fn parse_dates_response(text: &str) -> (r: Result<Vec<DateEntry>, DataError>)
    ensures
        json_string_list(text@) is None ==> r == Err::<Vec<DateEntry>, DataError>(DataError::DecodeError),
        json_string_list(text@) matches Some(keys) ==> {
            &&& r is Ok <==> forall|i: int| 0 <= i < keys@.len() ==> (#[trigger] date_key_label(keys@[i]@)) is Some
            &&& r matches Err(e) ==> e == DataError::DecodeError
            &&& r matches Ok(v) ==> entries_of(v@, keys@)
        },
{
    match decode_string_list(text) {
        None => Err(DataError::DecodeError),
        Some(keys) => dates_from_keys(keys),
    }
}

/// Turns the body of a `/dates/latest` response, a JSON string, into the bare
/// date key. Any other body gives `DecodeError`.
pub fn parse_latest_date_response(text: &str) -> (r: Result<String, DataError>)
    ensures
        json_string(text@) is None ==> r == Err::<String, DataError>(DataError::DecodeError),
        json_string(text@) matches Some(k) ==> r == Ok::<String, DataError>(k),
{
    match decode_string(text) {
        None => Err(DataError::DecodeError),
        Some(k) => Ok(k),
    }
}

} // verus!
