//! The store and the login form as JSON documents, read and written by
//! `serde_json`.
//!
//! Nothing here is proved: each item states what is relied on of one call into
//! `serde_json`, and the rest of the library is verified against that.

use std::collections::HashMap;
use vstd::prelude::*;

verus! {

/// One user as the store's document holds it: the username, the id and the
/// password. The document is a JSON object from each username to the pair of
/// the other two.
pub type Record = (String, u128, String);

/// One field of a login form: its name and its value.
pub type Field = (String, String);

/// The users of a store's document by username, as plain values.
pub type RecordMap = Map<Seq<char>, (u128, Seq<char>)>;

/// The fields of a login form by name, as plain values.
pub type FieldMap = Map<Seq<char>, Seq<char>>;

/// Why a document could not be read or written.
#[derive(Debug, PartialEq, Eq, Clone, Copy, Structural)]
pub enum DocumentError {
    /// The text is not the document of a store.
    Malformed,
    /// Two users of the document are written with one id.
    SharedId,
    /// The users cannot be written down: two of them share a name, and a
    /// document holds one user for each name.
    Unwritable,
}

/// `serde_json::Error`, which says why a text could not be read or a value not
/// written. It is only carried from the call to the place that answers it.
#[verifier::external_type_specification]
#[verifier::external_body]
pub struct ExJsonError(serde_json::Error);

/// What `serde_json::from_str` makes of `text` when a map from strings to
/// pairs of a `u128` and a string is asked for: the map, or `None` where the
/// text is refused.
pub uninterp spec fn records_in(text: Seq<char>) -> Option<RecordMap>;

/// What `serde_json::from_str` makes of `text` when a map from strings to
/// strings is asked for: the map, or `None` where the text is refused.
pub uninterp spec fn fields_in(text: Seq<char>) -> Option<FieldMap>;

/// No username comes twice among the records.
pub open spec fn names_distinct(records: Seq<Record>) -> bool {
    forall|i: int, j: int|
        0 <= i < j < records.len() ==> (#[trigger] records[i]).0@ != (#[trigger] records[j]).0@
}

/// `records` lists `map`: each record is an entry of the map, each entry of
/// the map is among the records, and no username comes twice.
pub open spec fn lists_records(records: Seq<Record>, map: RecordMap) -> bool {
    &&& forall|i: int|
        0 <= i < records.len() ==> map.contains_key((#[trigger] records[i]).0@) && map[records[i].0@]
            == (records[i].1, records[i].2@)
    &&& forall|name: Seq<char>| #[trigger]
        map.contains_key(name) ==> exists|i: int|
            0 <= i < records.len() && (#[trigger] records[i]).0@ == name
    &&& names_distinct(records)
}

/// `fields` lists `map`: each field is an entry of the map, each entry of the
/// map is among the fields, and no name comes twice.
pub open spec fn lists_fields(fields: Seq<Field>, map: FieldMap) -> bool {
    &&& forall|i: int|
        0 <= i < fields.len() ==> map.contains_key((#[trigger] fields[i]).0@) && map[fields[i].0@]
            == fields[i].1@
    &&& forall|name: Seq<char>| #[trigger]
        map.contains_key(name) ==> exists|i: int|
            0 <= i < fields.len() && (#[trigger] fields[i]).0@ == name
    &&& forall|i: int, j: int|
        0 <= i < j < fields.len() ==> (#[trigger] fields[i]).0@ != (#[trigger] fields[j]).0@
}

/// `serde_json::from_str` at the type of a store's document. The text is
/// either refused or read as a map, and which of the two, and which map,
/// depends on the text alone. The entries of the map are handed out as a
/// list, one record for each, in no order that could be named.
#[verifier::external_body]
pub(crate) fn parse_records(text: &str) -> (parsed: Result<Vec<Record>, serde_json::Error>)
    ensures
        match parsed {
            Ok(records) => records_in(text@) matches Some(map) && lists_records(records@, map),
            Err(_) => records_in(text@) is None,
        },
{
    let map: HashMap<String, (u128, String)> = serde_json::from_str(text)?;
    Ok(map.into_iter().map(|(username, (id, password))| (username, id, password)).collect())
}

/// `serde_json::from_str` at the type of a login form. The text is either
/// refused or read as a map, and which of the two, and which map, depends on
/// the text alone. The entries of the map are handed out as a list, one field
/// for each, in no order that could be named.
#[verifier::external_body]
pub(crate) fn parse_fields(text: &str) -> (parsed: Result<Vec<Field>, serde_json::Error>)
    ensures
        match parsed {
            Ok(fields) => fields_in(text@) matches Some(map) && lists_fields(fields@, map),
            Err(_) => fields_in(text@) is None,
        },
{
    let map: HashMap<String, String> = serde_json::from_str(text)?;
    Ok(map.into_iter().collect())
}

/// `serde_json::to_string_pretty` on the map from each record's username to
/// its id and password. Writing such a map does not fail: its keys are
/// strings, and strings and numbers are written into memory. Where no
/// username comes twice among the records, the text is the JSON of exactly
/// these entries, so `serde_json::from_str` reads it as the map that the
/// records list. Where a username comes twice, the later record stands in
/// the map that is written, and nothing is claimed of the text. The order of
/// the entries in the text is not fixed.
#[verifier::external_body]
pub(crate) fn render_records(records: &Vec<Record>) -> (rendered: Result<String, serde_json::Error>)
    ensures
        rendered is Ok,
        match rendered {
            Ok(text) => names_distinct(records@) ==> (records_in(text@) matches Some(map)
                && lists_records(records@, map)),
            Err(_) => true,
        },
{
    let map: HashMap<String, (u128, String)> = records.iter().map(
        |(username, id, password)| (username.clone(), (*id, password.clone())),
    ).collect();
    serde_json::to_string_pretty(&map)
}

} // verus!
