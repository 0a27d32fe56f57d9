//! JSON documents, read with `serde_json`.

use vstd::prelude::*;

use crate::double::Double;

verus! {

/// What the scheduler reads of one member of a JSON object.
pub enum JsonValue {
    /// An array: each element as a number, `None` where it is not one.
    Array(Vec<Option<Double>>),
    /// Anything that is not an array.
    Other,
}

/// The model of a [`JsonValue`].
pub ghost enum JsonShape {
    /// An array, element by element.
    Array(Seq<Option<Double>>),
    /// Anything that is not an array.
    Other,
}

impl View for JsonValue {
    type V = JsonShape;

    open spec fn view(&self) -> JsonShape {
        match self {
            JsonValue::Array(items) => JsonShape::Array(items@),
            JsonValue::Other => JsonShape::Other,
        }
    }
}

/// The finite map that the members of an object stand for.
pub open spec fn members_map(members: Seq<(String, JsonValue)>) -> Map<Seq<char>, JsonShape>
    decreases members.len(),
{
    if members.len() == 0 {
        Map::empty()
    } else {
        members_map(members.drop_last()).insert(members.last().0@, members.last().1@)
    }
}

/// What `serde_json` makes of a text that should be a JSON object: its members by name, or the
/// text of the error.
pub uninterp spec fn json_object(text: Seq<char>) -> Result<Map<Seq<char>, JsonShape>, Seq<char>>;

/// What `serde_json` makes of a text that should be a list of indexes, on a machine whose words have
/// so many bits: the list, or the text of the error.
pub uninterp spec fn json_indexes(text: Seq<char>, word_bits: u32) -> Result<Seq<usize>, Seq<char>>;

/// What `serde_json` makes of a text that should be a JSON object with a list of numbers under each
/// name: the lists by name, or the text of the error.
pub uninterp spec fn json_columns(text: Seq<char>) -> Result<
    Map<Seq<char>, Seq<Double>>,
    Seq<char>,
>;

/// What `serde_json` makes of a text that should be a list of lists of numbers: the numbers, or the
/// text of the error.
pub uninterp spec fn json_rows(text: Seq<char>) -> Result<Seq<Seq<Double>>, Seq<char>>;

/// Calls `serde_json::from_str` for a map from strings to values, and hands the members out in
/// no particular order, arrays with each element as `Value::as_f64` gives it. Believed of it: the
/// outcome depends on the text alone, and no member name comes twice.
#[verifier::external_body]
pub(crate) fn parse_object(text: &str) -> (r: Result<Vec<(String, JsonValue)>, String>)
    ensures
        match r {
            Ok(members) => json_object(text@) == Ok::<Map<Seq<char>, JsonShape>, Seq<char>>(
                members_map(members@),
            ) && crate::table::distinct_names(members@),
            Err(e) => json_object(text@) == Err::<Map<Seq<char>, JsonShape>, Seq<char>>(e@),
        },
{
    match serde_json::from_str::<std::collections::HashMap<String, serde_json::Value>>(text) {
        Ok(map) => Ok(map.into_iter().map(|(key, value)| match value {
            serde_json::Value::Array(items) => (key, JsonValue::Array(items.iter().map(|item| {
                item.as_f64().map(|x| Double { bits: x.to_bits() })
            }).collect())),
            _ => (key, JsonValue::Other),
        }).collect()),
        Err(e) => Err(format!("{}", e)),
    }
}

/// Calls `serde_json::from_str` for a list of indexes. Believed of it: the outcome depends on the
/// text and on the size of a word of the machine, which bounds an index, and on nothing else.
#[verifier::external_body]
pub(crate) fn parse_indexes(text: &str) -> (r: Result<Vec<usize>, String>)
    ensures
        match r {
            Ok(list) => json_indexes(text@, usize::BITS) == Ok::<Seq<usize>, Seq<char>>(list@),
            Err(e) => json_indexes(text@, usize::BITS) == Err::<Seq<usize>, Seq<char>>(e@),
        },
{
    match serde_json::from_str::<Vec<usize>>(text) {
        Ok(list) => Ok(list),
        Err(e) => Err(format!("{}", e)),
    }
}

/// Calls `serde_json::from_str` for a map from strings to lists of double-precision numbers, and
/// hands the lists out in no particular order, each number by its bit pattern, through
/// `Number::from_f64`, which takes every number that a JSON text can hold. Believed of them: the
/// outcome depends on the text alone, and no name comes twice.
#[verifier::external_body]
pub(crate) fn parse_columns(text: &str) -> (r: Result<Vec<(String, Vec<Double>)>, String>)
    ensures
        match r {
            Ok(list) => json_columns(text@) == Ok::<Map<Seq<char>, Seq<Double>>, Seq<char>>(
                crate::feature_sched::metadata::arrays(crate::table::entries_map(list@)),
            ) && crate::table::distinct_names(list@),
            Err(e) => json_columns(text@) == Err::<Map<Seq<char>, Seq<Double>>, Seq<char>>(e@),
        },
{
    match serde_json::from_str::<std::collections::HashMap<String, Vec<_>>>(text) {
        Ok(map) => Ok(map.into_iter().map(|(key, list)| (key, list.into_iter().map(|x| {
            let number = serde_json::Number::from_f64(x).and_then(|n| n.as_f64());
            Double { bits: number.unwrap().to_bits() }
        }).collect())).collect()),
        Err(e) => Err(format!("{}", e)),
    }
}

/// Calls `serde_json::from_str` for a list of lists of double-precision numbers, and hands each
/// number out by its bit pattern, through `Number::from_f64`, which takes every number that a JSON
/// text can hold. Believed of them: the outcome depends on the text alone.
#[verifier::external_body]
pub(crate) fn parse_rows(text: &str) -> (r: Result<Vec<Vec<Double>>, String>)
    ensures
        match r {
            Ok(list) => json_rows(text@) == Ok::<Seq<Seq<Double>>, Seq<char>>(
                crate::feature_sched::metadata::rows(list@),
            ),
            Err(e) => json_rows(text@) == Err::<Seq<Seq<Double>>, Seq<char>>(e@),
        },
{
    match serde_json::from_str::<Vec<Vec<_>>>(text) {
        Ok(list) => Ok(list.into_iter().map(|row| row.into_iter().map(|x| {
            let number = serde_json::Number::from_f64(x).and_then(|n| n.as_f64());
            Double { bits: number.unwrap().to_bits() }
        }).collect()).collect()),
        Err(e) => Err(format!("{}", e)),
    }
}

} // verus!
