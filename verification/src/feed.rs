//! What the release feed hands over and other crates read: the `Link`
//! header of a response, and the JSON array of one page. The items of this
//! file are believed, not proved.

use vstd::prelude::*;

verus! {

/// The error of `parse_link_header`, which tells nothing to this library
/// but that the header could not be read.
#[verifier::external_type_specification]
#[verifier::external_body]
pub struct ExLinkHeaderError(parse_link_header::Error);

/// The error of `serde_json`, which tells nothing to this library but that
/// the text could not be read.
#[verifier::external_type_specification]
#[verifier::external_body]
pub struct ExJsonError(serde_json::Error);

/// What `parse_link_header::parse` finds in a `Link` header for one
/// relation and one query key. `None`: the header cannot be parsed.
/// `Some(None)`: no link has that relation. `Some(Some(None))`: the link of
/// that relation has no query of that key. Else the query's value.
pub uninterp spec fn link_header_query(header: Seq<char>, relation: Seq<char>, key: Seq<char>) -> Option<Option<Option<Seq<char>>>>;

/// What `serde_json` reads in a text as a JSON array: the compact JSON text
/// of each element, in the array's order. `None` where the text is no JSON
/// array.
pub uninterp spec fn json_array_records(text: Seq<char>) -> Option<Seq<Seq<char>>>;

/// Calls `parse_link_header::parse` on the header, looks up the link whose
/// `rel` is `relation` in the map that it returns, and in that link's
/// queries the value of `key`. The contract claims only that the outcome
/// is a function of the three texts, and gives it its name.
#[verifier::external_body]
pub(crate) fn link_query(header: &str, relation: &str, key: &str) -> (r: Result<
    Option<Option<String>>,
    parse_link_header::Error,
>)
    ensures
        match r {
            Ok(found) => link_header_query(header@, relation@, key@) == Some(found.deep_view()),
            Err(_) => link_header_query(header@, relation@, key@) is None,
        },
{
    let links = parse_link_header::parse(header)?;
    Ok(links.get(&Some(relation.to_string())).map(|link| link.queries.get(key).cloned()))
}

/// Calls `serde_json::from_str` for a vector of JSON values and hands out
/// each value as the compact text that `serde_json::to_string` gives it.
/// The contract claims only that the outcome is a function of the text,
/// and gives it its name.
#[verifier::external_body]
pub(crate) fn page_records(text: &str) -> (r: Result<Vec<String>, serde_json::Error>)
    ensures
        match r {
            Ok(records) => json_array_records(text@) == Some(records.deep_view()),
            Err(_) => json_array_records(text@) is None,
        },
{
    let values: Vec<serde_json::Value> = serde_json::from_str(text)?;
    values.iter().map(|value| serde_json::to_string(value)).collect()
}

} // verus!
