//! The JSON text of the registry index files, read and written with
//! `serde_json`. A modules index is an object from module names to
//! versions; a cache index is an object from module names to arrays of
//! versions.

use vstd::prelude::*;
use crate::collections::{distinct_keys, pairs_map, prefix_set};

verus! {

/// The object of strings that `serde_json::from_str` reads from `text`
/// (as a `HashMap<String, String>`), or `None` when it reports an error.
pub uninterp spec fn json_string_object(text: Seq<char>) -> Option<Map<Seq<char>, Seq<char>>>;

/// The object of string sets that `serde_json::from_str` reads from `text`
/// (as a `HashMap<String, HashSet<String>>`), or `None` when it reports an error.
pub uninterp spec fn json_string_set_object(text: Seq<char>) -> Option<Map<Seq<char>, Set<Seq<char>>>>;

/// The text that `serde_json::to_string_pretty` writes for an object of
/// strings given in key order (a `BTreeMap<&String, &String>`), or `None`
/// when it reports an error.
pub uninterp spec fn json_pretty_string_object(m: Map<Seq<char>, Seq<char>>) -> Option<Seq<char>>;

/// The text that `serde_json::to_string_pretty` writes for an object of
/// string sets given in key order (a `BTreeMap<&String, BTreeSet<&String>>`),
/// or `None` when it reports an error.
pub uninterp spec fn json_pretty_string_set_object(m: Map<Seq<char>, Set<Seq<char>>>) -> Option<Seq<char>>;

/// The map from each key to the set of its strings, for entries with distinct keys.
pub open spec fn pairs_set_map(s: Seq<(String, Vec<String>)>) -> Map<Seq<char>, Set<Seq<char>>> {
    Map::new(
        |k: Seq<char>| exists|i: int| 0 <= i < s.len() && #[trigger] s[i].0@ == k,
        |k: Seq<char>|
            {
                let v = s[choose|i: int| 0 <= i < s.len() && #[trigger] s[i].0@ == k].1@;
                prefix_set(v, v.len() as int)
            },
    )
}

/// Reads a JSON object whose values are strings, with
/// `serde_json::from_str::<HashMap<String, String>>`. The contract claims
/// that the call is a function of the text (named above), that its entries
/// come out with distinct keys (those of a `HashMap`), and that they are
/// the object's members; the order in which they come out is not stated.
#[verifier::external_body]
pub(crate) fn read_json_string_object(text: &str) -> (r: Option<Vec<(String, String)>>)
    ensures
        r is Some <==> json_string_object(text@) is Some,
        r matches Some(v) ==> distinct_keys(v@) && json_string_object(text@) == Some(
            pairs_map(v@),
        ),
{
    serde_json::from_str::<std::collections::HashMap<String, String>>(text).ok().map(
        |m| m.into_iter().collect(),
    )
}

/// Reads a JSON object whose values are arrays of strings, with
/// `serde_json::from_str::<HashMap<String, HashSet<String>>>`. The contract
/// claims that the call is a function of the text (named above), that its
/// entries come out with distinct keys, and that each key's strings are
/// the members of its set; the order is not stated.
#[verifier::external_body]
pub(crate) fn read_json_string_set_object(text: &str) -> (r: Option<Vec<(String, Vec<String>)>>)
    ensures
        r is Some <==> json_string_set_object(text@) is Some,
        r matches Some(v) ==> distinct_keys(v@) && json_string_set_object(text@) == Some(
            pairs_set_map(v@),
        ),
{
    serde_json::from_str::<
        std::collections::HashMap<String, std::collections::HashSet<String>>,
    >(text).ok().map(|m| m.into_iter().map(|(k, s)| (k, s.into_iter().collect())).collect())
}

/// Writes an object of strings with `serde_json::to_string_pretty`, its
/// keys in order (a `BTreeMap`). The contract claims that the text is a
/// function of the object (named above) and that `serde_json::from_str`
/// reads the same object back from it: string keys and values are written
/// as escaped JSON strings, which the reader unescapes.
#[verifier::external_body]
pub(crate) fn write_json_string_object(entries: &Vec<(String, String)>) -> (r: Option<String>)
    requires
        distinct_keys(entries@),
    ensures
        match r {
            Some(s) => json_pretty_string_object(pairs_map(entries@)) == Some(s@)
                && json_string_object(s@) == Some(pairs_map(entries@)),
            None => json_pretty_string_object(pairs_map(entries@)) is None,
        },
{
    serde_json::to_string_pretty(
        &entries.iter().map(|(k, v)| (k, v)).collect::<std::collections::BTreeMap<&String, &String>>(),
    ).ok()
}

/// Writes an object of string sets with `serde_json::to_string_pretty`, its
/// keys and each set's strings in order (`BTreeMap` and `BTreeSet`). The
/// contract claims that the text is a function of the object (named above)
/// and that `serde_json::from_str` reads the same object back from it.
#[verifier::external_body]
pub(crate) fn write_json_string_set_object(entries: &Vec<(String, Vec<String>)>) -> (r: Option<String>)
    requires
        distinct_keys(entries@),
    ensures
        match r {
            Some(s) => json_pretty_string_set_object(pairs_set_map(entries@)) == Some(s@)
                && json_string_set_object(s@) == Some(pairs_set_map(entries@)),
            None => json_pretty_string_set_object(pairs_set_map(entries@)) is None,
        },
{
    serde_json::to_string_pretty(
        &entries.iter().map(|(k, v)| (k, v.iter().collect())).collect::<
            std::collections::BTreeMap<&String, std::collections::BTreeSet<&String>>,
        >(),
    ).ok()
}

} // verus!
