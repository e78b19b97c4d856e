//! Serializing the recent-password history to and from the JSON-array
//! payload that the hosting runtime persists.

use vstd::prelude::*;

use crate::history::RecentHistory;
use crate::history::canonical;
use crate::history::restore_spec;

verus! {

/// The JSON text that serializing a list of entries produces.
pub uninterp spec fn json_array_of(entries: Seq<Seq<char>>) -> Seq<char>;

/// What a persisted payload parses into: the list of entries it encodes,
/// or nothing when it is not a JSON array of strings.
pub uninterp spec fn parsed_history(text: Seq<char>) -> Option<Seq<Seq<char>>>;

/// Relies on `serde_json::to_string` for `Vec<String>`: the produced text
/// depends on the entries alone, and serializing a list of strings cannot
/// fail, so the error arm is never taken.
#[verifier::external_body]
fn entries_to_json(entries: &Vec<String>) -> (r: String)
    ensures
        r@ == json_array_of(entries.deep_view()),
{
    match serde_json::to_string(entries) {
        Ok(text) => text,
        Err(_) => String::new(),
    }
}

/// Relies on `serde_json::from_str` for `Vec<String>`: whether and how a
/// payload parses depends on the text alone.
#[verifier::external_body]
fn json_to_entries(text: &str) -> (r: Option<Vec<String>>)
    ensures
        match r {
            Some(entries) => parsed_history(text@) == Some(entries.deep_view()),
            None => parsed_history(text@) is None,
        },
{
    match serde_json::from_str(text) {
        Ok(entries) => Some(entries),
        Err(_) => None,
    }
}

/// The history a persisted payload stands for: the entries it encodes,
/// canonicalized; an absent or unparseable payload stands for an empty
/// history.
pub open spec fn loaded_history_spec(payload: Option<Seq<char>>) -> Seq<Seq<char>> {
    match payload {
        Some(text) => match parsed_history(text) {
            Some(entries) => restore_spec(entries),
            None => Seq::empty(),
        },
        None => Seq::empty(),
    }
}

/// The persistence payload for the current history: its entries, newest
/// first, as a JSON array of strings.
pub fn encode_history(history: &RecentHistory) -> (r: String)
    ensures
        r@ == json_array_of(history@),
{
    let entries = history.snapshot();
    entries_to_json(&entries)
}

/// Rebuilds the history from a persisted payload. A missing payload, or one
/// that does not parse as a JSON array of strings, yields an empty history,
/// never an error.
pub fn load_history(payload: Option<String>) -> (h: RecentHistory)
    ensures
        canonical(h@),
        h@ == loaded_history_spec(payload.deep_view()),
{
    match payload {
        Some(text) => match json_to_entries(text.as_str()) {
            Some(entries) => {
                let mut h = RecentHistory::new();
                h.restore(entries);
                h
            },
            None => RecentHistory::new(),
        },
        None => RecentHistory::new(),
    }
}

} // verus!
