//! Looking a single post up by its identifier.

use crate::record::{get_str, id_of, selftext_of, title_of, Record};
use crate::store::RecordStore;
use vstd::prelude::*;

verus! {

/// The record stored under `id`, if there is one.
pub fn lookup<'a>(store: &'a RecordStore, id: &str) -> (record: Option<&'a Record>)
    ensures
        record is Some <==> store@.contains_key(id@),
        record matches Some(found) ==> found@ == store@[id@] && id_of(found@) == id@,
{
    store.get(id)
}

/// The title and the body of the post stored under `id`. There is none only
/// where the store has no record under `id`; a title or a body that the
/// record lacks reads as the empty string.
pub fn post<'a>(store: &'a RecordStore, id: &str) -> (content: Option<(&'a str, &'a str)>)
    ensures
        content is Some <==> store@.contains_key(id@),
        content matches Some((title, body)) ==> {
            &&& title@ == title_of(store@[id@])
            &&& body@ == selftext_of(store@[id@])
        },
{
    match store.get(id) {
        Some(record) => Some((get_str(record, "title"), get_str(record, "selftext"))),
        None => None,
    }
}

} // verus!
