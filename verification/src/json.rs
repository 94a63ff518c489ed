//! Reading a corpus from lines of JSON text, one record to a line.

use crate::record::{fields_of, Fields, Record};
use crate::store::{loaded, RecordStore};
use vstd::prelude::*;

verus! {

/// What `serde_json` reads from `line`: nothing where the line is no JSON
/// text; else the members of the object that the text holds, each with its
/// text where its value is a string. A JSON text that is no object has no
/// members.
pub uninterp spec fn json_members(line: Seq<char>) -> Option<
    Seq<(Seq<char>, Option<Seq<char>>)>,
>;

/// Calls `serde_json::from_str` for a `Value`, then hands out what the value
/// holds: the members of an object (`as_object`), each with its name and,
/// where the member's value is a string, that string (`as_str`). Not proved:
/// that this is what `json_members` names.
#[verifier::external_body]
fn parse_members(line: &str) -> (members: Option<Vec<(String, Option<String>)>>)
    ensures
        members.deep_view() == json_members(line@),
{
    let value: serde_json::Value = serde_json::from_str(line).ok()?;
    Some(
        value.as_object().into_iter().flatten().map(
            |(name, member)| (name.clone(), member.as_str().map(String::from)),
        ).collect(),
    )
}

/// The record that a line describes, where the line is JSON text.
pub open spec fn json_record(line: Seq<char>) -> Option<Fields> {
    match json_members(line) {
        Some(members) => Some(fields_of(members)),
        None => None,
    }
}

/// The records that the lines describe, line by line.
pub open spec fn json_records(lines: Seq<Seq<char>>) -> Seq<Fields> {
    Seq::new(lines.len(), |i: int| json_record(lines[i]).unwrap())
}

/// A line of a corpus that is no JSON text.
#[derive(Debug, Clone, Copy, PartialEq, Eq)]
pub struct InvalidLine {
    /// Position of the line among the lines given, counted from 0.
    pub line: usize,
}

/// Reads one record from a line of JSON text. There is none where the line
/// is no JSON text.
pub fn parse_record(line: &str) -> (record: Option<Record>)
    ensures
        record.deep_view() == json_record(line@),
{
    match parse_members(line) {
        Some(members) => Some(Record::from_members(&members)),
        None => None,
    }
}

/// Builds the store from the lines of a corpus. Each line holds one record
/// as JSON text; a record read later takes the place of an earlier one with
/// the same identifier. The first line that is no JSON text is an error, and
/// then there is no store.
pub fn load_json_lines(lines: &Vec<String>) -> (store: Result<RecordStore, InvalidLine>)
    ensures
        match store {
            Ok(store) => {
                &&& forall|i: int| 0 <= i < lines.len() ==> json_record(#[trigger] lines[i]@) is Some
                &&& store@ == loaded(json_records(lines.deep_view()))
            },
            Err(error) => {
                &&& error.line < lines.len()
                &&& json_record(lines[error.line as int]@) is None
                &&& forall|i: int| 0 <= i < error.line ==> json_record(#[trigger] lines[i]@) is Some
            },
        },
{
    let mut records: Vec<Record> = Vec::new();
    let mut i: usize = 0;
    while i < lines.len()
        invariant
            i <= lines.len(),
            records.len() == i,
            forall|k: int| 0 <= k < i ==> json_record(#[trigger] lines[k]@) == Some(records[k]@),
        decreases lines.len() - i,
    {
        match parse_record(lines[i].as_str()) {
            Some(record) => records.push(record),
            None => return Err(InvalidLine { line: i }),
        }
        i += 1;
    }
    assert(records.deep_view() =~= json_records(lines.deep_view()));
    Ok(RecordStore::from_records(records))
}

} // verus!
