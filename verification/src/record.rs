//! One post of the corpus: a mapping from field names to text.

use vstd::hash_map::StringHashMap;
use vstd::prelude::*;
use vstd::string::*;

verus! {

/// What a record stands for: the text of each of its fields, by the field's
/// name.
pub type Fields = Map<Seq<char>, Seq<char>>;

/// The text of field `key`, empty where there is no such field.
pub open spec fn text_of(fields: Fields, key: Seq<char>) -> Seq<char> {
    if fields.contains_key(key) {
        fields[key]
    } else {
        Seq::empty()
    }
}

/// The identifier a record is stored under: the text of its field `id`.
pub open spec fn id_of(fields: Fields) -> Seq<char> {
    text_of(fields, "id"@)
}

/// A record's title: the text of its field `title`.
pub open spec fn title_of(fields: Fields) -> Seq<char> {
    text_of(fields, "title"@)
}

/// A record's body: the text of its field `selftext`.
pub open spec fn selftext_of(fields: Fields) -> Seq<char> {
    text_of(fields, "selftext"@)
}

/// A post. Only the fields whose value is a string are kept; a field of
/// another kind reads like one that is absent.
pub struct Record {
    fields: StringHashMap<String>,
}

impl View for Record {
    type V = Fields;

    closed spec fn view(&self) -> Fields {
        self.fields@.map_values(|text: String| text@)
    }
}

impl DeepView for Record {
    type V = Fields;

    open spec fn deep_view(&self) -> Fields {
        self@
    }
}

/// What a list of members leaves in a record: each member with text sets its
/// field, each member without text clears it, later members winning over
/// earlier ones.
pub open spec fn fields_of(members: Seq<(Seq<char>, Option<Seq<char>>)>) -> Fields
    decreases members.len(),
{
    if members.len() == 0 {
        Map::empty()
    } else {
        let earlier = fields_of(members.drop_last());
        match members.last().1 {
            Some(text) => earlier.insert(members.last().0, text),
            None => earlier.remove(members.last().0),
        }
    }
}

impl Record {
    /// A record without fields.
    pub fn new() -> (record: Record)
        ensures
            record@ == Map::<Seq<char>, Seq<char>>::empty(),
    {
        Record { fields: StringHashMap::new() }
    }

    /// Gives field `name` the text `text`, in place of any it had.
    pub fn set(&mut self, name: &str, text: &str)
        ensures
            final(self)@ == old(self)@.insert(name@, text@),
    {
        self.fields.insert(String::from_str(name), String::from_str(text));
    }

    /// Takes field `name` out of the record.
    pub fn unset(&mut self, name: &str)
        ensures
            final(self)@ == old(self)@.remove(name@),
    {
        self.fields.remove(name);
    }

    /// A post with the three fields that searching reads.
    pub fn post(id: &str, title: &str, selftext: &str) -> (record: Record)
        ensures
            record@ == Map::<Seq<char>, Seq<char>>::empty().insert("id"@, id@).insert(
                "title"@,
                title@,
            ).insert("selftext"@, selftext@),
    {
        let mut record = Record::new();
        record.set("id", id);
        record.set("title", title);
        record.set("selftext", selftext);
        record
    }

    /// The record that a list of members describes.
    pub fn from_members(members: &Vec<(String, Option<String>)>) -> (record: Record)
        ensures
            record@ == fields_of(members.deep_view()),
    {
        let mut record = Record::new();
        let mut i: usize = 0;
        while i < members.len()
            invariant
                i <= members.len(),
                record@ == fields_of(members.deep_view().take(i as int)),
            decreases members.len() - i,
        {
            let ghost seen = members.deep_view().take(i as int);
            let ghost next = members.deep_view().take(i + 1);
            assert(next.drop_last() =~= seen);
            match &members[i].1 {
                Some(text) => record.set(members[i].0.as_str(), text.as_str()),
                None => record.unset(members[i].0.as_str()),
            }
            i += 1;
        }
        assert(members.deep_view().take(members.len() as int) =~= members.deep_view());
        record
    }

    /// The text of field `key`, if the record has one.
    pub fn field(&self, key: &str) -> (text: Option<&str>)
        ensures
            text is Some <==> self@.contains_key(key@),
            text matches Some(t) ==> t@ == self@[key@],
    {
        match self.fields.get(key) {
            Some(text) => Some(text.as_str()),
            None => None,
        }
    }
}

/// The text of field `key` of `record`. A field that is absent, or whose
/// value is no string, reads as the empty string.
pub fn get_str<'a>(record: &'a Record, key: &str) -> (text: &'a str)
    ensures
        text@ == text_of(record@, key@),
{
    match record.field(key) {
        Some(text) => text,
        None => {
            proof {
                reveal_strlit("");
            }
            ""
        },
    }
}

} // verus!
