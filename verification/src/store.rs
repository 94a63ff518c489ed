//! The record store: every post of the corpus under its identifier.

use crate::record::{get_str, id_of, Fields, Record};
use vstd::hash_map::StringHashMap;
use vstd::prelude::*;
use vstd::string::*;

verus! {

/// The corpus, built once and read from then on. No two of its records share
/// an identifier.
pub struct RecordStore {
    records: Vec<Record>,
    index: StringHashMap<usize>,
}

/// What loading `records` in this order leaves in a store: each record under
/// its identifier, a later record taking the place of an earlier one with the
/// same identifier.
pub open spec fn loaded(records: Seq<Fields>) -> Map<Seq<char>, Fields>
    decreases records.len(),
{
    if records.len() == 0 {
        Map::empty()
    } else {
        loaded(records.drop_last()).insert(id_of(records.last()), records.last())
    }
}

/// A store holds a record under `id` exactly if a record with that
/// identifier was loaded.
pub proof fn lemma_loaded_contains(records: Seq<Fields>, id: Seq<char>)
    ensures
        loaded(records).contains_key(id) <==> exists|i: int|
            0 <= i < records.len() && id_of(#[trigger] records[i]) == id,
    decreases records.len(),
{
    if records.len() > 0 {
        let earlier = records.drop_last();
        lemma_loaded_contains(earlier, id);
        if id_of(records.last()) == id {
            assert(id_of(records[records.len() - 1]) == id);
        } else if loaded(records).contains_key(id) {
            let i = choose|i: int| 0 <= i < earlier.len() && id_of(#[trigger] earlier[i]) == id;
            assert(id_of(records[i]) == id);
        } else if exists|i: int| 0 <= i < records.len() && id_of(#[trigger] records[i]) == id {
            let i = choose|i: int| 0 <= i < records.len() && id_of(#[trigger] records[i]) == id;
            assert(id_of(earlier[i]) == id);
        }
    }
}

/// Every record of a store is stored under its own identifier.
pub proof fn lemma_loaded_by_id(records: Seq<Fields>, id: Seq<char>)
    requires
        loaded(records).contains_key(id),
    ensures
        id_of(loaded(records)[id]) == id,
    decreases records.len(),
{
    if records.len() > 0 && id_of(records.last()) != id {
        lemma_loaded_by_id(records.drop_last(), id);
    }
}

/// Looking an identifier up gives back the record that was loaded under it:
/// the one at position `i`, where no later record has the same identifier.
pub proof fn lemma_loaded_lookup(records: Seq<Fields>, i: int)
    requires
        0 <= i < records.len(),
        forall|j: int| i < j < records.len() ==> id_of(#[trigger] records[j]) != id_of(records[i]),
    ensures
        loaded(records).contains_key(id_of(records[i])),
        loaded(records)[id_of(records[i])] == records[i],
    decreases records.len(),
{
    if i < records.len() - 1 {
        let earlier = records.drop_last();
        assert(id_of(records[records.len() - 1]) != id_of(records[i]));
        assert(earlier[i] == records[i]);
        assert forall|j: int| i < j < earlier.len() implies id_of(#[trigger] earlier[j]) != id_of(
            earlier[i],
        ) by {
            assert(earlier[j] == records[j]);
        }
        lemma_loaded_lookup(earlier, i);
    }
}

/// Whether `listing` holds every record of `map` that `wanted` admits, each
/// exactly once, and nothing else.
pub open spec fn lists(
    listing: Seq<Fields>,
    map: Map<Seq<char>, Fields>,
    wanted: spec_fn(Fields) -> bool,
) -> bool {
    &&& forall|i: int|
        0 <= i < listing.len() ==> {
            &&& map.contains_key(#[trigger] id_of(listing[i]))
            &&& map[id_of(listing[i])] == listing[i]
            &&& wanted(listing[i])
        }
    &&& forall|id: Seq<char>|
        #[trigger] map.contains_key(id) && wanted(map[id]) ==> exists|i: int|
            0 <= i < listing.len() && #[trigger] id_of(listing[i]) == id
    &&& forall|i: int, j: int|
        0 <= i < j < listing.len() ==> #[trigger] id_of(listing[i]) != #[trigger] id_of(
            listing[j],
        )
}

/// Whether `listing` holds every record of `map` exactly once, and nothing
/// else.
pub open spec fn lists_all(listing: Seq<Fields>, map: Map<Seq<char>, Fields>) -> bool {
    lists(listing, map, |record: Fields| true)
}

/// The map that a list of records and an index into it stand for.
spec fn indexed(records: Seq<Fields>, index: Map<Seq<char>, usize>) -> Map<Seq<char>, Fields> {
    Map::new(|id: Seq<char>| index.contains_key(id), |id: Seq<char>| records[index[id] as int])
}

/// Whether `index` gives, for each identifier, the position of its record in
/// `records`, and has no other entry.
spec fn indexes(records: Seq<Fields>, index: Map<Seq<char>, usize>) -> bool {
    &&& forall|i: int|
        0 <= i < records.len() ==> index.contains_key(#[trigger] id_of(records[i]))
            && index[id_of(records[i])] == i
    &&& forall|id: Seq<char>| #[trigger]
        index.contains_key(id) ==> index[id] < records.len() && id_of(records[index[id] as int])
            == id
}

impl View for RecordStore {
    type V = Map<Seq<char>, Fields>;

    /// The record stored under each identifier.
    closed spec fn view(&self) -> Map<Seq<char>, Fields> {
        indexed(self.records.deep_view(), self.index@)
    }
}

impl RecordStore {
    #[verifier::type_invariant]
    spec fn well_indexed(self) -> bool {
        indexes(self.records.deep_view(), self.index@)
    }

    /// Builds the store from the records of a corpus, in the order given.
    pub fn from_records(records: Vec<Record>) -> (store: RecordStore)
        ensures
            store@ == loaded(records.deep_view()),
    {
        let ghost all = records.deep_view();
        let ghost given = records@;
        let mut kept: Vec<Record> = Vec::new();
        let mut index: StringHashMap<usize> = StringHashMap::new();
        assert(indexed(kept.deep_view(), index@) =~= loaded(all.take(0)));
        for record in it: records
            invariant
                it.seq() == given,
                all.len() == given.len(),
                forall|i: int| 0 <= i < given.len() ==> all[i] == (#[trigger] given[i])@,
                indexes(kept.deep_view(), index@),
                indexed(kept.deep_view(), index@) == loaded(all.take(it.index() as int)),
        {
            let ghost seen = all.take(it.index() as int);
            let ghost next = all.take(it.index() + 1);
            assert(next.drop_last() =~= seen);
            assert(next.last() == record@);
            let ghost old_kept = kept.deep_view();
            let ghost old_index = index@;
            let key = String::from_str(get_str(&record, "id"));
            let found = match index.get(key.as_str()) {
                Some(position) => Some(*position),
                None => None,
            };
            match found {
                Some(position) => {
                    kept.set(position, record);
                },
                None => {
                    index.insert(key, kept.len());
                    kept.push(record);
                },
            }
            assert(kept.deep_view() =~= match found {
                Some(position) => old_kept.update(position as int, record@),
                None => old_kept.push(record@),
            });
            assert(indexed(kept.deep_view(), index@) =~= indexed(old_kept, old_index).insert(
                id_of(record@),
                record@,
            ));
        }
        assert(all.take(all.len() as int) =~= all);
        RecordStore { records: kept, index }
    }

    /// The record stored under `id`, if there is one.
    pub fn get(&self, id: &str) -> (record: Option<&Record>)
        ensures
            record is Some <==> self@.contains_key(id@),
            record matches Some(r) ==> r@ == self@[id@] && id_of(r@) == id@,
    {
        proof {
            use_type_invariant(self);
        }
        match self.index.get(id) {
            Some(position) => Some(&self.records[*position]),
            None => None,
        }
    }

    /// Every record of the store, once each.
    pub fn records(&self) -> (records: &Vec<Record>)
        ensures
            lists_all(records.deep_view(), self@),
    {
        proof {
            use_type_invariant(self);
        }
        &self.records
    }

    /// Number of records in the store.
    pub fn len(&self) -> (n: usize)
        ensures
            n == self@.len(),
    {
        proof {
            assert(self@.dom() =~= self.index@.dom());
        }
        self.index.len()
    }

    /// Whether the store holds no record.
    pub fn is_empty(&self) -> (empty: bool)
        ensures
            empty <==> self@.len() == 0,
    {
        self.len() == 0
    }
}

} // verus!
