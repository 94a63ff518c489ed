//! Scanning the records of a store for those that a list of phrases selects,
//! and putting what was found in the order of its identifiers.

use crate::phrase::{phrase_holds, PhraseMatcher};
use crate::record::{get_str, id_of, Fields, Record};
use crate::store::{lists, lists_all, RecordStore};
use crate::text::{lemma_lex_le_antisymmetric, lemma_lex_le_total, lex_le};
use rayon::prelude::{IndexedParallelIterator, IntoParallelRefIterator, ParallelIterator};
use vstd::prelude::*;

verus! {

/// Whether at least one of `phrases` holds for `record`.
pub open spec fn any_phrase_holds(phrases: Seq<Seq<char>>, record: Fields) -> bool {
    exists|t: int| 0 <= t < phrases.len() && phrase_holds(#[trigger] phrases[t], record)
}

/// Whether `picked` names, once each, the positions in `records` of exactly
/// those records for which one of `phrases` holds.
pub open spec fn picks(picked: Seq<usize>, records: Seq<Fields>, phrases: Seq<Seq<char>>) -> bool {
    &&& picked.no_duplicates()
    &&& forall|k: int|
        0 <= k < picked.len() ==> (#[trigger] picked[k]) < records.len() && any_phrase_holds(
            phrases,
            records[picked[k] as int],
        )
    &&& forall|i: int|
        0 <= i < records.len() && any_phrase_holds(phrases, #[trigger] records[i]) ==> exists|
            k: int,
        |
            0 <= k < picked.len() && #[trigger] picked[k] == i
}

/// Whether the records that `picked` names stand in ascending order of their
/// identifiers.
pub open spec fn ordered_by_id(picked: Seq<usize>, records: Seq<Fields>) -> bool {
    forall|i: int, j: int|
        0 <= i < j < picked.len() ==> lex_le(
            id_of(records[(#[trigger] picked[i]) as int]),
            id_of(records[(#[trigger] picked[j]) as int]),
        )
}

/// Whether one of the phrases holds for `record`.
pub fn any_matches(matchers: &Vec<PhraseMatcher>, record: &Record) -> (found: bool)
    ensures
        found == any_phrase_holds(matchers.deep_view(), record@),
{
    let ghost phrases = matchers.deep_view();
    let mut t: usize = 0;
    while t < matchers.len()
        invariant
            t <= matchers.len(),
            phrases == matchers.deep_view(),
            forall|s: int| 0 <= s < t ==> !phrase_holds(#[trigger] phrases[s], record@),
        decreases matchers.len() - t,
    {
        if matchers[t].matches(record) {
            assert(phrase_holds(phrases[t as int], record@));
            return true;
        }
        t += 1;
    }
    false
}

/// Hands the records to rayon's worker threads (`par_iter`, `enumerate`,
/// `filter`, `map`, `collect`), which ask `any_matches` about one record at
/// a time. Not proved: that what comes back holds the position of every
/// record for which the answer was yes, once, and no other. Nothing is
/// claimed of the order.
#[verifier::external_body]
fn select(records: &Vec<Record>, matchers: &Vec<PhraseMatcher>) -> (picked: Vec<usize>)
    ensures
        picks(picked@, records.deep_view(), matchers.deep_view()),
{
    records.par_iter().enumerate().filter(|(_, record)| any_matches(matchers, record)).map(
        |(position, _)| position,
    ).collect()
}

/// Calls `sort_by_key` of std's slices with each position's record
/// identifier as the key. Not proved, but documented by std: strings compare
/// by their bytes, which is the order `lex_le`, and the sort permutes the
/// positions and leaves their keys ascending.
#[verifier::external_body]
fn sort_by_id(records: &Vec<Record>, picked: &mut Vec<usize>)
    requires
        forall|k: int| 0 <= k < old(picked).len() ==> (#[trigger] old(picked)[k]) < records.len(),
    ensures
        final(picked)@.to_multiset() == old(picked)@.to_multiset(),
        ordered_by_id(final(picked)@, records.deep_view()),
{
    picked.sort_by_key(|position| get_str(&records[*position], "id"));
}

/// Whether the identifiers of `listing` ascend from its front to its back.
pub open spec fn ascending_by_id(listing: Seq<Fields>) -> bool {
    forall|i: int, j: int|
        0 <= i < j < listing.len() ==> lex_le(
            id_of(#[trigger] listing[i]),
            id_of(#[trigger] listing[j]),
        )
}

/// Without its first entry an ascending listing is an ascending listing of
/// what is left of the map once that entry's record is taken out.
proof fn lemma_listing_rest(
    listing: Seq<Fields>,
    map: Map<Seq<char>, Fields>,
    wanted: spec_fn(Fields) -> bool,
)
    requires
        lists(listing, map, wanted),
        ascending_by_id(listing),
        listing.len() > 0,
    ensures
        lists(listing.drop_first(), map.remove(id_of(listing[0])), wanted),
        ascending_by_id(listing.drop_first()),
{
    let rest = listing.drop_first();
    let smaller = map.remove(id_of(listing[0]));
    assert forall|i: int| 0 <= i < rest.len() implies {
        &&& smaller.contains_key(#[trigger] id_of(rest[i]))
        &&& smaller[id_of(rest[i])] == rest[i]
        &&& wanted(rest[i])
    } by {
        assert(rest[i] == listing[i + 1]);
        assert(id_of(listing[0]) != id_of(listing[i + 1]));
        assert(map.contains_key(id_of(listing[i + 1])));
    }
    assert forall|id: Seq<char>| #[trigger]
        smaller.contains_key(id) && wanted(smaller[id]) implies exists|i: int|
        0 <= i < rest.len() && #[trigger] id_of(rest[i]) == id by {
        assert(map.contains_key(id));
        let i = choose|i: int| 0 <= i < listing.len() && #[trigger] id_of(listing[i]) == id;
        assert(rest[i - 1] == listing[i]);
    }
    assert forall|i: int, j: int| 0 <= i < j < rest.len() implies #[trigger] id_of(rest[i])
        != #[trigger] id_of(rest[j]) by {
        assert(rest[i] == listing[i + 1]);
        assert(rest[j] == listing[j + 1]);
    }
    assert forall|i: int, j: int| 0 <= i < j < rest.len() implies lex_le(
        id_of(#[trigger] rest[i]),
        id_of(#[trigger] rest[j]),
    ) by {
        assert(rest[i] == listing[i + 1]);
        assert(rest[j] == listing[j + 1]);
    }
}

/// The first entry of an ascending listing comes before every record that
/// the listing holds.
proof fn lemma_first_is_least(
    listing: Seq<Fields>,
    map: Map<Seq<char>, Fields>,
    wanted: spec_fn(Fields) -> bool,
    id: Seq<char>,
)
    requires
        lists(listing, map, wanted),
        ascending_by_id(listing),
        map.contains_key(id),
        wanted(map[id]),
    ensures
        listing.len() > 0,
        lex_le(id_of(listing[0]), id),
{
    let i = choose|i: int| 0 <= i < listing.len() && #[trigger] id_of(listing[i]) == id;
    if i == 0 {
        lemma_lex_le_total(id, id);
    } else {
        assert(lex_le(id_of(listing[0]), id_of(listing[i])));
    }
}

/// A map has one ascending listing of its wanted records and no other: two
/// such listings are equal, entry for entry.
pub proof fn lemma_ascending_listing_unique(
    a: Seq<Fields>,
    b: Seq<Fields>,
    map: Map<Seq<char>, Fields>,
    wanted: spec_fn(Fields) -> bool,
)
    requires
        lists(a, map, wanted),
        ascending_by_id(a),
        lists(b, map, wanted),
        ascending_by_id(b),
    ensures
        a == b,
    decreases a.len(),
{
    if a.len() == 0 {
        if b.len() > 0 {
            lemma_first_is_least(a, map, wanted, id_of(b[0]));
        }
        assert(a =~= b);
    } else {
        lemma_first_is_least(b, map, wanted, id_of(a[0]));
        lemma_first_is_least(a, map, wanted, id_of(b[0]));
        lemma_lex_le_antisymmetric(id_of(a[0]), id_of(b[0]));
        assert(a[0] == b[0]);
        lemma_listing_rest(a, map, wanted);
        lemma_listing_rest(b, map, wanted);
        lemma_ascending_listing_unique(
            a.drop_first(),
            b.drop_first(),
            map.remove(id_of(a[0])),
            wanted,
        );
        assert(a =~= seq![a[0]] + a.drop_first());
        assert(b =~= seq![b[0]] + b.drop_first());
    }
}

/// The records at the positions `picked`, in the order of `picked`.
fn gather<'a>(records: &'a Vec<Record>, picked: &Vec<usize>) -> (found: Vec<&'a Record>)
    requires
        forall|k: int| 0 <= k < picked.len() ==> (#[trigger] picked[k]) < records.len(),
    ensures
        found.len() == picked.len(),
        forall|k: int|
            0 <= k < found.len() ==> (#[trigger] found.deep_view()[k])
                == records.deep_view()[picked[k] as int],
{
    let mut found: Vec<&'a Record> = Vec::new();
    let mut k: usize = 0;
    while k < picked.len()
        invariant
            k <= picked.len(),
            found.len() == k,
            forall|k: int| 0 <= k < picked.len() ==> (#[trigger] picked[k]) < records.len(),
            forall|h: int| 0 <= h < k ==> *(#[trigger] found[h]) == records[picked[h] as int],
        decreases picked.len() - k,
    {
        found.push(&records[picked[k]]);
        k += 1;
    }
    found
}

/// Positions that pick out the right records of a complete list of a store
/// give a listing of the store's wanted records.
proof fn lemma_picked_lists(
    found: Seq<Fields>,
    picked: Seq<usize>,
    records: Seq<Fields>,
    phrases: Seq<Seq<char>>,
    map: Map<Seq<char>, Fields>,
)
    requires
        picks(picked, records, phrases),
        lists_all(records, map),
        found.len() == picked.len(),
        forall|k: int| 0 <= k < found.len() ==> #[trigger] found[k] == records[picked[k] as int],
    ensures
        lists(found, map, |record: Fields| any_phrase_holds(phrases, record)),
{
    let wanted = |record: Fields| any_phrase_holds(phrases, record);
    assert forall|i: int| 0 <= i < found.len() implies {
        &&& map.contains_key(#[trigger] id_of(found[i]))
        &&& map[id_of(found[i])] == found[i]
        &&& wanted(found[i])
    } by {
        let position = picked[i] as int;
        assert(map.contains_key(id_of(records[position])));
    }
    assert forall|id: Seq<char>| #[trigger] map.contains_key(id) && wanted(map[id]) implies exists|
        i: int,
    |
        0 <= i < found.len() && #[trigger] id_of(found[i]) == id by {
        let position = choose|position: int|
            0 <= position < records.len() && #[trigger] id_of(records[position]) == id;
        assert(map[id_of(records[position])] == records[position]);
        let k = choose|k: int| 0 <= k < picked.len() && #[trigger] picked[k] == position;
        assert(id_of(found[k]) == id);
    }
    assert forall|i: int, j: int| 0 <= i < j < found.len() implies #[trigger] id_of(found[i])
        != #[trigger] id_of(found[j]) by {
        let first = picked[i] as int;
        let second = picked[j] as int;
        assert(first != second);
        if first < second {
            assert(id_of(records[first]) != id_of(records[second]));
        } else {
            assert(id_of(records[second]) != id_of(records[first]));
        }
    }
}

/// Reordering the positions leaves them picking out the same records.
proof fn lemma_picks_permuted(
    before: Seq<usize>,
    after: Seq<usize>,
    records: Seq<Fields>,
    phrases: Seq<Seq<char>>,
)
    requires
        picks(before, records, phrases),
        after.to_multiset() == before.to_multiset(),
    ensures
        picks(after, records, phrases),
{
    before.to_multiset_ensures();
    after.to_multiset_ensures();
    before.lemma_multiset_has_no_duplicates();
    after.lemma_multiset_has_no_duplicates_conv();
    assert forall|k: int| 0 <= k < after.len() implies (#[trigger] after[k]) < records.len()
        && any_phrase_holds(phrases, records[after[k] as int]) by {
        assert(after.contains(after[k]));
        assert(before.to_multiset().count(after[k]) > 0);
        let h = choose|h: int| 0 <= h < before.len() && before[h] == after[k];
        assert(before[h] < records.len());
    }
    assert forall|i: int|
        0 <= i < records.len() && any_phrase_holds(
            phrases,
            #[trigger] records[i],
        ) implies exists|k: int| 0 <= k < after.len() && #[trigger] after[k] == i by {
        let h = choose|h: int| 0 <= h < before.len() && #[trigger] before[h] == i;
        assert(before.contains(before[h]));
        assert(after.to_multiset().count(before[h]) > 0);
        let k = choose|k: int| 0 <= k < after.len() && after[k] == before[h];
        assert(after[k] == i);
    }
}

/// Every record of `store` for which one of the phrases holds, found by a
/// scan that worker threads share. The order of what is found is left open.
pub fn scan<'a>(store: &'a RecordStore, matchers: &Vec<PhraseMatcher>) -> (found: Vec<&'a Record>)
    ensures
        lists(
            found.deep_view(),
            store@,
            |record: Fields| any_phrase_holds(matchers.deep_view(), record),
        ),
{
    let records = store.records();
    let picked = select(records, matchers);
    let found = gather(records, &picked);
    proof {
        lemma_picked_lists(
            found.deep_view(),
            picked@,
            records.deep_view(),
            matchers.deep_view(),
            store@,
        );
    }
    found
}

/// Every record of `store` for which one of the phrases holds, in ascending
/// order of the records' identifiers.
pub fn scan_in_order<'a>(store: &'a RecordStore, matchers: &Vec<PhraseMatcher>) -> (found: Vec<
    &'a Record,
>)
    ensures
        lists(
            found.deep_view(),
            store@,
            |record: Fields| any_phrase_holds(matchers.deep_view(), record),
        ),
        ascending_by_id(found.deep_view()),
{
    let records = store.records();
    let mut picked = select(records, matchers);
    let ghost unsorted = picked@;
    sort_by_id(records, &mut picked);
    proof {
        lemma_picks_permuted(unsorted, picked@, records.deep_view(), matchers.deep_view());
    }
    let found = gather(records, &picked);
    proof {
        lemma_picked_lists(
            found.deep_view(),
            picked@,
            records.deep_view(),
            matchers.deep_view(),
            store@,
        );
    }
    found
}

} // verus!
