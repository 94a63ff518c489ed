//! The candidate listing: the records that touch one of a fixed set of
//! topics, in ascending order of their identifiers, handed out in three
//! buckets.

use crate::bucket::{
    bucket_bounds, bucket_end, bucket_of, bucket_start, lemma_buckets_balanced,
    lemma_buckets_contiguous, lemma_buckets_partition, BUCKETS,
};
use crate::phrase::PhraseMatcher;
use crate::record::{id_of, Fields, Record};
use crate::scan::{
    any_phrase_holds, ascending_by_id, lemma_ascending_listing_unique, scan_in_order,
};
use crate::store::{lists, RecordStore};
use crate::text::{
    is_run, is_white_space, lemma_gap_separates, lemma_run_is_one_word, words_of,
};
use vstd::prelude::*;

verus! {

/// The topic phrases. A record is a candidate if all the words of at least
/// one phrase are found in it.
pub open spec fn topics() -> Seq<Seq<char>> {
    seq![
        "degree"@,
        "career"@,
        "careers"@,
        "programming"@,
        "school"@,
        "learn"@,
        "learning"@,
        "switch"@,
        "switching"@,
        "change"@,
        "changing"@,
        "college"@,
        "university"@,
        "advice"@,
        "bootcamp"@,
        "bootcamps"@,
        "camp"@,
        "camps"@,
        "self taught"@,
    ]
}

/// The topic phrase `self taught` has two words, which a record must both
/// hold to be a candidate by it; a phrase such as `degree` is one word.
pub proof fn lemma_topic_words()
    ensures
        words_of("self taught"@) == seq!["self"@, "taught"@],
        words_of("degree"@) == seq!["degree"@],
{
    reveal_strlit("self taught");
    reveal_strlit("self");
    reveal_strlit("taught");
    reveal_strlit("degree");
    let blank = seq![' '];
    assert(is_white_space(blank[0]));
    assert(is_run("self"@));
    assert(is_run("taught"@));
    assert(is_run("degree"@));
    lemma_gap_separates("self"@, blank, "taught"@);
    assert("self taught"@ =~= "self"@ + blank + "taught"@);
    lemma_run_is_one_word("degree"@);
}

/// Whether `record` is a candidate: one of the topic phrases holds for it.
pub open spec fn is_candidate(record: Fields) -> bool {
    any_phrase_holds(topics(), record)
}

/// Whether `listing` is the candidate listing of `store`: every candidate of
/// the store once, and no other record, in ascending order of identifiers.
pub open spec fn is_candidate_listing(listing: Seq<Fields>, store: Map<Seq<char>, Fields>) -> bool {
    &&& lists(listing, store, |record: Fields| is_candidate(record))
    &&& ascending_by_id(listing)
}

/// The candidate listing of `store`.
pub open spec fn candidate_listing(store: Map<Seq<char>, Fields>) -> Seq<Fields> {
    choose|listing: Seq<Fields>| is_candidate_listing(listing, store)
}

/// A store has one candidate listing only. Listing the candidates of an
/// unchanged store again therefore gives the same records in the same order.
pub proof fn lemma_candidate_listing_unique(
    first: Seq<Fields>,
    second: Seq<Fields>,
    store: Map<Seq<char>, Fields>,
)
    requires
        is_candidate_listing(first, store),
        is_candidate_listing(second, store),
    ensures
        first == second,
        first == candidate_listing(store),
{
    let wanted = |record: Fields| is_candidate(record);
    lemma_ascending_listing_unique(first, second, store, wanted);
    lemma_ascending_listing_unique(first, candidate_listing(store), store, wanted);
}

/// The topic phrases, as the table they are configured in.
pub fn topic_phrases() -> (phrases: Vec<&'static str>)
    ensures
        phrases@.map_values(|phrase: &str| phrase@) == topics(),
{
    let mut phrases: Vec<&'static str> = Vec::new();
    phrases.push("degree");
    phrases.push("career");
    phrases.push("careers");
    phrases.push("programming");
    phrases.push("school");
    phrases.push("learn");
    phrases.push("learning");
    phrases.push("switch");
    phrases.push("switching");
    phrases.push("change");
    phrases.push("changing");
    phrases.push("college");
    phrases.push("university");
    phrases.push("advice");
    phrases.push("bootcamp");
    phrases.push("bootcamps");
    phrases.push("camp");
    phrases.push("camps");
    phrases.push("self taught");
    phrases
}

/// A compiled matcher for each topic phrase, in the order of the table.
pub fn topic_matchers() -> (matchers: Vec<PhraseMatcher>)
    ensures
        matchers.deep_view() == topics(),
{
    let phrases = topic_phrases();
    let ghost texts = phrases@.map_values(|phrase: &str| phrase@);
    let mut matchers: Vec<PhraseMatcher> = Vec::new();
    let mut t: usize = 0;
    while t < phrases.len()
        invariant
            t <= phrases.len(),
            texts == phrases@.map_values(|phrase: &str| phrase@),
            matchers.deep_view() == texts.take(t as int),
        decreases phrases.len() - t,
    {
        let ghost before = matchers.deep_view();
        let matcher = PhraseMatcher::new(phrases[t]);
        matchers.push(matcher);
        assert(matchers.deep_view() =~= before.push(matcher@));
        t += 1;
    }
    matchers
}

/// Every candidate of `store`, in ascending order of identifiers.
pub fn list_candidates<'a>(store: &'a RecordStore) -> (listing: Vec<&'a Record>)
    ensures
        is_candidate_listing(listing.deep_view(), store@),
        listing.deep_view() == candidate_listing(store@),
{
    let matchers = topic_matchers();
    let listing = scan_in_order(store, &matchers);
    proof {
        let found = listing.deep_view();
        lemma_candidate_listing_unique(found, found, store@);
    }
    listing
}

/// A bucket index that names none of the three buckets.
#[derive(Debug, Clone, Copy, PartialEq, Eq)]
pub struct InvalidBucket {
    /// The index that was asked for.
    pub index: usize,
}

/// One bucket of the candidate listing.
pub struct CandidatePage<'a> {
    /// Position in the listing of the bucket's first record.
    pub start: usize,
    /// Position in the listing just past the bucket's last record.
    pub end: usize,
    /// Number of records in the whole listing.
    pub total: usize,
    /// The bucket's records, in the order of the listing.
    pub records: Vec<&'a Record>,
}

/// Bucket `index` of the candidate listing of `store`, for `index` 0, 1 or 2.
/// The listing holds every record for which a topic phrase holds, in
/// ascending order of identifiers; the bucket covers its positions from
/// `index * total / 3` up to, and without, `(index + 1) * total / 3`.
pub fn candidates<'a>(store: &'a RecordStore, index: usize) -> (page: Result<
    CandidatePage<'a>,
    InvalidBucket,
>)
    ensures
        index >= BUCKETS <==> page is Err,
        page matches Err(error) ==> error.index == index,
        page is Ok ==> is_candidate_listing(candidate_listing(store@), store@),
        page matches Ok(bucket) ==> {
            &&& bucket.total == candidate_listing(store@).len()
            &&& bucket.start == bucket_start(index as int, bucket.total as int)
            &&& bucket.end == bucket_end(index as int, bucket.total as int)
            &&& bucket.records.deep_view() == bucket_of(candidate_listing(store@), index as int)
        },
{
    if index >= BUCKETS {
        return Err(InvalidBucket { index });
    }
    let listing = list_candidates(store);
    let total = listing.len();
    match bucket_bounds(index, total) {
        None => Err(InvalidBucket { index }),
        Some((start, end)) => {
            let mut records: Vec<&'a Record> = Vec::new();
            let mut k: usize = start;
            while k < end
                invariant
                    start <= k <= end <= listing.len(),
                    records.len() == k - start,
                    forall|h: int| 0 <= h < k - start ==> #[trigger] records[h] == listing[start + h],
                decreases end - k,
            {
                records.push(listing[k]);
                k += 1;
            }
            Ok(CandidatePage { start, end, total, records })
        },
    }
}

/// No identifier comes twice in a candidate listing: neither in two buckets
/// nor at two places of one bucket.
pub proof fn lemma_candidate_buckets_share_nothing(
    listing: Seq<Fields>,
    store: Map<Seq<char>, Fields>,
    first: int,
    second: int,
    i: int,
    j: int,
)
    requires
        is_candidate_listing(listing, store),
        0 <= first < 3,
        0 <= second < 3,
        0 <= i < bucket_of(listing, first).len(),
        0 <= j < bucket_of(listing, second).len(),
        first != second || i != j,
    ensures
        id_of(bucket_of(listing, first)[i]) != id_of(bucket_of(listing, second)[j]),
{
    let total = listing.len() as int;
    lemma_buckets_contiguous(listing.len());
    lemma_buckets_partition(listing);
    assert(first == 0 || first == 1 || first == 2);
    assert(second == 0 || second == 1 || second == 2);
    let p = bucket_start(first, total) + i;
    let q = bucket_start(second, total) + j;
    assert(bucket_of(listing, first)[i] == listing[p]);
    assert(bucket_of(listing, second)[j] == listing[q]);
    assert(p != q);
    if p < q {
        assert(id_of(listing[p]) != id_of(listing[q]));
    } else {
        assert(id_of(listing[q]) != id_of(listing[p]));
    }
}

/// The three buckets of a store's candidate listing partition it: they are
/// contiguous and do not overlap, any two differ in size by at most one
/// record, and joined in the order 0, 1, 2 they give the listing back.
pub proof fn lemma_candidate_buckets_partition(store: Map<Seq<char>, Fields>)
    ensures
        bucket_of(candidate_listing(store), 0) + bucket_of(candidate_listing(store), 1)
            + bucket_of(candidate_listing(store), 2) == candidate_listing(store),
        bucket_start(0, candidate_listing(store).len() as int) == 0,
        bucket_end(0, candidate_listing(store).len() as int) == bucket_start(
            1,
            candidate_listing(store).len() as int,
        ),
        bucket_end(1, candidate_listing(store).len() as int) == bucket_start(
            2,
            candidate_listing(store).len() as int,
        ),
        bucket_end(2, candidate_listing(store).len() as int) == candidate_listing(store).len(),
        forall|first: int, second: int|
            0 <= first < 3 && 0 <= second < 3 ==> (#[trigger] bucket_of(
                candidate_listing(store),
                first,
            )).len() - (#[trigger] bucket_of(candidate_listing(store), second)).len() <= 1,
{
    let listing = candidate_listing(store);
    lemma_buckets_contiguous(listing.len());
    lemma_buckets_partition(listing);
    assert forall|first: int, second: int| 0 <= first < 3 && 0 <= second < 3 implies (
    #[trigger] bucket_of(listing, first)).len() - (#[trigger] bucket_of(listing, second)).len()
        <= 1 by {
        lemma_buckets_balanced(listing.len(), first, second);
    }
}

} // verus!
