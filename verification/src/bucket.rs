//! Splitting a listing of a known length into three contiguous buckets.

use vstd::prelude::*;

verus! {

/// Number of buckets a listing is split into.
pub const BUCKETS: usize = 3;

/// Index in the listing at which bucket `index` begins: `index * total / 3`,
/// rounded down.
pub open spec fn bucket_start(index: int, total: int) -> int {
    index * total / 3
}

/// Index in the listing just past the last entry of bucket `index`.
pub open spec fn bucket_end(index: int, total: int) -> int {
    bucket_start(index + 1, total)
}

/// The entries of `listing` that fall into bucket `index`.
pub open spec fn bucket_of<T>(listing: Seq<T>, index: int) -> Seq<T> {
    listing.subrange(
        bucket_start(index, listing.len() as int),
        bucket_end(index, listing.len() as int),
    )
}

/// The half-open range of positions `[start, end)` that bucket `index` covers in
/// a listing of `total` entries, or `None` when `index` names no bucket.
pub fn bucket_bounds(index: usize, total: usize) -> (bounds: Option<(usize, usize)>)
    ensures
        index >= BUCKETS <==> bounds is None,
        bounds matches Some((start, end)) ==> {
            &&& start == bucket_start(index as int, total as int)
            &&& end == bucket_end(index as int, total as int)
            &&& start <= end <= total
        },
{
    if index >= BUCKETS {
        return None;
    }
    let wide_index: u128 = index as u128;
    let wide_total: u128 = total as u128;
    assert(wide_index * wide_total <= (wide_index + 1) * wide_total <= 3 * wide_total)
        by (nonlinear_arith)
        requires
            wide_index < 3,
    ;
    let start: u128 = wide_index * wide_total / 3;
    let end: u128 = (wide_index + 1) * wide_total / 3;
    Some((start as usize, end as usize))
}

/// Number of entries in bucket `index` of a listing of `total` entries.
pub open spec fn bucket_len(index: int, total: int) -> int {
    bucket_end(index, total) - bucket_start(index, total)
}

/// Whether `position` lies in bucket `index` of a listing of `total` entries.
pub open spec fn in_bucket(index: int, total: int, position: int) -> bool {
    bucket_start(index, total) <= position < bucket_end(index, total)
}

/// The three buckets tile the listing: the first begins at its front, each
/// begins where the one before it ends, and the last ends at its back.
pub proof fn lemma_buckets_contiguous(total: nat)
    ensures
        bucket_start(0, total as int) == 0,
        bucket_end(0, total as int) == bucket_start(1, total as int),
        bucket_end(1, total as int) == bucket_start(2, total as int),
        bucket_end(2, total as int) == total,
        0 <= bucket_start(1, total as int) <= bucket_start(2, total as int) <= total,
{
}

/// Every position of a listing lies in one bucket and in no other.
pub proof fn lemma_buckets_disjoint(total: nat, position: int)
    requires
        0 <= position < total,
    ensures
        in_bucket(0, total as int, position) || in_bucket(1, total as int, position) || in_bucket(
            2,
            total as int,
            position,
        ),
        !(in_bucket(0, total as int, position) && in_bucket(1, total as int, position)),
        !(in_bucket(0, total as int, position) && in_bucket(2, total as int, position)),
        !(in_bucket(1, total as int, position) && in_bucket(2, total as int, position)),
{
    lemma_buckets_contiguous(total);
}

/// Any two buckets of one listing differ in size by at most one entry.
pub proof fn lemma_buckets_balanced(total: nat, first: int, second: int)
    requires
        0 <= first < 3,
        0 <= second < 3,
    ensures
        bucket_len(first, total as int) - bucket_len(second, total as int) <= 1,
        total as int / 3 <= bucket_len(first, total as int) <= total as int / 3 + 1,
{
    assert(first == 0 || first == 1 || first == 2);
    assert(second == 0 || second == 1 || second == 2);
}

/// Joined in the order 0, 1, 2 the buckets give back the listing, entry for
/// entry.
pub proof fn lemma_buckets_partition<T>(listing: Seq<T>)
    ensures
        bucket_of(listing, 0) + bucket_of(listing, 1) + bucket_of(listing, 2) == listing,
        bucket_of(listing, 0).len() == bucket_len(0, listing.len() as int),
        bucket_of(listing, 1).len() == bucket_len(1, listing.len() as int),
        bucket_of(listing, 2).len() == bucket_len(2, listing.len() as int),
{
    lemma_buckets_contiguous(listing.len());
}

} // verus!
