use pheddit::bucket::{bucket_bounds, BUCKETS};

#[test]
fn there_are_three_buckets() {
    assert_eq!(BUCKETS, 3);
}

#[test]
fn bounds_of_ten_entries() {
    assert_eq!(bucket_bounds(0, 10), Some((0, 3)));
    assert_eq!(bucket_bounds(1, 10), Some((3, 6)));
    assert_eq!(bucket_bounds(2, 10), Some((6, 10)));
}

#[test]
fn bounds_of_eleven_entries() {
    assert_eq!(bucket_bounds(0, 11), Some((0, 3)));
    assert_eq!(bucket_bounds(1, 11), Some((3, 7)));
    assert_eq!(bucket_bounds(2, 11), Some((7, 11)));
}

#[test]
fn bounds_of_few_entries() {
    assert_eq!(bucket_bounds(0, 0), Some((0, 0)));
    assert_eq!(bucket_bounds(1, 0), Some((0, 0)));
    assert_eq!(bucket_bounds(2, 0), Some((0, 0)));
    assert_eq!(bucket_bounds(0, 1), Some((0, 0)));
    assert_eq!(bucket_bounds(1, 1), Some((0, 0)));
    assert_eq!(bucket_bounds(2, 1), Some((0, 1)));
    assert_eq!(bucket_bounds(0, 2), Some((0, 0)));
    assert_eq!(bucket_bounds(1, 2), Some((0, 1)));
    assert_eq!(bucket_bounds(2, 2), Some((1, 2)));
}

#[test]
fn bounds_of_the_longest_listing() {
    let total = usize::MAX;
    assert_eq!(bucket_bounds(0, total), Some((0, total / 3)));
    assert_eq!(bucket_bounds(1, total), Some((total / 3, total / 3 * 2)));
    assert_eq!(bucket_bounds(2, total), Some((total / 3 * 2, total)));
}

#[test]
fn buckets_tile_every_listing() {
    for total in 0..100usize {
        let (first_start, first_end) = bucket_bounds(0, total).unwrap();
        let (second_start, second_end) = bucket_bounds(1, total).unwrap();
        let (third_start, third_end) = bucket_bounds(2, total).unwrap();
        assert_eq!(first_start, 0);
        assert_eq!(first_end, second_start);
        assert_eq!(second_end, third_start);
        assert_eq!(third_end, total);
        let sizes = [first_end - first_start, second_end - second_start, third_end - third_start];
        let least = *sizes.iter().min().unwrap();
        let most = *sizes.iter().max().unwrap();
        assert!(most - least <= 1);
    }
}

#[test]
fn no_bucket_beyond_the_third() {
    assert_eq!(bucket_bounds(3, 10), None);
    assert_eq!(bucket_bounds(3, 0), None);
    assert_eq!(bucket_bounds(4, 9), None);
    assert_eq!(bucket_bounds(usize::MAX, 1), None);
}
