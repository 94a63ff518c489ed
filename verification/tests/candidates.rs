use pheddit::candidates::{
    candidates, list_candidates, topic_matchers, topic_phrases, InvalidBucket,
};
use pheddit::record::{get_str, Record};
use pheddit::store::RecordStore;

fn ids(found: &[&Record]) -> Vec<String> {
    found.iter().map(|record| get_str(record, "id").to_string()).collect()
}

fn two_posts() -> RecordStore {
    RecordStore::from_records(vec![
        Record::post("1", "Switching careers into programming", ""),
        Record::post("2", "Cat photos", "cute cats"),
    ])
}

fn many_candidates(count: usize) -> RecordStore {
    let mut records = Vec::new();
    for n in 0..count {
        records.push(Record::post(&format!("id{:03}", (n * 37) % count), "Career advice", ""));
        records.push(Record::post(&format!("no{:03}", n), "Nothing of note", ""));
    }
    RecordStore::from_records(records)
}

#[test]
fn the_topic_table() {
    assert_eq!(
        topic_phrases(),
        vec![
            "degree",
            "career",
            "careers",
            "programming",
            "school",
            "learn",
            "learning",
            "switch",
            "switching",
            "change",
            "changing",
            "college",
            "university",
            "advice",
            "bootcamp",
            "bootcamps",
            "camp",
            "camps",
            "self taught",
        ]
    );
}

#[test]
fn a_matcher_for_each_topic() {
    let matchers = topic_matchers();
    assert_eq!(matchers.len(), 19);
    assert_eq!(matchers[0].term_count(), 1);
    assert_eq!(matchers[18].term_count(), 2);
    assert!(matchers[0].matches(&Record::post("x", "My degree", "")));
    assert!(!matchers[0].matches(&Record::post("x", "My degrees", "")));
}

#[test]
fn one_candidate_of_two_posts() {
    let store = two_posts();
    let page = candidates(&store, 0).ok().unwrap();
    assert_eq!(page.total, 1);
    assert_eq!((page.start, page.end), (0, 0));
    assert!(page.records.is_empty());
    let page = candidates(&store, 1).ok().unwrap();
    assert_eq!(page.total, 1);
    assert_eq!((page.start, page.end), (0, 0));
    assert!(page.records.is_empty());
    let page = candidates(&store, 2).ok().unwrap();
    assert_eq!(page.total, 1);
    assert_eq!((page.start, page.end), (0, 1));
    assert_eq!(ids(&page.records), vec!["1"]);
    assert_eq!(ids(&list_candidates(&store)), vec!["1"]);
}

#[test]
fn bucket_three_is_refused() {
    let store = two_posts();
    assert_eq!(candidates(&store, 3).err(), Some(InvalidBucket { index: 3 }));
    assert_eq!(candidates(&store, 4).err(), Some(InvalidBucket { index: 4 }));
    assert_eq!(candidates(&store, usize::MAX).err(), Some(InvalidBucket { index: usize::MAX }));
    let empty = RecordStore::from_records(Vec::new());
    assert_eq!(candidates(&empty, 3).err(), Some(InvalidBucket { index: 3 }));
}

#[test]
fn empty_store_has_empty_buckets() {
    let store = RecordStore::from_records(Vec::new());
    for index in 0..3 {
        let page = candidates(&store, index).ok().unwrap();
        assert_eq!((page.start, page.end, page.total), (0, 0, 0));
        assert!(page.records.is_empty());
    }
}

#[test]
fn any_topic_makes_a_candidate() {
    let store = RecordStore::from_records(vec![
        Record::post("a", "Which degree?", ""),
        Record::post("b", "", "I went to a BOOTCAMP last year"),
        Record::post("c", "Self-taught developer", ""),
        Record::post("d", "I taught my self", ""),
        Record::post("e", "Taught by others", ""),
        Record::post("f", "Unchanged", "exchange learned schools"),
        Record::post("g", "summer camps", ""),
        Record::post("h", "", ""),
    ]);
    assert_eq!(ids(&list_candidates(&store)), vec!["a", "b", "c", "d", "g"]);
}

#[test]
fn candidates_ascend_by_the_bytes_of_their_identifiers() {
    let store = RecordStore::from_records(vec![
        Record::post("b", "advice", ""),
        Record::post("a", "advice", ""),
        Record::post("10", "advice", ""),
        Record::post("2", "advice", ""),
        Record::post("B", "advice", ""),
        Record::post("\u{e9}", "advice", ""),
        Record::post("ab", "advice", ""),
        Record::post("", "advice", ""),
        Record::post("\u{1f600}", "advice", ""),
        Record::post("\u{ffff}", "advice", ""),
        Record::post("z", "advice", ""),
    ]);
    assert_eq!(
        ids(&list_candidates(&store)),
        vec!["", "10", "2", "B", "a", "ab", "b", "z", "\u{e9}", "\u{ffff}", "\u{1f600}"]
    );
}

#[test]
fn buckets_partition_the_listing() {
    for count in [0usize, 1, 2, 3, 4, 5, 10, 11, 100] {
        let store = many_candidates(count);
        let listing = ids(&list_candidates(&store));
        assert_eq!(listing.len(), count);
        let mut joined = Vec::new();
        let mut sizes = Vec::new();
        let mut next_start = 0;
        for index in 0..3 {
            let page = candidates(&store, index).ok().unwrap();
            assert_eq!(page.total, count);
            assert_eq!(page.start, index * count / 3);
            assert_eq!(page.end, (index + 1) * count / 3);
            assert_eq!(page.start, next_start);
            assert_eq!(page.records.len(), page.end - page.start);
            next_start = page.end;
            sizes.push(page.records.len());
            joined.extend(ids(&page.records));
        }
        assert_eq!(next_start, count);
        assert_eq!(joined, listing);
        let least = *sizes.iter().min().unwrap();
        let most = *sizes.iter().max().unwrap();
        assert!(most - least <= 1);
    }
}

#[test]
fn bucket_contents_of_ten_candidates() {
    let store = many_candidates(10);
    let page = candidates(&store, 0).ok().unwrap();
    assert_eq!(ids(&page.records), vec!["id000", "id001", "id002"]);
    let page = candidates(&store, 1).ok().unwrap();
    assert_eq!(ids(&page.records), vec!["id003", "id004", "id005"]);
    let page = candidates(&store, 2).ok().unwrap();
    assert_eq!(ids(&page.records), vec!["id006", "id007", "id008", "id009"]);
}

#[test]
fn candidates_come_in_the_same_order_each_time() {
    let store = many_candidates(300);
    let first = ids(&list_candidates(&store));
    let mut sorted = first.clone();
    sorted.sort();
    assert_eq!(first, sorted);
    for _ in 0..5 {
        assert_eq!(ids(&list_candidates(&store)), first);
        for index in 0..3 {
            let page = candidates(&store, index).ok().unwrap();
            assert_eq!(ids(&page.records), first[page.start..page.end].to_vec());
        }
    }
}

#[test]
fn candidates_do_not_depend_on_the_order_of_loading() {
    let forward = RecordStore::from_records(vec![
        Record::post("x", "college", ""),
        Record::post("y", "nothing", ""),
        Record::post("w", "university", ""),
    ]);
    let backward = RecordStore::from_records(vec![
        Record::post("w", "university", ""),
        Record::post("y", "nothing", ""),
        Record::post("x", "college", ""),
    ]);
    assert_eq!(ids(&list_candidates(&forward)), vec!["w", "x"]);
    assert_eq!(ids(&list_candidates(&backward)), vec!["w", "x"]);
}
