use pheddit::phrase::PhraseMatcher;
use pheddit::record::{get_str, Record};
use pheddit::scan::{any_matches, scan, scan_in_order};
use pheddit::search::search;
use pheddit::store::RecordStore;

fn two_posts() -> RecordStore {
    RecordStore::from_records(vec![
        Record::post("1", "Switching careers into programming", ""),
        Record::post("2", "Cat photos", "cute cats"),
    ])
}

fn sorted_ids(found: &[&Record]) -> Vec<String> {
    let mut ids: Vec<String> = found.iter().map(|record| get_str(record, "id").to_string()).collect();
    ids.sort();
    ids
}

#[test]
fn search_finds_a_word_of_the_title() {
    let store = two_posts();
    assert_eq!(sorted_ids(&search(&store, "programming")), vec!["1"]);
}

#[test]
fn search_wants_whole_words() {
    let store = two_posts();
    assert_eq!(sorted_ids(&search(&store, "cats")), vec!["2"]);
    assert!(search(&store, "career").is_empty());
    assert!(search(&store, "photo").is_empty());
    assert!(search(&store, "program").is_empty());
}

#[test]
fn search_ignores_letter_case() {
    let store = two_posts();
    assert_eq!(sorted_ids(&search(&store, "cat")), vec!["2"]);
    assert_eq!(sorted_ids(&search(&store, "CUTE")), vec!["2"]);
    assert_eq!(sorted_ids(&search(&store, "switching")), vec!["1"]);
}

#[test]
fn plural_in_the_body_is_no_match_for_the_singular() {
    let store = RecordStore::from_records(vec![
        Record::post("1", "Switching careers into programming", ""),
        Record::post("2", "Pet photos", "cute cats"),
    ]);
    assert!(search(&store, "cat").is_empty());
}

#[test]
fn search_reads_title_and_body() {
    let store = two_posts();
    assert_eq!(sorted_ids(&search(&store, "cute")), vec!["2"]);
    assert_eq!(sorted_ids(&search(&store, "photos cute")), vec!["2"]);
    assert_eq!(sorted_ids(&search(&store, "cats cat")), vec!["2"]);
}

#[test]
fn search_wants_every_word() {
    let store = two_posts();
    assert!(search(&store, "programming cats").is_empty());
    assert_eq!(sorted_ids(&search(&store, "careers SWITCHING")), vec!["1"]);
    assert!(search(&store, "careers switching jobs").is_empty());
}

#[test]
fn empty_query_finds_every_record() {
    let store = two_posts();
    assert_eq!(sorted_ids(&search(&store, "")), vec!["1", "2"]);
    assert_eq!(sorted_ids(&search(&store, " \t\n")), vec!["1", "2"]);
}

#[test]
fn empty_store_has_nothing_to_find() {
    let store = RecordStore::from_records(Vec::new());
    assert!(search(&store, "").is_empty());
    assert!(search(&store, "programming").is_empty());
}

#[test]
fn uncompilable_query_finds_every_record() {
    let store = two_posts();
    let query = "x".repeat(250_000);
    assert_eq!(sorted_ids(&search(&store, &query)), vec!["1", "2"]);
}

#[test]
fn search_with_unicode_words() {
    let store = RecordStore::from_records(vec![
        Record::post("a", "Na\u{ef}ve caf\u{e9} owner", ""),
        Record::post("b", "Two caf\u{e9}s", "and a na\u{ef}vet\u{e9}"),
        Record::post("c", "\u{41f}\u{440}\u{438}\u{432}\u{435}\u{442} \u{43c}\u{438}\u{440}", ""),
    ]);
    assert_eq!(sorted_ids(&search(&store, "caf\u{e9}")), vec!["a"]);
    assert_eq!(sorted_ids(&search(&store, "NA\u{cf}VE")), vec!["a"]);
    assert_eq!(sorted_ids(&search(&store, "\u{43c}\u{438}\u{440}")), vec!["c"]);
    assert!(search(&store, "\u{43c}\u{438}").is_empty());
}

#[test]
fn search_returns_the_stored_records() {
    let store = two_posts();
    let found = search(&store, "photos");
    assert_eq!(found.len(), 1);
    assert_eq!(get_str(found[0], "id"), "2");
    assert_eq!(get_str(found[0], "title"), "Cat photos");
    assert_eq!(get_str(found[0], "selftext"), "cute cats");
    assert!(std::ptr::eq(found[0], store.get("2").unwrap()));
}

#[test]
fn search_scans_a_large_store() {
    let mut records = Vec::new();
    for n in 0..5000 {
        let title = if n % 7 == 0 { "needle in here" } else { "just hay" };
        records.push(Record::post(&n.to_string(), title, "body text"));
    }
    let store = RecordStore::from_records(records);
    let found = search(&store, "needle");
    let mut expected: Vec<String> = (0..5000).filter(|n| n % 7 == 0).map(|n| n.to_string()).collect();
    expected.sort();
    assert_eq!(sorted_ids(&found), expected);
    assert_eq!(search(&store, "body").len(), 5000);
    assert!(search(&store, "needle haystack").is_empty());
}

#[test]
fn search_gives_the_same_records_each_time() {
    let store = two_posts();
    for _ in 0..10 {
        assert_eq!(sorted_ids(&search(&store, "cats")), vec!["2"]);
    }
}

#[test]
fn record_without_title_or_body_is_read_as_empty() {
    let mut bare = Record::new();
    bare.set("id", "bare");
    let mut titled = Record::new();
    titled.set("id", "titled");
    titled.set("title", "only a title");
    let store = RecordStore::from_records(vec![bare, titled]);
    assert_eq!(sorted_ids(&search(&store, "title")), vec!["titled"]);
    assert_eq!(sorted_ids(&search(&store, "")), vec!["bare", "titled"]);
}

#[test]
fn scan_takes_any_of_several_phrases() {
    let store = RecordStore::from_records(vec![
        Record::post("c", "red apples", ""),
        Record::post("a", "green pears", "and red ones"),
        Record::post("b", "blue plums", ""),
        Record::post("d", "nothing", "at all"),
    ]);
    let matchers = vec![PhraseMatcher::new("red"), PhraseMatcher::new("blue plums")];
    assert!(any_matches(&matchers, store.get("a").unwrap()));
    assert!(any_matches(&matchers, store.get("b").unwrap()));
    assert!(!any_matches(&matchers, store.get("d").unwrap()));
    assert_eq!(sorted_ids(&scan(&store, &matchers)), vec!["a", "b", "c"]);
    let ordered: Vec<&str> =
        scan_in_order(&store, &matchers).iter().map(|record| get_str(record, "id")).collect();
    assert_eq!(ordered, vec!["a", "b", "c"]);
    let none: Vec<PhraseMatcher> = Vec::new();
    assert!(!any_matches(&none, store.get("a").unwrap()));
    assert!(scan(&store, &none).is_empty());
    assert!(scan_in_order(&store, &none).is_empty());
}
