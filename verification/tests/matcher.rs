use pheddit::matcher::{build_word_pattern, TermMatcher};
use pheddit::phrase::PhraseMatcher;
use pheddit::record::Record;

#[test]
fn pattern_of_a_plain_word() {
    assert_eq!(build_word_pattern("career"), "(?i)\\bcareer\\b");
    assert_eq!(build_word_pattern(""), "(?i)\\b\\b");
}

#[test]
fn pattern_escapes_meta_characters() {
    assert_eq!(build_word_pattern("a.b"), "(?i)\\ba\\.b\\b");
    assert_eq!(build_word_pattern("c++"), "(?i)\\bc\\+\\+\\b");
    assert_eq!(
        build_word_pattern("\\.+*?()|[]{}^$#&-~"),
        "(?i)\\b\\\\\\.\\+\\*\\?\\(\\)\\|\\[\\]\\{\\}\\^\\$\\#\\&\\-\\~\\b"
    );
}

#[test]
fn pattern_leaves_other_characters() {
    assert_eq!(build_word_pattern("a/b%c!d\"e"), "(?i)\\ba/b%c!d\"e\\b");
    assert_eq!(build_word_pattern("caf\u{e9}"), "(?i)\\bcaf\u{e9}\\b");
    assert_eq!(build_word_pattern("<=>"), "(?i)\\b<=>\\b");
}

#[test]
fn matcher_finds_whole_words_only() {
    let matcher = TermMatcher::new("cat").unwrap();
    assert!(matcher.matches("cat"));
    assert!(matcher.matches("a cat sat"));
    assert!(matcher.matches("the cat."));
    assert!(matcher.matches("(cat)"));
    assert!(!matcher.matches("cats"));
    assert!(!matcher.matches("concatenate"));
    assert!(!matcher.matches("bobcat"));
    assert!(!matcher.matches("cat_flap"));
    assert!(!matcher.matches(""));
}

#[test]
fn matcher_remembers_its_word() {
    assert_eq!(TermMatcher::new("Cat").unwrap().word(), "Cat");
    assert_eq!(TermMatcher::new("a.b").unwrap().word(), "a.b");
    assert_eq!(PhraseMatcher::new(" self  taught ").phrase(), " self  taught ");
}

#[test]
fn matcher_ignores_letter_case() {
    let matcher = TermMatcher::new("Programming").unwrap();
    assert!(matcher.matches("programming"));
    assert!(matcher.matches("PROGRAMMING is fun"));
    assert!(matcher.matches("I like ProGramMing"));
    assert!(!matcher.matches("program"));
}

#[test]
fn matcher_takes_the_word_literally() {
    let matcher = TermMatcher::new("a.c").unwrap();
    assert!(matcher.matches("a.c"));
    assert!(!matcher.matches("abc"));
    let matcher = TermMatcher::new("\\w+").unwrap();
    assert!(!matcher.matches("word"));
}

#[test]
fn matcher_knows_unicode_word_boundaries() {
    let matcher = TermMatcher::new("caf\u{e9}").unwrap();
    assert!(matcher.matches("un caf\u{e9} noir"));
    assert!(matcher.matches("CAF\u{c9}"));
    assert!(!matcher.matches("caf\u{e9}s"));
    assert!(!matcher.matches("un cafe noir"));
    let matcher = TermMatcher::new("\u{43a}\u{43e}\u{442}").unwrap();
    assert!(matcher.matches("\u{447}\u{451}\u{440}\u{43d}\u{44b}\u{439} \u{43a}\u{43e}\u{442}"));
    assert!(!matcher.matches("\u{43a}\u{43e}\u{442}\u{44b}"));
}

#[test]
fn no_matcher_for_a_word_too_long_to_compile() {
    let word = "x".repeat(250_000);
    assert!(TermMatcher::new(&word).is_none());
}

#[test]
fn phrase_counts_the_words_it_has_matchers_for() {
    assert_eq!(PhraseMatcher::new("self taught").term_count(), 2);
    assert_eq!(PhraseMatcher::new("").term_count(), 0);
    assert_eq!(PhraseMatcher::new("  \t ").term_count(), 0);
    let long = "x".repeat(250_000);
    assert_eq!(PhraseMatcher::new(&format!("a {} b", long)).term_count(), 2);
}

#[test]
fn phrase_wants_every_word() {
    let phrase = PhraseMatcher::new("self taught");
    assert!(phrase.matches(&Record::post("1", "I am self taught", "")));
    assert!(phrase.matches(&Record::post("2", "Taught", "by my SELF")));
    assert!(!phrase.matches(&Record::post("3", "self", "teaching")));
    assert!(!phrase.matches(&Record::post("4", "", "")));
}

#[test]
fn phrase_without_words_holds_for_every_record() {
    let phrase = PhraseMatcher::new("");
    assert!(phrase.matches(&Record::post("1", "anything", "at all")));
    assert!(phrase.matches(&Record::new()));
}

#[test]
fn phrase_passes_over_a_word_without_matcher() {
    let long = "x".repeat(250_000);
    let phrase = PhraseMatcher::new(&format!("{} cat", long));
    assert!(phrase.matches(&Record::post("1", "a cat", "")));
    assert!(!phrase.matches(&Record::post("2", "a dog", "")));
    let phrase = PhraseMatcher::new(&long);
    assert!(phrase.matches(&Record::post("3", "a dog", "")));
}
