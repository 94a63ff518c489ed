//! Answering a query: every record in which all of its words are found.

use crate::matcher::{pattern_compiles, word_pattern};
use crate::phrase::{phrase_holds, word_holds, word_occurs, PhraseMatcher};
use crate::record::{id_of, Fields, Record};
use crate::scan::{any_phrase_holds, scan};
use crate::store::{lists, lists_all, RecordStore};
use crate::text::words_of;
use vstd::prelude::*;

verus! {

/// The records of `store` that `query` selects: those in whose title or body
/// each word of the query occurs as a whole word, letter case ignored. A word
/// for which no matcher can be made is passed over. Every such record comes
/// once; their order is left open and may differ from call to call.
pub fn search<'a>(store: &'a RecordStore, query: &str) -> (found: Vec<&'a Record>)
    ensures
        lists(found.deep_view(), store@, |record: Fields| phrase_holds(query@, record)),
        words_of(query@).len() == 0 ==> lists_all(found.deep_view(), store@),
{
    let mut matchers: Vec<PhraseMatcher> = Vec::new();
    matchers.push(PhraseMatcher::new(query));
    let found = scan(store, &matchers);
    proof {
        let phrases = matchers.deep_view();
        assert forall|record: Fields|
            any_phrase_holds(phrases, record) == phrase_holds(query@, record) by {
            if phrase_holds(query@, record) {
                assert(phrase_holds(phrases[0], record));
            }
        }
        if words_of(query@).len() == 0 {
            lemma_wordless_query_lists_all(query@, found.deep_view(), store@);
        }
    }
    found
}

/// Every word of the query for which a matcher can be made occurs, as a
/// whole word and letter case ignored, in the title or in the body of every
/// record found.
pub proof fn lemma_found_hold_every_word(
    query: Seq<char>,
    found: Seq<Fields>,
    store: Map<Seq<char>, Fields>,
    i: int,
    k: int,
)
    requires
        lists(found, store, |record: Fields| phrase_holds(query, record)),
        0 <= i < found.len(),
        0 <= k < words_of(query).len(),
        pattern_compiles(word_pattern(words_of(query)[k])),
    ensures
        word_occurs(words_of(query)[k], found[i]),
{
    assert(store.contains_key(id_of(found[i])));
    assert(phrase_holds(query, found[i]));
    assert(word_holds(words_of(query)[k], found[i]));
}

/// A query without words, such as the empty one or one of white space only,
/// selects every record.
pub proof fn lemma_wordless_query_holds(query: Seq<char>, record: Fields)
    requires
        words_of(query).len() == 0,
    ensures
        phrase_holds(query, record),
{
}

/// The empty query has no words.
pub proof fn lemma_empty_query_is_wordless()
    ensures
        words_of(Seq::<char>::empty()).len() == 0,
        words_of(""@).len() == 0,
{
    reveal_strlit("");
}

/// What a query without words selects from a store is the whole store.
pub proof fn lemma_wordless_query_lists_all(
    query: Seq<char>,
    found: Seq<Fields>,
    store: Map<Seq<char>, Fields>,
)
    requires
        words_of(query).len() == 0,
        lists(found, store, |record: Fields| phrase_holds(query, record)),
    ensures
        lists_all(found, store),
{
    assert forall|id: Seq<char>| #[trigger] store.contains_key(id) implies exists|i: int|
        0 <= i < found.len() && #[trigger] id_of(found[i]) == id by {
        lemma_wordless_query_holds(query, store[id]);
    }
}

} // verus!
