//! Phrases: several words that must all be found in one record.

use crate::matcher::{pattern_compiles, pattern_matches, word_pattern, TermMatcher};
use crate::record::{get_str, selftext_of, title_of, Fields, Record};
use crate::text::{split_words, words_of};
use vstd::prelude::*;
use vstd::string::*;

verus! {

/// Whether `word` occurs as a whole word, letter case ignored, in the title
/// or in the body of `record`.
pub open spec fn word_occurs(word: Seq<char>, record: Fields) -> bool {
    pattern_matches(word_pattern(word), title_of(record)) || pattern_matches(
        word_pattern(word),
        selftext_of(record),
    )
}

/// Whether `word` lets `record` pass: it occurs in the record, or no matcher
/// can be made for it, in which case it is passed over.
pub open spec fn word_holds(word: Seq<char>, record: Fields) -> bool {
    pattern_compiles(word_pattern(word)) ==> word_occurs(word, record)
}

/// Whether every word of `phrase` lets `record` pass. A phrase without words
/// holds for every record.
pub open spec fn phrase_holds(phrase: Seq<char>, record: Fields) -> bool {
    forall|k: int|
        0 <= k < words_of(phrase).len() ==> word_holds(#[trigger] words_of(phrase)[k], record)
}

/// The words among `words` for which a matcher can be made, in their order.
pub open spec fn compilable(words: Seq<Seq<char>>) -> Seq<Seq<char>>
    decreases words.len(),
{
    if words.len() == 0 {
        Seq::empty()
    } else if pattern_compiles(word_pattern(words.last())) {
        compilable(words.drop_last()).push(words.last())
    } else {
        compilable(words.drop_last())
    }
}

/// A word is among the compilable words of a list exactly if it is in the
/// list and a matcher can be made for it.
pub proof fn lemma_compilable_contains(words: Seq<Seq<char>>, word: Seq<char>)
    ensures
        compilable(words).contains(word) <==> words.contains(word) && pattern_compiles(
            word_pattern(word),
        ),
    decreases words.len(),
{
    if words.len() > 0 {
        let front = words.drop_last();
        lemma_compilable_contains(front, word);
        if words.contains(word) {
            let k = choose|k: int| 0 <= k < words.len() && words[k] == word;
            if k < words.len() - 1 {
                assert(front[k] == word);
            }
        }
        if front.contains(word) {
            let k = choose|k: int| 0 <= k < front.len() && front[k] == word;
            assert(words[k] == word);
        }
        if pattern_compiles(word_pattern(words.last())) {
            let kept = compilable(front);
            if kept.push(words.last()).contains(word) {
                let k = choose|k: int|
                    0 <= k < kept.len() + 1 && kept.push(words.last())[k] == word;
                if k < kept.len() {
                    assert(kept[k] == word);
                }
            }
            if kept.contains(word) {
                let k = choose|k: int| 0 <= k < kept.len() && kept[k] == word;
                assert(kept.push(words.last())[k] == word);
            }
            if words.last() == word {
                assert(kept.push(words.last())[kept.len() as int] == word);
                assert(words[words.len() - 1] == word);
            }
        }
    }
}

/// The compiled matchers for the words of one phrase.
pub struct PhraseMatcher {
    phrase: String,
    terms: Vec<TermMatcher>,
}

impl View for PhraseMatcher {
    type V = Seq<char>;

    /// The phrase the matchers were made for.
    closed spec fn view(&self) -> Seq<char> {
        self.phrase@
    }
}

impl DeepView for PhraseMatcher {
    type V = Seq<char>;

    open spec fn deep_view(&self) -> Seq<char> {
        self@
    }
}

impl PhraseMatcher {
    #[verifier::type_invariant]
    spec fn holds_compilable_words(self) -> bool {
        self.terms.deep_view() == compilable(words_of(self.phrase@))
    }

    /// Compiles a matcher for each word of `phrase`. A word for which none can
    /// be made is left out.
    pub fn new(phrase: &str) -> (matcher: PhraseMatcher)
        ensures
            matcher@ == phrase@,
    {
        let words = split_words(phrase);
        let mut terms: Vec<TermMatcher> = Vec::new();
        let mut i: usize = 0;
        assert(words.deep_view().take(0) =~= Seq::<Seq<char>>::empty());
        assert(terms.deep_view() =~= Seq::<Seq<char>>::empty());
        while i < words.len()
            invariant
                i <= words.len(),
                terms.deep_view() == compilable(words.deep_view().take(i as int)),
            decreases words.len() - i,
        {
            let ghost seen = words.deep_view().take(i as int);
            let ghost next = words.deep_view().take(i + 1);
            assert(next.drop_last() =~= seen);
            assert(next.last() == words[i as int]@);
            match TermMatcher::new(words[i].as_str()) {
                Some(term) => {
                    let ghost before = terms.deep_view();
                    terms.push(term);
                    assert(terms.deep_view() =~= before.push(term@));
                },
                None => {},
            }
            i += 1;
        }
        assert(words.deep_view().take(words.len() as int) =~= words.deep_view());
        PhraseMatcher { phrase: String::from_str(phrase), terms }
    }

    /// The phrase the matchers were made for.
    pub fn phrase(&self) -> (phrase: &str)
        ensures
            phrase@ == self@,
    {
        self.phrase.as_str()
    }

    /// Number of words of the phrase for which a matcher was made.
    pub fn term_count(&self) -> (n: usize)
        ensures
            n == compilable(words_of(self@)).len(),
    {
        proof {
            use_type_invariant(self);
        }
        self.terms.len()
    }

    /// Whether every word of the phrase that has a matcher occurs in the
    /// title or in the body of `record`.
    pub fn matches(&self, record: &Record) -> (found: bool)
        ensures
            found == phrase_holds(self@, record@),
    {
        proof {
            use_type_invariant(self);
        }
        let title = get_str(record, "title");
        let body = get_str(record, "selftext");
        let ghost words = words_of(self@);
        let mut i: usize = 0;
        while i < self.terms.len()
            invariant
                i <= self.terms.len(),
                title@ == title_of(record@),
                body@ == selftext_of(record@),
                words == words_of(self@),
                self.terms.deep_view() == compilable(words),
                forall|k: int| 0 <= k < i ==> word_occurs(#[trigger] self.terms[k]@, record@),
            decreases self.terms.len() - i,
        {
            if !(self.terms[i].matches(title) || self.terms[i].matches(body)) {
                proof {
                    let word = self.terms[i as int]@;
                    assert(self.terms.deep_view()[i as int] == word);
                    assert(compilable(words).contains(word));
                    lemma_compilable_contains(words, word);
                    let k = choose|k: int| 0 <= k < words.len() && words[k] == word;
                    assert(!word_holds(words[k], record@));
                }
                return false;
            }
            i += 1;
        }
        proof {
            assert forall|k: int| 0 <= k < words.len() implies word_holds(
                #[trigger] words[k],
                record@,
            ) by {
                if pattern_compiles(word_pattern(words[k])) {
                    lemma_compilable_contains(words, words[k]);
                    let terms = self.terms.deep_view();
                    let t = choose|t: int| 0 <= t < terms.len() && terms[t] == words[k];
                    assert(word_occurs(self.terms[t]@, record@));
                }
            }
        }
        true
    }
}

} // verus!
