//! Whole-word, case-insensitive matchers for single query words.
//!
//! Matching itself is done by the `regex` crate. This module fixes which
//! pattern a word is turned into and states everything else over names for
//! what that crate computes.

use regex::Regex;
use vstd::prelude::*;
use vstd::string::*;

verus! {

/// `regex::Regex`, a compiled regular expression. Nothing inside it is
/// visible to the proofs.
#[verifier::external_type_specification]
#[verifier::external_body]
pub struct ExRegex(regex::Regex);

/// The pattern text that a compiled expression holds: the text it was
/// compiled from, which `Regex::as_str` gives back.
pub uninterp spec fn regex_pattern(re: Regex) -> Seq<char>;

/// Whether a compiled expression was made with the options that `regex` sets
/// by default. `Regex::new` makes such expressions; a `RegexBuilder` whose
/// options were changed does not.
pub uninterp spec fn has_default_options(re: Regex) -> bool;

/// Whether `Regex::new` compiles `pattern`: whether the pattern is well
/// formed and its program stays under the size limit that `regex` sets by
/// default.
pub uninterp spec fn pattern_compiles(pattern: Seq<char>) -> bool;

/// Whether `Regex::is_match` finds a match anywhere in `text`, for the
/// expression that `Regex::new` compiles from `pattern`.
pub uninterp spec fn pattern_matches(pattern: Seq<char>, text: Seq<char>) -> bool;

/// The characters that carry a meaning of their own in a pattern, as
/// `regex_syntax::is_meta_character` lists them.
pub open spec fn is_meta_character(c: char) -> bool {
    c == '\\' || c == '.' || c == '+' || c == '*' || c == '?' || c == '(' || c == ')' || c == '|'
        || c == '[' || c == ']' || c == '{' || c == '}' || c == '^' || c == '$' || c == '#' || c
        == '&' || c == '-' || c == '~'
}

/// `text` with a backslash put in front of every meta character, so that a
/// pattern made of it matches `text` literally.
pub open spec fn escaped_text(text: Seq<char>) -> Seq<char>
    decreases text.len(),
{
    if text.len() == 0 {
        Seq::empty()
    } else if is_meta_character(text.last()) {
        escaped_text(text.drop_last()).push('\\').push(text.last())
    } else {
        escaped_text(text.drop_last()).push(text.last())
    }
}

/// The pattern a query word is matched by: the word taken literally, anchored
/// at a word boundary on both sides, letter case ignored.
pub open spec fn word_pattern(word: Seq<char>) -> Seq<char> {
    seq!['(', '?', 'i', ')', '\\', 'b'] + escaped_text(word) + seq!['\\', 'b']
}

/// Calls `regex::escape`. Not proved, but read from its source: it copies
/// its argument character by character and writes a backslash before each
/// meta character.
#[verifier::external_body]
fn escape(text: &str) -> (escaped: String)
    ensures
        escaped@ == escaped_text(text@),
{
    regex::escape(text)
}

/// Calls `Regex::new` and keeps the compiled expression where there is one.
/// Not proved: that there is one exactly for the patterns that
/// `pattern_compiles` names, that the expression holds the pattern it was
/// given, and that it was made with the default options.
#[verifier::external_body]
fn compile(pattern: &str) -> (compiled: Option<Regex>)
    ensures
        compiled is Some <==> pattern_compiles(pattern@),
        compiled matches Some(re) ==> regex_pattern(re) == pattern@ && has_default_options(re),
{
    Regex::new(pattern).ok()
}

/// Calls `Regex::is_match`, which searches the whole of `text` for a match of
/// the expression. Not proved: that for an expression made with the default
/// options the answer is the one `pattern_matches` names for the pattern
/// that the expression holds.
#[verifier::external_body]
fn is_match(re: &Regex, text: &str) -> (found: bool)
    requires
        has_default_options(*re),
    ensures
        found == pattern_matches(regex_pattern(*re), text@),
{
    re.is_match(text)
}

/// Builds the pattern for `word`.
pub fn build_word_pattern(word: &str) -> (pattern: String)
    ensures
        pattern@ == word_pattern(word@),
{
    let mut pattern = String::from_str("(?i)\\b");
    let escaped = escape(word);
    pattern.append(escaped.as_str());
    pattern.append("\\b");
    proof {
        reveal_strlit("(?i)\\b");
        reveal_strlit("\\b");
    }
    pattern
}

/// A compiled matcher for one query word.
pub struct TermMatcher {
    word: String,
    re: Regex,
}

impl View for TermMatcher {
    type V = Seq<char>;

    /// The word the matcher was made for.
    closed spec fn view(&self) -> Seq<char> {
        self.word@
    }
}

impl DeepView for TermMatcher {
    type V = Seq<char>;

    open spec fn deep_view(&self) -> Seq<char> {
        self@
    }
}

impl TermMatcher {
    #[verifier::type_invariant]
    spec fn holds_word_pattern(self) -> bool {
        regex_pattern(self.re) == word_pattern(self.word@) && has_default_options(self.re)
    }

    /// Compiles the matcher for `word`. There is none where the word's
    /// pattern does not compile.
    pub fn new(word: &str) -> (matcher: Option<TermMatcher>)
        ensures
            matcher is Some <==> pattern_compiles(word_pattern(word@)),
            matcher matches Some(m) ==> m@ == word@,
    {
        let pattern = build_word_pattern(word);
        match compile(pattern.as_str()) {
            Some(re) => Some(TermMatcher { word: String::from_str(word), re }),
            None => None,
        }
    }

    /// The word the matcher was made for.
    pub fn word(&self) -> (word: &str)
        ensures
            word@ == self@,
    {
        self.word.as_str()
    }

    /// Whether the word occurs in `text` as a whole word, letter case ignored.
    pub fn matches(&self, text: &str) -> (found: bool)
        ensures
            found == pattern_matches(word_pattern(self@), text@),
    {
        proof {
            use_type_invariant(self);
        }
        is_match(&self.re, text)
    }
}

} // verus!
