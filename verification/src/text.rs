//! Text as sequences of characters: words and the order of identifiers.

use vstd::prelude::*;
use vstd::relations::total_ordering;
use vstd::string::*;

verus! {

/// Whether `c` is white space, that is, has Unicode's property White_Space:
/// the blank, the controls from tab to carriage return, next line, the
/// no-break spaces, the Ogham space mark, the spaces of fixed width, the line
/// and paragraph separators, the mathematical and the ideographic space.
pub open spec fn is_white_space(c: char) -> bool {
    let code = c as u32;
    0x0009 <= code <= 0x000D || code == 0x0020 || code == 0x0085 || code == 0x00A0 || code
        == 0x1680 || 0x2000 <= code <= 0x200A || code == 0x2028 || code == 0x2029 || code
        == 0x202F || code == 0x205F || code == 0x3000
}

/// Calls `char::is_whitespace`. Not proved, but documented by std: it tells
/// whether the character has the property White_Space, which Unicode gives
/// to the 25 characters of `is_white_space`.
#[verifier::external_body]
fn is_whitespace(c: char) -> (white: bool)
    ensures
        white == is_white_space(c),
{
    c.is_whitespace()
}

/// Length of the longest prefix of `s` that holds no white space.
pub open spec fn word_len(s: Seq<char>) -> nat
    decreases s.len(),
{
    if s.len() == 0 || is_white_space(s[0]) {
        0
    } else {
        1 + word_len(s.drop_first())
    }
}

/// The words of `s`: its maximal runs of characters other than white space,
/// in the order in which they stand in `s`.
pub open spec fn words_of(s: Seq<char>) -> Seq<Seq<char>>
    decreases s.len(),
{
    if s.len() == 0 {
        Seq::empty()
    } else if is_white_space(s[0]) {
        words_of(s.drop_first())
    } else {
        proof {
            lemma_word_len_bounds(s);
        }
        seq![s.take(word_len(s) as int)] + words_of(s.skip(word_len(s) as int))
    }
}

/// A word that starts at the front of `s` has at least one character and
/// does not run past the end of `s`.
pub proof fn lemma_word_len_bounds(s: Seq<char>)
    ensures
        word_len(s) <= s.len(),
        s.len() > 0 && !is_white_space(s[0]) ==> word_len(s) >= 1,
    decreases s.len(),
{
    if s.len() > 0 && !is_white_space(s[0]) {
        lemma_word_len_bounds(s.drop_first());
    }
}

/// Whether `word` has at least one character and none that is white space.
pub open spec fn is_run(word: Seq<char>) -> bool {
    word.len() > 0 && forall|j: int| 0 <= j < word.len() ==> !is_white_space(#[trigger] word[j])
}

/// The word at the front of `s` holds no white space.
proof fn lemma_word_is_clean(s: Seq<char>)
    ensures
        word_len(s) <= s.len(),
        forall|j: int| 0 <= j < word_len(s) ==> !is_white_space(#[trigger] s[j]),
    decreases s.len(),
{
    if s.len() > 0 && !is_white_space(s[0]) {
        let rest = s.drop_first();
        lemma_word_is_clean(rest);
        assert forall|j: int| 0 <= j < word_len(s) implies !is_white_space(#[trigger] s[j]) by {
            if j > 0 {
                assert(s[j] == rest[j - 1]);
            }
        }
    }
}

/// Every word has at least one character, and none of its characters is
/// white space.
pub proof fn lemma_words_are_runs(s: Seq<char>)
    ensures
        forall|k: int| 0 <= k < words_of(s).len() ==> is_run(#[trigger] words_of(s)[k]),
    decreases s.len(),
{
    if s.len() > 0 && is_white_space(s[0]) {
        lemma_words_are_runs(s.drop_first());
        assert(words_of(s) == words_of(s.drop_first()));
    } else if s.len() > 0 {
        lemma_word_is_clean(s);
        let rest = s.skip(word_len(s) as int);
        lemma_words_are_runs(rest);
        assert forall|k: int| 0 <= k < words_of(s).len() implies is_run(
            #[trigger] words_of(s)[k],
        ) by {
            if k > 0 {
                assert(words_of(s)[k] == words_of(rest)[k - 1]);
            }
        }
    }
}

/// A run of `k` characters without white space at the front of `s`, which
/// ends with `s` or at a white space, is the word at the front of `s`.
proof fn lemma_word_len_of_run(s: Seq<char>, k: int)
    requires
        0 <= k <= s.len(),
        forall|j: int| 0 <= j < k ==> !is_white_space(#[trigger] s[j]),
        k == s.len() || is_white_space(s[k]),
    ensures
        word_len(s) == k,
    decreases k,
{
    if k > 0 {
        let rest = s.drop_first();
        assert forall|j: int| 0 <= j < k - 1 implies !is_white_space(#[trigger] rest[j]) by {
            assert(rest[j] == s[j + 1]);
        }
        lemma_word_len_of_run(rest, k - 1);
    }
}

/// A run of characters without white space, followed by nothing or by white
/// space, is the first word of the whole, and the words after it are those
/// of what follows.
proof fn lemma_words_after_run(run: Seq<char>, rest: Seq<char>)
    requires
        forall|j: int| 0 <= j < run.len() ==> !is_white_space(#[trigger] run[j]),
        rest.len() == 0 || is_white_space(rest[0]),
    ensures
        words_of(run + rest) == if run.len() == 0 {
            words_of(rest)
        } else {
            seq![run] + words_of(rest)
        },
{
    let whole = run + rest;
    if run.len() == 0 {
        assert(whole =~= rest);
    } else {
        assert forall|j: int| 0 <= j < run.len() implies !is_white_space(#[trigger] whole[j]) by {
            assert(whole[j] == run[j]);
        }
        lemma_word_len_of_run(whole, run.len() as int);
        assert(whole.take(run.len() as int) =~= run);
        assert(whole.skip(run.len() as int) =~= rest);
    }
}

/// White space at the front of a text does not count for its words.
proof fn lemma_words_after_gap(gap: Seq<char>, rest: Seq<char>)
    requires
        forall|j: int| 0 <= j < gap.len() ==> is_white_space(#[trigger] gap[j]),
    ensures
        words_of(gap + rest) == words_of(rest),
    decreases gap.len(),
{
    if gap.len() == 0 {
        assert(gap + rest =~= rest);
    } else {
        let whole = gap + rest;
        assert(whole[0] == gap[0]);
        assert(whole.drop_first() =~= gap.drop_first() + rest);
        assert forall|j: int| 0 <= j < gap.drop_first().len() implies is_white_space(
            #[trigger] gap.drop_first()[j],
        ) by {
            assert(gap.drop_first()[j] == gap[j + 1]);
        }
        lemma_words_after_gap(gap.drop_first(), rest);
    }
}

/// A text without white space and with at least one character is one word.
pub proof fn lemma_run_is_one_word(run: Seq<char>)
    requires
        is_run(run),
    ensures
        words_of(run) == seq![run],
{
    lemma_words_after_run(run, Seq::empty());
    assert(run + Seq::<char>::empty() =~= run);
    assert(seq![run] + Seq::<Seq<char>>::empty() =~= seq![run]);
}

/// White space between two runs separates them: the text has the two runs
/// as its words.
pub proof fn lemma_gap_separates(first: Seq<char>, gap: Seq<char>, second: Seq<char>)
    requires
        is_run(first),
        is_run(second),
        gap.len() > 0,
        forall|j: int| 0 <= j < gap.len() ==> is_white_space(#[trigger] gap[j]),
    ensures
        words_of(first + gap + second) == seq![first, second],
{
    let rest = gap + second;
    assert(rest[0] == gap[0]);
    lemma_words_after_run(first, rest);
    lemma_words_after_gap(gap, second);
    lemma_run_is_one_word(second);
    assert(first + gap + second =~= first + rest);
    assert(seq![first] + seq![second] =~= seq![first, second]);
}

/// Calls `String::push`. Not proved, but documented by std: it appends the
/// character to the end of the string.
#[verifier::external_body]
fn push_char(text: &mut String, c: char)
    ensures
        final(text)@ == old(text)@.push(c),
{
    text.push(c);
}

/// The words of `text`, each as a string of its own.
pub fn split_words(text: &str) -> (words: Vec<String>)
    ensures
        words.deep_view() == words_of(text@),
{
    let mut words: Vec<String> = Vec::new();
    let mut run = String::new();
    assert(text@.skip(0) =~= text@);
    for c in it: text.chars()
        invariant
            it.seq() == text@,
            forall|j: int| 0 <= j < run@.len() ==> !is_white_space(#[trigger] run@[j]),
            words.deep_view() + words_of(run@ + text@.skip(it.index() as int)) == words_of(text@),
    {
        let ghost rest = text@.skip(it.index() as int);
        let ghost after = text@.skip(it.index() + 1);
        assert(rest.drop_first() =~= after);
        if is_whitespace(c) {
            proof {
                lemma_words_after_run(run@, rest);
            }
            if !run.as_str().is_empty() {
                let ghost before = words.deep_view();
                words.push(run);
                assert(before.push(run@) + words_of(after) =~= before + (seq![run@] + words_of(
                    after,
                )));
                run = String::new();
            }
        } else {
            let ghost before = run@;
            push_char(&mut run, c);
            assert(run@ + after =~= before + rest);
        }
    }
    proof {
        lemma_words_after_run(run@, text@.skip(text@.len() as int));
    }
    if !run.as_str().is_empty() {
        words.push(run);
    }
    words
}

/// Whether `a` comes before `b`, or equals it, where strings are ordered
/// character by character, by code point, a proper prefix coming first. This
/// is the order of the strings' bytes in UTF-8.
pub open spec fn lex_le(a: Seq<char>, b: Seq<char>) -> bool
    decreases a.len(),
{
    if a.len() == 0 {
        true
    } else if b.len() == 0 {
        false
    } else if a[0] != b[0] {
        (a[0] as u32) < (b[0] as u32)
    } else {
        lex_le(a.drop_first(), b.drop_first())
    }
}

/// Two strings that come before each other are one string.
pub proof fn lemma_lex_le_antisymmetric(a: Seq<char>, b: Seq<char>)
    requires
        lex_le(a, b),
        lex_le(b, a),
    ensures
        a == b,
    decreases a.len(),
{
    if a.len() > 0 && b.len() > 0 {
        lemma_lex_le_antisymmetric(a.drop_first(), b.drop_first());
        assert(a =~= seq![a[0]] + a.drop_first());
        assert(b =~= seq![b[0]] + b.drop_first());
    }
}

/// Of two strings one comes before the other.
pub proof fn lemma_lex_le_total(a: Seq<char>, b: Seq<char>)
    ensures
        lex_le(a, b) || lex_le(b, a),
    decreases a.len(),
{
    if a.len() > 0 && b.len() > 0 {
        if a[0] == b[0] {
            lemma_lex_le_total(a.drop_first(), b.drop_first());
        } else {
            vstd::utf8::char_u32_cast(a[0], a[0] as u32);
            vstd::utf8::char_u32_cast(b[0], b[0] as u32);
        }
    }
}

/// What comes before a string comes before everything that the string comes
/// before.
pub proof fn lemma_lex_le_transitive(a: Seq<char>, b: Seq<char>, c: Seq<char>)
    requires
        lex_le(a, b),
        lex_le(b, c),
    ensures
        lex_le(a, c),
    decreases a.len(),
{
    if a.len() > 0 && b.len() > 0 && c.len() > 0 && a[0] == b[0] && b[0] == c[0] {
        lemma_lex_le_transitive(a.drop_first(), b.drop_first(), c.drop_first());
    }
}

/// The order of identifiers is a total order.
pub proof fn lemma_lex_le_total_order()
    ensures
        total_ordering(|a: Seq<char>, b: Seq<char>| lex_le(a, b)),
{
    let le = |a: Seq<char>, b: Seq<char>| lex_le(a, b);
    assert forall|a: Seq<char>| #[trigger] le(a, a) by {
        lemma_lex_le_total(a, a);
    }
    assert forall|a: Seq<char>, b: Seq<char>| #[trigger] le(a, b) && le(b, a) implies a == b by {
        lemma_lex_le_antisymmetric(a, b);
    }
    assert forall|a: Seq<char>, b: Seq<char>, c: Seq<char>| #[trigger]
        le(a, b) && #[trigger] le(b, c) implies le(a, c) by {
        lemma_lex_le_transitive(a, b, c);
    }
    assert forall|a: Seq<char>, b: Seq<char>| #[trigger] le(a, b) || #[trigger] le(b, a) by {
        lemma_lex_le_total(a, b);
    }
}

} // verus!
