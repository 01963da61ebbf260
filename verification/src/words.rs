//! Words: the maximal runs of characters of a text that are not whitespace.

use vstd::prelude::*;
use crate::chars::is_space;

verus! {

/// The first position at or after `i` that holds whitespace, or the length
/// of the text where there is none.
pub open spec fn word_end(s: Seq<char>, i: int) -> int
    decreases s.len() - i,
{
    if i < 0 || i >= s.len() || is_space(s[i]) {
        i
    } else {
        word_end(s, i + 1)
    }
}

/// The words of the text that start at or after position `i`, in order.
pub open spec fn words_from(s: Seq<char>, i: int) -> Seq<Seq<char>>
    decreases s.len() - i,
    via words_from_decreases
{
    if i < 0 || i >= s.len() {
        Seq::empty()
    } else if is_space(s[i]) {
        words_from(s, i + 1)
    } else {
        seq![s.subrange(i, word_end(s, i))] + words_from(s, word_end(s, i))
    }
}

#[via_fn]
proof fn words_from_decreases(s: Seq<char>, i: int) {
    if 0 <= i < s.len() && !is_space(s[i]) {
        lemma_word_end(s, i);
    }
}

/// The words of a text, in order.
pub open spec fn words(s: Seq<char>) -> Seq<Seq<char>> {
    words_from(s, 0)
}

/// A word is not empty and holds no whitespace.
pub open spec fn is_word(w: Seq<char>) -> bool {
    &&& w.len() > 0
    &&& forall|j: int| 0 <= j < w.len() ==> !is_space(#[trigger] w[j])
}

/// Every member is a word.
pub open spec fn all_words(ws: Seq<Seq<char>>) -> bool {
    forall|k: int| 0 <= k < ws.len() ==> is_word(#[trigger] ws[k])
}

/// The characters of each vector.
pub open spec fn views(v: Seq<Vec<char>>) -> Seq<Seq<char>> {
    Seq::new(v.len(), |k: int| v[k]@)
}

/// A run that starts at `i` ends within the text, after `i` where `i` holds
/// no whitespace; it holds no whitespace, and whitespace or the end of the
/// text follows it.
pub proof fn lemma_word_end(s: Seq<char>, i: int)
    requires
        0 <= i <= s.len(),
    ensures
        i <= word_end(s, i) <= s.len(),
        i < s.len() && !is_space(s[i]) ==> i < word_end(s, i),
        forall|j: int| i <= j < word_end(s, i) ==> !is_space(#[trigger] s[j]),
        word_end(s, i) < s.len() ==> is_space(s[word_end(s, i)]),
    decreases s.len() - i,
{
    if i < s.len() && !is_space(s[i]) {
        lemma_word_end(s, i + 1);
    }
}

/// What `words_from` yields are words.
pub proof fn lemma_words_from_are_words(s: Seq<char>, i: int)
    requires
        0 <= i <= s.len(),
    ensures
        all_words(words_from(s, i)),
    decreases s.len() - i,
{
    if i < s.len() {
        if is_space(s[i]) {
            lemma_words_from_are_words(s, i + 1);
        } else {
            lemma_word_end(s, i);
            let e = word_end(s, i);
            lemma_words_from_are_words(s, e);
            assert(is_word(s.subrange(i, e)));
        }
    }
}

/// The words of a text are not empty and hold no whitespace.
pub proof fn lemma_words_are_words(s: Seq<char>)
    ensures
        all_words(words(s)),
{
    lemma_words_from_are_words(s, 0);
}

/// Cuts a text into its words.
pub fn tokenize(text: &Vec<char>) -> (tokens: Vec<Vec<char>>)
    ensures
        views(tokens@) == words(text@),
        all_words(views(tokens@)),
{
    let mut tokens: Vec<Vec<char>> = Vec::new();
    let mut i: usize = 0;
    while i < text.len()
        invariant
            i <= text.len(),
            views(tokens@) + words_from(text@, i as int) == words(text@),
        decreases text.len() - i,
    {
        if text[i].is_whitespace() {
            i += 1;
        } else {
            let start: usize = i;
            let mut word: Vec<char> = Vec::new();
            while i < text.len() && !text[i].is_whitespace()
                invariant
                    start <= i <= text.len(),
                    word@ == text@.subrange(start as int, i as int),
                    word_end(text@, start as int) == word_end(text@, i as int),
                decreases text.len() - i,
            {
                word.push(text[i]);
                i += 1;
            }
            tokens.push(word);
        }
    }
    proof {
        lemma_words_are_words(text@);
    }
    tokens
}

} // verus!
