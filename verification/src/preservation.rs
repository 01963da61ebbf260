//! The layout keeps the words: what is left of the output when its
//! whitespace is taken away is what is left of the input.

use vstd::prelude::*;
use crate::chars::{is_space, NEWLINE};
use crate::fit::{fit_count, lemma_fit_from, total_len};
use crate::gaps::{body_gap, tail_gap};
use crate::layout::{gap_after, justified, layout, reflow, render_upto};
use crate::lines::{join_lines, lemma_join_concat, spaces};
use crate::split::{chunk_count, chunk_lines, lemma_chunk_lines, lemma_chunk_start};
use crate::words::{all_words, lemma_word_end, lemma_words_are_words, word_end, words, words_from};

verus! {

/// The text without its whitespace.
pub open spec fn unspaced(s: Seq<char>) -> Seq<char>
    decreases s.len(),
{
    if s.len() == 0 {
        Seq::empty()
    } else if is_space(s.last()) {
        unspaced(s.drop_last())
    } else {
        unspaced(s.drop_last()).push(s.last())
    }
}

/// The words one after the other, with nothing between them.
pub open spec fn glued(ws: Seq<Seq<char>>) -> Seq<char>
    decreases ws.len(),
{
    if ws.len() == 0 {
        Seq::empty()
    } else {
        glued(ws.drop_last()) + ws.last()
    }
}

/// The text holds no whitespace.
pub open spec fn spaceless(s: Seq<char>) -> bool {
    forall|j: int| 0 <= j < s.len() ==> !is_space(#[trigger] s[j])
}

/// Taking the whitespace away from two texts in a row is taking it away
/// from each.
pub proof fn lemma_unspaced_concat(a: Seq<char>, b: Seq<char>)
    ensures
        unspaced(a + b) == unspaced(a) + unspaced(b),
    decreases b.len(),
{
    if b.len() > 0 {
        lemma_unspaced_concat(a, b.drop_last());
        assert((a + b).drop_last() == a + b.drop_last());
    }
}

/// Nothing is left of a run of spaces, and nothing of a newline.
pub proof fn lemma_unspaced_padding(n: int)
    ensures
        unspaced(spaces(n)) == Seq::<char>::empty(),
        unspaced(seq![NEWLINE]) == Seq::<char>::empty(),
    decreases n,
{
    if n > 0 {
        lemma_unspaced_padding(n - 1);
        assert(spaces(n).drop_last() == spaces(n - 1));
    }
    let nl = seq![NEWLINE];
    assert(unspaced(nl.drop_last()) == Seq::<char>::empty());
}

/// A text without whitespace stays as it is.
pub proof fn lemma_unspaced_spaceless(s: Seq<char>)
    requires
        spaceless(s),
    ensures
        unspaced(s) == s,
    decreases s.len(),
{
    if s.len() > 0 {
        assert(spaceless(s.drop_last()));
        lemma_unspaced_spaceless(s.drop_last());
    }
}

/// Gluing two runs of words is gluing each.
pub proof fn lemma_glued_concat(a: Seq<Seq<char>>, b: Seq<Seq<char>>)
    ensures
        glued(a + b) == glued(a) + glued(b),
    decreases b.len(),
{
    if b.len() > 0 {
        lemma_glued_concat(a, b.drop_last());
        assert((a + b).drop_last() == a + b.drop_last());
    }
}

/// One word glued is the word.
pub proof fn lemma_glued_one(w: Seq<char>)
    ensures
        glued(seq![w]) == w,
{
    let one = seq![w];
    assert(glued(one.drop_last()) == Seq::<char>::empty());
}

/// Without its whitespace a text is its words, glued.
pub proof fn lemma_unspaced_is_words(s: Seq<char>, i: int)
    requires
        0 <= i <= s.len(),
    ensures
        unspaced(s.skip(i)) == glued(words_from(s, i)),
    decreases s.len() - i,
{
    if i < s.len() {
        if is_space(s[i]) {
            lemma_unspaced_is_words(s, i + 1);
            let one = seq![s[i]];
            assert(s.skip(i) == one + s.skip(i + 1));
            lemma_unspaced_concat(one, s.skip(i + 1));
            assert(unspaced(one.drop_last()) == Seq::<char>::empty());
        } else {
            lemma_word_end(s, i);
            let e = word_end(s, i);
            lemma_unspaced_is_words(s, e);
            let word = s.subrange(i, e);
            assert(s.skip(i) == word + s.skip(e));
            lemma_unspaced_concat(word, s.skip(e));
            assert(spaceless(word));
            lemma_unspaced_spaceless(word);
            lemma_glued_concat(seq![word], words_from(s, e));
            lemma_glued_one(word);
        }
    }
}

/// Taking the whitespace away from joined lines is taking it away from
/// each run of them.
pub proof fn lemma_unspaced_join(a: Seq<Seq<char>>, b: Seq<Seq<char>>)
    ensures
        unspaced(join_lines(a + b)) == unspaced(join_lines(a)) + unspaced(join_lines(b)),
{
    if a.len() > 0 && b.len() > 0 {
        lemma_join_concat(a, b);
        lemma_unspaced_padding(0);
        lemma_unspaced_concat(join_lines(a) + seq![NEWLINE], join_lines(b));
        lemma_unspaced_concat(join_lines(a), seq![NEWLINE]);
    }
}

/// Without its whitespace a rendered line is its words, glued.
pub proof fn lemma_unspaced_render(ws: Seq<Seq<char>>, k: int, body: int, tail: int)
    requires
        all_words(ws),
        0 <= k <= ws.len(),
    ensures
        unspaced(render_upto(ws, k, body, tail)) == glued(ws.take(k)),
    decreases k,
{
    if k > 0 {
        lemma_unspaced_render(ws, k - 1, body, tail);
        let before = render_upto(ws, k - 1, body, tail);
        let gap = spaces(gap_after(k - 1, ws.len() as int, body, tail));
        lemma_unspaced_concat(before + ws[k - 1], gap);
        lemma_unspaced_concat(before, ws[k - 1]);
        lemma_unspaced_padding(gap_after(k - 1, ws.len() as int, body, tail));
        lemma_unspaced_spaceless(ws[k - 1]);
        assert(ws.take(k).drop_last() == ws.take(k - 1));
    }
}

/// Without their whitespace the first `i` lines of a word that was cut are
/// the part of the word that they hold.
pub proof fn lemma_unspaced_chunks(word: Seq<char>, width: int, i: int)
    requires
        spaceless(word),
        width >= 1,
        0 <= i <= chunk_count(word.len() as int, width),
    ensures
        unspaced(join_lines(chunk_lines(word, width).take(i))) == word.take(
            if i * width <= word.len() {
                i * width
            } else {
                word.len() as int
            },
        ),
    decreases i,
{
    let all = chunk_lines(word, width);
    let len = word.len() as int;
    lemma_chunk_lines(word, width);
    if i == 0 {
        assert(all.take(0) == Seq::<Seq<char>>::empty());
        assert(0 * width == 0);
        assert(word.take(0) == Seq::<char>::empty());
    } else {
        lemma_unspaced_chunks(word, width, i - 1);
        let from = (i - 1) * width;
        lemma_chunk_start(len, width, i - 1);
        assert(from + width == i * width) by (nonlinear_arith)
            requires
                from == (i - 1) * width,
        ;
        let to = if from + width <= len {
            from + width
        } else {
            len
        };
        let piece = word.subrange(from, to);
        let pad = spaces(from + width - to);
        assert(all[i - 1] == piece + pad);
        assert(all.take(i) == all.take(i - 1) + seq![all[i - 1]]);
        lemma_unspaced_join(all.take(i - 1), seq![all[i - 1]]);
        lemma_unspaced_concat(piece, pad);
        lemma_unspaced_padding(from + width - to);
        assert(spaceless(piece)) by {
            assert forall|j: int| 0 <= j < piece.len() implies !is_space(#[trigger] piece[j]) by {
                assert(piece[j] == word[from + j]);
            }
        }
        lemma_unspaced_spaceless(piece);
        assert(piece + Seq::<char>::empty() == piece);
        assert(word.take(from) + piece == word.take(to));
    }
}

/// Without its whitespace the layout of words is the words, glued.
pub proof fn lemma_layout_keeps_words(ws: Seq<Seq<char>>, width: int)
    requires
        all_words(ws),
        width >= 1,
    ensures
        unspaced(join_lines(layout(ws, width))) == glued(ws),
    decreases ws.len(),
{
    if ws.len() > 0 {
        lemma_fit_from(ws, 0, width);
        let k = fit_count(ws, width);
        let step = if k == 0 {
            1
        } else {
            k
        };
        let rest = ws.skip(step);
        assert(all_words(rest));
        lemma_layout_keeps_words(rest, width);
        assert(ws == ws.take(step) + rest);
        lemma_glued_concat(ws.take(step), rest);
        if k == 0 {
            let word = ws[0];
            let cut = chunk_lines(word, width);
            lemma_unspaced_join(cut, layout(rest, width));
            lemma_chunk_lines(word, width);
            let n = chunk_count(word.len() as int, width);
            lemma_unspaced_chunks(word, width, n);
            assert(cut.take(n) == cut);
            assert(n * width >= word.len()) by (nonlinear_arith)
                requires
                    n == (word.len() + width - 1) / width,
                    width >= 1,
            ;
            assert(ws.take(1) == seq![word]);
            lemma_glued_one(word);
        } else {
            let batch = ws.take(k);
            let line = justified(batch, width);
            lemma_unspaced_join(seq![line], layout(rest, width));
            lemma_unspaced_render(
                batch,
                k,
                body_gap(k, total_len(batch), width),
                tail_gap(k, total_len(batch), width),
            );
            assert(batch.take(k) == batch);
        }
    }
}

/// The words are kept: without its whitespace the output is the input
/// without its whitespace, which is the words of the input, glued.
pub proof fn lemma_reflow_keeps_words(text: Seq<char>, width: int)
    requires
        width >= 1 || words(text).len() == 0,
    ensures
        unspaced(reflow(text, width)) == unspaced(text),
        unspaced(text) == glued(words(text)),
{
    lemma_unspaced_is_words(text, 0);
    assert(text.skip(0) == text);
    lemma_words_are_words(text);
    if width >= 1 {
        lemma_layout_keeps_words(words(text), width);
    }
}

} // verus!
