//! What holds of every layout: the width of its lines, the line of a text
//! that fits on one, and the lines of a single word.

use vstd::prelude::*;
use crate::fit::{
    fit_count, fits, lemma_fit_count_is_largest, lemma_fit_from, lemma_total_len_step, total_len,
};
use crate::gaps::{body_gap, fills_line, lemma_rendered_width, rendered_width, tail_gap};
use crate::layout::{gap_after, justified, layout, reflow, render_upto};
use crate::lines::{join_lines, lemma_split_join, lines_of, newline_free};
use crate::split::{chunk, chunk_count, chunk_lines, lemma_chunk_lines, lemma_chunk_start};
use crate::words::{all_words, is_word, lemma_words_are_words, words};

verus! {

/// The gaps after the first `k` words of a line of `n` words, together.
pub open spec fn gap_sum(k: int, n: int, body: int, tail: int) -> int
    decreases k,
{
    if k <= 0 {
        0
    } else {
        gap_sum(k - 1, n, body, tail) + gap_after(k - 1, n, body, tail)
    }
}

/// Every line is `width` characters wide.
pub open spec fn all_of_width(lines: Seq<Seq<char>>, width: int) -> bool {
    forall|i: int| 0 <= i < lines.len() ==> (#[trigger] lines[i]).len() == width
}

/// No line is more than `width` characters wide.
pub open spec fn none_wider(lines: Seq<Seq<char>>, width: int) -> bool {
    forall|i: int| 0 <= i < lines.len() ==> (#[trigger] lines[i]).len() <= width
}

/// Whether on every line of several words that the layout makes of `ws` the
/// gaps fill the line.
pub open spec fn fills_every_line(ws: Seq<Seq<char>>, width: int) -> bool
    decreases ws.len(),
    via fills_every_line_decreases
{
    if ws.len() == 0 {
        true
    } else {
        let k = fit_count(ws, width);
        if k == 0 {
            fills_every_line(ws.skip(1), width)
        } else {
            fills_line(k, total_len(ws.take(k)), width) && fills_every_line(ws.skip(k), width)
        }
    }
}

#[via_fn]
proof fn fills_every_line_decreases(ws: Seq<Seq<char>>, width: int) {
    lemma_fit_from(ws, 0, width);
}

/// The gaps of a line together: the body gap for each word but the last
/// two, and the tail gap once.
pub proof fn lemma_gap_sum(k: int, n: int, body: int, tail: int)
    requires
        0 <= k <= n,
    ensures
        gap_sum(k, n, body, tail) == if k == 0 {
            0
        } else if n == 1 {
            tail
        } else if k <= n - 2 {
            k * body
        } else {
            (n - 2) * body + tail
        },
    decreases k,
{
    if k > 0 {
        lemma_gap_sum(k - 1, n, body, tail);
        if n > 1 && k <= n - 1 {
            assert((k - 1) * body + body == k * body) by (nonlinear_arith);
        }
    }
}

/// The width of the first `k` words of a line with their gaps: the
/// characters of the words and the gaps after them, a gap of a negative
/// width counting as none.
pub proof fn lemma_render_len(ws: Seq<Seq<char>>, k: int, body: int, tail: int)
    requires
        0 <= k <= ws.len(),
    ensures
        render_upto(ws, k, body, tail).len() == total_len(ws.take(k)) + gap_sum(
            k,
            ws.len() as int,
            if body > 0 {
                body
            } else {
                0
            },
            if tail > 0 {
                tail
            } else {
                0
            },
        ),
    decreases k,
{
    if k > 0 {
        lemma_render_len(ws, k - 1, body, tail);
        lemma_total_len_step(ws, k - 1);
    }
}

/// The width of a line of words that fit: that of its words, its body gaps
/// and its tail gap. It is the line width exactly where the gaps fill the
/// line, and less elsewhere.
pub proof fn lemma_justified_len(ws: Seq<Seq<char>>, width: int)
    requires
        ws.len() >= 1,
        fits(ws, ws.len() as int, width),
    ensures
        justified(ws, width).len() == rendered_width(ws.len() as int, total_len(ws), width),
        justified(ws, width).len() <= width,
        justified(ws, width).len() == width <==> fills_line(
            ws.len() as int,
            total_len(ws),
            width,
        ),
{
    let n = ws.len() as int;
    assert(ws.take(n) == ws);
    lemma_total_len_nonneg(ws);
    lemma_rendered_width(n, total_len(ws), width);
    let body = body_gap(n, total_len(ws), width);
    let tail = tail_gap(n, total_len(ws), width);
    lemma_render_len(ws, n, body, tail);
    lemma_gap_sum(n, n, body, tail);
    assert(body * (n - 2) == (n - 2) * body) by (nonlinear_arith);
}

/// Words hold no negative number of characters.
pub proof fn lemma_total_len_nonneg(ws: Seq<Seq<char>>)
    ensures
        total_len(ws) >= 0,
    decreases ws.len(),
{
    if ws.len() > 0 {
        lemma_total_len_nonneg(ws.drop_last());
    }
}

/// The width of the lines: no line of a layout is wider than the line
/// width, and all lines are exactly that wide if and only if on every line
/// of several words the gaps fill the line.
pub proof fn lemma_layout_widths(ws: Seq<Seq<char>>, width: int)
    requires
        width >= 1,
    ensures
        none_wider(layout(ws, width), width),
        all_of_width(layout(ws, width), width) <==> fills_every_line(ws, width),
    decreases ws.len(),
{
    if ws.len() > 0 {
        lemma_fit_from(ws, 0, width);
        let k = fit_count(ws, width);
        if k == 0 {
            let head = chunk_lines(ws[0], width);
            let rest = layout(ws.skip(1), width);
            lemma_chunk_lines(ws[0], width);
            lemma_layout_widths(ws.skip(1), width);
            let all = head + rest;
            if all_of_width(all, width) {
                assert forall|i: int| 0 <= i < rest.len() implies (#[trigger] rest[i]).len()
                    == width by {
                    assert(rest[i] == all[i + head.len()]);
                }
            }
        } else {
            let batch = ws.take(k);
            let line = justified(batch, width);
            let rest = layout(ws.skip(k), width);
            assert(batch.take(k) == batch);
            lemma_justified_len(batch, width);
            lemma_layout_widths(ws.skip(k), width);
            let all = seq![line] + rest;
            if all_of_width(all, width) {
                assert(all[0] == line);
                assert forall|i: int| 0 <= i < rest.len() implies (#[trigger] rest[i]).len()
                    == width by {
                    assert(rest[i] == all[i + 1]);
                }
            }
        }
    }
}

/// Words that fit on one line together make that line and no other. The
/// line is as wide as the line width if and only if its gaps fill it.
pub proof fn lemma_single_line(ws: Seq<Seq<char>>, width: int)
    requires
        ws.len() >= 1,
        fits(ws, ws.len() as int, width),
    ensures
        layout(ws, width) == seq![justified(ws, width)],
        justified(ws, width).len() == width <==> fills_line(
            ws.len() as int,
            total_len(ws),
            width,
        ),
{
    let n = ws.len() as int;
    lemma_fit_count_is_largest(ws, width, n);
    assert(ws.take(n) == ws);
    assert(layout(ws.skip(n), width) == Seq::<Seq<char>>::empty());
    lemma_justified_len(ws, width);
}

/// A text whose words fit on one line together is set as that one line.
pub proof fn lemma_single_line_text(text: Seq<char>, width: int)
    requires
        words(text).len() >= 1,
        fits(words(text), words(text).len() as int, width),
    ensures
        reflow(text, width) == justified(words(text), width),
{
    lemma_single_line(words(text), width);
}

/// A word alone makes as many lines as its length divided by the line
/// width, rounded up: its pieces, each padded to the line width.
pub proof fn lemma_lone_word(word: Seq<char>, width: int)
    requires
        width >= 1,
        word.len() >= 1,
    ensures
        layout(seq![word], width) == chunk_lines(word, width),
        layout(seq![word], width).len() == chunk_count(word.len() as int, width),
        all_of_width(layout(seq![word], width), width),
{
    let ws = seq![word];
    lemma_fit_from(ws, 0, width);
    lemma_chunk_lines(word, width);
    let k = fit_count(ws, width);
    lemma_total_len_step(ws, 0);
    assert(layout(ws.skip(1), width) == Seq::<Seq<char>>::empty());
    if k != 0 {
        assert(ws.take(1) == ws);
        let len = word.len() as int;
        assert(chunk_count(len, width) == 1) by (nonlinear_arith)
            requires
                1 <= len <= width,
        ;
        let body = body_gap(1, total_len(ws), width);
        let tail = tail_gap(1, total_len(ws), width);
        assert(render_upto(ws, 0, body, tail) == Seq::<char>::empty());
        assert(justified(ws, width) == chunk(word, width, 0));
    }
}

/// Every line is without a newline and holds a character at least.
pub open spec fn all_plain(lines: Seq<Seq<char>>) -> bool {
    forall|i: int|
        0 <= i < lines.len() ==> newline_free(#[trigger] lines[i]) && lines[i].len() >= 1
}

/// A rendered line holds no newline, and is not empty.
pub proof fn lemma_render_plain(ws: Seq<Seq<char>>, k: int, body: int, tail: int)
    requires
        all_words(ws),
        0 <= k <= ws.len(),
    ensures
        newline_free(render_upto(ws, k, body, tail)),
        k >= 1 ==> render_upto(ws, k, body, tail).len() >= 1,
    decreases k,
{
    if k > 0 {
        lemma_render_plain(ws, k - 1, body, tail);
        assert(is_word(ws[k - 1]));
    }
}

/// The lines that a word is cut into hold no newline.
pub proof fn lemma_chunks_plain(word: Seq<char>, width: int)
    requires
        is_word(word),
        width >= 1,
    ensures
        all_plain(chunk_lines(word, width)),
        chunk_lines(word, width).len() >= 1,
{
    let cut = chunk_lines(word, width);
    lemma_chunk_lines(word, width);
    assert forall|i: int| 0 <= i < cut.len() implies newline_free(#[trigger] cut[i]) && cut[i].len()
        >= 1 by {
        lemma_chunk_start(word.len() as int, width, i);
    }
}

/// The lines of a layout hold no newline and none is empty; where there
/// are words there are lines.
pub proof fn lemma_layout_plain(ws: Seq<Seq<char>>, width: int)
    requires
        all_words(ws),
        width >= 1,
    ensures
        all_plain(layout(ws, width)),
        ws.len() >= 1 ==> layout(ws, width).len() >= 1,
    decreases ws.len(),
{
    if ws.len() > 0 {
        lemma_fit_from(ws, 0, width);
        let k = fit_count(ws, width);
        let step = if k == 0 {
            1
        } else {
            k
        };
        let rest = ws.skip(step);
        assert(all_words(rest));
        lemma_layout_plain(rest, width);
        if k == 0 {
            lemma_chunks_plain(ws[0], width);
        } else {
            let batch = ws.take(k);
            lemma_render_plain(
                batch,
                k,
                body_gap(k, total_len(batch), width),
                tail_gap(k, total_len(batch), width),
            );
        }
    }
}

/// The lines of the output, read off between its newlines, are the lines
/// of the layout of the input's words.
pub proof fn lemma_output_lines(text: Seq<char>, width: int)
    requires
        width >= 1,
    ensures
        lines_of(reflow(text, width)) == layout(words(text), width),
{
    let ws = words(text);
    lemma_words_are_words(text);
    lemma_layout_plain(ws, width);
    let lines = layout(ws, width);
    if ws.len() > 0 {
        assert(join_lines(lines).len() >= lines.last().len());
        lemma_split_join(lines);
    }
}

/// The width of the output's lines: none is wider than the line width, and
/// all are exactly that wide if and only if on every line of several words
/// the gaps fill the line.
pub proof fn lemma_output_widths(text: Seq<char>, width: int)
    requires
        width >= 1,
    ensures
        none_wider(lines_of(reflow(text, width)), width),
        all_of_width(lines_of(reflow(text, width)), width) <==> fills_every_line(
            words(text),
            width,
        ),
{
    lemma_output_lines(text, width);
    lemma_layout_widths(words(text), width);
}

/// An input without characters gives an output without characters, whatever
/// the width.
pub proof fn lemma_empty_input(width: int)
    ensures
        reflow(Seq::<char>::empty(), width) == Seq::<char>::empty(),
{
}

/// A text of one word is set as the lines that the word is cut into: as
/// many as its length divided by the line width, rounded up, each of them
/// as wide as the line width.
pub proof fn lemma_lone_word_text(text: Seq<char>, width: int)
    requires
        width >= 1,
        words(text).len() == 1,
    ensures
        lines_of(reflow(text, width)) == chunk_lines(words(text)[0], width),
        lines_of(reflow(text, width)).len() == chunk_count(words(text)[0].len() as int, width),
        all_of_width(lines_of(reflow(text, width)), width),
{
    let word = words(text)[0];
    lemma_words_are_words(text);
    assert(words(text) == seq![word]);
    lemma_lone_word(word, width);
    lemma_output_lines(text, width);
}

} // verus!
