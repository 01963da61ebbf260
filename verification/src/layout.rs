//! The layout of a text: which lines its words make, and how a line of
//! several words is rendered.

use vstd::prelude::*;
use crate::fit::{fit_count, lemma_fit_from, total_len};
use crate::gaps::{body_gap, tail_gap, GapInfo};
use crate::lines::{join_lines, push_chars, push_spaces, spaces};
use crate::split::chunk_lines;
use crate::words::{views, words};

verus! {

/// The width of the gap after the word at position `i` on a line of `n`
/// words: the tail gap after the last word but one, and after the only word
/// of a line; nothing after the last of several words; the body gap after
/// every other word.
pub open spec fn gap_after(i: int, n: int, body: int, tail: int) -> int {
    if i + 2 < n {
        body
    } else if i + 2 == n || n == 1 {
        tail
    } else {
        0
    }
}

/// The first `k` words of a line, each with the gap after it.
pub open spec fn render_upto(ws: Seq<Seq<char>>, k: int, body: int, tail: int) -> Seq<char>
    decreases k,
{
    if k <= 0 {
        Seq::empty()
    } else {
        render_upto(ws, k - 1, body, tail) + ws[k - 1] + spaces(
            gap_after(k - 1, ws.len() as int, body, tail),
        )
    }
}

/// The line that the words make: all of them, with the gaps that their
/// number and length give for the width.
pub open spec fn justified(ws: Seq<Seq<char>>, width: int) -> Seq<char> {
    render_upto(
        ws,
        ws.len() as int,
        body_gap(ws.len() as int, total_len(ws), width),
        tail_gap(ws.len() as int, total_len(ws), width),
    )
}

/// The lines that the words make. As many words as fit make one line; where
/// not even the first word fits, that word alone is cut into lines.
pub open spec fn layout(ws: Seq<Seq<char>>, width: int) -> Seq<Seq<char>>
    decreases ws.len(),
    via layout_decreases
{
    if ws.len() == 0 {
        Seq::empty()
    } else {
        let k = fit_count(ws, width);
        if k == 0 {
            chunk_lines(ws[0], width) + layout(ws.skip(1), width)
        } else {
            seq![justified(ws.take(k), width)] + layout(ws.skip(k), width)
        }
    }
}

#[via_fn]
proof fn layout_decreases(ws: Seq<Seq<char>>, width: int) {
    lemma_fit_from(ws, 0, width);
}

/// The text that the words of `text` make when they are set in lines of
/// `width` columns.
pub open spec fn reflow(text: Seq<char>, width: int) -> Seq<char> {
    join_lines(layout(words(text), width))
}

/// Appends one line: the `count` words of `tokens` from position `start`,
/// with the gaps of `info` between them.
pub fn push_justified(
    out: &mut Vec<char>,
    tokens: &Vec<Vec<char>>,
    start: usize,
    count: usize,
    info: GapInfo,
)
    requires
        start + count <= tokens.len(),
    ensures
        final(out)@ == old(out)@ + render_upto(
            views(tokens@).skip(start as int).take(count as int),
            count as int,
            info.body_gaps_size as int,
            info.tail_gap_size as int,
        ),
{
    let ghost batch = views(tokens@).skip(start as int).take(count as int);
    let ghost body = info.body_gaps_size as int;
    let ghost tail = info.tail_gap_size as int;
    let mut idx: usize = 0;
    while idx < count
        invariant
            idx <= count,
            start + count <= tokens.len(),
            batch == views(tokens@).skip(start as int).take(count as int),
            body == info.body_gaps_size as int,
            tail == info.tail_gap_size as int,
            out@ == old(out)@ + render_upto(batch, idx as int, body, tail),
        decreases count - idx,
    {
        let token: &Vec<char> = &tokens[start + idx];
        push_chars(out, token, 0, token.len());
        if count - idx > 2 {
            push_spaces(out, info.body_gaps_size);
        } else if count - idx == 2 || count == 1 {
            push_spaces(out, info.tail_gap_size);
        }
        idx += 1;
    }
}

} // verus!
