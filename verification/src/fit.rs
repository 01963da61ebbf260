//! The line fitter: how many of the next words go on one line.

use vstd::prelude::*;
use crate::words::views;

verus! {

/// What the fitter chose for one line.
#[derive(Clone, Copy, Debug, PartialEq, Eq, Structural)]
pub struct FitResult {
    /// How many words go on the line, from the first one that was offered.
    pub count: usize,
    /// How many characters those words hold together.
    pub total_len: usize,
}

/// The number of characters in all the words together.
pub open spec fn total_len(ws: Seq<Seq<char>>) -> int
    decreases ws.len(),
{
    if ws.len() == 0 {
        0
    } else {
        total_len(ws.drop_last()) + ws.last().len()
    }
}

/// Whether the first `k` words, with one space between each two neighbours,
/// take no more than `width` columns.
pub open spec fn fits(ws: Seq<Seq<char>>, k: int, width: int) -> bool {
    &&& 0 <= k <= ws.len()
    &&& k == 0 || total_len(ws.take(k)) + (k - 1) <= width
}

/// The number of words on the line when the first `k` are on it already:
/// the next word is taken for as long as it still fits.
pub open spec fn fit_from(ws: Seq<Seq<char>>, k: int, width: int) -> int
    decreases ws.len() - k,
{
    if 0 <= k < ws.len() && fits(ws, k + 1, width) {
        fit_from(ws, k + 1, width)
    } else {
        k
    }
}

/// The number of words, from the front of `ws`, that go on one line.
pub open spec fn fit_count(ws: Seq<Seq<char>>, width: int) -> int {
    fit_from(ws, 0, width)
}

/// One more word adds its length to the total.
pub proof fn lemma_total_len_step(ws: Seq<Seq<char>>, k: int)
    requires
        0 <= k < ws.len(),
    ensures
        total_len(ws.take(k + 1)) == total_len(ws.take(k)) + ws[k].len(),
{
    assert(ws.take(k + 1).drop_last() == ws.take(k));
}

/// More words hold no fewer characters.
pub proof fn lemma_total_len_grows(ws: Seq<Seq<char>>, j: int, k: int)
    requires
        0 <= j <= k <= ws.len(),
    ensures
        total_len(ws.take(j)) <= total_len(ws.take(k)),
    decreases k - j,
{
    if j < k {
        lemma_total_len_grows(ws, j, k - 1);
        lemma_total_len_step(ws, k - 1);
    }
}

/// The count lies between `k` and the number of words, the words counted
/// fit, and the word after them, if there is one, does not.
pub proof fn lemma_fit_from(ws: Seq<Seq<char>>, k: int, width: int)
    requires
        fits(ws, k, width),
    ensures
        k <= fit_from(ws, k, width) <= ws.len(),
        fits(ws, fit_from(ws, k, width), width),
        !fits(ws, fit_from(ws, k, width) + 1, width),
    decreases ws.len() - k,
{
    if k < ws.len() && fits(ws, k + 1, width) {
        lemma_fit_from(ws, k + 1, width);
    }
}

/// The fitter is greedy: it takes the largest number of words that fit.
pub proof fn lemma_fit_count_is_largest(ws: Seq<Seq<char>>, width: int, k: int)
    requires
        fits(ws, k, width),
    ensures
        0 <= k <= fit_count(ws, width) <= ws.len(),
        fits(ws, fit_count(ws, width), width),
{
    lemma_fit_from(ws, 0, width);
    let c = fit_count(ws, width);
    if k > c {
        lemma_total_len_grows(ws, c + 1, k);
    }
}

/// Chooses the words of one line from `tokens`, starting with the one at
/// position `start`: as many as fit into `max_line_width` columns with one
/// space between each two neighbours.
pub fn fit_strs(tokens: &Vec<Vec<char>>, start: usize, max_line_width: usize) -> (fit: FitResult)
    requires
        start <= tokens.len(),
    ensures
        fit.count == fit_count(views(tokens@).skip(start as int), max_line_width as int),
        fit.total_len == total_len(views(tokens@).skip(start as int).take(fit.count as int)),
        start + fit.count <= tokens.len(),
        fits(views(tokens@).skip(start as int), fit.count as int, max_line_width as int),
{
    let ghost ws = views(tokens@).skip(start as int);
    let avail: usize = tokens.len() - start;
    let mut count: usize = 0;
    let mut total: usize = 0;
    let mut room: usize = max_line_width;
    let mut going: bool = true;
    while going && count < avail
        invariant
            ws == views(tokens@).skip(start as int),
            avail == tokens.len() - start,
            avail == ws.len(),
            count <= avail,
            total == total_len(ws.take(count as int)),
            fits(ws, count as int, max_line_width as int),
            fit_count(ws, max_line_width as int) == fit_from(
                ws,
                count as int,
                max_line_width as int,
            ),
            going ==> room == max_line_width - total - count,
            !going ==> count == avail || !fits(ws, count + 1, max_line_width as int),
        decreases avail - count + if going { 1int } else { 0int },
    {
        let len: usize = tokens[start + count].len();
        proof {
            lemma_total_len_step(ws, count as int);
        }
        if len <= room {
            total += len;
            count += 1;
            if room - len >= 1 {
                room = room - len - 1;
            } else {
                room = 0;
                going = false;
                proof {
                    if count < avail {
                        lemma_total_len_step(ws, count as int);
                    }
                }
            }
        } else {
            going = false;
        }
    }
    FitResult { count, total_len: total }
}

} // verus!
