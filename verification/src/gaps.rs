//! How the free room of a line is spread over the gaps between its words.

use vstd::prelude::*;

verus! {

/// The widths of the gaps of one line.
#[derive(Clone, Copy, Debug, PartialEq, Eq, Structural)]
pub struct GapInfo {
    /// Width of every gap between two words but the last such gap.
    pub body_gaps_size: usize,
    /// Width of the last gap between two words, or, on a line of one word,
    /// of the padding after it.
    pub tail_gap_size: usize,
}

/// What is left of `rest` columns when they are dealt out evenly to `n_gaps` gaps.
pub open spec fn surplus(n_gaps: int, rest: int) -> int {
    rest % n_gaps
}

/// Width of a body gap on a line of `n_tokens` words that hold `total_len`
/// characters together, for lines of `line_width` columns.
///
/// The surplus of an uneven division goes to the tail gap alone, and the
/// evenly divisible part is then shared by the other gaps.
pub open spec fn body_gap(n_tokens: int, total_len: int, line_width: int) -> int {
    if n_tokens <= 1 {
        0
    } else {
        let n_gaps = n_tokens - 1;
        let rest = line_width - total_len;
        let over = surplus(n_gaps, rest);
        if n_gaps > 1 && over > 0 {
            (rest - over) / (n_gaps - 1)
        } else {
            (rest - over) / n_gaps
        }
    }
}

/// Width of the tail gap of the same line.
pub open spec fn tail_gap(n_tokens: int, total_len: int, line_width: int) -> int {
    if n_tokens <= 0 {
        0
    } else if n_tokens == 1 {
        line_width - total_len
    } else {
        let over = surplus(n_tokens - 1, line_width - total_len);
        if over > 0 {
            over
        } else {
            body_gap(n_tokens, total_len, line_width)
        }
    }
}

/// Whether the words and gaps of such a line reach its last column: the
/// line has two words at most, or the division leaves nothing over, or the
/// evenly divisible part can be shared by one gap fewer without a rest.
pub open spec fn fills_line(n_tokens: int, total_len: int, line_width: int) -> bool {
    n_tokens <= 2 || {
        let n_gaps = n_tokens - 1;
        let rest = line_width - total_len;
        let over = surplus(n_gaps, rest);
        over == 0 || (rest - over) % (n_gaps - 1) == 0
    }
}

/// Width of a rendered line: its words, its body gaps and its tail gap.
pub open spec fn rendered_width(n_tokens: int, total_len: int, line_width: int) -> int {
    if n_tokens <= 0 {
        0
    } else if n_tokens == 1 {
        total_len + tail_gap(n_tokens, total_len, line_width)
    } else {
        total_len + body_gap(n_tokens, total_len, line_width) * (n_tokens - 2) + tail_gap(
            n_tokens,
            total_len,
            line_width,
        )
    }
}

/// A line of one word is as wide as the line width; a line of more words is
/// exactly when its gaps fill it, and is narrower otherwise.
pub proof fn lemma_rendered_width(n_tokens: int, total_len: int, line_width: int)
    requires
        n_tokens >= 1,
        0 <= total_len,
        total_len + (n_tokens - 1) <= line_width,
    ensures
        rendered_width(n_tokens, total_len, line_width) <= line_width,
        rendered_width(n_tokens, total_len, line_width) == line_width <==> fills_line(
            n_tokens,
            total_len,
            line_width,
        ),
        body_gap(n_tokens, total_len, line_width) >= 0,
        tail_gap(n_tokens, total_len, line_width) >= 0,
        n_tokens >= 2 ==> tail_gap(n_tokens, total_len, line_width) >= 1,
        n_tokens >= 3 ==> body_gap(n_tokens, total_len, line_width) >= 1,
{
    if n_tokens >= 2 {
        let n_gaps = n_tokens - 1;
        let rest = line_width - total_len;
        let over = rest % n_gaps;
        let body = body_gap(n_tokens, total_len, line_width);
        assert(rest == n_gaps * (rest / n_gaps) + over && 0 <= over < n_gaps) by (nonlinear_arith)
            requires
                n_gaps >= 1,
                over == rest % n_gaps,
        ;
        let q = rest / n_gaps;
        assert(q >= 1) by (nonlinear_arith)
            requires
                rest >= n_gaps,
                n_gaps >= 1,
                rest == n_gaps * q + over,
                over < n_gaps,
        ;
        if n_gaps > 1 && over > 0 {
            let d = n_gaps - 1;
            let even = rest - over;
            assert(even == d * (even / d) + even % d && 0 <= even % d < d && even / d >= 1)
                by (nonlinear_arith)
                requires
                    d >= 1,
                    even == (d + 1) * q,
                    q >= 1,
            ;
            assert(body * d == even - even % d) by (nonlinear_arith)
                requires
                    body == even / d,
                    even == d * (even / d) + even % d,
            ;
        } else {
            assert(body == q) by (nonlinear_arith)
                requires
                    body == (rest - over) / n_gaps,
                    rest - over == n_gaps * q,
                    n_gaps >= 1,
            ;
            assert(body * (n_gaps - 1) + body == rest) by (nonlinear_arith)
                requires
                    body == q,
                    over == 0,
                    rest == n_gaps * q + over,
            ;
        }
    }
}

/// On a line of two words the one gap takes all the free room.
pub proof fn lemma_two_words_gap(total_len: int, line_width: int)
    requires
        0 <= total_len,
        total_len + 1 <= line_width,
    ensures
        tail_gap(2, total_len, line_width) == line_width - total_len,
        rendered_width(2, total_len, line_width) == line_width,
{
}

/// Computes the gap widths for a line of `n_tokens` words of `total_len`
/// characters together.
pub fn gaps(n_tokens: usize, total_len: usize, line_width: usize) -> (info: GapInfo)
    requires
        n_tokens >= 1 ==> total_len + (n_tokens - 1) <= line_width,
    ensures
        info.body_gaps_size == body_gap(n_tokens as int, total_len as int, line_width as int),
        info.tail_gap_size == tail_gap(n_tokens as int, total_len as int, line_width as int),
{
    if n_tokens == 0 {
        return GapInfo { body_gaps_size: 0, tail_gap_size: 0 };
    } else if n_tokens == 1 {
        return GapInfo { body_gaps_size: 0, tail_gap_size: line_width - total_len };
    }
    let n_gaps: usize = n_tokens - 1;
    let free_space: usize = line_width - total_len;
    let remainder: usize = free_space % n_gaps;
    let div: usize = if n_gaps > 1 && remainder > 0 {
        n_gaps - 1
    } else {
        n_gaps
    };
    let max_gap: usize = (free_space - remainder) / div;
    let last_gap: usize = if remainder > 0 {
        remainder
    } else {
        max_gap
    };
    GapInfo { body_gaps_size: max_gap, tail_gap_size: last_gap }
}

} // verus!
