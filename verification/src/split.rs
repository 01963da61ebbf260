//! The splitter: a word that is longer than a line is cut into pieces of the
//! line's width.

use vstd::prelude::*;
use crate::chars::NEWLINE;
use crate::lines::{join_lines, lemma_join_push, push_chars, push_spaces, spaces};

verus! {

/// The number of pieces of at most `width` characters that `len` characters
/// are cut into: `len / width`, rounded up.
pub open spec fn chunk_count(len: int, width: int) -> int {
    (len + width - 1) / width
}

/// The piece with number `i`, counted from 0, padded with spaces to `width`
/// characters.
pub open spec fn chunk(word: Seq<char>, width: int, i: int) -> Seq<char> {
    let from = i * width;
    let to = if from + width <= word.len() {
        from + width
    } else {
        word.len() as int
    };
    word.subrange(from, to) + spaces(from + width - to)
}

/// The lines that a word is cut into.
pub open spec fn chunk_lines(word: Seq<char>, width: int) -> Seq<Seq<char>> {
    Seq::new(chunk_count(word.len() as int, width) as nat, |i: int| chunk(word, width, i))
}

/// Where the pieces lie: a piece that starts inside the word has a number
/// below the count, and the piece that reaches the word's end is the last.
pub proof fn lemma_chunk_index(len: int, width: int, i: int)
    requires
        width >= 1,
        i >= 0,
        i * width < len,
    ensures
        i < chunk_count(len, width),
        i * width + width >= len ==> i + 1 == chunk_count(len, width),
        i * width + width == (i + 1) * width,
{
    let c = chunk_count(len, width);
    let n = len + width - 1;
    assert(n == width * c + n % width && 0 <= n % width < width) by (nonlinear_arith)
        requires
            width >= 1,
            c == n / width,
    ;
    assert(i < c) by (nonlinear_arith)
        requires
            i * width < len,
            len + width - 1 == width * c + n % width,
            n % width < width,
            width >= 1,
    ;
    if i * width + width >= len {
        assert(c <= i + 1) by (nonlinear_arith)
            requires
                i * width + width >= len,
                len + width - 1 == width * c + n % width,
                0 <= n % width,
                width >= 1,
        ;
    }
    assert(i * width + width == (i + 1) * width) by (nonlinear_arith);
}

/// Every piece starts inside the word.
pub proof fn lemma_chunk_start(len: int, width: int, i: int)
    requires
        width >= 1,
        0 <= i < chunk_count(len, width),
    ensures
        0 <= i * width < len,
{
    let c = chunk_count(len, width);
    let n = len + width - 1;
    assert(n == width * c + n % width && 0 <= n % width < width) by (nonlinear_arith)
        requires
            width >= 1,
            c == n / width,
    ;
    assert(0 <= i * width < len) by (nonlinear_arith)
        requires
            0 <= i < c,
            len + width - 1 == width * c + n % width,
            0 <= n % width,
            width >= 1,
    ;
}

/// A word is cut into `len / width`, rounded up, lines, and each of them is
/// `width` characters wide.
pub proof fn lemma_chunk_lines(word: Seq<char>, width: int)
    requires
        width >= 1,
    ensures
        chunk_lines(word, width).len() == chunk_count(word.len() as int, width),
        word.len() == 0 <==> chunk_count(word.len() as int, width) == 0,
        forall|i: int|
            0 <= i < chunk_lines(word, width).len() ==> (#[trigger] chunk_lines(
                word,
                width,
            )[i]).len() == width,
{
    let len = word.len() as int;
    let c = chunk_count(len, width);
    let n = len + width - 1;
    assert(n == width * c + n % width && 0 <= n % width < width) by (nonlinear_arith)
        requires
            width >= 1,
            c == n / width,
    ;
    assert(c >= 0 && (len > 0 <==> c >= 1)) by (nonlinear_arith)
        requires
            n == width * c + n % width,
            n % width < width,
            width >= 1,
            n == len + width - 1,
            len >= 0,
    ;
    assert forall|i: int| 0 <= i < chunk_lines(word, width).len() implies (#[trigger] chunk_lines(
        word,
        width,
    )[i]).len() == width by {
        lemma_chunk_start(len, width, i);
    }
}

/// Cuts a word into lines of `line_width` characters, joined by newlines;
/// the last line is padded with spaces.
pub fn split_manually(unfitted: &Vec<char>, line_width: usize) -> (text: Vec<char>)
    requires
        line_width >= 1,
    ensures
        text@ == join_lines(chunk_lines(unfitted@, line_width as int)),
{
    let ghost all = chunk_lines(unfitted@, line_width as int);
    let ghost mut done: int = 0;
    let mut result: Vec<char> = Vec::new();
    let len: usize = unfitted.len();
    let mut elapsed: usize = 0;
    let mut need_newline: bool = false;
    proof {
        lemma_chunk_lines(unfitted@, line_width as int);
    }
    while elapsed != len
        invariant
            line_width >= 1,
            len == unfitted.len(),
            all == chunk_lines(unfitted@, line_width as int),
            all.len() == chunk_count(len as int, line_width as int),
            0 <= done <= all.len(),
            elapsed <= len,
            elapsed < len ==> elapsed == done * line_width,
            elapsed == len ==> done == all.len(),
            need_newline == (done > 0),
            result@ == join_lines(all.take(done)),
        decreases len - elapsed,
    {
        let rest: usize = len - elapsed;
        let take: usize = if rest < line_width {
            rest
        } else {
            line_width
        };
        proof {
            lemma_chunk_index(len as int, line_width as int, done);
            lemma_join_push(all.take(done), all[done]);
            assert(all.take(done + 1) == all.take(done).push(all[done]));
        }
        if need_newline {
            result.push(NEWLINE);
        }
        push_chars(&mut result, unfitted, elapsed, elapsed + take);
        if take < line_width {
            push_spaces(&mut result, line_width - take);
        }
        elapsed += take;
        need_newline = true;
        proof {
            done = done + 1;
            if elapsed < len {
                assert(elapsed == done * line_width) by (nonlinear_arith)
                    requires
                        elapsed == (done - 1) * line_width + line_width,
                ;
            }
        }
    }
    assert(all.take(done) == all);
    result
}

} // verus!
