//! Lines of output: padding, and joining lines into one text.

use vstd::prelude::*;
use crate::chars::{NEWLINE, SPACE};

verus! {

/// A run of `n` spaces.
pub open spec fn spaces(n: int) -> Seq<char> {
    Seq::new(
        if n > 0 {
            n as nat
        } else {
            0
        },
        |k: int| SPACE,
    )
}

/// The lines with one newline between each two neighbours, and none after
/// the last.
pub open spec fn join_lines(lines: Seq<Seq<char>>) -> Seq<char>
    decreases lines.len(),
{
    if lines.len() == 0 {
        Seq::empty()
    } else if lines.len() == 1 {
        lines[0]
    } else {
        join_lines(lines.drop_last()) + seq![NEWLINE] + lines.last()
    }
}

/// The text after one more line has been written to it: a newline comes
/// before the line unless the line is the first.
pub proof fn lemma_join_push(lines: Seq<Seq<char>>, line: Seq<char>)
    ensures
        join_lines(lines.push(line)) == if lines.len() == 0 {
            line
        } else {
            join_lines(lines) + seq![NEWLINE] + line
        },
{
    assert(lines.push(line).drop_last() == lines);
}

/// Joining two runs of lines, neither of them empty, is joining each and
/// putting a newline between the two texts.
pub proof fn lemma_join_concat(a: Seq<Seq<char>>, b: Seq<Seq<char>>)
    requires
        a.len() > 0,
        b.len() > 0,
    ensures
        join_lines(a + b) == join_lines(a) + seq![NEWLINE] + join_lines(b),
    decreases b.len(),
{
    if b.len() == 1 {
        assert(a + b == a.push(b[0]));
        lemma_join_push(a, b[0]);
    } else {
        lemma_join_concat(a, b.drop_last());
        lemma_join_push(a + b.drop_last(), b.last());
        assert(b == b.drop_last().push(b.last()));
        lemma_join_push(b.drop_last(), b.last());
    }
}

/// The text holds no newline.
pub open spec fn newline_free(s: Seq<char>) -> bool {
    forall|j: int| 0 <= j < s.len() ==> #[trigger] s[j] != NEWLINE
}

/// The runs of characters between the newlines of a text, in order. A text
/// without a newline is one run, the empty text too.
pub open spec fn split_at_newlines(s: Seq<char>) -> Seq<Seq<char>>
    decreases s.len(),
{
    if s.len() == 0 {
        seq![Seq::empty()]
    } else if s.last() == NEWLINE {
        split_at_newlines(s.drop_last()).push(Seq::empty())
    } else {
        let before = split_at_newlines(s.drop_last());
        before.drop_last().push(before.last().push(s.last()))
    }
}

/// The lines of a text: none for the empty text, and else the runs of
/// characters between its newlines.
pub open spec fn lines_of(s: Seq<char>) -> Seq<Seq<char>> {
    if s.len() == 0 {
        Seq::empty()
    } else {
        split_at_newlines(s)
    }
}

/// Characters other than newlines, written after a text, lengthen its last
/// run.
pub proof fn lemma_split_append(s: Seq<char>, t: Seq<char>)
    requires
        newline_free(t),
    ensures
        split_at_newlines(s).len() >= 1,
        split_at_newlines(s + t) == split_at_newlines(s).drop_last().push(
            split_at_newlines(s).last() + t,
        ),
    decreases t.len(), s.len(),
{
    if s.len() > 0 {
        lemma_split_append(s.drop_last(), Seq::empty());
    }
    if t.len() > 0 {
        let shorter = t.drop_last();
        let runs = split_at_newlines(s);
        lemma_split_append(s, shorter);
        assert((s + t).drop_last() == s + shorter);
        assert((runs.last() + shorter).push(t.last()) == runs.last() + t);
    }
}

/// Lines without newlines, and at least one of them, are found again in
/// their joined text as the runs between its newlines.
pub proof fn lemma_split_join(lines: Seq<Seq<char>>)
    requires
        lines.len() >= 1,
        forall|i: int| 0 <= i < lines.len() ==> newline_free(#[trigger] lines[i]),
    ensures
        split_at_newlines(join_lines(lines)) == lines,
    decreases lines.len(),
{
    let last = lines.last();
    if lines.len() == 1 {
        lemma_split_append(Seq::empty(), last);
    } else {
        let front = lines.drop_last();
        lemma_split_join(front);
        let broken = join_lines(front) + seq![NEWLINE];
        assert(broken.drop_last() == join_lines(front));
        lemma_split_append(broken, last);
    }
}

/// Appends `n` spaces.
pub fn push_spaces(out: &mut Vec<char>, n: usize)
    ensures
        final(out)@ == old(out)@ + spaces(n as int),
{
    let mut k: usize = 0;
    while k < n
        invariant
            k <= n,
            out@ == old(out)@ + spaces(k as int),
        decreases n - k,
    {
        out.push(SPACE);
        k += 1;
    }
}

/// Appends the characters of `src` from position `from` up to, not
/// including, position `to`.
pub fn push_chars(out: &mut Vec<char>, src: &Vec<char>, from: usize, to: usize)
    requires
        from <= to <= src.len(),
    ensures
        final(out)@ == old(out)@ + src@.subrange(from as int, to as int),
{
    let mut k: usize = from;
    while k < to
        invariant
            from <= k <= to,
            to <= src.len(),
            out@ == old(out)@ + src@.subrange(from as int, k as int),
        decreases to - k,
    {
        out.push(src[k]);
        k += 1;
    }
}

} // verus!
