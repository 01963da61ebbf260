//! Re-flows text into lines of a fixed width, counted in Unicode scalar values.
//!
//! Words are packed greedily onto each line and the free room of a line is
//! spread over the gaps between its words. A word longer than a line is cut
//! into pieces of the line's width.

use vstd::prelude::*;
use crate::chars::{chars_of, string_of, NEWLINE};
use crate::fit::{fit_strs, fits};
use crate::gaps::gaps;
use crate::laws::{
    all_of_width, fills_every_line, lemma_lone_word_text, lemma_output_widths,
    lemma_single_line_text, none_wider,
};
use crate::layout::{justified, layout, push_justified, reflow};
use crate::lines::{join_lines, lemma_join_concat, lemma_join_push, lines_of, push_chars};
use crate::preservation::{lemma_reflow_keeps_words, unspaced};
use crate::split::{chunk_count, chunk_lines, lemma_chunk_lines, split_manually};
use crate::words::{all_words, tokenize, views, words};

pub mod chars;
pub mod fit;
pub mod gaps;
pub mod laws;
pub mod layout;
pub mod lines;
pub mod preservation;
pub mod split;
pub mod words;

verus! {

/// Sets the words of `input` in lines of `line_width` characters.
///
/// The words are the runs of characters that are not whitespace; whatever
/// whitespace stood between them is replaced. Each line takes as many words
/// as fit, and its free room goes to the gaps between them. A word that is
/// longer than a line is cut into lines of its own, the last of them padded
/// with spaces. The lines are joined by newlines, with none at the end.
///
/// No line is wider than `line_width`. A line of one or two words, and a
/// line of a word that was cut, is exactly that wide; a line of more words
/// is where its gaps fill it.
///
/// A width of 0 is accepted only for an input without words.
pub fn transform(input: &str, line_width: u32) -> (output: String)
    requires
        line_width >= 1 || words(input@).len() == 0,
    ensures
        output@ == reflow(input@, line_width as int),
        input@.len() == 0 ==> output@.len() == 0,
        none_wider(lines_of(output@), line_width as int),
        fills_every_line(words(input@), line_width as int) <==> all_of_width(
            lines_of(output@),
            line_width as int,
        ),
        unspaced(output@) == unspaced(input@),
        words(input@).len() >= 1 && fits(
            words(input@),
            words(input@).len() as int,
            line_width as int,
        ) ==> output@ == justified(words(input@), line_width as int),
        words(input@).len() == 1 ==> lines_of(output@) == chunk_lines(
            words(input@)[0],
            line_width as int,
        ) && lines_of(output@).len() == chunk_count(
            words(input@)[0].len() as int,
            line_width as int,
        ) && all_of_width(lines_of(output@), line_width as int),
{
    proof {
        lemma_reflow_keeps_words(input@, line_width as int);
        if line_width >= 1 {
            lemma_output_widths(input@, line_width as int);
        }
        if words(input@).len() >= 1 && fits(
            words(input@),
            words(input@).len() as int,
            line_width as int,
        ) {
            lemma_single_line_text(input@, line_width as int);
        }
        if words(input@).len() == 1 {
            lemma_lone_word_text(input@, line_width as int);
        }
    }
    let text: Vec<char> = chars_of(input);
    if text.len() == 0 {
        return String::new();
    }
    let width: usize = line_width as usize;
    let tokens: Vec<Vec<char>> = tokenize(&text);
    let ghost ws = views(tokens@);
    let ghost mut lines: Seq<Seq<char>> = Seq::empty();
    let mut result: Vec<char> = Vec::new();
    let mut pos: usize = 0;
    let mut need_newline: bool = false;
    proof {
        assert(ws.skip(0) == ws);
    }
    while pos < tokens.len()
        invariant
            pos <= tokens.len(),
            ws == views(tokens@),
            all_words(ws),
            width >= 1 || ws.len() == 0,
            layout(ws, width as int) == lines + layout(ws.skip(pos as int), width as int),
            result@ == join_lines(lines),
            need_newline == (lines.len() > 0),
        decreases tokens.len() - pos,
    {
        let ghost rest = ws.skip(pos as int);
        let fit = fit_strs(&tokens, pos, width);
        if need_newline {
            result.push(NEWLINE);
        }
        if fit.count != 0 {
            let gaps_info = gaps(fit.count, fit.total_len, width);
            push_justified(&mut result, &tokens, pos, fit.count, gaps_info);
            proof {
                let line = justified(rest.take(fit.count as int), width as int);
                assert(rest.skip(fit.count as int) == ws.skip(pos + fit.count));
                lemma_join_push(lines, line);
                lines = lines.push(line);
            }
            pos += fit.count;
        } else {
            let token: &Vec<char> = &tokens[pos];
            let piece: Vec<char> = split_manually(token, width);
            push_chars(&mut result, &piece, 0, piece.len());
            proof {
                let cut = chunk_lines(token@, width as int);
                assert(rest.skip(1) == ws.skip(pos + 1));
                lemma_chunk_lines(token@, width as int);
                if lines.len() > 0 {
                    lemma_join_concat(lines, cut);
                }
                lines = lines + cut;
            }
            pos += 1;
        }
        need_newline = true;
    }
    string_of(&result)
}

/// Does what `transform` does, for a caller that cannot promise a width:
/// a width of 0 is refused with `None` where the input holds a word.
pub fn try_transform(input: &str, line_width: u32) -> (output: Option<String>)
    ensures
        output is None <==> line_width == 0 && words(input@).len() > 0,
        output is Some ==> output->0@ == reflow(input@, line_width as int),
{
    if line_width == 0 {
        let text: Vec<char> = chars_of(input);
        let tokens: Vec<Vec<char>> = tokenize(&text);
        if tokens.len() > 0 {
            return None;
        }
    }
    Some(transform(input, line_width))
}

} // verus!
