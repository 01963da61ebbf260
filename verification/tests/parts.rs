use text_justify::chars::{chars_of, string_of};
use text_justify::fit::{fit_strs, FitResult};
use text_justify::gaps::{gaps, GapInfo};
use text_justify::layout::push_justified;
use text_justify::lines::{push_chars, push_spaces};
use text_justify::split::split_manually;
use text_justify::words::tokenize;

fn cs(s: &str) -> Vec<char> {
    s.chars().collect()
}

fn toks(words: &[&str]) -> Vec<Vec<char>> {
    words.iter().map(|w| cs(w)).collect()
}

#[test]
fn chars_of_gives_the_scalar_values() {
    assert_eq!(chars_of("aя🤩"), vec!['a', 'я', '🤩']);
    assert_eq!(chars_of(""), Vec::<char>::new());
}

#[test]
fn string_of_gives_the_characters_back() {
    assert_eq!(string_of(&vec!['a', 'я', '🤩']), "aя🤩");
    assert_eq!(string_of(&Vec::new()), "");
}

#[test]
fn tokenize_cuts_at_runs_of_whitespace() {
    assert_eq!(tokenize(&cs("  ab \t\ncd  e")), toks(&["ab", "cd", "e"]));
    assert_eq!(tokenize(&cs("ab")), toks(&["ab"]));
    assert_eq!(tokenize(&cs(" \n ")), Vec::<Vec<char>>::new());
    assert_eq!(tokenize(&cs("")), Vec::<Vec<char>>::new());
}

#[test]
fn tokenize_knows_the_whitespace_of_unicode() {
    let spaces = [
        '\u{0009}', '\u{000A}', '\u{000B}', '\u{000C}', '\u{000D}', '\u{0020}', '\u{0085}',
        '\u{00A0}', '\u{1680}', '\u{2000}', '\u{2005}', '\u{200A}', '\u{2028}', '\u{2029}',
        '\u{202F}', '\u{205F}', '\u{3000}',
    ];
    for c in spaces {
        assert_eq!(tokenize(&vec!['a', c, 'b']), toks(&["a", "b"]));
    }
    let others = ['\u{0008}', '\u{000E}', '\u{001F}', '\u{180E}', '\u{200B}', '\u{2060}', '\u{FEFF}', '_'];
    for c in others {
        assert_eq!(tokenize(&vec!['a', c, 'b']), vec![vec!['a', c, 'b']]);
    }
}

#[test]
fn gaps_of_no_word_are_zero() {
    assert_eq!(gaps(0, 0, 10), GapInfo { body_gaps_size: 0, tail_gap_size: 0 });
}

#[test]
fn gaps_of_one_word_pad_the_rest() {
    assert_eq!(gaps(1, 6, 12), GapInfo { body_gaps_size: 0, tail_gap_size: 6 });
    assert_eq!(gaps(1, 12, 12), GapInfo { body_gaps_size: 0, tail_gap_size: 0 });
}

#[test]
fn gaps_of_two_words_are_the_free_room() {
    assert_eq!(gaps(2, 8, 12), GapInfo { body_gaps_size: 4, tail_gap_size: 4 });
}

#[test]
fn gaps_of_an_even_division() {
    assert_eq!(gaps(3, 6, 12), GapInfo { body_gaps_size: 3, tail_gap_size: 3 });
    assert_eq!(gaps(4, 4, 10), GapInfo { body_gaps_size: 2, tail_gap_size: 2 });
}

#[test]
fn gaps_of_an_uneven_division() {
    assert_eq!(gaps(3, 10, 17), GapInfo { body_gaps_size: 6, tail_gap_size: 1 });
    assert_eq!(gaps(4, 4, 8), GapInfo { body_gaps_size: 1, tail_gap_size: 1 });
    assert_eq!(gaps(4, 4, 11), GapInfo { body_gaps_size: 3, tail_gap_size: 1 });
}

#[test]
fn fit_takes_words_while_they_fit() {
    let tokens = toks(&["ab", "cd", "efg", "h"]);
    assert_eq!(fit_strs(&tokens, 0, 5), FitResult { count: 2, total_len: 4 });
    assert_eq!(fit_strs(&tokens, 0, 4), FitResult { count: 1, total_len: 2 });
    assert_eq!(fit_strs(&tokens, 0, 9), FitResult { count: 3, total_len: 7 });
    assert_eq!(fit_strs(&tokens, 0, 100), FitResult { count: 4, total_len: 8 });
    assert_eq!(fit_strs(&tokens, 2, 5), FitResult { count: 2, total_len: 4 });
    assert_eq!(fit_strs(&tokens, 4, 5), FitResult { count: 0, total_len: 0 });
}

#[test]
fn fit_takes_nothing_where_the_first_word_is_too_long() {
    let tokens = toks(&["abcdef", "g"]);
    assert_eq!(fit_strs(&tokens, 0, 5), FitResult { count: 0, total_len: 0 });
    assert_eq!(fit_strs(&tokens, 0, 0), FitResult { count: 0, total_len: 0 });
    assert_eq!(fit_strs(&tokens, 0, 6), FitResult { count: 1, total_len: 6 });
}

#[test]
fn fit_at_the_largest_width() {
    let tokens = toks(&["ab", "cd"]);
    assert_eq!(fit_strs(&tokens, 0, usize::MAX), FitResult { count: 2, total_len: 4 });
}

#[test]
fn split_cuts_and_pads() {
    assert_eq!(split_manually(&cs("consectetur"), 4), cs("cons\necte\ntur "));
    assert_eq!(split_manually(&cs("abcdef"), 2), cs("ab\ncd\nef"));
    assert_eq!(split_manually(&cs("ab"), 5), cs("ab   "));
    assert_eq!(split_manually(&cs(""), 5), cs(""));
    assert_eq!(split_manually(&cs("я🤩я"), 2), cs("я🤩\nя "));
}

#[test]
fn push_spaces_appends() {
    let mut out = cs("ab");
    push_spaces(&mut out, 3);
    assert_eq!(out, cs("ab   "));
    push_spaces(&mut out, 0);
    assert_eq!(out, cs("ab   "));
}

#[test]
fn push_chars_appends_the_range() {
    let mut out = cs("ab");
    push_chars(&mut out, &cs("cdefg"), 1, 4);
    assert_eq!(out, cs("abdef"));
    push_chars(&mut out, &cs("cdefg"), 2, 2);
    assert_eq!(out, cs("abdef"));
}

#[test]
fn push_justified_renders_one_line() {
    let tokens = toks(&["x", "aa", "bb", "cc", "y"]);
    let mut out = cs(">");
    push_justified(&mut out, &tokens, 1, 3, GapInfo { body_gaps_size: 6, tail_gap_size: 1 });
    assert_eq!(out, cs(">aa      bb cc"));
    let mut out = Vec::new();
    push_justified(&mut out, &tokens, 0, 1, GapInfo { body_gaps_size: 0, tail_gap_size: 2 });
    assert_eq!(out, cs("x  "));
    let mut out = Vec::new();
    push_justified(&mut out, &tokens, 3, 2, GapInfo { body_gaps_size: 4, tail_gap_size: 4 });
    assert_eq!(out, cs("cc    y"));
}

#[test]
fn tokenize_cuts_at_exactly_the_white_space_code_points() {
    let listed = |u: u32| {
        (0x09..=0x0D).contains(&u)
            || u == 0x20
            || u == 0x85
            || u == 0xA0
            || u == 0x1680
            || (0x2000..=0x200A).contains(&u)
            || u == 0x2028
            || u == 0x2029
            || u == 0x202F
            || u == 0x205F
            || u == 0x3000
    };
    for u in 0u32..=0x10FFFF {
        if let Some(c) = char::from_u32(u) {
            let tokens = tokenize(&vec!['a', c, 'b']);
            assert_eq!(tokens.len() == 2, listed(u), "code point {:#x}", u);
        }
    }
}
