use text_justify::{transform, try_transform};

#[test]
fn split_test() {
    let test_cases = [
        ("consectetur", 4, "cons\necte\ntur "),
        ("Привет", 12, "Привет      "),
        ("Поддержка кодировки utf-8 в коде", 8, "Поддержк\nа       \nкодировк\nи       \nutf-8  в\nкоде    "),
        ("Съешь ещё этих мягких французских булок, да выпей чаю", 12, "Съешь    ещё\nэтих  мягких\nфранцузских \nбулок,    да\nвыпей    чаю"),
        ("🤩 привет  💨 hello", 1, "🤩\nп\nр\nи\nв\nе\nт\n💨\nh\ne\nl\nl\no"),
        ("🤩 привет  💨 hello", 3, "🤩  \nпри\nвет\n💨  \nhel\nlo "),
    ];

    for &(input, line_width, expected) in &test_cases {
        println!("input: '{}'", input);
        assert_eq!(transform(input, line_width), expected);
    }
}

#[test]
fn equal_length_lines() {
    let test_cases = [
        ("Бык тупогуб, тупогубенький бычок, у быка губа тупа.", 5),
        ("Вез корабль карамель, наскочил корабль на мель, матросы две недели карамель на мели ели.", 18),
        ("Вез корабль карамель, наскочил корабль на мель, матросы две недели карамель на мели ели.", 6),
        ("Вез корабль карамель, наскочил корабль на мель, матросы две недели карамель на мели ели.", 1),
        ("Тpидцaть тpи коpaбля лaвиpовaли, лaвиpовaли, лавировали, дa не \tвылaвиpовaли.", 4),
        ("У переп\tелa и перепелки\t\t\t пять  \t\tперепелят    .", 3),
    ];

    for (input, line_width) in test_cases {
        let result = transform(input, line_width);
        println!("input: '{}'", input);
        for line in result.lines() {
            assert_eq!(line.chars().count() as u32, line_width);
        }
    }
}

#[test]
fn empty_input_gives_empty_output() {
    for width in [0u32, 1, 7, u32::MAX] {
        assert_eq!(transform("", width), "");
    }
}

#[test]
fn input_of_whitespace_alone_gives_empty_output() {
    assert_eq!(transform(" \t\n  ", 5), "");
    assert_eq!(transform(" \t\n  ", 0), "");
}

#[test]
fn one_word_is_padded_to_the_width() {
    assert_eq!(transform("abc", 3), "abc");
    assert_eq!(transform("  abc\n", 5), "abc  ");
}

#[test]
fn two_words_get_all_free_room_in_their_one_gap() {
    assert_eq!(transform("ab cd", 9), "ab     cd");
    assert_eq!(transform("ab cd", 5), "ab cd");
}

#[test]
fn three_words_with_even_room() {
    assert_eq!(transform("aa bb cc", 12), "aa   bb   cc");
}

#[test]
fn three_words_with_a_surplus_put_it_in_the_tail_gap() {
    // 6 characters, 7 free columns, 2 gaps: surplus 1, body gap 6
    assert_eq!(transform("aa bb cc", 13), "aa      bb cc");
}

#[test]
fn four_words_whose_surplus_leaves_an_uneven_rest_fall_short() {
    // 4 characters, 4 free columns, 3 gaps: surplus 1, body gap 3 / 2 = 1
    assert_eq!(transform("a b c d", 8), "a b c d");
}

#[test]
fn whole_input_on_one_line() {
    let out = transform("one two three", 19);
    assert_eq!(out, "one    two    three");
    assert_eq!(out.chars().count(), 19);
    assert!(!out.contains('\n'));
}

#[test]
fn lone_long_word_is_cut_into_rounded_up_many_lines() {
    let out = transform("abcdefghij", 3);
    assert_eq!(out, "abc\ndef\nghi\nj  ");
    assert_eq!(out.lines().count(), 4);
    let out = transform("abcdef", 3);
    assert_eq!(out, "abc\ndef");
}

#[test]
fn words_are_kept_in_order() {
    let input = "Lorem  ipsum\tdolor sit amet, consectetur\nadipiscing elit";
    let out = transform(input, 7);
    let kept: String = out.chars().filter(|c| !c.is_whitespace()).collect();
    let given: String = input.chars().filter(|c| !c.is_whitespace()).collect();
    assert_eq!(kept, given);
}

#[test]
fn long_word_between_short_ones() {
    assert_eq!(transform("ab abcdefg cd ef", 5), "ab   \nabcde\nfg   \ncd ef");
}

#[test]
fn unicode_whitespace_separates_words() {
    assert_eq!(transform("a\u{00A0}b\u{3000}c\u{2009}d\u{0085}e", 1), "a\nb\nc\nd\ne");
}

#[test]
fn zero_width_space_is_part_of_a_word() {
    assert_eq!(transform("a\u{200B}b", 3), "a\u{200B}b");
}

#[test]
fn try_transform_refuses_width_zero_for_words() {
    assert_eq!(try_transform("ab cd", 0), None);
    assert_eq!(try_transform(" x ", 0), None);
}

#[test]
fn try_transform_accepts_width_zero_without_words() {
    assert_eq!(try_transform("", 0), Some(String::new()));
    assert_eq!(try_transform(" \n\t", 0), Some(String::new()));
}

#[test]
fn try_transform_sets_the_text() {
    assert_eq!(try_transform("consectetur", 4), Some(String::from("cons\necte\ntur ")));
    assert_eq!(try_transform("ab cd", 9), Some(String::from("ab     cd")));
}
