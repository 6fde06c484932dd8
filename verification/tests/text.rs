use rust_hive::text::{contains_char, from_chars, remove_char, split_on, to_chars, trim_matches};

#[test]
fn trim_removes_listed_characters_at_both_ends_only() {
    assert_eq!(trim_matches("||a|b||", &['|']), "a|b");
    assert_eq!(trim_matches("  x y \n", &[' ', '\n']), "x y");
    assert_eq!(trim_matches("abc", &['|']), "abc");
}

#[test]
fn trim_of_nothing_but_listed_characters_is_empty() {
    assert_eq!(trim_matches("||||", &['|']), "");
    assert_eq!(trim_matches("", &['|']), "");
    assert_eq!(trim_matches(" \n \n", &[' ', '\n']), "");
}

#[test]
fn trim_with_an_empty_list_changes_nothing() {
    assert_eq!(trim_matches(" a ", &[]), " a ");
}

#[test]
fn trim_agrees_with_the_standard_library() {
    let samples = ["", "|", "a", "|a", "a|", "||a||b||", "\u{feff}|x|\u{feff}", "| |"];
    for sample in samples {
        let expected = sample.trim_matches(|c| ['\u{feff}', '|'].contains(&c));
        assert_eq!(trim_matches(sample, &['\u{feff}', '|']), expected);
    }
}

#[test]
fn split_keeps_every_piece_in_order() {
    assert_eq!(split_on("a|b|c", '|'), vec!["a", "b", "c"]);
    assert_eq!(split_on("abc", '|'), vec!["abc"]);
}

#[test]
fn split_keeps_empty_pieces() {
    assert_eq!(split_on("", '|'), vec![""]);
    assert_eq!(split_on("|", '|'), vec!["", ""]);
    assert_eq!(split_on("a||b|", '|'), vec!["a", "", "b", ""]);
    assert_eq!(split_on("|a", '|'), vec!["", "a"]);
}

#[test]
fn split_agrees_with_the_standard_library() {
    let samples = ["", "|", "a", "a|b", "||", "x|y||z|", "ก|ข|ค", "line one\nline two\n"];
    for sample in samples {
        let expected: Vec<&str> = sample.split('|').collect();
        assert_eq!(split_on(sample, '|'), expected);
        let lines: Vec<&str> = sample.split('\n').collect();
        assert_eq!(split_on(sample, '\n'), lines);
    }
}

#[test]
fn pieces_joined_with_the_separator_give_the_text_back() {
    let samples = ["", "|", "a|b", "x|y||z|"];
    for sample in samples {
        assert_eq!(split_on(sample, '|').join("|"), sample);
    }
}

#[test]
fn remove_char_takes_every_occurrence_out() {
    assert_eq!(remove_char("12,345,678", ','), "12345678");
    assert_eq!(remove_char(",,,", ','), "");
    assert_eq!(remove_char("", ','), "");
    assert_eq!(remove_char("123", ','), "123");
}

#[test]
fn chars_go_to_a_string_and_back() {
    let chars = to_chars("a|ข|c");
    assert_eq!(chars, vec!['a', '|', 'ข', '|', 'c']);
    assert_eq!(from_chars(&chars, 0, chars.len()), "a|ข|c");
    assert_eq!(from_chars(&chars, 2, 3), "ข");
    assert_eq!(from_chars(&chars, 4, 4), "");
}

#[test]
fn contains_char_looks_through_the_whole_list() {
    assert!(contains_char(&['a', 'b', 'c'], 'c'));
    assert!(!contains_char(&['a', 'b', 'c'], 'd'));
    assert!(!contains_char(&[], 'a'));
}
