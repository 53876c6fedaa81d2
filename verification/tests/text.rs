use semcode::database::conditions::{write_any_of, write_any_of_pieces};
use semcode::database::edges::{quote, quote_list};
use semcode::lists::{cut, distinct_texts, pick};
use semcode::text::{
    contains_char, ends_with, escape, find_char, join, lines, number, parse_size, put_together,
    same_text, starts_with, strip_prefixes, text_of, to_chars, trim,
};

fn texts(list: &[&str]) -> Vec<String> {
    list.iter().map(|text| text.to_string()).collect()
}

#[test]
fn numbers_are_decimal() {
    assert_eq!(number(0), "0");
    assert_eq!(number(1090), "1090");
    assert_eq!(number(usize::MAX), usize::MAX.to_string());
}

#[test]
fn sizes_are_parsed_as_std_does() {
    for text in ["", "0", "007", "+5", "++5", "-1", "12a", " 1", "18446744073709551615",
        "18446744073709551616", "99999999999999999999999", "+"] {
        assert_eq!(parse_size(text), text.parse::<usize>().ok(), "{text}");
    }
}

#[test]
fn white_space_is_trimmed_as_std_does() {
    for text in ["", " ", "a", " a b \n", "\u{a0}x\u{2003}", "\t\u{85}y\u{3000}", "\u{200b}z"] {
        assert_eq!(trim(text), text.trim(), "{text:?}");
    }
}

#[test]
fn lines_are_those_of_std() {
    for text in ["", "\n", "a", "a\n", "a\nb", "a\r\nb\r\n", "\r", "a\rb\n", "\n\n", "a\r\n\r"] {
        let expected: Vec<&str> = text.lines().collect();
        assert_eq!(lines(text), texts(&expected), "{text:?}");
    }
}

#[test]
fn prefixes_and_suffixes_are_found() {
    assert!(starts_with("Content-Length: 5", "Content-Length: "));
    assert!(!starts_with("Content", "Content-Length: "));
    assert!(ends_with("a.hpp", ".hpp"));
    assert!(!ends_with("h", ".h"));
    assert_eq!(strip_prefixes("aaab", "a"), "b");
    assert_eq!(strip_prefixes("aaab", "aa"), "ab");
    assert_eq!(strip_prefixes("ab", ""), "ab");
    assert!(contains_char("a{b", '{'));
    assert!(!contains_char("ab", '{'));
    assert!(same_text("\u{e9}", "\u{e9}"));
    assert!(!same_text("e", "\u{e9}"));
}

#[test]
fn characters_are_taken_out() {
    let chars = to_chars("h\u{e9}llo");
    assert_eq!(chars.len(), 5);
    assert_eq!(text_of(&chars, 1, 3), "\u{e9}l");
    assert_eq!(find_char(&chars, 0, 'l'), 2);
    assert_eq!(find_char(&chars, 3, 'l'), 3);
    assert_eq!(find_char(&chars, 0, 'x'), 5);
}

#[test]
fn quotes_are_doubled() {
    assert_eq!(escape("it's"), "it''s");
    assert_eq!(escape("''"), "''''");
    assert_eq!(escape("plain"), "plain");
    assert_eq!(quote("it's"), "'it''s'");
    assert_eq!(quote_list(&texts(&["a", "b'"])), "'a', 'b'''");
}

#[test]
fn texts_are_joined() {
    assert_eq!(join(&texts(&["a", "b", "c"]), ", "), "a, b, c");
    assert_eq!(join(&Vec::new(), ", "), "");
    assert_eq!(put_together(&texts(&["a", "", "c"])), "ac");
}

#[test]
fn conditions_name_each_value() {
    assert_eq!(
        write_any_of("sha", &texts(&["a", "b'"]), true),
        "sha = 'a' OR sha = 'b'''"
    );
    assert_eq!(write_any_of("sha", &texts(&["b'"]), false), "sha = 'b''");
    assert_eq!(
        write_any_of_pieces("sha", texts(&["a", "b", "c"]), true, 2),
        texts(&["sha = 'a' OR sha = 'b'", "sha = 'c'"])
    );
}

#[test]
fn lists_are_cut_and_picked() {
    assert_eq!(cut(vec![1, 2, 3, 4, 5], 2), vec![vec![1, 2], vec![3, 4], vec![5]]);
    assert_eq!(cut(Vec::<u8>::new(), 2), Vec::<Vec<u8>>::new());
    assert_eq!(distinct_texts(&texts(&["b", "a", "b", "c", "a"])), texts(&["b", "a", "c"]));
    assert_eq!(pick(vec!["a", "b", "c"], &vec![2, 0]), vec!["c", "a"]);
}
