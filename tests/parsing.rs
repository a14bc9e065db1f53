use rust_practice::command::{parse_command, Command};
use rust_practice::text::{chars_less, chars_of, is_space, last_char_of_first_line, split_words};

#[test]
fn parses_the_documented_examples() {
    assert_eq!(
        parse_command("Add Sally to Engineering"),
        Command::Add("Sally".to_string(), "Engineering".to_string())
    );
    assert_eq!(
        parse_command("add Amir TO Sales"),
        Command::Add("Amir".to_string(), "Sales".to_string())
    );
    assert_eq!(parse_command("list all"), Command::ListAll);
    assert_eq!(
        parse_command("list Engineering"),
        Command::ListDepartment("Engineering".to_string())
    );
    assert_eq!(parse_command("banana"), Command::Invalid);
    assert_eq!(parse_command("exit"), Command::Exit);
}

#[test]
fn to_keyword_ignores_case() {
    assert_eq!(parse_command("add A To B"), Command::Add("A".to_string(), "B".to_string()));
    assert_eq!(parse_command("add A tO B"), Command::Add("A".to_string(), "B".to_string()));
    assert_eq!(parse_command("add A into B"), Command::Invalid);
}

#[test]
fn add_needs_exactly_four_words() {
    assert_eq!(parse_command("add Sally to"), Command::Invalid);
    assert_eq!(parse_command("add Sally to Big Team"), Command::Invalid);
    assert_eq!(parse_command("add"), Command::Invalid);
    assert_eq!(parse_command("ADD Sally to Sales"), Command::Invalid);
}

#[test]
fn list_forms() {
    assert_eq!(parse_command("List all"), Command::ListAll);
    assert_eq!(parse_command("list All"), Command::ListDepartment("All".to_string()));
    assert_eq!(parse_command("list"), Command::Invalid);
    assert_eq!(
        parse_command("list foo bar baz"),
        Command::ListDepartment("foo".to_string())
    );
}

#[test]
fn exit_forms() {
    assert_eq!(parse_command("quit"), Command::Exit);
    assert_eq!(parse_command("exit now"), Command::Exit);
    assert_eq!(parse_command("Exit"), Command::Invalid);
}

#[test]
fn empty_and_blank_lines_are_invalid() {
    assert_eq!(parse_command(""), Command::Invalid);
    assert_eq!(parse_command(" \t \n"), Command::Invalid);
}

#[test]
fn runs_of_white_space_separate_words() {
    assert_eq!(
        parse_command("  add\tSally \u{3000} to\u{a0}Sales\r\n"),
        Command::Add("Sally".to_string(), "Sales".to_string())
    );
    assert_eq!(split_words("  a  bc\u{2003}d "), vec!["a", "bc", "d"]);
    assert!(split_words("").is_empty());
    assert_eq!(split_words("one"), vec!["one"]);
}

#[test]
fn white_space_matches_std() {
    for code in 0u32..0x3100 {
        if let Some(c) = char::from_u32(code) {
            assert_eq!(is_space(c), c.is_whitespace(), "{code:x}");
        }
    }
}

#[test]
fn text_order_matches_string_order() {
    let samples = ["", "a", "ab", "b", "B", "Zoë", "Ängel", "É", "abc", "ab\u{10000}"];
    for a in samples {
        for b in samples {
            assert_eq!(chars_less(&chars_of(a), &chars_of(b)), a < b, "{a:?} {b:?}");
        }
    }
}

#[test]
fn last_char_of_first_line_cases() {
    assert_eq!(last_char_of_first_line("Hello, world\nHow are you"), Some('d'));
    assert_eq!(last_char_of_first_line("hi"), Some('i'));
    assert_eq!(last_char_of_first_line("ab\r\ncd"), Some('b'));
    assert_eq!(last_char_of_first_line(""), None);
    assert_eq!(last_char_of_first_line("\nabc"), None);
    assert_eq!(last_char_of_first_line("\r\nabc"), None);
}
