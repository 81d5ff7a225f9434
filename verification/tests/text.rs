use frontend::common::join::Join;
use frontend::common::span::Span;
use frontend::common::text::{decimal, parse_u32_from, str_eq};

#[test]
fn decimal_writes_base_ten() {
    assert_eq!(decimal(0), "0");
    assert_eq!(decimal(7), "7");
    assert_eq!(decimal(10), "10");
    assert_eq!(decimal(8388607), "8388607");
    assert_eq!(decimal(usize::MAX), usize::MAX.to_string());
}

#[test]
fn concat_joins_two_texts() {
    assert_eq!(frontend::common::text::concat("ab", "cd"), "abcd");
    assert_eq!(frontend::common::text::concat("", ""), "");
}

#[test]
fn str_eq_compares_characters() {
    assert!(str_eq("void", "void"));
    assert!(!str_eq("void", "voids"));
    assert!(!str_eq("void", "voif"));
    assert!(str_eq("", ""));
    assert!(str_eq("héllo", "héllo"));
}

#[test]
fn parse_u32_from_reads_digits_after_an_index() {
    assert_eq!(parse_u32_from("i32", 1), Some(32));
    assert_eq!(parse_u32_from("4294967295", 0), Some(u32::MAX));
    assert_eq!(parse_u32_from("4294967296", 0), None);
    assert_eq!(parse_u32_from("+7", 0), Some(7));
    assert_eq!(parse_u32_from("007", 0), Some(7));
    assert_eq!(parse_u32_from("7 ", 0), None);
    assert_eq!(parse_u32_from("", 0), None);
    assert_eq!(parse_u32_from("+", 0), None);
    assert_eq!(parse_u32_from("1_0", 0), None);
    assert_eq!(parse_u32_from("abc", 3), None);
}

#[test]
fn join_comma_puts_commas_between_items() {
    let none: Vec<String> = vec![];
    let one = vec!["a".to_string()];
    let three = vec!["a".to_string(), "bc".to_string(), "".to_string()];
    assert_eq!(none.join_comma(), None);
    assert_eq!(one.join_comma(), Some("a".to_string()));
    assert_eq!(three.join_comma(), Some("a, bc, ".to_string()));
    assert_eq!(none.join_comma_or_empty(), "");
    assert_eq!(three.join_comma_or_empty(), "a, bc, ");
    assert_eq!(none.join_comma_wrapped("<", ">"), "");
    assert_eq!(one.join_comma_wrapped("<", ">"), "<a>");
    assert_eq!(three.join_comma_wrapped("(", ")"), "(a, bc, )");
}

#[test]
fn span_is_written_with_its_file() {
    assert_eq!(Span::new(3, 10, 24).to_string(), "file id 3 @ 10..24");
}
