use trustzone_m::text::{decimal, hexadecimal, join, string_literal};

#[test]
fn decimal_of_small_and_large_numbers() {
    assert_eq!(decimal(0), "0");
    assert_eq!(decimal(7), "7");
    assert_eq!(decimal(10), "10");
    assert_eq!(decimal(1985902208), "1985902208");
    assert_eq!(decimal(u32::MAX), "4294967295");
}

#[test]
fn hexadecimal_of_small_and_large_numbers() {
    assert_eq!(hexadecimal(0), "0");
    assert_eq!(hexadecimal(15), "f");
    assert_eq!(hexadecimal(16), "10");
    assert_eq!(hexadecimal(0xe9), "e9");
    assert_eq!(hexadecimal(u32::MAX), "ffffffff");
}

#[test]
fn string_literal_of_plain_text() {
    assert_eq!(string_literal(""), "\"\"");
    assert_eq!(string_literal("B.w double"), "\"B.w double\"");
    assert_eq!(
        string_literal("Could not find the veneer of secure 'double'"),
        "\"Could not find the veneer of secure 'double'\""
    );
}

#[test]
fn string_literal_escapes_quotes_and_backslashes() {
    assert_eq!(string_literal("a\"b"), "\"a\\\"b\"");
    assert_eq!(string_literal("a\\b"), "\"a\\\\b\"");
}

#[test]
fn string_literal_escapes_what_is_not_printable_ascii() {
    assert_eq!(string_literal("a\nb"), "\"a\\u{a}b\"");
    assert_eq!(string_literal("\u{e9}"), "\"\\u{e9}\"");
    assert_eq!(string_literal("\u{7f}"), "\"\\u{7f}\"");
    assert_eq!(string_literal("~ "), "\"~ \"");
}

#[test]
fn join_puts_the_separator_between_parts() {
    let none: Vec<String> = Vec::new();
    assert_eq!(join(&none, ", "), "");
    assert_eq!(join(&vec![String::from("a")], ", "), "a");
    assert_eq!(join(&vec![String::from("a"), String::from("b"), String::from("c")], ", "), "a, b, c");
    assert_eq!(join(&vec![String::from(""), String::from("")], "-"), "-");
}
