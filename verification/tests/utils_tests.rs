use db_helpers::utils::{non_empty_text, parse_empty_as_option};

#[test]
fn the_empty_text_is_no_value() {
    assert_eq!(parse_empty_as_option(""), None);
    assert_eq!(parse_empty_as_option(String::new()), None);
}

#[test]
fn any_other_text_is_a_value() {
    assert_eq!(parse_empty_as_option("abc"), Some("abc".to_string()));
    assert_eq!(parse_empty_as_option(" "), Some(" ".to_string()));
    assert_eq!(
        parse_empty_as_option("x".to_string()),
        Some("x".to_string())
    );
    assert_eq!(parse_empty_as_option('c'), Some("c".to_string()));
}

#[test]
fn non_empty_text_decides_on_the_length() {
    assert_eq!(non_empty_text(String::new()), None);
    assert_eq!(non_empty_text("0".to_string()), Some("0".to_string()));
}
