use budget_chat::text::{entered, is_valid_name, left, post, roster, trim, welcome};

#[test]
fn welcome_is_the_fixed_prompt() {
    assert_eq!(welcome(), "Welcome to budgetchat! What shall I call you?");
}

#[test]
fn entered_names_the_newcomer() {
    assert_eq!(entered("bob"), "* bob has entered the room");
}

#[test]
fn left_names_the_leaver() {
    assert_eq!(left("alice"), "* alice has left the room");
}

#[test]
fn post_puts_the_name_in_brackets() {
    assert_eq!(post("alice", "hello"), "[alice] hello");
    assert_eq!(post("alice", ""), "[alice] ");
}

#[test]
fn roster_of_nobody_ends_after_the_colon() {
    assert_eq!(roster(&vec![]), "* The room contains: ");
}

#[test]
fn roster_separates_names_with_comma_and_space() {
    assert_eq!(roster(&vec!["a".to_string()]), "* The room contains: a");
    assert_eq!(
        roster(&vec!["a".to_string(), "b".to_string(), "c".to_string()]),
        "* The room contains: a, b, c"
    );
}

#[test]
fn names_are_ascii_letters_and_digits() {
    assert!(is_valid_name("alice"));
    assert!(is_valid_name("Bob42"));
    assert!(is_valid_name("7"));
    assert!(is_valid_name("azAZ09"));
}

#[test]
fn empty_name_is_refused() {
    assert!(!is_valid_name(""));
}

#[test]
fn name_with_punctuation_is_refused() {
    assert!(!is_valid_name("bob!"));
    assert!(!is_valid_name("bob smith"));
    assert!(!is_valid_name("bob_smith"));
    assert!(!is_valid_name("`"));
    assert!(!is_valid_name("{"));
    assert!(!is_valid_name("@"));
    assert!(!is_valid_name("["));
    assert!(!is_valid_name("/"));
    assert!(!is_valid_name(":"));
}

#[test]
fn name_outside_ascii_is_refused() {
    assert!(!is_valid_name("zoë"));
    assert!(!is_valid_name("михаил"));
    assert!(!is_valid_name("٣"));
}

#[test]
fn trim_removes_only_line_terminators() {
    assert_eq!(trim("hello\r"), "hello");
    assert_eq!(trim("hello\r\n"), "hello");
    assert_eq!(trim("hello\n\r\r"), "hello");
    assert_eq!(trim("hello  "), "hello  ");
    assert_eq!(trim("\r\n"), "");
    assert_eq!(trim(""), "");
    assert_eq!(trim("a\rb"), "a\rb");
    assert_eq!(trim("\rhello"), "\rhello");
}

#[test]
fn trim_keeps_text_outside_ascii() {
    assert_eq!(trim("grüße\r"), "grüße");
    assert_eq!(trim("日本語"), "日本語");
}
