use bf_lib::brackets::check_bytes;
use bf_lib::{check_brackets, Error};

#[test]
fn balanced_program_is_accepted() {
    assert!(check_brackets("+[+]").is_ok());
}

#[test]
fn unclosed_outer_bracket_is_reported() {
    match check_brackets("[[]") {
        Err(Error::Syntax(p)) => assert_eq!(p, 0),
        _ => panic!("expected a syntax error"),
    }
}

#[test]
fn stray_close_is_reported_at_its_index() {
    match check_brackets("+]+[") {
        Err(Error::Syntax(p)) => assert_eq!(p, 1),
        _ => panic!("expected a syntax error"),
    }
}

#[test]
fn the_innermost_open_bracket_is_reported() {
    match check_brackets("[+[-[") {
        Err(Error::Syntax(p)) => assert_eq!(p, 4),
        _ => panic!("expected a syntax error"),
    }
    match check_brackets("[[][") {
        Err(Error::Syntax(p)) => assert_eq!(p, 3),
        _ => panic!("expected a syntax error"),
    }
}

#[test]
fn a_stray_close_wins_over_an_open_bracket_before_it() {
    // the `[` at 0 is closed at 1; the `]` at 2 closes nothing
    match check_brackets("[]][") {
        Err(Error::Syntax(p)) => assert_eq!(p, 2),
        _ => panic!("expected a syntax error"),
    }
}

#[test]
fn text_without_brackets_is_accepted() {
    assert!(check_brackets("").is_ok());
    assert!(check_brackets("hello, world.").is_ok());
}

#[test]
fn indices_count_bytes_not_characters() {
    // `é` takes two bytes
    match check_brackets("é]") {
        Err(Error::Syntax(p)) => assert_eq!(p, 2),
        _ => panic!("expected a syntax error"),
    }
}

#[test]
fn bytes_are_scanned_as_the_text_is() {
    assert_eq!(check_bytes(b"+[+]"), None);
    assert_eq!(check_bytes(b"[[]"), Some(0));
    assert_eq!(check_bytes(b"]"), Some(0));
}
