use futex_locks::separator::{is_sep, is_sep_byte};

#[test]
fn slash_is_the_separator() {
    assert!(is_sep('/'));
    assert!(!is_sep('\\'));
    assert!(is_sep_byte(&b'/'));
    assert!(!is_sep_byte(&b'.'));
}
