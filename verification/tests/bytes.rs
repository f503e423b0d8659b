use futex_locks::cstr::{contains_nul, strlen};
use futex_locks::os::parse_env_entry;
use futex_locks::signal::{sigaction_status, sigaddset};

#[test]
fn nul_is_found_wherever_it_is() {
    assert!(!contains_nul(b""));
    assert!(!contains_nul(b"foo/bar"));
    assert!(contains_nul(b"foo/bar\0"));
    assert!(contains_nul(b"\0"));
    assert!(contains_nul(b"foo\0bar"));
}

#[test]
fn strlen_stops_at_the_first_nul() {
    assert_eq!(strlen(b"hello\0world\0"), 5);
    assert_eq!(strlen(b"\0"), 0);
    assert_eq!(strlen(b""), 0);
    assert_eq!(strlen(b"abc"), 3);
}

#[test]
fn sigaddset_sets_the_bit_of_the_signal() {
    let mut set = vec![0u8; 8];
    assert_eq!(sigaddset(&mut set, 1), 0);
    assert_eq!(set, vec![1, 0, 0, 0, 0, 0, 0, 0]);
    assert_eq!(sigaddset(&mut set, 8), 0);
    assert_eq!(set, vec![0x81, 0, 0, 0, 0, 0, 0, 0]);
    assert_eq!(sigaddset(&mut set, 9), 0);
    assert_eq!(sigaddset(&mut set, 15), 0);
    assert_eq!(set, vec![0x81, 0x41, 0, 0, 0, 0, 0, 0]);
    assert_eq!(sigaddset(&mut set, 64), 0);
    assert_eq!(set, vec![0x81, 0x41, 0, 0, 0, 0, 0, 0x80]);
    assert_eq!(sigaddset(&mut set, 64), 0);
    assert_eq!(set[7], 0x80);
}

#[test]
fn sigaction_reports_minus_one_for_an_error() {
    assert_eq!(sigaction_status(0), 0);
    assert_eq!(sigaction_status(7), 0);
    assert_eq!(sigaction_status(-1), -1);
    assert_eq!(sigaction_status(-22), -1);
    assert_eq!(sigaction_status(i32::MIN), -1);
}

#[test]
fn environment_entry_divides_at_the_first_equals_sign() {
    assert_eq!(parse_env_entry(b"HOME=/root"), Some((b"HOME".to_vec(), b"/root".to_vec())));
    assert_eq!(parse_env_entry(b"A=b=c"), Some((b"A".to_vec(), b"b=c".to_vec())));
    assert_eq!(parse_env_entry(b"EMPTY="), Some((b"EMPTY".to_vec(), b"".to_vec())));
    assert_eq!(parse_env_entry(b"=x=y"), Some((b"=x".to_vec(), b"y".to_vec())));
}

#[test]
fn malformed_environment_entry_gives_nothing() {
    assert_eq!(parse_env_entry(b""), None);
    assert_eq!(parse_env_entry(b"NOVALUE"), None);
    assert_eq!(parse_env_entry(b"="), None);
    assert_eq!(parse_env_entry(b"=a"), None);
}
