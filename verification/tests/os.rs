use futex_locks::os::{errno, join_paths, split_paths, JoinPathsError};
use futex_locks::util::{
    default_sched_threads, limit_thread_creation_due_to_osx_and_valgrind, parse_threads,
};

#[test]
fn errno_is_zero() {
    assert_eq!(errno(), 0);
}

#[test]
fn join_puts_a_colon_between_entries() {
    let paths = vec![b"/bin".to_vec(), b"/usr/bin".to_vec(), b"".to_vec()];
    assert_eq!(join_paths(&paths).unwrap(), b"/bin:/usr/bin:".to_vec());
    assert_eq!(join_paths(&vec![b"/bin".to_vec()]).unwrap(), b"/bin".to_vec());
    assert_eq!(join_paths(&vec![]).unwrap(), Vec::<u8>::new());
}

#[test]
fn join_refuses_an_entry_with_a_colon() {
    let paths = vec![b"/bin".to_vec(), b"/usr:bin".to_vec()];
    let err: JoinPathsError = join_paths(&paths).unwrap_err();
    assert_eq!(err.message(), "path segment contains separator `:`");
    assert_eq!(err.description(), "failed to join paths");
}

#[test]
fn split_cuts_at_each_colon() {
    assert_eq!(split_paths(b"/bin:/usr/bin"), vec![b"/bin".to_vec(), b"/usr/bin".to_vec()]);
    assert_eq!(split_paths(b""), vec![Vec::<u8>::new()]);
    assert_eq!(split_paths(b":a::"), vec![b"".to_vec(), b"a".to_vec(), b"".to_vec(), b"".to_vec()]);
}

#[test]
fn split_then_join_gives_the_input_back() {
    let text = b"/a:/b/c::d";
    assert_eq!(join_paths(&split_paths(text)).unwrap(), text.to_vec());
}

#[test]
fn thread_creation_is_not_limited() {
    assert!(!limit_thread_creation_due_to_osx_and_valgrind());
}

#[test]
fn thread_count_is_read_as_decimal() {
    assert_eq!(parse_threads(b"0"), Some(0));
    assert_eq!(parse_threads(b"16"), Some(16));
    assert_eq!(parse_threads(b"007"), Some(7));
    assert_eq!(parse_threads(b""), None);
    assert_eq!(parse_threads(b"4x"), None);
    assert_eq!(parse_threads(b"-1"), None);
    assert_eq!(parse_threads(usize::MAX.to_string().as_bytes()), Some(usize::MAX));
    assert_eq!(parse_threads(b"99999999999999999999999999"), None);
    assert_eq!(parse_threads(b"18446744073709551616"), None);
}

#[test]
fn scheduler_threads_follow_the_request_or_the_processors() {
    assert_eq!(default_sched_threads(None, 8), Some(8));
    assert_eq!(default_sched_threads(Some(b"3"), 8), Some(3));
    assert_eq!(default_sched_threads(Some(b"many"), 8), None);
}
