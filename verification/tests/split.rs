use futex_locks::split::{join, split};

#[test]
fn split_gives_one_more_part_than_separators() {
    assert_eq!(split(b"a/b/c", b'/'), vec![b"a".to_vec(), b"b".to_vec(), b"c".to_vec()]);
    assert_eq!(split(b"", b'/'), vec![Vec::<u8>::new()]);
    assert_eq!(split(b"/", b'/'), vec![Vec::<u8>::new(), Vec::<u8>::new()]);
    assert_eq!(split(b"a//", b'/'), vec![b"a".to_vec(), vec![], vec![]]);
    assert_eq!(split(b"abc", b'/'), vec![b"abc".to_vec()]);
}

#[test]
fn join_puts_the_separator_between_parts() {
    assert_eq!(join(&vec![b"a".to_vec(), b"b".to_vec()], b'/'), b"a/b".to_vec());
    assert_eq!(join(&vec![], b'/'), Vec::<u8>::new());
    assert_eq!(join(&vec![vec![], vec![]], b'/'), b"/".to_vec());
    assert_eq!(join(&vec![b"solo".to_vec()], b'/'), b"solo".to_vec());
}

#[test]
fn join_undoes_split() {
    for text in [&b"a/b//c/"[..], b"", b"/", b"no separator"] {
        assert_eq!(join(&split(text, b'/'), b'/'), text.to_vec());
    }
}
