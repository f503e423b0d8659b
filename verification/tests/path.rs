use futex_locks::cstr::contains_nul;
use futex_locks::path::{normalize, rposition, Path};

fn s(path: &str) -> Path {
    Path::new(path.as_bytes())
}

fn v(path: &[u8]) -> Path {
    Path::new(path)
}

fn strs(parts: &[&str]) -> Vec<Vec<u8>> {
    parts.iter().map(|p| p.as_bytes().to_vec()).collect()
}

fn vecs(parts: &[&[u8]]) -> Vec<Vec<u8>> {
    parts.iter().map(|p| p.to_vec()).collect()
}

#[test]
fn test_paths() {
    let empty: &[u8] = &[];
    assert_eq!(Path::new(empty).as_vec(), b".");
    assert_eq!(Path::new(b"/").as_vec(), b"/");
    assert_eq!(Path::new(b"a/b/c").as_vec(), b"a/b/c");
    assert_eq!(Path::new(b"a/b/c\xff").as_vec(), b"a/b/c\xff");
    assert_eq!(Path::new(b"\xff/../foo\x80").as_vec(), b"foo\x80");
    let p = Path::new(b"a/b/c\xff");
    assert_eq!(p.as_str(), None);

    assert_eq!(s("").as_str(), Some("."));
    assert_eq!(s("/").as_str(), Some("/"));
    assert_eq!(s("hi").as_str(), Some("hi"));
    assert_eq!(s("hi/").as_str(), Some("hi"));
    assert_eq!(s("/lib").as_str(), Some("/lib"));
    assert_eq!(s("/lib/").as_str(), Some("/lib"));
    assert_eq!(s("hi/there").as_str(), Some("hi/there"));
    assert_eq!(s("hi/there.txt").as_str(), Some("hi/there.txt"));

    assert_eq!(s("hi/there/").as_str(), Some("hi/there"));
    assert_eq!(s("hi/../there").as_str(), Some("there"));
    assert_eq!(s("../hi/there").as_str(), Some("../hi/there"));
    assert_eq!(s("/../hi/there").as_str(), Some("/hi/there"));
    assert_eq!(s("foo/..").as_str(), Some("."));
    assert_eq!(s("/foo/..").as_str(), Some("/"));
    assert_eq!(s("/foo/../..").as_str(), Some("/"));
    assert_eq!(s("/foo/../../bar").as_str(), Some("/bar"));
    assert_eq!(s("/./hi/./there/.").as_str(), Some("/hi/there"));
    assert_eq!(s("/./hi/./there/./..").as_str(), Some("/hi"));
    assert_eq!(s("foo/../..").as_str(), Some(".."));
    assert_eq!(s("foo/../../..").as_str(), Some("../.."));
    assert_eq!(s("foo/../../bar").as_str(), Some("../bar"));

    assert_eq!(Path::new(b"foo/bar").into_vec(), b"foo/bar".to_vec());
    assert_eq!(Path::new(b"/foo/../../bar").into_vec(), b"/bar".to_vec());
    assert_eq!(s("foo/bar").into_str(), Some("foo/bar".to_string()));
    assert_eq!(s("/foo/../../bar").into_str(), Some("/bar".to_string()));

    let p = Path::new(b"foo/bar\x80");
    assert_eq!(p.as_str(), None);
    assert_eq!(Path::new(b"foo\xff/bar").into_str(), None);
}

#[test]
fn test_opt_paths() {
    assert_eq!(Path::new_opt(b"foo/bar\0"), None);
    assert_eq!(Path::new_opt(b"foo/bar").unwrap().as_vec(), b"foo/bar");
    assert_eq!(Path::new_opt("foo/bar\0".as_bytes()), None);
    assert_eq!(Path::new_opt("foo/bar".as_bytes()).unwrap().as_str(), Some("foo/bar"));
}

#[test]
fn test_null_byte() {
    let mut handled = false;
    let input: &[u8] = b"foo/bar\0";
    let mut p = match Path::new_opt(input) {
        Some(p) => p,
        None => {
            handled = true;
            assert_eq!(input, b"foo/bar\0");
            Path::new(b"/bar")
        }
    };
    assert!(handled);
    assert_eq!(p.as_vec(), b"/bar");

    handled = false;
    let input: &[u8] = b"f\0o";
    if contains_nul(input) {
        handled = true;
        assert_eq!(input, b"f\0o");
        p.set_filename(b"foo");
    } else {
        p.set_filename(input);
    }
    assert!(handled);
    assert_eq!(p.as_vec(), b"/foo");

    handled = false;
    if contains_nul(input) {
        handled = true;
        assert_eq!(input, b"f\0o");
        p.push(b"foo");
    } else {
        p.push(input);
    }
    assert!(handled);
    assert_eq!(p.as_vec(), b"/foo/foo");
}

#[test]
fn test_null_byte_fail() {
    assert!(Path::new_opt(b"foo/bar\0").is_none());
    assert!(Path::new_opt(b"null\0").is_none());
    assert!(contains_nul(b"foo\0"));
    assert!(contains_nul(b"null\0"));
}

#[test]
fn test_components() {
    assert_eq!(v(b"a/b/c").filename(), Some(&b"c"[..]));
    assert_eq!(v(b"a/b/c\xff").filename(), Some(&b"c\xff"[..]));
    assert_eq!(v(b"a/b\xff/c").filename(), Some(&b"c"[..]));
    assert_eq!(s("a/b/c").filename_str(), Some("c"));
    assert_eq!(s("/a/b/c").filename_str(), Some("c"));
    assert_eq!(s("a").filename_str(), Some("a"));
    assert_eq!(s("/a").filename_str(), Some("a"));
    assert_eq!(s(".").filename_str(), None);
    assert_eq!(s("/").filename_str(), None);
    assert_eq!(s("..").filename_str(), None);
    assert_eq!(s("../..").filename_str(), None);
    assert_eq!(s("a/b/c").filename(), Some("c".as_bytes()));
    assert_eq!(s(".").filename(), None);
    assert_eq!(s("/").filename(), None);
    assert_eq!(s("..").filename(), None);
    assert_eq!(s("../..").filename(), None);

    assert_eq!(v(b"a/b/c").dirname(), b"a/b");
    assert_eq!(v(b"a/b/c\xff").dirname(), b"a/b");
    assert_eq!(v(b"a/b\xff/c").dirname(), b"a/b\xff");
    assert_eq!(s("a/b/c").dirname(), "a/b".as_bytes());
    assert_eq!(s("/a/b/c").dirname(), "/a/b".as_bytes());
    assert_eq!(s("a").dirname(), ".".as_bytes());
    assert_eq!(s("/a").dirname(), "/".as_bytes());
    assert_eq!(s(".").dirname(), ".".as_bytes());
    assert_eq!(s("/").dirname(), "/".as_bytes());
    assert_eq!(s("..").dirname(), "..".as_bytes());
    assert_eq!(s("../..").dirname(), "../..".as_bytes());

    assert_eq!(v(b"hi/there.txt").filestem(), Some(&b"there"[..]));
    assert_eq!(v(b"hi/there\x80.txt").filestem(), Some(&b"there\x80"[..]));
    assert_eq!(v(b"hi/there.t\x80xt").filestem(), Some(&b"there"[..]));
    assert_eq!(s("hi/there.txt").filestem_str(), Some("there"));
    assert_eq!(s("hi/there").filestem_str(), Some("there"));
    assert_eq!(s("there.txt").filestem_str(), Some("there"));
    assert_eq!(s("there").filestem_str(), Some("there"));
    assert_eq!(s(".").filestem_str(), None);
    assert_eq!(s("/").filestem_str(), None);
    assert_eq!(s("foo/.bar").filestem_str(), Some(".bar"));
    assert_eq!(s(".bar").filestem_str(), Some(".bar"));
    assert_eq!(s("..bar").filestem_str(), Some("."));
    assert_eq!(s("hi/there..txt").filestem_str(), Some("there."));
    assert_eq!(s("..").filestem_str(), None);
    assert_eq!(s("../..").filestem_str(), None);

    assert_eq!(v(b"hi/there.txt").extension(), Some(&b"txt"[..]));
    assert_eq!(v(b"hi/there\x80.txt").extension(), Some(&b"txt"[..]));
    assert_eq!(v(b"hi/there.t\x80xt").extension(), Some(&b"t\x80xt"[..]));
    assert_eq!(v(b"hi/there").extension(), None);
    assert_eq!(v(b"hi/there\x80").extension(), None);
    assert_eq!(s("hi/there.txt").extension_str(), Some("txt"));
    assert_eq!(s("hi/there").extension_str(), None);
    assert_eq!(s("there.txt").extension_str(), Some("txt"));
    assert_eq!(s("there").extension_str(), None);
    assert_eq!(s(".").extension_str(), None);
    assert_eq!(s("/").extension_str(), None);
    assert_eq!(s("foo/.bar").extension_str(), None);
    assert_eq!(s(".bar").extension_str(), None);
    assert_eq!(s("..bar").extension_str(), Some("bar"));
    assert_eq!(s("hi/there..txt").extension_str(), Some("txt"));
    assert_eq!(s("..").extension_str(), None);
    assert_eq!(s("../..").extension_str(), None);
}

fn check_push(path: &str, join: &str) {
    let mut p1 = s(path);
    let p2 = p1.clone();
    p1.push(join.as_bytes());
    assert_eq!(p1, p2.join(join.as_bytes()));
}

#[test]
fn test_push() {
    check_push("a/b/c", "..");
    check_push("/a/b/c", "d");
    check_push("a/b", "c/d");
    check_push("a/b", "/c/d");
}

fn check_push_path(path: &str, push: &str, exp: &str) {
    let mut p = s(path);
    let push = s(push);
    p.push(push.as_vec());
    assert_eq!(p.as_str(), Some(exp));
}

#[test]
fn test_push_path() {
    check_push_path("a/b/c", "d", "a/b/c/d");
    check_push_path("/a/b/c", "d", "/a/b/c/d");
    check_push_path("a/b", "c/d", "a/b/c/d");
    check_push_path("a/b", "/c/d", "/c/d");
    check_push_path("a/b", ".", "a/b");
    check_push_path("a/b", "../c", "a/c");
}

fn check_push_many(path: &[u8], push: Vec<Vec<u8>>, exp: &[u8]) {
    let mut p = v(path);
    p.push_many(&push);
    assert_eq!(p.as_vec(), exp);
    if let Ok(text) = std::str::from_utf8(exp) {
        assert_eq!(p.as_str(), Some(text));
    }
}

#[test]
fn test_push_many() {
    check_push_many(b"a/b/c", strs(&["d", "e"]), b"a/b/c/d/e");
    check_push_many(b"a/b/c", strs(&["d", "/e"]), b"/e");
    check_push_many(b"a/b/c", strs(&["d", "/e", "f"]), b"/e/f");
    check_push_many(b"a/b/c", vec!["d".to_string().into_bytes(), "e".to_string().into_bytes()], b"a/b/c/d/e");
    check_push_many(b"a/b/c", vecs(&[b"d", b"e"]), b"a/b/c/d/e");
    check_push_many(b"a/b/c", vecs(&[b"d", b"/e", b"f"]), b"/e/f");
    check_push_many(b"a/b/c", vec![b"d".to_vec(), b"e".to_vec()], b"a/b/c/d/e");
}

fn check_pop(path: &[u8], left: &[u8], right: bool) {
    let mut p = v(path);
    let result = p.pop();
    assert_eq!(p.as_vec(), left);
    assert_eq!(result, right);
}

#[test]
fn test_pop() {
    check_pop(b"a/b/c", b"a/b", true);
    check_pop(b"a", b".", true);
    check_pop(b".", b".", false);
    check_pop(b"/a", b"/", true);
    check_pop(b"/", b"/", false);
    check_pop(b"a/b/c\x80", b"a/b", true);
    check_pop(b"a/b\x80/c", b"a/b\x80", true);
    check_pop(b"\xff", b".", true);
    check_pop(b"/\xff", b"/", true);
    for (path, left, right) in
        [("a/b/c", "a/b", true), ("a", ".", true), (".", ".", false), ("/a", "/", true), ("/", "/", false)]
    {
        let mut p = s(path);
        let result = p.pop();
        assert_eq!(p.as_str(), Some(left));
        assert_eq!(result, right);
    }
}

#[test]
fn test_root_path() {
    assert_eq!(Path::new(b"a/b/c").root_path(), None);
    assert_eq!(Path::new(b"/a/b/c").root_path(), Some(s("/")));
}

#[test]
fn test_join() {
    assert_eq!(Path::new(b"a/b/c").join(b"..").as_vec(), b"a/b");
    assert_eq!(Path::new(b"/a/b/c").join(b"d").as_vec(), b"/a/b/c/d");
    assert_eq!(Path::new(b"a/\x80/c").join(b"\xff").as_vec(), b"a/\x80/c/\xff");
    assert_eq!(s("a/b/c").join(b"..").as_str(), Some("a/b"));
    assert_eq!(s("/a/b/c").join(b"d").as_str(), Some("/a/b/c/d"));
    assert_eq!(s("a/b").join(b"c/d").as_str(), Some("a/b/c/d"));
    assert_eq!(s("a/b").join(b"/c/d").as_str(), Some("/c/d"));
    assert_eq!(s(".").join(b"a/b").as_str(), Some("a/b"));
    assert_eq!(s("/").join(b"a/b").as_str(), Some("/a/b"));
}

fn check_join_path(path: &str, join: &str, exp: &str) {
    let path = s(path);
    let join = s(join);
    let res = path.join(join.as_vec());
    assert_eq!(res.as_str(), Some(exp));
}

#[test]
fn test_join_path() {
    check_join_path("a/b/c", "..", "a/b");
    check_join_path("/a/b/c", "d", "/a/b/c/d");
    check_join_path("a/b", "c/d", "a/b/c/d");
    check_join_path("a/b", "/c/d", "/c/d");
    check_join_path(".", "a/b", "a/b");
    check_join_path("/", "a/b", "/a/b");
}

fn check_join_many(path: &[u8], join: Vec<Vec<u8>>, exp: &[u8]) {
    let path = v(path);
    let res = path.join_many(&join);
    assert_eq!(res.as_vec(), exp);
    if let Ok(text) = std::str::from_utf8(exp) {
        assert_eq!(res.as_str(), Some(text));
    }
}

#[test]
fn test_join_many() {
    check_join_many(b"a/b/c", strs(&["d", "e"]), b"a/b/c/d/e");
    check_join_many(b"a/b/c", strs(&["..", "d"]), b"a/b/d");
    check_join_many(b"a/b/c", strs(&["d", "/e", "f"]), b"/e/f");
    check_join_many(b"a/b/c", vec!["d".to_string().into_bytes(), "e".to_string().into_bytes()], b"a/b/c/d/e");
    check_join_many(b"a/b/c", vecs(&[b"d", b"e"]), b"a/b/c/d/e");
    check_join_many(b"a/b/c", vec![b"d".to_vec(), b"e".to_vec()], b"a/b/c/d/e");
}

#[test]
fn test_with_helpers() {
    let empty: &[u8] = &[];

    assert_eq!(Path::new(b"a/b/c").with_filename(b"d").as_vec(), b"a/b/d");
    assert_eq!(Path::new(b"a/b/c\xff").with_filename(b"\x80").as_vec(), b"a/b/\x80");
    assert_eq!(Path::new(b"/\xff/foo").with_filename(b"\xcd").as_vec(), b"/\xff/\xcd");
    assert_eq!(s("a/b/c").with_filename(b"d").as_str(), Some("a/b/d"));
    assert_eq!(s(".").with_filename(b"foo").as_str(), Some("foo"));
    assert_eq!(s("/a/b/c").with_filename(b"d").as_str(), Some("/a/b/d"));
    assert_eq!(s("/").with_filename(b"foo").as_str(), Some("/foo"));
    assert_eq!(s("/a").with_filename(b"foo").as_str(), Some("/foo"));
    assert_eq!(s("foo").with_filename(b"bar").as_str(), Some("bar"));
    assert_eq!(s("/").with_filename(b"foo/").as_str(), Some("/foo"));
    assert_eq!(s("/a").with_filename(b"foo/").as_str(), Some("/foo"));
    assert_eq!(s("a/b/c").with_filename(b"").as_str(), Some("a/b"));
    assert_eq!(s("a/b/c").with_filename(b".").as_str(), Some("a/b"));
    assert_eq!(s("a/b/c").with_filename(b"..").as_str(), Some("a"));
    assert_eq!(s("/a").with_filename(b"").as_str(), Some("/"));
    assert_eq!(s("foo").with_filename(b"").as_str(), Some("."));
    assert_eq!(s("a/b/c").with_filename(b"d/e").as_str(), Some("a/b/d/e"));
    assert_eq!(s("a/b/c").with_filename(b"/d").as_str(), Some("a/b/d"));
    assert_eq!(s("..").with_filename(b"foo").as_str(), Some("../foo"));
    assert_eq!(s("../..").with_filename(b"foo").as_str(), Some("../../foo"));
    assert_eq!(s("..").with_filename(b"").as_str(), Some(".."));
    assert_eq!(s("../..").with_filename(b"").as_str(), Some("../.."));

    assert_eq!(Path::new(b"hi/there\x80.txt").with_extension(b"exe").as_vec(), b"hi/there\x80.exe");
    assert_eq!(Path::new(b"hi/there.txt\x80").with_extension(b"\xff").as_vec(), b"hi/there.\xff");
    assert_eq!(Path::new(b"hi/there\x80").with_extension(b"\xff").as_vec(), b"hi/there\x80.\xff");
    assert_eq!(Path::new(b"hi/there.\xff").with_extension(empty).as_vec(), b"hi/there");
    assert_eq!(s("hi/there.txt").with_extension(b"exe").as_str(), Some("hi/there.exe"));
    assert_eq!(s("hi/there.txt").with_extension(b"").as_str(), Some("hi/there"));
    assert_eq!(s("hi/there.txt").with_extension(b".").as_str(), Some("hi/there.."));
    assert_eq!(s("hi/there.txt").with_extension(b"..").as_str(), Some("hi/there..."));
    assert_eq!(s("hi/there").with_extension(b"txt").as_str(), Some("hi/there.txt"));
    assert_eq!(s("hi/there").with_extension(b".").as_str(), Some("hi/there.."));
    assert_eq!(s("hi/there").with_extension(b"..").as_str(), Some("hi/there..."));
    assert_eq!(s("hi/there.").with_extension(b"txt").as_str(), Some("hi/there.txt"));
    assert_eq!(s("hi/.foo").with_extension(b"txt").as_str(), Some("hi/.foo.txt"));
    assert_eq!(s("hi/there.txt").with_extension(b".foo").as_str(), Some("hi/there..foo"));
    assert_eq!(s("/").with_extension(b"txt").as_str(), Some("/"));
    assert_eq!(s("/").with_extension(b".").as_str(), Some("/"));
    assert_eq!(s("/").with_extension(b"..").as_str(), Some("/"));
    assert_eq!(s(".").with_extension(b"txt").as_str(), Some("."));
}

fn check_set_filename(path: &[u8], arg: &[u8]) {
    let mut p1 = v(path);
    p1.set_filename(arg);
    let p2 = v(path);
    assert_eq!(p1, p2.with_filename(arg));
}

fn check_set_extension(path: &[u8], arg: &[u8]) {
    let mut p1 = v(path);
    p1.set_extension(arg);
    let p2 = v(path);
    assert_eq!(p1, p2.with_extension(arg));
}

#[test]
fn test_setters() {
    check_set_filename(b"a/b/c", b"d");
    check_set_filename(b"/", b"foo");
    check_set_filename(b"\x80", b"\xff");
    check_set_filename("a/b/c".as_bytes(), "d".as_bytes());
    check_set_filename("/".as_bytes(), "foo".as_bytes());
    check_set_filename(".".as_bytes(), "foo".as_bytes());
    check_set_filename("a/b".as_bytes(), "".as_bytes());
    check_set_filename("a".as_bytes(), "".as_bytes());

    check_set_extension(b"hi/there.txt", b"exe");
    check_set_extension(b"hi/there.t\x80xt", b"exe\xff");
    check_set_extension("hi/there.txt".as_bytes(), "exe".as_bytes());
    check_set_extension("hi/there.".as_bytes(), "txt".as_bytes());
    check_set_extension("hi/there".as_bytes(), "txt".as_bytes());
    check_set_extension("hi/there.txt".as_bytes(), "".as_bytes());
    check_set_extension("hi/there".as_bytes(), "".as_bytes());
    check_set_extension(".".as_bytes(), "txt".as_bytes());
}

fn check_getters_str(
    path: Path,
    filename: Option<&str>,
    dirname: Option<&str>,
    filestem: Option<&str>,
    ext: Option<&str>,
) {
    assert!(path.filename_str() == filename);
    assert!(path.dirname_str() == dirname);
    assert!(path.filestem_str() == filestem);
    assert!(path.extension_str() == ext);
}

fn check_getters(
    path: Path,
    filename: Option<&[u8]>,
    dirname: &[u8],
    filestem: Option<&[u8]>,
    ext: Option<&[u8]>,
) {
    assert_eq!(path.filename(), filename);
    assert_eq!(path.dirname(), dirname);
    assert_eq!(path.filestem(), filestem);
    assert_eq!(path.extension(), ext);
}

#[test]
fn test_getters() {
    check_getters(Path::new(b"a/b/c"), Some(b"c"), b"a/b", Some(b"c"), None);
    check_getters(Path::new(b"a/b/\xff"), Some(b"\xff"), b"a/b", Some(b"\xff"), None);
    check_getters(
        Path::new(b"hi/there.\xff"),
        Some(b"there.\xff"),
        b"hi",
        Some(b"there"),
        Some(b"\xff"),
    );
    check_getters_str(s("a/b/c"), Some("c"), Some("a/b"), Some("c"), None);
    check_getters_str(s("."), None, Some("."), None, None);
    check_getters_str(s("/"), None, Some("/"), None, None);
    check_getters_str(s(".."), None, Some(".."), None, None);
    check_getters_str(s("../.."), None, Some("../.."), None, None);
    check_getters_str(s("hi/there.txt"), Some("there.txt"), Some("hi"), Some("there"), Some("txt"));
    check_getters_str(s("hi/there"), Some("there"), Some("hi"), Some("there"), None);
    check_getters_str(s("hi/there."), Some("there."), Some("hi"), Some("there"), Some(""));
    check_getters_str(s("hi/.there"), Some(".there"), Some("hi"), Some(".there"), None);
    check_getters_str(s("hi/..there"), Some("..there"), Some("hi"), Some("."), Some("there"));
    check_getters_str(Path::new(b"a/b/\xff"), None, Some("a/b"), None, None);
    check_getters_str(Path::new(b"a/b/\xff.txt"), None, Some("a/b"), None, Some("txt"));
    check_getters_str(Path::new(b"a/b/c.\x80"), None, Some("a/b"), Some("c"), None);
    check_getters_str(Path::new(b"\xff/b"), Some("b"), None, Some("b"), None);
}

#[test]
fn test_dir_path() {
    assert_eq!(Path::new(b"hi/there\x80").dir_path().as_vec(), b"hi");
    assert_eq!(Path::new(b"hi\xff/there").dir_path().as_vec(), b"hi\xff");
    assert_eq!(s("hi/there").dir_path().as_str(), Some("hi"));
    assert_eq!(s("hi").dir_path().as_str(), Some("."));
    assert_eq!(s("/hi").dir_path().as_str(), Some("/"));
    assert_eq!(s("/").dir_path().as_str(), Some("/"));
    assert_eq!(s("..").dir_path().as_str(), Some(".."));
    assert_eq!(s("../..").dir_path().as_str(), Some("../.."));
}

#[test]
fn test_is_absolute() {
    for (path, abs, rel) in [
        ("a/b/c", false, true),
        ("/a/b/c", true, false),
        ("a", false, true),
        ("/a", true, false),
        (".", false, true),
        ("/", true, false),
        ("..", false, true),
        ("../..", false, true),
    ] {
        let path = s(path);
        assert_eq!(path.is_absolute(), abs);
        assert_eq!(path.is_relative(), rel);
    }
}

#[test]
fn test_is_ancestor_of() {
    for (path, dest, exp) in [
        ("a/b/c", "a/b/c/d", true),
        ("a/b/c", "a/b/c", true),
        ("a/b/c", "a/b", false),
        ("/a/b/c", "/a/b/c", true),
        ("/a/b", "/a/b/c", true),
        ("/a/b/c/d", "/a/b/c", false),
        ("/a/b", "a/b/c", false),
        ("a/b", "/a/b/c", false),
        ("a/b/c", "a/b/d", false),
        ("../a/b/c", "a/b/c", false),
        ("a/b/c", "../a/b/c", false),
        ("a/b/c", "a/b/cd", false),
        ("a/b/cd", "a/b/c", false),
        ("../a/b", "../a/b/c", true),
        (".", "a/b", true),
        (".", ".", true),
        ("/", "/", true),
        ("/", "/a/b", true),
        ("..", "a/b", true),
        ("../..", "a/b", true),
    ] {
        let path = s(path);
        let dest = s(dest);
        assert_eq!(path.is_ancestor_of(&dest), exp);
    }
}

#[test]
fn test_ends_with_path() {
    for (path, child, exp) in [
        ("a/b/c", "c", true),
        ("a/b/c", "d", false),
        ("foo/bar/quux", "bar", false),
        ("foo/bar/quux", "barquux", false),
        ("a/b/c", "b/c", true),
        ("a/b/c", "a/b/c", true),
        ("a/b/c", "foo/a/b/c", false),
        ("/a/b/c", "a/b/c", true),
        ("/a/b/c", "/a/b/c", false),
        ("/a/b/c", "foo/a/b/c", false),
        ("a/b/c", "", false),
        ("", "", true),
        ("/a/b/c", "d/e/f", false),
        ("a/b/c", "a/b", false),
        ("a/b/c", "b", false),
    ] {
        let path = s(path);
        let child = s(child);
        assert_eq!(path.ends_with_path(&child), exp);
    }
    assert_eq!(v(b"a/b/c").ends_with_path(&v(b"b/c")), true);
    assert_eq!(v(b"a/b/\xff").ends_with_path(&v(b"\xff")), true);
    assert_eq!(v(b"a/b/\xff").ends_with_path(&v(b"b/\xff")), true);
}

#[test]
fn test_path_relative_from() {
    for (path, other, exp) in [
        ("a/b/c", "a/b", Some("c")),
        ("a/b/c", "a/b/d", Some("../c")),
        ("a/b/c", "a/b/c/d", Some("..")),
        ("a/b/c", "a/b/c", Some(".")),
        ("a/b/c", "a/b/c/d/e", Some("../..")),
        ("a/b/c", "a/d/e", Some("../../b/c")),
        ("a/b/c", "d/e/f", Some("../../../a/b/c")),
        ("a/b/c", "/a/b/c", None),
        ("/a/b/c", "a/b/c", Some("/a/b/c")),
        ("/a/b/c", "/a/b/c/d", Some("..")),
        ("/a/b/c", "/a/b", Some("c")),
        ("/a/b/c", "/a/b/c/d/e", Some("../..")),
        ("/a/b/c", "/a/d/e", Some("../../b/c")),
        ("/a/b/c", "/d/e/f", Some("../../../a/b/c")),
        ("hi/there.txt", "hi/there", Some("../there.txt")),
        (".", "a", Some("..")),
        (".", "a/b", Some("../..")),
        (".", ".", Some(".")),
        ("a", ".", Some("a")),
        ("a/b", ".", Some("a/b")),
        ("..", ".", Some("..")),
        ("a/b/c", "a/b/c", Some(".")),
        ("/a/b/c", "/a/b/c", Some(".")),
        ("/", "/", Some(".")),
        ("/", ".", Some("/")),
        ("../../a", "b", Some("../../../a")),
        ("a", "../../b", None),
        ("../../a", "../../b", Some("../a")),
        ("../../a", "../../a/b", Some("..")),
        ("../../a/b", "../../a", Some("b")),
    ] {
        let path = s(path);
        let other = s(other);
        let res = path.path_relative_from(&other);
        assert_eq!(res.as_ref().and_then(|x| x.as_str()), exp, "{:?} from {:?}", path, other);
    }
}

fn check_components(path: Path, exp: Vec<Vec<u8>>) {
    let comps = path.component_iter();
    assert!(comps == exp, "component_iter: Expected {:?}, found {:?}", comps, exp);
    let comps = path.rev_component_iter();
    let exp: Vec<Vec<u8>> = exp.into_iter().rev().collect();
    assert!(comps == exp, "rev_component_iter: Expected {:?}, found {:?}", comps, exp);
}

#[test]
fn test_component_iter() {
    check_components(v(b"a/b/c"), vecs(&[b"a", b"b", b"c"]));
    check_components(v(b"/\xff/a/\x80"), vecs(&[b"\xff", b"a", b"\x80"]));
    check_components(v(b"../../foo\xcdbar"), vecs(&[b"..", b"..", b"foo\xcdbar"]));
    check_components(s("a/b/c"), strs(&["a", "b", "c"]));
    check_components(s("a/b/d"), strs(&["a", "b", "d"]));
    check_components(s("a/b/cd"), strs(&["a", "b", "cd"]));
    check_components(s("/a/b/c"), strs(&["a", "b", "c"]));
    check_components(s("a"), strs(&["a"]));
    check_components(s("/a"), strs(&["a"]));
    check_components(s("/"), strs(&[]));
    check_components(s("."), strs(&["."]));
    check_components(s(".."), strs(&[".."]));
    check_components(s("../.."), strs(&["..", ".."]));
    check_components(s("../../foo"), strs(&["..", "..", "foo"]));
}

fn check_str_components(path: &[u8], exp: &[Option<&str>]) {
    let path = v(path);
    let exp: Vec<Option<String>> = exp.iter().map(|x| x.map(|t| t.to_string())).collect();
    let comps = path.str_component_iter();
    assert!(comps == exp, "str_component_iter: Expected {:?}, found {:?}", comps, exp);
    let comps = path.rev_str_component_iter();
    let exp: Vec<Option<String>> = exp.into_iter().rev().collect();
    assert!(comps == exp, "rev_str_component_iter: Expected {:?}, found {:?}", comps, exp);
}

#[test]
fn test_str_component_iter() {
    check_str_components(b"a/b/c", &[Some("a"), Some("b"), Some("c")]);
    check_str_components(b"/\xff/a/\x80", &[None, Some("a"), None]);
    check_str_components(b"../../foo\xcdbar", &[Some(".."), Some(".."), None]);
}

#[test]
fn path_from_text() {
    assert_eq!(Path::from_str("a//b/./c/"), Some(s("a/b/c")));
    assert_eq!(Path::from_str(""), Some(s(".")));
    assert_eq!(Path::from_str("a\0b"), None);
}

#[test]
fn normal_form_is_a_fixed_point() {
    for text in ["", "/", "a//b", "../x/..", "/../..", "a/./b/../../../c", "./.", "..", "/a/b/"] {
        let once = s(text);
        let twice = Path::new(once.as_vec());
        assert_eq!(once, twice);
        assert!(once.same(&twice));
        assert_eq!(once.copy(), once);
    }
    assert!(!s("a/b").same(&s("a/c")));
    assert!(!s("a/b").same(&s("a")));
}

#[test]
fn normalize_keeps_what_it_cannot_cancel() {
    assert_eq!(normalize(b"../../a/../.."), b"../../..".to_vec());
    assert_eq!(normalize(b"/a/b/../../../.."), b"/".to_vec());
    assert_eq!(normalize(b"///"), b"/".to_vec());
    assert_eq!(normalize(b"a/.../b"), b"a/.../b".to_vec());
    assert_eq!(rposition(b"a/b/c", b'/'), Some(3));
    assert_eq!(rposition(b"abc", b'/'), None);
    assert_eq!(rposition(b"", b'/'), None);
    assert_eq!(rposition(b"/", b'/'), Some(0));
}

fn check_display(path: &[u8], exp: &str) {
    let path = Path::new(path);
    assert_eq!(path.display().to_string(), exp.to_string());
    let mut called = false;
    let text = path.display();
    {
        assert_eq!(text.as_str(), exp);
        called = true;
    }
    assert!(called);
}

fn check_filename_display(path: &[u8], exp: &str) {
    let path = Path::new(path);
    assert_eq!(path.filename_display().to_string(), exp.to_string());
    let mut called = false;
    let text = path.filename_display();
    {
        assert_eq!(text.as_str(), exp);
        called = true;
    }
    assert!(called);
}

#[test]
fn test_display_str() {
    check_display("foo".as_bytes(), "foo");
    check_display(b"foo\x80", "foo\u{FFFD}");
    check_display(b"foo\xffbar", "foo\u{FFFD}bar");
    check_filename_display(b"foo\xff/bar", "bar");
    check_filename_display(b"foo/\xffbar", "\u{FFFD}bar");
    check_filename_display(b"/", "");
}

#[test]
fn test_display() {
    for (path, exp, expf) in [
        (&b"foo"[..], "foo", "foo"),
        (b"foo/bar", "foo/bar", "bar"),
        (b"/", "/", ""),
        (b"foo\xff", "foo\u{FFFD}", "foo\u{FFFD}"),
        (b"foo\xff/bar", "foo\u{FFFD}/bar", "bar"),
        (b"foo/\xffbar", "foo/\u{FFFD}bar", "\u{FFFD}bar"),
        (b"\xfffoo/bar\xff", "\u{FFFD}foo/bar\u{FFFD}", "bar\u{FFFD}"),
    ] {
        let path = Path::new(path);
        let f = format!("{}", path.display());
        assert_eq!(f.as_str(), exp);
        let f = format!("{}", path.filename_display());
        assert_eq!(f.as_str(), expf);
    }
}
