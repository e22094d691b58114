use core::cmp::Ordering;

use lfs_path::consts::PATH_MAX;
use lfs_path::{Error, Path, PathBuf};

fn p(s: &str) -> Path<'_> {
    Path::from_str_with_nul(s)
}

#[test]
fn serialize_then_parse_gives_back_the_path() {
    for s in ["\0", "/\0", "a\0", "/some/path/file.ext\0", "dir/\0"] {
        let buf = PathBuf::from_path(&p(s));
        let bytes = buf.serialize_bytes();
        assert_eq!(bytes, &s.as_bytes()[..s.len() - 1]);
        let back = PathBuf::try_from_bytes(bytes).unwrap();
        assert_eq!(back, buf);
    }
}

#[test]
fn parse_rejects_bad_serialized_bytes() {
    let long = vec![b'a'; PATH_MAX + 1];
    assert_eq!(PathBuf::try_from_bytes(&long), Err(Error::TooLarge));
    let longest = vec![b'a'; PATH_MAX];
    assert_eq!(PathBuf::try_from_bytes(&longest).unwrap().as_path().as_bytes().len(), PATH_MAX);
    assert_eq!(PathBuf::try_from_bytes(b"a\0b"), Err(Error::NotCStr));
    assert_eq!(PathBuf::try_from_bytes(b"a\xffb"), Err(Error::NotAscii));
    assert_eq!(PathBuf::try_from_bytes(b"ab\0").unwrap().as_path().as_str(), "ab");
}

#[test]
fn string_order_examples() {
    assert_eq!(p("some_path_a\0").cmp_str(&p("some_path_b\0")), Ordering::Less);
    assert_eq!(p("some_path_b\0").cmp_str(&p("some_path_a\0")), Ordering::Greater);
    assert_eq!(p("some_path\0").cmp_str(&p("some_path_a\0")), Ordering::Less);
    assert_eq!(p("some_path\0").cmp_str(&p("some_path_b\0")), Ordering::Less);
    assert_eq!(p("some_path\0").cmp_str(&p("some_path\0")), Ordering::Equal);
    assert_eq!(p("\0").cmp_str(&p("a\0")), Ordering::Less);
}

#[test]
fn filesystem_order_examples() {
    assert_eq!(p("some_path_a\0").cmp_lfs(&p("some_path_b\0")), Ordering::Less);
    assert_eq!(p("some_path_b\0").cmp_lfs(&p("some_path_a\0")), Ordering::Greater);
    assert_eq!(p("some_path\0").cmp_lfs(&p("some_path_a\0")), Ordering::Greater);
    assert_eq!(p("some_path\0").cmp_lfs(&p("some_path_b\0")), Ordering::Greater);
    assert_eq!(p("some_path_a\0").cmp_lfs(&p("some_path\0")), Ordering::Less);
    assert_eq!(p("some_path_b\0").cmp_lfs(&p("some_path\0")), Ordering::Less);
    assert_eq!(p("some_path\0").cmp_lfs(&p("some_path\0")), Ordering::Equal);
    assert_eq!(p("\0").cmp_lfs(&p("a\0")), Ordering::Greater);
}

#[test]
fn orders_agree_without_prefix() {
    let pairs = [("abc\0", "abd\0"), ("b\0", "a/b\0"), ("x/y\0", "x/z/w\0")];
    for (a, b) in pairs {
        assert_eq!(p(a).cmp_str(&p(b)), p(a).cmp_lfs(&p(b)));
        assert_eq!(p(b).cmp_str(&p(a)), p(b).cmp_lfs(&p(a)));
    }
}

#[test]
fn ancestors_follow_parent() {
    let path = p("/a/b/c\0");
    let mut ancestors = path.ancestors();
    let mut prev = ancestors.next().unwrap();
    assert_eq!(prev.as_path(), path);
    while let Some(next) = ancestors.next() {
        assert_eq!(prev.as_path().parent(), Some(next));
        prev = next;
    }
    assert_eq!(prev.as_path().as_str(), "/");
    assert_eq!(prev.as_path().parent(), None);

    let path = p("a/b\0");
    let mut ancestors = path.ancestors();
    assert_eq!(ancestors.next().unwrap().as_path().as_str(), "a/b");
    assert_eq!(ancestors.next().unwrap().as_path().as_str(), "a");
    assert!(ancestors.next().is_none());
    assert!(ancestors.next().is_none());

    let mut ancestors = p("\0").ancestors();
    assert!(ancestors.next().is_none());
    let mut ancestors = p("/\0").ancestors();
    assert_eq!(ancestors.next().unwrap().as_path().as_str(), "/");
    assert!(ancestors.next().is_none());
}

fn rejoin(path: Path) -> String {
    let mut out = String::new();
    let mut parts = Vec::new();
    let mut it = path.iter();
    while let Some(c) = it.next() {
        parts.push(c.as_path().as_str().to_string());
    }
    for (i, c) in parts.iter().enumerate() {
        out.push_str(c);
        if c != "/" && i + 1 < parts.len() {
            out.push('/');
        }
    }
    out
}

#[test]
fn components_rejoin_to_the_path() {
    assert_eq!(rejoin(p("/a/b\0")), "/a/b");
    assert_eq!(rejoin(p("a/b/\0")), "a/b");
    assert_eq!(rejoin(p("a//b\0")), "a//b");
    assert_eq!(rejoin(p("a//\0")), "a//");
    assert_eq!(rejoin(p("//\0")), "//");
    assert_eq!(rejoin(p("\0")), "");
}

#[test]
fn join_twice_is_push_twice() {
    let (a, b, c) = (p("a\0"), p("b/\0"), p("c\0"));
    let joined = a.join(&b).as_path().join(&c);
    let mut pushed = PathBuf::from_path(&a);
    pushed.push(&b);
    pushed.push(&c);
    assert_eq!(joined, pushed);
    assert_eq!(joined.as_path().as_str(), "a/b/c");
    let other = a.join(&b.join(&c).as_path());
    assert_eq!(other.as_path().as_str(), "a/b/c");
}

#[test]
fn concrete_join_and_name_cases() {
    assert_eq!(p("\0").join(&p("\0")).as_path().as_str(), "");
    assert_eq!(p("/\0").join(&p("a\0")).as_path().as_str(), "/a");
    assert_eq!(p("a\0").join(&p("/\0")).as_path().as_str(), "/");
    assert_eq!(p("/some/path/file.ext\0").file_name(), Some(p("file.ext\0")));
    assert_eq!(p("/some/path/file.ext/\0").file_name(), None);
    assert_eq!(p("/\0").parent(), None);
    assert_eq!(p("/a\0").parent().unwrap().as_path().as_str(), "/");
}

#[test]
fn file_name_and_parent_edges() {
    assert_eq!(p("abc\0").file_name(), Some(p("abc\0")));
    assert_eq!(p("abc\0").parent(), None);
    assert_eq!(p("a/\0").parent(), None);
    assert_eq!(p("a/b//\0").parent().unwrap().as_path().as_str(), "a");
    assert_eq!(p("/a/\0").parent().unwrap().as_path().as_str(), "/");
    assert_eq!(p("a/b/c\0").parent().unwrap().as_path().as_str(), "a/b");
    assert!(p("\0").is_empty());
    assert!(!p("x\0").is_empty());
}

#[test]
fn validation_rejects_bad_bytes() {
    assert_eq!(Path::from_bytes_with_nul(b"abc\0def"), Err(Error::NotCStr));
    assert_eq!(Path::from_bytes_with_nul(b"abc\0def\0"), Err(Error::NotCStr));
    assert_eq!(Path::from_bytes_with_nul(b"abc"), Err(Error::NotCStr));
    assert_eq!(Path::from_bytes_with_nul(b""), Err(Error::NotCStr));
    assert_eq!(Path::from_bytes_with_nul(b"ab\xc3c\0"), Err(Error::NotAscii));
    let mut long = vec![b'a'; PATH_MAX + 1];
    long.push(0);
    assert_eq!(Path::from_bytes_with_nul(&long), Err(Error::TooLarge));
    let mut longest = vec![b'a'; PATH_MAX];
    longest.push(0);
    assert_eq!(Path::from_bytes_with_nul(&longest).unwrap().as_bytes().len(), PATH_MAX);
    assert_eq!(Path::from_bytes_with_nul(b"\0").unwrap().as_str(), "");
}

#[test]
fn buffer_basics() {
    let mut buf = PathBuf::new();
    assert_eq!(buf, PathBuf::default());
    assert!(buf.as_path().is_empty());
    buf.push(&p("dir\0"));
    buf.push(&p("file\0"));
    assert_eq!(buf.as_path().as_str(), "dir/file");
    assert_eq!(buf.as_path().as_str_ref_with_trailing_nul(), "dir/file\0");
    assert_eq!(buf.as_path().as_bytes_with_nul(), b"dir/file\0");
    buf.push(&p("/\0"));
    assert_eq!(buf.as_path().as_str(), "/");
    buf.push(&p("x\0"));
    assert_eq!(buf.as_path().as_str(), "/x");
    buf.clear();
    assert_eq!(buf, PathBuf::new());
    assert_ne!(PathBuf::from_bytes(b"a"), PathBuf::from_bytes(b"b"));
}

#[test]
fn push_fills_the_buffer_exactly() {
    let half = vec![b'a'; 127];
    let mut with_nul = half.clone();
    with_nul.push(0);
    let seg = Path::from_bytes_with_nul(&with_nul).unwrap();
    let mut buf = PathBuf::from_path(&seg);
    buf.push(&seg);
    assert_eq!(buf.as_path().as_bytes().len(), PATH_MAX);
}

#[test]
fn buffer_ends_at_first_zero() {
    let mut raw = [0u8; 256];
    raw[..5].copy_from_slice(b"a/bcd");
    raw[6] = b'x';
    let buf = PathBuf::from_buffer(raw);
    assert_eq!(buf.as_path().as_str(), "a/bcd");
    assert_eq!(buf, PathBuf::from_bytes(b"a/bcd"));
    let empty = PathBuf::from_buffer([0u8; 256]);
    assert!(empty.as_path().is_empty());
}
