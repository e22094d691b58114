use lfs_path::{Path, PathBuf};

fn p(s: &str) -> Path<'_> {
    Path::from_str_with_nul(s)
}

fn assert_ancestor_parent(path: Path) {
    let mut ancestors = path.ancestors();
    if !path.as_str().is_empty() {
        assert_eq!(ancestors.next().unwrap().as_path(), path);
    }
    let mut buf = PathBuf::from_path(&path);
    loop {
        let parent = buf.as_path().parent();
        assert_eq!(parent, ancestors.next());
        match parent {
            Some(q) => buf = q,
            None => return,
        }
    }
}

#[test]
fn path_macro() {
    let empty = PathBuf::from_bytes(b"");
    let slash = PathBuf::from_bytes(b"/");
    assert_eq!(p("\0"), empty.as_path());
    assert_eq!(p("/\0"), slash.as_path());
}

#[test]
fn join() {
    let empty = Path::from_bytes_with_nul(b"\0").unwrap();
    let slash = Path::from_bytes_with_nul(b"/\0").unwrap();
    let a = Path::from_bytes_with_nul(b"a\0").unwrap();
    let b = Path::from_bytes_with_nul(b"b\0").unwrap();

    assert_eq!(empty.join(&empty).as_path().as_str(), "");
    assert_eq!(empty.join(&slash).as_path().as_str(), "/");
    assert_eq!(empty.join(&a).as_path().as_str(), "a");
    assert_eq!(empty.join(&b).as_path().as_str(), "b");

    assert_eq!(slash.join(&empty).as_path().as_str(), "/");
    assert_eq!(slash.join(&slash).as_path().as_str(), "/");
    assert_eq!(slash.join(&a).as_path().as_str(), "/a");
    assert_eq!(slash.join(&b).as_path().as_str(), "/b");

    assert_eq!(a.join(&empty).as_path().as_str(), "a");
    assert_eq!(a.join(&slash).as_path().as_str(), "/");
    assert_eq!(a.join(&a).as_path().as_str(), "a/a");
    assert_eq!(a.join(&b).as_path().as_str(), "a/b");

    assert_eq!(b.join(&empty).as_path().as_str(), "b");
    assert_eq!(b.join(&slash).as_path().as_str(), "/");
    assert_eq!(b.join(&a).as_path().as_str(), "b/a");
    assert_eq!(b.join(&b).as_path().as_str(), "b/b");
}

#[test]
fn nulls() {
    assert!(Path::from_bytes_with_nul(b"abc\0def").is_err());
}

#[test]
fn trailing_nuls() {
    assert_eq!(PathBuf::from_bytes(b"abc"), PathBuf::from_bytes(b"abc\0"));
}

#[test]
fn ancestors() {
    let path = p("/some/path/.././file.extension\0");
    assert_ancestor_parent(path);
    let mut ancestors = path.ancestors();
    assert_eq!(ancestors.next().unwrap().as_path(), p("/some/path/.././file.extension\0"));
    assert_eq!(ancestors.next().unwrap().as_path(), p("/some/path/../.\0"));
    assert_eq!(ancestors.next().unwrap().as_path(), p("/some/path/..\0"));
    assert_eq!(ancestors.next().unwrap().as_path(), p("/some/path\0"));
    assert_eq!(ancestors.next().unwrap().as_path(), p("/some\0"));
    assert_eq!(ancestors.next().unwrap().as_path(), p("/\0"));
    assert!(ancestors.next().is_none());

    let path = p("/some/path/.././file.extension/\0");
    assert_ancestor_parent(path);
    let mut ancestors = path.ancestors();
    assert_eq!(ancestors.next().unwrap().as_path(), p("/some/path/.././file.extension/\0"));
    assert_eq!(ancestors.next().unwrap().as_path(), p("/some/path/../.\0"));
    assert_eq!(ancestors.next().unwrap().as_path(), p("/some/path/..\0"));
    assert_eq!(ancestors.next().unwrap().as_path(), p("/some/path\0"));
    assert_eq!(ancestors.next().unwrap().as_path(), p("/some\0"));
    assert_eq!(ancestors.next().unwrap().as_path(), p("/\0"));
    assert!(ancestors.next().is_none());

    let path = p("some/path/.././file.extension\0");
    assert_ancestor_parent(path);
    let mut ancestors = path.ancestors();
    assert_eq!(ancestors.next().unwrap().as_path(), p("some/path/.././file.extension\0"));
    assert_eq!(ancestors.next().unwrap().as_path(), p("some/path/../.\0"));
    assert_eq!(ancestors.next().unwrap().as_path(), p("some/path/..\0"));
    assert_eq!(ancestors.next().unwrap().as_path(), p("some/path\0"));
    assert_eq!(ancestors.next().unwrap().as_path(), p("some\0"));
    assert!(ancestors.next().is_none());
}

#[test]
fn iter() {
    let path = p("/some/path/.././file.extension\0");
    let mut ancestors = path.iter();
    assert_eq!(ancestors.next().unwrap().as_path(), p("/\0"));
    assert_eq!(ancestors.next().unwrap().as_path(), p("some\0"));
    assert_eq!(ancestors.next().unwrap().as_path(), p("path\0"));
    assert_eq!(ancestors.next().unwrap().as_path(), p("..\0"));
    assert_eq!(ancestors.next().unwrap().as_path(), p(".\0"));
    assert_eq!(ancestors.next().unwrap().as_path(), p("file.extension\0"));
    assert!(ancestors.next().is_none());
    let path = p("some/path/.././file.extension/\0");
    let mut ancestors = path.iter();
    assert_eq!(ancestors.next().unwrap().as_path(), p("some\0"));
    assert_eq!(ancestors.next().unwrap().as_path(), p("path\0"));
    assert_eq!(ancestors.next().unwrap().as_path(), p("..\0"));
    assert_eq!(ancestors.next().unwrap().as_path(), p(".\0"));
    assert_eq!(ancestors.next().unwrap().as_path(), p("file.extension\0"));
    assert!(ancestors.next().is_none());
}

#[test]
fn file_name() {
    let path = p("/some/path/.././file.extension\0");
    assert_eq!(path.file_name(), Some(p("file.extension\0")));

    let path = p("/\0");
    assert_eq!(path.file_name(), None);

    let path = p("\0");
    assert_eq!(path.file_name(), None);

    let path = p("/some/path/.././file.extension/\0");
    assert_eq!(path.file_name(), None);
}
