use std::path::{Path, PathBuf};
use subdo::path::EntryPath;

const SPELLINGS: [&str; 24] = [
    "", "/", "//", ".", "./", "..", "a", "a/", "a//", "./a", "a/.", "a/./b", "a/b", "a//b", "/a",
    "/a/", "//a", "/./a", "/.", "/..", "a/..", "../a", "a/...", ".a/..b",
];

fn entry(text: &str) -> EntryPath {
    EntryPath::new(text.as_bytes().to_vec())
}

#[test]
fn same_paths_are_those_of_std() {
    for left in SPELLINGS {
        for right in SPELLINGS {
            let expected: bool = Path::new(left) == Path::new(right);
            assert_eq!(entry(left).is_same(&entry(right)), expected, "{left:?} {right:?}");
        }
    }
}

#[test]
fn file_names_are_those_of_std() {
    for text in SPELLINGS {
        let expected: Option<Vec<u8>> =
            Path::new(text).file_name().map(|name| name.as_encoded_bytes().to_vec());
        assert_eq!(entry(text).file_name(), expected, "{text:?}");
    }
}

#[test]
fn relative_paths_are_those_of_std() {
    for text in SPELLINGS {
        assert_eq!(entry(text).is_relative(), Path::new(text).is_relative(), "{text:?}");
    }
}

#[test]
fn pushed_paths_are_those_of_std() {
    for base in SPELLINGS {
        for text in SPELLINGS {
            let mut expected: PathBuf = PathBuf::from(base);
            expected.push(text);
            let mut path: EntryPath = entry(base);
            path.push(entry(text));
            let bytes: Vec<u8> = expected.to_str().unwrap().as_bytes().to_vec();
            assert_eq!(path.bytes, bytes, "{base:?} {text:?}");
        }
    }
}

#[test]
fn trailing_separator_names_nothing() {
    assert!(entry("/srv/data/").is_same(&entry("/srv/data")));
    assert_eq!(entry("/srv/data/").file_name(), Some(b"data".to_vec()));
}

#[test]
fn paths_that_are_no_text_keep_their_bytes() {
    let path: EntryPath = EntryPath::new(vec![b'/', 0xff, b'/', b'x']);
    assert_eq!(path.file_name(), Some(vec![b'x']));
    assert!(!path.is_same(&EntryPath::new(vec![b'/', 0xfe, b'/', b'x'])));
    assert_eq!(path.display(), "/\u{fffd}/x");
    assert!(path.clone().is_same(&path));
}

#[test]
fn display_decodes_text() {
    assert_eq!(entry("/caf\u{e9}").display(), "/caf\u{e9}");
}
