use subdo::ignore::{IgnoredEntries, Listing};
use subdo::path::EntryPath;
use subdo::pattern::{IgnoredEntry, Pattern};
use subdo::ProcessError;

fn path(text: &str) -> EntryPath {
    EntryPath::new(text.as_bytes().to_vec())
}

fn exact(text: &str) -> IgnoredEntry {
    IgnoredEntry::Exact(path(text))
}

fn pattern(text: &str) -> IgnoredEntry {
    IgnoredEntry::Pattern(Pattern::new(text).unwrap())
}

fn entries(all: Vec<IgnoredEntry>) -> IgnoredEntries {
    let mut ignored: IgnoredEntries = IgnoredEntries::default();
    ignored.extend(all);
    ignored.finish()
}

fn passes(ignored: &IgnoredEntries, text: &str) -> bool {
    match ignored.as_valid(Some(path(text))) {
        Ok(Some(kept)) => {
            assert_eq!(kept.bytes, text.as_bytes());
            true
        },
        Ok(None) => false,
        Err(_) => panic!("expected a verdict"),
    }
}

#[test]
fn nothing_is_ignored_at_first() {
    assert!(passes(&IgnoredEntries::default(), "/a"));
    assert!(passes(&entries(vec![]), "/a"));
}

#[test]
fn exact_paths_are_ignored() {
    let ignored: IgnoredEntries = entries(vec![exact("/srv/a"), exact("/srv/b/"), exact("/srv/a")]);
    assert!(!passes(&ignored, "/srv/a"));
    assert!(!passes(&ignored, "/srv/b"));
    assert!(passes(&ignored, "/srv/a/a"));
    assert!(passes(&ignored, "/srv"));
}

#[test]
fn patterns_look_at_the_name_alone() {
    let ignored: IgnoredEntries = entries(vec![pattern("^target$"), pattern("cache")]);
    assert!(!passes(&ignored, "/srv/target"));
    assert!(passes(&ignored, "/target/src"));
    assert!(!passes(&ignored, "/srv/.cache-2"));
}

#[test]
fn names_that_are_no_text_are_decoded_with_replacements() {
    let ignored: IgnoredEntries = entries(vec![pattern("^x\u{fffd}$")]);
    let name: EntryPath = EntryPath::new(vec![b'/', b'x', 0xff]);
    assert!(matches!(ignored.as_valid(Some(name)), Ok(None)));
}

#[test]
fn entry_order_makes_no_difference() {
    let one: IgnoredEntries = entries(vec![exact("/a"), pattern("b"), pattern("c")]);
    let other: IgnoredEntries = entries(vec![pattern("c"), exact("/a"), pattern("b"), pattern("c")]);
    for text in ["/a", "/b", "/c", "/d", "/a/d", "/x/bc"] {
        assert_eq!(passes(&one, text), passes(&other, text));
    }
}

#[test]
fn entry_without_a_path_was_modified() {
    assert!(matches!(entries(vec![]).as_valid(None), Err(ProcessError::ModifiedEntry)));
}

#[test]
fn path_without_a_name_is_judged_by_path_alone() {
    let ignored: IgnoredEntries = entries(vec![exact("/")]);
    assert!(ignored.can_judge(&Some(path("/"))));
    assert!(matches!(ignored.as_valid(Some(path("/"))), Ok(None)));
    assert!(!entries(vec![]).can_judge(&Some(path("/"))));
    assert!(entries(vec![]).can_judge(&Some(path("/a"))));
    assert!(entries(vec![]).can_judge(&None));
}

#[test]
fn entries_that_cannot_be_read_are_errors() {
    let ignored: IgnoredEntries = entries(vec![]);
    assert!(matches!(ignored.select(Listing::Unlisted), Some(Err(ProcessError::ModifiedEntry))));
    assert!(matches!(ignored.select(Listing::Unread), Some(Err(ProcessError::ModifiedEntry))));
    let lost = Listing::Listed { is_dir: true, canonical: None };
    assert!(matches!(ignored.select(lost), Some(Err(ProcessError::ModifiedEntry))));
}

#[test]
fn entries_that_are_no_directories_are_left_out() {
    let ignored: IgnoredEntries = entries(vec![]);
    assert!(ignored.select(Listing::Listed { is_dir: false, canonical: None }).is_none());
    let file = Listing::Listed { is_dir: false, canonical: Some(path("/a")) };
    assert!(ignored.select(file).is_none());
}

#[test]
fn directories_are_selected_unless_ignored() {
    let ignored: IgnoredEntries = entries(vec![exact("/a")]);
    let out = Listing::Listed { is_dir: true, canonical: Some(path("/a")) };
    assert!(ignored.select(out).is_none());
    match ignored.select(Listing::Listed { is_dir: true, canonical: Some(path("/b")) }) {
        Some(Ok(kept)) => assert_eq!(kept.bytes, b"/b"),
        _ => panic!("expected the directory"),
    }
}
