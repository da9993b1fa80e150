use subdo::json::{ProcessedEntries, ProcessedEntry, ProcessedError};
use subdo::path::EntryPath;
use subdo::process::{OsError, Output, Report};
use subdo::ProcessError;

fn path(text: &str) -> EntryPath {
    EntryPath::new(text.as_bytes().to_vec())
}

fn denied() -> OsError {
    OsError { code: Some(13), description: "denied".to_string() }
}

fn wrote(entry: &str, stdout: &[u8], stderr: &[u8]) -> Report {
    Ok((path(entry), Output { code: Some(0), stdout: stdout.to_vec(), stderr: stderr.to_vec() }))
}

fn record<'a>(records: &'a ProcessedEntries, entry: &str) -> Option<&'a ProcessedEntry> {
    records.processed().iter().find(|(key, _)| key.bytes == entry.as_bytes()).map(|(_, r)| r)
}

#[test]
fn record_starts_empty() {
    let records: ProcessedEntries = ProcessedEntries::default();
    assert_eq!(records.unknown(), 0);
    assert!(records.processed().is_empty());
}

#[test]
fn output_is_decoded_with_replacements() {
    let mut records: ProcessedEntries = ProcessedEntries::default();
    records.insert(wrote("/a", b"x\xffy", b"w\n"));
    match record(&records, "/a") {
        Some(ProcessedEntry::Success { stdout, stderr }) => {
            assert_eq!(stdout, "x\u{fffd}y");
            assert_eq!(stderr, "w\n");
        },
        _ => panic!("expected the output"),
    }
}

#[test]
fn changed_entries_are_counted() {
    let mut records: ProcessedEntries = ProcessedEntries::default();
    records.extend(vec![
        Err(ProcessError::ModifiedEntry),
        wrote("/a", b"", b""),
        Err(ProcessError::ModifiedEntry),
    ]);
    assert_eq!(records.unknown(), 2);
    assert_eq!(records.processed().len(), 1);
}

#[test]
fn errors_go_on_record() {
    let mut records: ProcessedEntries = ProcessedEntries::default();
    records.insert(Err(ProcessError::ProcessSpawn {
        process: b"git".to_vec(),
        entry: path("/a"),
        origin: denied(),
    }));
    records.insert(Err(ProcessError::ProcessOutput {
        process: b"git".to_vec(),
        entry: path("/b"),
        origin: denied(),
    }));
    records.insert(Err(ProcessError::Timeout {
        process: b"git\xff".to_vec(),
        entry: path("/c"),
        duration: "5s".to_string(),
    }));
    records.insert(Err(ProcessError::SubDirectories { entry: path("/d"), origin: denied() }));
    match record(&records, "/a") {
        Some(ProcessedEntry::Error(ProcessedError::Spawn { process, code, description })) => {
            assert_eq!((process.as_str(), *code, description.as_str()), ("git", Some(13), "denied"));
        },
        _ => panic!("expected a spawn error"),
    }
    match record(&records, "/b") {
        Some(ProcessedEntry::Error(ProcessedError::Output { process, code, description })) => {
            assert_eq!((process.as_str(), *code, description.as_str()), ("git", Some(13), "denied"));
        },
        _ => panic!("expected an output error"),
    }
    match record(&records, "/c") {
        Some(ProcessedEntry::Error(ProcessedError::Timeout { process, duration })) => {
            assert_eq!((process.as_str(), duration.as_str()), ("git\u{fffd}", "5s"));
        },
        _ => panic!("expected a timeout"),
    }
    match record(&records, "/d") {
        Some(ProcessedEntry::Error(ProcessedError::SubDirectories { code, description })) => {
            assert_eq!((*code, description.as_str()), (Some(13), "denied"));
        },
        _ => panic!("expected a listing error"),
    }
}

#[test]
fn last_report_of_a_directory_stands_under_its_first_path() {
    let mut records: ProcessedEntries = ProcessedEntries::default();
    records.insert(wrote("/a/", b"one", b""));
    records.insert(wrote("/b", b"two", b""));
    records.insert(wrote("/a", b"three", b""));
    assert_eq!(records.processed().len(), 2);
    match record(&records, "/a/") {
        Some(ProcessedEntry::Success { stdout, .. }) => assert_eq!(stdout, "three"),
        _ => panic!("expected the output"),
    }
    assert!(record(&records, "/a").is_none());
}

#[test]
fn order_of_directories_makes_no_difference() {
    let mut one: ProcessedEntries = ProcessedEntries::default();
    one.extend(vec![wrote("/a", b"1", b""), wrote("/b", b"2", b"")]);
    let mut other: ProcessedEntries = ProcessedEntries::default();
    other.extend(vec![wrote("/b", b"2", b""), wrote("/a", b"1", b"")]);
    for entry in ["/a", "/b"] {
        match (record(&one, entry), record(&other, entry)) {
            (
                Some(ProcessedEntry::Success { stdout: left, .. }),
                Some(ProcessedEntry::Success { stdout: right, .. }),
            ) => assert_eq!(left, right),
            _ => panic!("expected the output"),
        }
    }
}

#[test]
fn more_reports_go_on_top_of_what_is_there() {
    let mut records: ProcessedEntries = ProcessedEntries::default();
    records.extend(vec![wrote("/a/", b"1", b""), wrote("/b", b"2", b"")]);
    records.extend(vec![
        wrote("/c/", b"3", b""),
        wrote("/a", b"4", b""),
        wrote("/c", b"5", b""),
        Err(ProcessError::ModifiedEntry),
    ]);
    assert_eq!(records.unknown(), 1);
    assert_eq!(records.processed().len(), 3);
    for (entry, expected) in [("/a/", "4"), ("/b", "2"), ("/c/", "5")] {
        match record(&records, entry) {
            Some(ProcessedEntry::Success { stdout, .. }) => assert_eq!(stdout, expected),
            _ => panic!("expected the output"),
        }
    }
}
