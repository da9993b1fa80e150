use subdo::cli::{default_jobs, exact_entry, pattern_entry, CliLocated, IgnoredTask};
use subdo::json::Mode;
use subdo::path::EntryPath;
use subdo::pattern::{IgnoredEntry, PatternError};
use subdo::process::{OsError, Outcome, Output, Timeout};
use subdo::walk::Request;
use subdo::{Cli, CliError, CliParsed, ProcessError};

fn path(text: &str) -> EntryPath {
    EntryPath::new(text.as_bytes().to_vec())
}

fn words(all: &[&str]) -> Vec<Vec<u8>> {
    all.iter().map(|word| word.as_bytes().to_vec()).collect()
}

fn denied() -> OsError {
    OsError { code: Some(13), description: "Permission denied (os error 13)".to_string() }
}

fn line(root: Option<&str>, command: &[&str]) -> Cli {
    Cli {
        path: root.map(path),
        ignore: words(&["target", "#^x"]),
        recursive: true,
        jobs: 3,
        timeout: Some(Timeout::new(5, 0)),
        mode: Mode::Json,
        command: words(command),
    }
}

fn located(root: &str) -> CliLocated {
    line(Some(root), &["git", "status", "-s"]).parse().unwrap().locate(None).unwrap()
}

fn parsed() -> CliParsed {
    located("/srv").finish(vec![]).unwrap().1
}

#[test]
fn command_is_taken_apart() {
    let started = line(None, &["git", "status", "-s"]).parse().unwrap();
    assert_eq!(started.command.0, b"git");
    assert_eq!(started.command.1, words(&["status", "-s"]));
    assert_eq!(started.jobs, 3);
    assert!(started.recursive);
    assert_eq!(started.mode, Mode::Json);
    assert_eq!(started.ignore, words(&["target", "#^x"]));
    assert!(started.needs_current());
}

#[test]
fn missing_command_is_an_error() {
    match line(Some("/srv"), &[]).parse() {
        Err(error) => {
            assert!(matches!(error, CliError::Command));
            assert_eq!(error.message(), "vacant specified command");
        },
        Ok(_) => panic!("expected an error"),
    }
}

#[test]
fn given_directory_is_used() {
    let started = line(Some("/srv"), &["ls"]).parse().unwrap();
    assert!(!started.needs_current());
    assert_eq!(started.locate(None).unwrap().directory.bytes, b"/srv");
}

#[test]
fn current_directory_is_used_where_none_is_given() {
    let started = line(None, &["ls"]).parse().unwrap();
    assert_eq!(started.locate(Some(Ok(path("/home")))).unwrap().directory.bytes, b"/home");
}

#[test]
fn current_directory_that_cannot_be_had_is_an_error() {
    match line(None, &["ls"]).parse().unwrap().locate(Some(Err(denied()))) {
        Err(error) => assert_eq!(
            error.message(),
            "current directory is unavailable as: Permission denied (os error 13)"
        ),
        Ok(_) => panic!("expected an error"),
    }
}

#[test]
fn ignored_paths_are_seen_from_the_directory() {
    assert_eq!(located("/srv").ignored_path(b"target".to_vec()).bytes, b"/srv/target");
    assert_eq!(located("/srv/").ignored_path(b"target".to_vec()).bytes, b"/srv/target");
    assert_eq!(located("/srv").ignored_path(b"/opt/x".to_vec()).bytes, b"/opt/x");
    assert_eq!(located("srv").ignored_path(b"".to_vec()).bytes, b"srv/");
}

#[test]
fn ignored_values_are_patterns_or_paths() {
    let located: CliLocated = located("/srv");
    match located.ignored_task("#^\u{e9}".as_bytes().to_vec()) {
        IgnoredTask::Compile(text) => assert_eq!(text, "^\u{e9}"),
        IgnoredTask::Resolve(_) => panic!("expected a pattern"),
    }
    match located.ignored_task(b"#".to_vec()) {
        IgnoredTask::Compile(text) => assert_eq!(text, ""),
        IgnoredTask::Resolve(_) => panic!("expected a pattern"),
    }
    for (value, expected) in [("a#b", "/srv/a#b"), ("/opt", "/opt"), ("", "/srv/")] {
        match located.ignored_task(value.as_bytes().to_vec()) {
            IgnoredTask::Resolve(found) => assert_eq!(found.display(), expected),
            IgnoredTask::Compile(_) => panic!("expected a path"),
        }
    }
}

#[test]
fn ignored_path_without_canonical_form_is_an_error() {
    match exact_entry(path("/srv/x"), Err(denied())) {
        Err(error) => assert_eq!(
            error.message(),
            "an ignored directory (/srv/x) is invalid as: Permission denied (os error 13)"
        ),
        Ok(_) => panic!("expected an error"),
    }
    match exact_entry(path("/srv/x"), Ok(path("/opt"))) {
        Ok(IgnoredEntry::Exact(found)) => assert_eq!(found.bytes, b"/opt"),
        _ => panic!("expected the canonical path"),
    }
}

#[test]
fn bad_pattern_is_an_error() {
    match pattern_entry(Err(PatternError::Invalid("[".to_string()))) {
        Err(error) => assert_eq!(
            error.message(),
            "ignored pattern is unavailable as: the pattern ([) is invalid"
        ),
        Ok(_) => panic!("expected an error"),
    }
    assert!(pattern_entry(IgnoredEntry::pattern(b"#a").unwrap()).is_ok());
}

#[test]
fn entries_become_what_is_passed_over() {
    let entries = vec![
        exact_entry(path("x"), Ok(path("/srv/x"))),
        pattern_entry(IgnoredEntry::pattern(b"#^t").unwrap()),
        pattern_entry(IgnoredEntry::pattern(b"#z$").unwrap()),
    ];
    let (directory, cli) = located("/srv").finish(entries).unwrap();
    assert_eq!(directory.bytes, b"/srv");
    let ignored = &cli.ignored_subdirectories;
    for text in ["/srv/x", "/srv/target", "/srv/jazz"] {
        assert!(matches!(ignored.as_valid(Some(path(text))), Ok(None)), "{text}");
    }
    assert!(matches!(ignored.as_valid(Some(path("/srv/y"))), Ok(Some(_))));
    assert_eq!(cli.mode(), Mode::Json);
    assert_eq!(cli.jobs, 3);
    assert_eq!(cli.command.0, b"git");
}

#[test]
fn first_bad_entry_is_the_error() {
    let entries = vec![
        exact_entry(path("x"), Ok(path("/srv/x"))),
        exact_entry(path("y"), Err(denied())),
        pattern_entry(IgnoredEntry::pattern(b"#[").unwrap()),
    ];
    match located("/srv").finish(entries) {
        Err(CliError::IgnoredDirectories(entry, origin)) => {
            assert_eq!(entry.bytes, b"y");
            assert_eq!(origin.code, Some(13));
        },
        _ => panic!("expected the first error"),
    }
}

#[test]
fn jobs_follow_the_processors() {
    assert_eq!(default_jobs(8), 8);
    assert_eq!(default_jobs(65_535), 65_535);
    assert_eq!(default_jobs(1_000_000), 65_535);
}

#[test]
fn walks_start_at_the_root() {
    match parsed().process(path("/srv")) {
        (_, Request::Open(first)) => assert_eq!(first.bytes, b"/srv"),
        _ => panic!("expected the root"),
    }
}

#[test]
fn outcomes_become_reports() {
    let cli: CliParsed = parsed();
    let output = Output { code: Some(3), stdout: b"out".to_vec(), stderr: b"err".to_vec() };
    match cli.process_output(path("/srv/a"), Outcome::Finished(output)) {
        Ok((entry, output)) => {
            assert_eq!(entry.bytes, b"/srv/a");
            assert_eq!(output.stdout, b"out");
            assert_eq!(output.stderr, b"err");
        },
        Err(_) => panic!("expected the output"),
    }
    let message = |outcome| match cli.process_output(path("/srv/a"), outcome) {
        Err(error) => error.message(),
        Ok(_) => panic!("expected an error"),
    };
    assert_eq!(
        message(Outcome::NotSpawned(denied())),
        "process git for /srv/a made unavailable as: Permission denied (os error 13)"
    );
    assert_eq!(
        message(Outcome::Unreadable(denied())),
        "process git for /srv/a has unavailable output as: Permission denied (os error 13)"
    );
    assert_eq!(
        message(Outcome::TimedOut),
        "process git for /srv/a could not complete in 5s"
    );
}

#[test]
fn other_errors_in_words() {
    assert_eq!(
        ProcessError::ModifiedEntry.message(),
        "invalid directory entry from likely modification"
    );
    assert_eq!(
        ProcessError::SubDirectories { entry: path("/x"), origin: denied() }.message(),
        "subdirectories for /x are unavailable as: Permission denied (os error 13)"
    );
}

#[test]
fn timeouts_in_words() {
    assert_eq!(Timeout::new(9420, 0).display(), "2h 37m");
    assert_eq!(Timeout::new(0, 32_000_000).display(), "32ms");
    assert_eq!(Timeout::new(0, 0).display(), "0s");
    assert_eq!(Timeout::new(7, 5).secs(), 7);
    assert_eq!(Timeout::new(7, 5).nanos(), 5);
}
