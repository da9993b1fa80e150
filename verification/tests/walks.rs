use subdo::ignore::{IgnoredEntries, Listing};
use subdo::path::EntryPath;
use subdo::process::{OsError, Output, Report};
use subdo::walk::{Event, Request, Step, Walk};
use subdo::ProcessError;

fn path(text: &str) -> EntryPath {
    EntryPath::new(text.as_bytes().to_vec())
}

fn denied() -> OsError {
    OsError { code: Some(13), description: "denied".to_string() }
}

fn done(text: &str) -> Event {
    Event::Settled(Ok((path(text), Output { code: Some(0), stdout: vec![], stderr: vec![] })))
}

fn found(text: &str) -> Event {
    Event::Found(Ok(path(text)))
}

fn report(report: Report) -> String {
    match report {
        Ok((entry, _)) => format!("done {}", entry.display()),
        Err(error) => error.message(),
    }
}

fn request(request: Request) -> String {
    match request {
        Request::Open(entry) => format!("open {}", entry.display()),
        Request::Find => "find".to_string(),
        Request::Wait => "wait".to_string(),
        Request::Poll => "poll".to_string(),
        Request::Next => "next".to_string(),
        Request::Finish => "finish".to_string(),
    }
}

/// One line for each step: what is delivered, started and requested.
fn run(root: &str, recursive: bool, jobs: usize, events: Vec<Event>) -> (Walk, Vec<String>) {
    let (mut walk, first) = Walk::new(path(root), recursive, jobs);
    let mut lines: Vec<String> = vec![request(first)];
    for event in events {
        assert!(walk.accepts(&event));
        let (next, step): (Walk, Step) = walk.step(event);
        walk = next;
        let mut line: Vec<String> = vec![];
        if let Some(delivered) = step.deliver {
            line.push(report(delivered));
        }
        if let Some(started) = step.start {
            line.push(format!("start {}", started.display()));
        }
        line.push(request(step.request));
        lines.push(line.join("; "));
        assert!(walk.running() <= jobs.max(1));
    }
    (walk, lines)
}

#[test]
fn flat_walk_reports_once_on_each_entry() {
    let (walk, lines) = run(
        "/r",
        false,
        4,
        vec![
            Event::Opened,
            found("/r/a"),
            Event::Found(Err(ProcessError::ModifiedEntry)),
            found("/r/b"),
            done("/r/b"),
            Event::Exhausted,
            done("/r/a"),
        ],
    );
    assert_eq!(
        lines,
        [
            "open /r",
            "next",
            "start /r/a; next",
            "invalid directory entry from likely modification; next",
            "start /r/b; next",
            "done /r/b; next",
            "wait",
            "done /r/a; finish",
        ]
    );
    assert!(!walk.accepts(&Event::Opened) && !walk.accepts(&Event::Exhausted));
    assert_eq!(walk.running(), 0);
}

#[test]
fn flat_walk_waits_for_a_free_job() {
    let (walk, lines) = run(
        "/r",
        false,
        2,
        vec![Event::Opened, found("/r/a"), found("/r/b")],
    );
    assert_eq!(lines[2..], ["start /r/a; next", "start /r/b; wait"]);
    assert_eq!(walk.running(), 2);
    assert!(!walk.accepts(&found("/r/c")) && !walk.accepts(&Event::Exhausted));
    assert!(walk.accepts(&done("/r/a")));
    let (walk, step): (Walk, Step) = walk.step(done("/r/a"));
    assert_eq!(request(step.request), "next");
    assert!(walk.accepts(&found("/r/c")) && walk.accepts(&Event::Exhausted));
    assert_eq!(walk.running(), 1);
}

#[test]
fn flat_walk_over_nothing_reports_nothing() {
    let (walk, lines) = run("/r", false, 4, vec![Event::Opened]);
    assert!(!walk.accepts(&done("/r")));
    let (_, step): (Walk, Step) = walk.step(Event::Exhausted);
    assert!(step.deliver.is_none() && step.start.is_none());
    assert_eq!(request(step.request), "finish");
    assert_eq!(lines, ["open /r", "next"]);
}

/// The reports of a walk from `/r`, in the tree of `directories`, where each
/// command is done as late as it can be.
fn reports(recursive: bool, jobs: usize, directories: &[&str]) -> Vec<String> {
    reports_without(recursive, jobs, directories, "")
}

/// The same, where `closed` cannot be listed.
fn reports_without(
    recursive: bool,
    jobs: usize,
    directories: &[&str],
    closed: &str,
) -> Vec<String> {
    let ignored: IgnoredEntries = IgnoredEntries::default();
    let (mut walk, mut asked) = Walk::new(path("/r"), recursive, jobs);
    let mut open: Vec<Vec<EntryPath>> = vec![];
    let mut running: Vec<EntryPath> = vec![];
    let mut reported: Vec<String> = vec![];
    loop {
        let event: Event = match asked {
            Request::Open(entry) if entry.display() == closed => Event::NotOpened(denied()),
            Request::Open(entry) => {
                let text: String = entry.display();
                let inside = directories.iter().filter(|name| {
                    name.rsplit_once('/').map(|(parent, _)| parent) == Some(text.as_str())
                });
                open.push(inside.rev().map(|name| path(name)).collect());
                Event::Opened
            }
            Request::Find | Request::Next => match open.last_mut().unwrap().pop() {
                Some(entry) => {
                    let canonical: Option<EntryPath> = Some(entry);
                    assert!(ignored.can_judge(&canonical));
                    Event::Found(ignored.select(Listing::Listed { is_dir: true, canonical }).unwrap())
                }
                None => {
                    open.pop();
                    Event::Exhausted
                }
            },
            Request::Wait => done(&running.remove(0).display()),
            Request::Poll => Event::Idle,
            Request::Finish => return reported,
        };
        assert!(walk.accepts(&event));
        let (next, step): (Walk, Step) = walk.step(event);
        walk = next;
        if let Some(delivered) = step.deliver {
            reported.push(report(delivered));
        }
        if let Some(entry) = step.start {
            running.push(entry);
        }
        assert!(running.len() == walk.running() && running.len() <= jobs);
        asked = step.request;
    }
}

#[test]
fn deep_walk_adds_the_root_and_what_is_deeper() {
    let tree: [&str; 4] = ["/r/a", "/r/a/c", "/r/a/c/d", "/r/b"];
    for jobs in 1..7 {
        let mut flat: Vec<String> = reports(false, jobs, &tree);
        let mut deep: Vec<String> = reports(true, jobs, &tree);
        flat.sort();
        deep.sort();
        assert_eq!(flat, ["done /r/a", "done /r/b"]);
        assert_eq!(
            deep,
            ["done /r", "done /r/a", "done /r/a/c", "done /r/a/c/d", "done /r/b"]
        );
    }
    assert!(reports(false, 2, &[]).is_empty());
    assert_eq!(reports(true, 2, &[]), ["done /r"]);
}

#[test]
fn directories_that_cannot_be_listed_are_reported_once() {
    let tree: [&str; 4] = ["/r/a", "/r/a/c", "/r/a/c/d", "/r/b"];
    let closed: &str = "subdirectories for /r/a are unavailable as: denied";
    for jobs in 1..5 {
        let mut flat: Vec<String> = reports_without(false, jobs, &tree, "/r/a");
        let mut deep: Vec<String> = reports_without(true, jobs, &tree, "/r/a");
        flat.sort();
        deep.sort();
        assert_eq!(flat, ["done /r/a", "done /r/b"]);
        assert_eq!(deep, ["done /r", "done /r/b", closed]);
    }
    for recursive in [false, true] {
        assert_eq!(
            reports_without(recursive, 2, &tree, "/r"),
            ["subdirectories for /r are unavailable as: denied"]
        );
    }
}

#[test]
fn root_that_cannot_be_listed_ends_the_walk() {
    for recursive in [false, true] {
        let (walk, lines) = run("/r", recursive, 4, vec![Event::NotOpened(denied())]);
        assert_eq!(
            lines,
            ["open /r", "subdirectories for /r are unavailable as: denied; finish"]
        );
        assert_eq!(walk.running(), 0);
    }
}

#[test]
fn deep_walk_starts_the_command_where_it_opens() {
    let (walk, lines) = run(
        "/r",
        true,
        8,
        vec![
            Event::Opened,
            found("/r/a"),
            Event::Opened,
            found("/r/a/b"),
            Event::NotOpened(denied()),
            Event::Exhausted,
            Event::Found(Err(ProcessError::ModifiedEntry)),
            Event::Exhausted,
            done("/r/a"),
            done("/r"),
        ],
    );
    assert_eq!(
        lines,
        [
            "open /r",
            "start /r; find",
            "open /r/a",
            "start /r/a; find",
            "open /r/a/b",
            "subdirectories for /r/a/b are unavailable as: denied; find",
            "find",
            "invalid directory entry from likely modification; find",
            "wait",
            "done /r/a; wait",
            "done /r; finish",
        ]
    );
    assert_eq!(walk.running(), 0);
}

#[test]
fn deep_walk_opens_or_reports_what_it_finds() {
    let events = vec![
        Event::Opened,
        found("/r/a"),
        Event::NotOpened(denied()),
        found("/r/b"),
        Event::Opened,
        done("/r"),
        Event::Idle,
        Event::Found(Err(ProcessError::ModifiedEntry)),
        Event::Exhausted,
        Event::Exhausted,
        done("/r/b"),
    ];
    assert!(events.len() <= 5 * 2 + 1 + 4);
    let (_, lines) = run("/r", true, 1, events);
    let all: String = lines.join("; ");
    assert_eq!(all.matches("start").count(), 2);
    assert_eq!(all.matches("done").count(), 2);
    assert_eq!(all.matches("subdirectories for /r/a are unavailable").count(), 1);
    assert_eq!(all.matches("invalid directory entry").count(), 1);
    assert!(all.ends_with("finish"));
}

#[test]
fn deep_walk_waits_for_a_free_job() {
    let (walk, lines) = run(
        "/r",
        true,
        2,
        vec![
            Event::Opened,
            found("/r/a"),
            Event::Opened,
            found("/r/b"),
            Event::Opened,
            done("/r"),
            done("/r/a"),
            Event::Idle,
        ],
    );
    assert_eq!(
        lines[3..],
        [
            "start /r/a; find",
            "open /r/b",
            "wait",
            "done /r; poll",
            "done /r/a; poll",
            "start /r/b; find",
        ]
    );
    assert_eq!(walk.running(), 1);
}

#[test]
fn one_job_runs_one_command_at_a_time() {
    let (walk, lines) = run(
        "/r",
        true,
        1,
        vec![Event::Opened, found("/r/a"), Event::Opened, done("/r"), Event::Idle],
    );
    assert_eq!(
        lines,
        ["open /r", "start /r; find", "open /r/a", "wait", "done /r; poll", "start /r/a; find"]
    );
    assert_eq!(walk.running(), 1);
}

#[test]
fn no_job_still_runs_one_command() {
    let (walk, _) = run(
        "/r",
        true,
        0,
        vec![Event::Opened, found("/r/a"), Event::Opened, done("/r"), Event::Idle],
    );
    assert_eq!(walk.running(), 1);
}

#[test]
fn events_that_were_not_asked_for_are_not_accepted() {
    let (walk, _) = run("/r", true, 1, vec![]);
    assert!(walk.accepts(&Event::Opened) && walk.accepts(&Event::NotOpened(denied())));
    assert!(!walk.accepts(&Event::Idle) && !walk.accepts(&done("/r")));
    let (walk, _) = run("/r", true, 1, vec![Event::Opened]);
    assert!(walk.accepts(&found("/r/a")) && walk.accepts(&Event::Exhausted));
    assert!(!walk.accepts(&Event::Opened));
    let (walk, _) =
        run("/r", true, 1, vec![Event::Opened, found("/r/a"), Event::Opened, done("/r")]);
    assert!(walk.accepts(&Event::Idle));
    assert!(!walk.accepts(&done("/r")));
}
