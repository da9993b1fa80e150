//! What the program was asked to do.
//!
//! Reading a command line alternates with questions to the system: where the
//! program runs, and what the canonical path of a directory is. Each step is a
//! type of its own, with the one method that goes on to the next.

use crate::ignore::IgnoredEntries;
use crate::json::Mode;
use crate::path::EntryPath;
use crate::pattern::{IgnoredEntry, PatternError};
use crate::process::{copy_bytes, OsError, Outcome, ProcessError, Report, Timeout};
use crate::walk::{Request, Walk};
use vstd::prelude::*;

verus! {

/// The most commands that can be asked to run at a time.
pub const MAX_JOBS: u16 = 0xffff;

/// The command line, word by word.
#[derive(Debug)]
pub struct Cli {
    /// The directory to start at; the current one where none is given.
    pub path: Option<EntryPath>,
    /// What to pass over: paths, and patterns behind a `#`.
    pub ignore: Vec<Vec<u8>>,
    /// Whether to go down the tree.
    pub recursive: bool,
    /// The most commands that may run at a time: one at least.
    pub jobs: u16,
    /// How long the command may run in one directory.
    pub timeout: Option<Timeout>,
    /// How to show what comes of it.
    pub mode: Mode,
    /// The command and its arguments.
    pub command: Vec<Vec<u8>>,
}

/// A command line with a command on it; where to start is open.
#[derive(Debug)]
pub struct CliStarted {
    pub command: (Vec<u8>, Vec<Vec<u8>>),
    pub path: Option<EntryPath>,
    pub ignore: Vec<Vec<u8>>,
    pub recursive: bool,
    pub jobs: usize,
    pub timeout: Option<Timeout>,
    pub mode: Mode,
}

/// A command line with a place to start; what to pass over is open.
#[derive(Debug)]
pub struct CliLocated {
    pub command: (Vec<u8>, Vec<Vec<u8>>),
    pub directory: EntryPath,
    pub ignore: Vec<Vec<u8>>,
    pub recursive: bool,
    pub jobs: usize,
    pub timeout: Option<Timeout>,
    pub mode: Mode,
}

/// What to do, in full.
#[derive(Debug)]
pub struct CliParsed {
    pub command: (Vec<u8>, Vec<Vec<u8>>),
    pub ignored_subdirectories: IgnoredEntries,
    pub recursive: bool,
    pub jobs: usize,
    pub timeout: Option<Timeout>,
    pub mode: Mode,
}

/// Why a command line does not say what to do.
#[derive(Debug)]
pub enum CliError {
    /// There is no command on it.
    Command,
    /// It names no directory, and the current one cannot be had.
    CurrentDirectory(OsError),
    /// A directory to pass over has no canonical path.
    IgnoredDirectories(EntryPath, OsError),
    /// A pattern to pass over is none.
    IgnoredPattern(PatternError),
}

/// What a `CliError` holds.
pub enum CliErrorView {
    Command,
    CurrentDirectory(crate::process::OsErrorView),
    IgnoredDirectories(Seq<u8>, crate::process::OsErrorView),
    IgnoredPattern(crate::pattern::PatternErrorView),
}

impl View for CliError {
    type V = CliErrorView;

    open spec fn view(&self) -> CliErrorView {
        match self {
            CliError::Command => CliErrorView::Command,
            CliError::CurrentDirectory(origin) => CliErrorView::CurrentDirectory(origin@),
            CliError::IgnoredDirectories(path, origin) => CliErrorView::IgnoredDirectories(
                path@,
                origin@,
            ),
            CliError::IgnoredPattern(error) => CliErrorView::IgnoredPattern(error@),
        }
    }
}

impl CliErrorView {
    /// The error in words.
    pub open spec fn words(self) -> Seq<char> {
        match self {
            CliErrorView::Command => "vacant specified command"@,
            CliErrorView::CurrentDirectory(origin) => "current directory is unavailable as: "@
                + origin.description,
            CliErrorView::IgnoredDirectories(path, origin) => "an ignored directory ("@
                + crate::text::utf8_lossy(path) + ") is invalid as: "@ + origin.description,
            CliErrorView::IgnoredPattern(error) => "ignored pattern is unavailable as: "@
                + PatternError::words(error),
        }
    }
}

impl CliError {
    /// The error in words.
    pub fn message(&self) -> (text: String)
        ensures
            text@ == self@.words(),
    {
        match self {
            CliError::Command => "vacant specified command".to_owned(),
            CliError::CurrentDirectory(origin) => {
                let mut text: String = "current directory is unavailable as: ".to_owned();
                text.append(&origin.description);
                text
            },
            CliError::IgnoredDirectories(path, origin) => {
                let mut text: String = "an ignored directory (".to_owned();
                text.append(&path.display());
                text.append(") is invalid as: ");
                text.append(&origin.description);
                text
            },
            CliError::IgnoredPattern(error) => {
                let mut text: String = "ignored pattern is unavailable as: ".to_owned();
                text.append(&error.message());
                text
            },
        }
    }
}

/// The number of jobs where none is given: one for each of `cpus` processors,
/// as far as that can be asked for.
pub fn default_jobs(cpus: usize) -> (jobs: u16)
    ensures
        jobs == if cpus < MAX_JOBS { cpus as int } else { MAX_JOBS as int },
        cpus >= 1 ==> jobs >= 1,
{
    if cpus < MAX_JOBS as usize {
        cpus as u16
    } else {
        MAX_JOBS
    }
}

impl Cli {
    /// Takes the command off the command line.
    pub fn parse(self) -> (result: Result<CliStarted, CliError>)
        requires
            self.jobs >= 1,
        ensures
            match result {
                Ok(started) => {
                    &&& self.command@.len() > 0
                    &&& started.command.0 == self.command@[0]
                    &&& started.command.1@ == self.command@.drop_first()
                    &&& started.path == self.path
                    &&& started.ignore == self.ignore
                    &&& started.recursive == self.recursive
                    &&& started.jobs == self.jobs
                    &&& 1 <= started.jobs <= MAX_JOBS
                    &&& started.timeout == self.timeout
                    &&& started.mode == self.mode
                },
                Err(error) => self.command@.len() == 0 && error is Command,
            },
    {
        let Cli { path, ignore, recursive, jobs, timeout, mode, command } = self;
        let mut words: Vec<Vec<u8>> = command;
        if words.len() == 0 {
            return Err(CliError::Command);
        }
        let first: Vec<u8> = words.remove(0);
        assert(words@ == self.command@.drop_first());
        Ok(
            CliStarted {
                command: (first, words),
                path,
                ignore,
                recursive,
                jobs: jobs as usize,
                timeout,
                mode,
            },
        )
    }
}

impl CliStarted {
    /// Whether the current directory has to be known.
    pub fn needs_current(&self) -> (needed: bool)
        ensures
            needed == (self.path is None),
    {
        self.path.is_none()
    }

    /// Settles where to start, given the current directory where it is needed.
    pub fn locate(self, current: Option<Result<EntryPath, OsError>>) -> (result: Result<
        CliLocated,
        CliError,
    >)
        requires
            self.path is None ==> current is Some,
        ensures
            match result {
                Ok(located) => {
                    &&& self.path matches Some(path) ==> located.directory == path
                    &&& self.path is None ==> current == Some(
                        Ok::<EntryPath, OsError>(located.directory),
                    )
                    &&& located.command == self.command
                    &&& located.ignore == self.ignore
                    &&& located.recursive == self.recursive
                    &&& located.jobs == self.jobs
                    &&& located.timeout == self.timeout
                    &&& located.mode == self.mode
                },
                Err(error) => {
                    &&& self.path is None
                    &&& current matches Some(Err(origin))
                    &&& error == CliError::CurrentDirectory(origin)
                },
            },
    {
        let CliStarted { command, path, ignore, recursive, jobs, timeout, mode } = self;
        let directory: EntryPath = match path {
            Some(path) => path,
            None => match current.unwrap() {
                Ok(path) => path,
                Err(origin) => {
                    return Err(CliError::CurrentDirectory(origin));
                },
            },
        };
        Ok(CliLocated { command, directory, ignore, recursive, jobs, timeout, mode })
    }
}

/// What there is to do for an ignored entry.
#[derive(Debug)]
pub enum IgnoredTask {
    /// Compile this text.
    Compile(String),
    /// Find the canonical path of the directory at this one.
    Resolve(EntryPath),
}

/// What an `IgnoredTask` holds.
pub enum IgnoredTaskView {
    Compile(Seq<char>),
    Resolve(Seq<u8>),
}

impl View for IgnoredTask {
    type V = IgnoredTaskView;

    open spec fn view(&self) -> IgnoredTaskView {
        match self {
            IgnoredTask::Compile(text) => IgnoredTaskView::Compile(text@),
            IgnoredTask::Resolve(path) => IgnoredTaskView::Resolve(path@),
        }
    }
}

/// What there is to do for the ignored entry `value` of a command line that
/// starts at `directory`: a pattern is compiled, and a path is resolved.
pub open spec fn task_of(directory: Seq<u8>, value: Seq<u8>) -> IgnoredTaskView {
    match crate::pattern::pattern_text(value) {
        Some(text) => IgnoredTaskView::Compile(text),
        None => IgnoredTaskView::Resolve(crate::path::resolved(directory, value)),
    }
}

/// Whether `entry` can come of what there is to do for `value`: the pattern that
/// it spells, or that this is none or was lost; a directory, or that there is
/// none at the path.
pub open spec fn comes_of(
    directory: Seq<u8>,
    value: Seq<u8>,
    entry: Result<IgnoredEntry, CliError>,
) -> bool {
    match task_of(directory, value) {
        IgnoredTaskView::Compile(text) => match entry {
            Ok(entry) => entry@ == crate::pattern::IgnoredEntryView::Pattern(text),
            Err(error) => error@ matches CliErrorView::IgnoredPattern(why) && PatternError::spelled(
                why,
            ) == text,
        },
        IgnoredTaskView::Resolve(path) => match entry {
            Ok(entry) => entry@ is Exact,
            Err(error) => error@ matches CliErrorView::IgnoredDirectories(at, _) && at == path,
        },
    }
}

/// What a list of entries holds, where each could be had.
pub open spec fn found_views(entries: Seq<Result<IgnoredEntry, CliError>>) -> Seq<
    crate::pattern::IgnoredEntryView,
> {
    Seq::new(entries.len(), |i: int| entries[i]->Ok_0@)
}

/// Whether the entry at `index` is the first that could not be had.
pub open spec fn is_first_error(
    entries: Seq<Result<IgnoredEntry, CliError>>,
    index: int,
) -> bool {
    &&& 0 <= index < entries.len()
    &&& entries[index] is Err
    &&& forall|i: int| 0 <= i < index ==> #[trigger] entries[i] is Ok
}

impl CliLocated {
    /// The path that the ignored entry `entry`, which is no pattern, stands
    /// for; its canonical path is to be found.
    pub fn ignored_path(&self, entry: Vec<u8>) -> (path: EntryPath)
        ensures
            path@ == crate::path::resolved(self.directory@, entry@),
    {
        let path: EntryPath = EntryPath::new(entry);
        if path.is_relative() {
            let mut directory: EntryPath = self.directory.clone();
            directory.push(path);
            directory
        } else {
            path
        }
    }

    /// What there is to do for the ignored entry `value`.
    pub fn ignored_task(&self, value: Vec<u8>) -> (task: IgnoredTask)
        ensures
            task@ == task_of(self.directory@, value@),
            task matches IgnoredTask::Compile(text) ==> (vstd::utf8::valid_utf8(value@.drop_first())
                ==> text@ == vstd::utf8::decode_utf8(value@.drop_first())),
    {
        match IgnoredEntry::pattern_text(&value) {
            Some(text) => IgnoredTask::Compile(text),
            None => IgnoredTask::Resolve(self.ignored_path(value)),
        }
    }

    /// Settles what to pass over. The entries come in the order in which they
    /// could be had; the first that could not be had ends it.
    pub fn finish(self, entries: Vec<Result<IgnoredEntry, CliError>>) -> (result: Result<
        (EntryPath, CliParsed),
        CliError,
    >)
        ensures
            match result {
                Ok((directory, parsed)) => {
                    &&& forall|i: int| 0 <= i < entries@.len() ==> #[trigger] entries@[i] is Ok
                    &&& directory == self.directory
                    &&& parsed.ignored_subdirectories@
                        == crate::ignore::IgnoredView::nothing().extended(
                        found_views(entries@),
                    ).finished()
                    &&& forall|path: Seq<u8>|
                        crate::ignore::IgnoredView::nothing().extended(
                            found_views(entries@),
                        ).is_separable(path) || parsed.ignored_subdirectories@.pattern is Raw
                            ==> #[trigger] parsed.ignored_subdirectories@.ignores(path)
                            == crate::ignore::some_ignores(found_views(entries@), path)
                    &&& parsed.command == self.command
                    &&& parsed.recursive == self.recursive
                    &&& parsed.jobs == self.jobs
                    &&& parsed.timeout == self.timeout
                    &&& parsed.mode == self.mode
                },
                Err(error) => exists|i: int| #[trigger]
                    is_first_error(entries@, i) && entries@[i] == Err::<IgnoredEntry, CliError>(
                        error,
                    ),
            },
    {
        let ghost all = entries@;
        let mut ignored: IgnoredEntries = IgnoredEntries::default();
        let ghost nothing = crate::ignore::IgnoredView::nothing();
        assert(found_views(all).take(0) == Seq::<crate::pattern::IgnoredEntryView>::empty());
        for entry in iter: entries
            invariant
                iter.seq() == all,
                all == entries@,
                nothing == crate::ignore::IgnoredView::nothing(),
                forall|i: int| 0 <= i < iter.index() ==> #[trigger] all[i] is Ok,
                ignored@ == nothing.extended(found_views(all).take(iter.index() as int)),
        {
            let ghost index = iter.index() as int;
            match entry {
                Ok(entry) => {
                    assert(found_views(all).take(index + 1).drop_last() == found_views(all).take(
                        index,
                    ));
                    ignored.insert(entry);
                },
                Err(error) => {
                    assert(is_first_error(all, index));
                    return Err(error);
                },
            }
        }
        assert(found_views(all).take(all.len() as int) == found_views(all));
        let ghost raw = ignored@;
        let finished: IgnoredEntries = ignored.finish();
        proof {
            assert forall|path: Seq<u8>|
                raw.is_separable(path) || finished@.pattern is Raw implies #[trigger] finished@.ignores(
                path,
            ) == crate::ignore::some_ignores(found_views(all), path) by {
                crate::ignore::ignored_by_some_entry(found_views(all), path);
            }
        }
        let CliLocated { command, directory, recursive, jobs, timeout, mode, .. } = self;
        Ok(
            (
                directory,
                CliParsed {
                    command,
                    ignored_subdirectories: finished,
                    recursive,
                    jobs,
                    timeout,
                    mode,
                },
            ),
        )
    }
}

/// The directory to pass over at `path`, given its canonical path.
pub fn exact_entry(path: EntryPath, canonical: Result<EntryPath, OsError>) -> (result: Result<
    IgnoredEntry,
    CliError,
>)
    ensures
        match canonical {
            Ok(found) => result == Ok::<IgnoredEntry, CliError>(IgnoredEntry::Exact(found)),
            Err(origin) => result == Err::<IgnoredEntry, CliError>(
                CliError::IgnoredDirectories(path, origin),
            ),
        },
        forall|directory: Seq<u8>, value: Seq<u8>|
            task_of(directory, value) == IgnoredTaskView::Resolve(path@) ==> #[trigger] comes_of(
                directory,
                value,
                result,
            ),
{
    match canonical {
        Ok(found) => Ok(IgnoredEntry::Exact(found)),
        Err(origin) => Err(CliError::IgnoredDirectories(path, origin)),
    }
}

/// The pattern to pass over, or that it is none.
pub fn pattern_entry(pattern: Result<IgnoredEntry, PatternError>) -> (result: Result<
    IgnoredEntry,
    CliError,
>)
    ensures
        match pattern {
            Ok(entry) => result == Ok::<IgnoredEntry, CliError>(entry),
            Err(error) => result == Err::<IgnoredEntry, CliError>(CliError::IgnoredPattern(error)),
        },
        forall|directory: Seq<u8>, value: Seq<u8>|
            (task_of(directory, value) matches IgnoredTaskView::Compile(text) && match pattern {
                Ok(entry) => entry@ == crate::pattern::IgnoredEntryView::Pattern(text),
                Err(error) => PatternError::spelled(error@) == text,
            }) ==> #[trigger] comes_of(directory, value, result),
{
    match pattern {
        Ok(entry) => Ok(entry),
        Err(error) => Err(CliError::IgnoredPattern(error)),
    }
}

/// Whether the ignored entry `value`, of which `entry` came, stands for the
/// directory `path`: a pattern by the name of the directory, and a path by the
/// canonical one.
pub open spec fn value_ignores(
    directory: Seq<u8>,
    value: Seq<u8>,
    entry: crate::pattern::IgnoredEntryView,
    path: Seq<u8>,
) -> bool {
    match task_of(directory, value) {
        IgnoredTaskView::Compile(text) => crate::path::file_name(path) matches Some(name)
            && crate::pattern::regex_match(text, crate::text::utf8_lossy(name)),
        IgnoredTaskView::Resolve(_) => {
            &&& entry matches crate::pattern::IgnoredEntryView::Exact(canonical)
            &&& crate::path::path_key(canonical) == crate::path::path_key(path)
        },
    }
}

/// Where each entry came of one of the values on the command line, a directory
/// is passed over exactly where one of the values stands for it.
pub proof fn ignored_by_some_value(
    directory: Seq<u8>,
    values: Seq<Seq<u8>>,
    entries: Seq<Result<IgnoredEntry, CliError>>,
    path: Seq<u8>,
)
    requires
        values.len() == entries.len(),
        forall|i: int|
            0 <= i < entries.len() ==> #[trigger] entries[i] is Ok && comes_of(
                directory,
                values[i],
                entries[i],
            ),
    ensures
        crate::ignore::some_ignores(found_views(entries), path) == (exists|i: int|
            0 <= i < values.len() && #[trigger] value_ignores(
                directory,
                values[i],
                found_views(entries)[i],
                path,
            )),
{
    let found = found_views(entries);
    assert forall|i: int| 0 <= i < values.len() implies #[trigger] value_ignores(
        directory,
        values[i],
        found[i],
        path,
    ) == crate::ignore::entry_ignores(found[i], path) by {
        assert(entries[i] is Ok);
    }
    if crate::ignore::some_ignores(found, path) {
        let i = choose|i: int|
            0 <= i < found.len() && crate::ignore::entry_ignores(#[trigger] found[i], path);
        assert(value_ignores(directory, values[i], found[i], path));
    }
}

impl CliParsed {
    /// How to show what comes of it.
    pub fn mode(&self) -> (mode: Mode)
        ensures
            mode == self.mode,
    {
        self.mode
    }

    /// The walk from `root` on, and its first request.
    pub fn process(&self, root: EntryPath) -> (walk: (Walk, Request))
        ensures
            walk.0@ == crate::walk::WalkView::start(root@, self.recursive, self.jobs as nat),
            walk.1@ == crate::walk::RequestView::Open(root@),
    {
        if self.recursive {
            self.process_recursive(root)
        } else {
            self.process_standard(root)
        }
    }

    /// The walk over the directories in `root`.
    pub fn process_standard(&self, root: EntryPath) -> (walk: (Walk, Request))
        ensures
            walk.0@ == crate::walk::WalkView::start(root@, false, self.jobs as nat),
            walk.1@ == crate::walk::RequestView::Open(root@),
    {
        Walk::new(root, false, self.jobs)
    }

    /// The walk over `root` and all directories below.
    pub fn process_recursive(&self, root: EntryPath) -> (walk: (Walk, Request))
        ensures
            walk.0@ == crate::walk::WalkView::start(root@, true, self.jobs as nat),
            walk.1@ == crate::walk::RequestView::Open(root@),
    {
        Walk::new(root, true, self.jobs)
    }

    /// What an attempt to run the command in `entry` that ended so is reported
    /// as.
    pub fn process_output(&self, entry: EntryPath, outcome: Outcome) -> (report: Report)
        requires
            outcome is TimedOut ==> self.timeout is Some,
        ensures
            crate::process::report_view(report) == crate::process::outcome_report(
                self.command.0@,
                self.timeout,
                entry@,
                outcome,
            ),
    {
        match outcome {
            Outcome::Finished(output) => Ok((entry, output)),
            Outcome::NotSpawned(origin) => Err(
                ProcessError::ProcessSpawn { process: copy_bytes(&self.command.0), entry, origin },
            ),
            Outcome::Unreadable(origin) => Err(
                ProcessError::ProcessOutput { process: copy_bytes(&self.command.0), entry, origin },
            ),
            Outcome::TimedOut => {
                let timeout: Timeout = self.timeout.unwrap();
                let duration: String = timeout.display();
                Err(
                    ProcessError::Timeout {
                        process: copy_bytes(&self.command.0),
                        entry,
                        duration,
                    },
                )
            },
        }
    }
}

/// A value behind a `#` is to be compiled, all of it; any other is a path, as it
/// is seen from the directory to start at.
pub proof fn values_are_patterns_or_paths(directory: Seq<u8>, first: u8, rest: Seq<u8>)
    ensures
        task_of(directory, seq![first] + rest) == if first == 0x23 {
            IgnoredTaskView::Compile(crate::text::utf8_lossy(rest))
        } else if first == crate::path::SEPARATOR {
            IgnoredTaskView::Resolve(seq![first] + rest)
        } else {
            IgnoredTaskView::Resolve(crate::path::resolved(directory, seq![first] + rest))
        },
        task_of(directory, Seq::empty()) == IgnoredTaskView::Resolve(
            crate::path::resolved(directory, Seq::empty()),
        ),
{
    crate::pattern::marked_values_are_patterns(first, rest);
    crate::path::rooted_paths_start_with_separator(rest, first);
    crate::path::resolved_lies_under(directory, seq![first] + rest);
}

/// Every entry that could be had counts, in order.
pub proof fn found_entries_all_count(entries: Seq<Result<IgnoredEntry, CliError>>, index: int)
    requires
        0 <= index < entries.len(),
    ensures
        found_views(entries).len() == entries.len(),
        entries[index] matches Ok(entry) ==> found_views(entries)[index] == entry@,
{
}

/// There is a first error exactly where some entry could not be had, there is no
/// more than one, and all entries ahead of it could be had.
pub proof fn first_error_is_the_first(
    entries: Seq<Result<IgnoredEntry, CliError>>,
    index: int,
    other: int,
)
    requires
        0 <= index < entries.len(),
        0 <= other < entries.len(),
    ensures
        is_first_error(entries, index) ==> entries[index] is Err,
        is_first_error(entries, index) && entries[other] is Err ==> index <= other,
        entries[other] is Err ==> exists|i: int| #[trigger] is_first_error(entries, i),
    decreases other,
{
    if is_first_error(entries, index) && other < index {
        assert(entries[other] is Ok);
    }
    if entries[other] is Err && !is_first_error(entries, other) {
        let earlier = choose|i: int| 0 <= i < other && #[trigger] entries[i] is Err;
        first_error_is_the_first(entries, index, earlier);
    }
}

/// The words of an error name the directory, the pattern and the cause that it
/// holds, between the same words for all of them.
pub proof fn command_line_errors_name_what_they_hold(
    path: Seq<u8>,
    origin: crate::process::OsErrorView,
    text: Seq<char>,
)
    ensures
        CliErrorView::Command.words() == "vacant specified command"@,
        CliErrorView::CurrentDirectory(origin).words() == "current directory is unavailable as: "@
            + origin.description,
        CliErrorView::IgnoredDirectories(path, origin).words() == "an ignored directory ("@
            + crate::text::utf8_lossy(path) + ") is invalid as: "@ + origin.description,
        CliErrorView::IgnoredPattern(
            crate::pattern::PatternErrorView::Invalid(text),
        ).words() == "ignored pattern is unavailable as: "@ + ("the pattern ("@ + text
            + ") is invalid"@),
        CliErrorView::IgnoredPattern(
            crate::pattern::PatternErrorView::Miscompilation(text),
        ).words() == "ignored pattern is unavailable as: "@ + ("the pattern ("@ + text
            + ") could not compile"@),
{
}

} // verus!
