//! What running the command in one directory comes to.

use crate::path::EntryPath;
use crate::text::from_utf8_lossy;
use std::time::Duration;
use vstd::prelude::*;

verus! {

/// One second, in nanoseconds.
pub const NANOS_PER_SECOND: u32 = 1_000_000_000;

/// An error of the operating system: its number, where it has one, and what it
/// says.
#[derive(Debug)]
pub struct OsError {
    pub code: Option<i32>,
    pub description: String,
}

/// What an `OsError` holds.
pub struct OsErrorView {
    pub code: Option<i32>,
    pub description: Seq<char>,
}

impl View for OsError {
    type V = OsErrorView;

    open spec fn view(&self) -> OsErrorView {
        OsErrorView { code: self.code, description: self.description@ }
    }
}

/// What the command left behind: its exit code, where it has one, and what it
/// wrote.
#[derive(Debug)]
pub struct Output {
    pub code: Option<i32>,
    pub stdout: Vec<u8>,
    pub stderr: Vec<u8>,
}

/// What an `Output` holds.
pub struct OutputView {
    pub code: Option<i32>,
    pub stdout: Seq<u8>,
    pub stderr: Seq<u8>,
}

impl View for Output {
    type V = OutputView;

    open spec fn view(&self) -> OutputView {
        OutputView { code: self.code, stdout: self.stdout@, stderr: self.stderr@ }
    }
}

/// Why there is nothing to show for a directory.
#[derive(Debug)]
pub enum ProcessError {
    /// An entry of a directory changed while it was looked at.
    ModifiedEntry,
    /// The entries of a directory cannot be listed.
    SubDirectories { entry: EntryPath, origin: OsError },
    /// The command did not start.
    ProcessSpawn { process: Vec<u8>, entry: EntryPath, origin: OsError },
    /// The command ran, and what it wrote is lost.
    ProcessOutput { process: Vec<u8>, entry: EntryPath, origin: OsError },
    /// The command ran for too long.
    Timeout { process: Vec<u8>, entry: EntryPath, duration: String },
}

/// What a `ProcessError` holds.
pub enum ProcessErrorView {
    ModifiedEntry,
    SubDirectories { entry: Seq<u8>, origin: OsErrorView },
    ProcessSpawn { process: Seq<u8>, entry: Seq<u8>, origin: OsErrorView },
    ProcessOutput { process: Seq<u8>, entry: Seq<u8>, origin: OsErrorView },
    Timeout { process: Seq<u8>, entry: Seq<u8>, duration: Seq<char> },
}

impl View for ProcessError {
    type V = ProcessErrorView;

    open spec fn view(&self) -> ProcessErrorView {
        match self {
            ProcessError::ModifiedEntry => ProcessErrorView::ModifiedEntry,
            ProcessError::SubDirectories { entry, origin } => ProcessErrorView::SubDirectories {
                entry: entry@,
                origin: origin@,
            },
            ProcessError::ProcessSpawn { process, entry, origin } => ProcessErrorView::ProcessSpawn {
                process: process@,
                entry: entry@,
                origin: origin@,
            },
            ProcessError::ProcessOutput { process, entry, origin } => ProcessErrorView::ProcessOutput {
                process: process@,
                entry: entry@,
                origin: origin@,
            },
            ProcessError::Timeout { process, entry, duration } => ProcessErrorView::Timeout {
                process: process@,
                entry: entry@,
                duration: duration@,
            },
        }
    }
}

/// What is said of one directory: where, and what the command wrote there, or
/// why there is none of it.
pub type Report = Result<(EntryPath, Output), ProcessError>;

/// What a `Report` holds.
pub type ReportView = Result<(Seq<u8>, OutputView), ProcessErrorView>;

/// What a `Report` holds.
pub open spec fn report_view(report: Report) -> ReportView {
    match report {
        Ok((entry, output)) => Ok((entry@, output@)),
        Err(error) => Err(error@),
    }
}

impl ProcessErrorView {
    /// The error in words.
    pub open spec fn words(self) -> Seq<char> {
        match self {
            ProcessErrorView::ModifiedEntry =>
                "invalid directory entry from likely modification"@,
            ProcessErrorView::SubDirectories { entry, origin } => "subdirectories for "@
                + crate::text::utf8_lossy(entry) + " are unavailable as: "@ + origin.description,
            ProcessErrorView::ProcessSpawn { process, entry, origin } => "process "@
                + crate::text::utf8_lossy(process) + " for "@ + crate::text::utf8_lossy(entry)
                + " made unavailable as: "@ + origin.description,
            ProcessErrorView::ProcessOutput { process, entry, origin } => "process "@
                + crate::text::utf8_lossy(process) + " for "@ + crate::text::utf8_lossy(entry)
                + " has unavailable output as: "@ + origin.description,
            ProcessErrorView::Timeout { process, entry, duration } => "process "@
                + crate::text::utf8_lossy(process) + " for "@ + crate::text::utf8_lossy(entry)
                + " could not complete in "@ + duration,
        }
    }
}

/// The start of what is said of a command in a directory.
fn of_process(process: &Vec<u8>, entry: &EntryPath) -> (text: String)
    ensures
        text@ == "process "@ + crate::text::utf8_lossy(process@) + " for "@
            + crate::text::utf8_lossy(entry@),
{
    let mut text: String = "process ".to_owned();
    text.append(&from_utf8_lossy(process));
    text.append(" for ");
    text.append(&entry.display());
    text
}

impl ProcessError {
    /// The error in words.
    pub fn message(&self) -> (text: String)
        ensures
            text@ == self@.words(),
    {
        match self {
            ProcessError::ModifiedEntry =>
                "invalid directory entry from likely modification".to_owned(),
            ProcessError::SubDirectories { entry, origin } => {
                let mut text: String = "subdirectories for ".to_owned();
                text.append(&entry.display());
                text.append(" are unavailable as: ");
                text.append(&origin.description);
                text
            },
            ProcessError::ProcessSpawn { process, entry, origin } => {
                let mut text: String = of_process(process, entry);
                text.append(" made unavailable as: ");
                text.append(&origin.description);
                text
            },
            ProcessError::ProcessOutput { process, entry, origin } => {
                let mut text: String = of_process(process, entry);
                text.append(" has unavailable output as: ");
                text.append(&origin.description);
                text
            },
            ProcessError::Timeout { process, entry, duration } => {
                let mut text: String = of_process(process, entry);
                text.append(" could not complete in ");
                text.append(duration);
                text
            },
        }
    }
}

/// The text that `humantime::format_duration` shows for a span of time.
pub uninterp spec fn duration_text(secs: u64, nanos: u32) -> Seq<char>;

/// Calls `humantime::format_duration` and takes the text that it shows. The
/// text is a function of the span; no time at all is `0s`.
#[verifier::external_body]
fn format_duration(secs: u64, nanos: u32) -> (text: String)
    requires
        nanos < NANOS_PER_SECOND,
    ensures
        text@ == duration_text(secs, nanos),
        secs == 0 && nanos == 0 ==> text@ == "0s"@,
{
    humantime::format_duration(Duration::new(secs, nanos)).to_string()
}

/// How long the command may run in one directory.
#[derive(Debug, Clone, Copy)]
pub struct Timeout {
    secs: u64,
    nanos: u32,
}

impl Timeout {
    #[verifier::type_invariant]
    spec fn well_formed(self) -> bool {
        self.nanos < NANOS_PER_SECOND
    }

    /// The whole seconds.
    pub closed spec fn spec_secs(self) -> u64 {
        self.secs
    }

    /// What is left of a second, in nanoseconds.
    pub closed spec fn spec_nanos(self) -> u32 {
        self.nanos
    }

    /// The span as text.
    pub open spec fn words(self) -> Seq<char> {
        duration_text(self.spec_secs(), self.spec_nanos())
    }

    /// The span of `secs` seconds and `nanos` nanoseconds.
    pub fn new(secs: u64, nanos: u32) -> (timeout: Timeout)
        requires
            nanos < NANOS_PER_SECOND,
        ensures
            timeout.spec_secs() == secs,
            timeout.spec_nanos() == nanos,
    {
        Timeout { secs, nanos }
    }

    /// The whole seconds.
    pub fn secs(&self) -> (secs: u64)
        ensures
            secs == self.spec_secs(),
    {
        self.secs
    }

    /// What is left of a second, in nanoseconds.
    pub fn nanos(&self) -> (nanos: u32)
        ensures
            nanos == self.spec_nanos(),
            nanos < NANOS_PER_SECOND,
    {
        proof {
            use_type_invariant(self);
        }
        self.nanos
    }

    /// The span as text.
    pub fn display(&self) -> (text: String)
        ensures
            text@ == self.words(),
            self.spec_secs() == 0 && self.spec_nanos() == 0 ==> text@ == "0s"@,
    {
        proof {
            use_type_invariant(self);
        }
        format_duration(self.secs, self.nanos)
    }
}

/// How an attempt to run the command in a directory ended.
#[derive(Debug)]
pub enum Outcome {
    /// The command did not start.
    NotSpawned(OsError),
    /// The time was up before the command was done.
    TimedOut,
    /// The command ran, and what it wrote cannot be had.
    Unreadable(OsError),
    /// The command ran to its end.
    Finished(Output),
}

/// What an attempt to run `process` in `entry`, for `timeout` at most, that
/// ended so is reported as.
pub open spec fn outcome_report(
    process: Seq<u8>,
    timeout: Option<Timeout>,
    entry: Seq<u8>,
    outcome: Outcome,
) -> ReportView {
    match outcome {
        Outcome::NotSpawned(origin) => Err(
            ProcessErrorView::ProcessSpawn { process, entry, origin: origin@ },
        ),
        Outcome::TimedOut => Err(
            ProcessErrorView::Timeout { process, entry, duration: timeout->0.words() },
        ),
        Outcome::Unreadable(origin) => Err(
            ProcessErrorView::ProcessOutput { process, entry, origin: origin@ },
        ),
        Outcome::Finished(output) => Ok((entry, output@)),
    }
}

/// The directory that a report is on, where it names one.
pub open spec fn reported_on(report: ReportView) -> Option<Seq<u8>> {
    match report {
        Ok((entry, _)) => Some(entry),
        Err(ProcessErrorView::ModifiedEntry) => None,
        Err(ProcessErrorView::SubDirectories { entry, .. }) => Some(entry),
        Err(ProcessErrorView::ProcessSpawn { entry, .. }) => Some(entry),
        Err(ProcessErrorView::ProcessOutput { entry, .. }) => Some(entry),
        Err(ProcessErrorView::Timeout { entry, .. }) => Some(entry),
    }
}

/// Every report on a command names the directory that the command was for, and
/// is recorded under it.
pub proof fn outcome_names_its_directory(
    process: Seq<u8>,
    timeout: Option<Timeout>,
    entry: Seq<u8>,
    outcome: Outcome,
)
    ensures
        reported_on(outcome_report(process, timeout, entry, outcome)) == Some(entry),
        crate::json::record_of(outcome_report(process, timeout, entry, outcome)) matches Some(record)
            && record.0 == entry,
{
}

/// The same bytes again.
pub(crate) fn copy_bytes(bytes: &Vec<u8>) -> (copy: Vec<u8>)
    ensures
        copy@ == bytes@,
{
    let copy: Vec<u8> = bytes.clone();
    assert(copy@ =~= bytes@);
    copy
}

/// A command that ran to its end is reported with all that it left behind, in the
/// directory that it ran in; every other outcome is an error that keeps what the
/// system said, the command and the directory.
pub proof fn outcomes_are_kept(
    process: Seq<u8>,
    timeout: Timeout,
    entry: Seq<u8>,
    output: Output,
    origin: OsError,
)
    ensures
        outcome_report(process, Some(timeout), entry, Outcome::Finished(output)) matches Ok((at, left))
            && at == entry && left.code == output.code && left.stdout == output.stdout@
            && left.stderr == output.stderr@,
        outcome_report(process, None, entry, Outcome::Finished(output)) == outcome_report(
            process,
            Some(timeout),
            entry,
            Outcome::Finished(output),
        ),
        outcome_report(process, Some(timeout), entry, Outcome::NotSpawned(origin)) matches Err(
            ProcessErrorView::ProcessSpawn { process: named, entry: at, origin: why },
        ) && named == process && at == entry && why.code == origin.code && why.description
            == origin.description@,
        outcome_report(process, Some(timeout), entry, Outcome::Unreadable(origin)) matches Err(
            ProcessErrorView::ProcessOutput { process: named, entry: at, origin: why },
        ) && named == process && at == entry && why.code == origin.code && why.description
            == origin.description@,
        outcome_report(process, Some(timeout), entry, Outcome::TimedOut) matches Err(
            ProcessErrorView::Timeout { process: named, entry: at, duration },
        ) && named == process && at == entry && duration == duration_text(
            timeout.spec_secs(),
            timeout.spec_nanos(),
        ),
        outcome_report(process, None, entry, Outcome::NotSpawned(origin)) == outcome_report(
            process,
            Some(timeout),
            entry,
            Outcome::NotSpawned(origin),
        ),
        outcome_report(process, None, entry, Outcome::Unreadable(origin)) == outcome_report(
            process,
            Some(timeout),
            entry,
            Outcome::Unreadable(origin),
        ),
{
}

/// The words of an error name the command, the directory and the cause that it
/// holds, in this order, between the same words for all of them.
pub proof fn errors_name_what_they_hold(
    process: Seq<u8>,
    entry: Seq<u8>,
    origin: OsErrorView,
    duration: Seq<char>,
)
    ensures
        ({
            let of = "process "@ + crate::text::utf8_lossy(process) + " for "@
                + crate::text::utf8_lossy(entry);
            &&& ProcessErrorView::ModifiedEntry.words()
                == "invalid directory entry from likely modification"@
            &&& (ProcessErrorView::SubDirectories { entry, origin }).words()
                == "subdirectories for "@ + crate::text::utf8_lossy(entry)
                + " are unavailable as: "@ + origin.description
            &&& (ProcessErrorView::ProcessSpawn { process, entry, origin }).words() == of
                + " made unavailable as: "@ + origin.description
            &&& (ProcessErrorView::ProcessOutput { process, entry, origin }).words() == of
                + " has unavailable output as: "@ + origin.description
            &&& (ProcessErrorView::Timeout { process, entry, duration }).words() == of
                + " could not complete in "@ + duration
        }),
{
}

} // verus!
