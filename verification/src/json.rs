//! The record of what came of every directory, as it is written out in JSON.

use crate::path::EntryPath;
use crate::process::{ProcessError, Report};
use crate::text::from_utf8_lossy;
use vstd::prelude::*;

verus! {

/// How to show what the command wrote.
#[derive(Debug, Clone, Copy, PartialEq, Eq, Structural)]
pub enum Mode {
    /// All at once, as JSON.
    Json,
    /// All at once, as JSON over several lines.
    JsonPretty,
    /// Directory by directory, as it comes.
    Standard,
}

/// Why a directory has no output on record.
#[derive(Debug)]
pub enum ProcessedError {
    Spawn { process: String, code: Option<i32>, description: String },
    Output { process: String, code: Option<i32>, description: String },
    Timeout { process: String, duration: String },
    SubDirectories { code: Option<i32>, description: String },
}

/// What is on record for a directory.
#[derive(Debug)]
pub enum ProcessedEntry {
    Error(ProcessedError),
    Success { stdout: String, stderr: String },
}

/// What a `ProcessedError` holds.
pub enum ProcessedErrorView {
    Spawn { process: Seq<char>, code: Option<i32>, description: Seq<char> },
    Output { process: Seq<char>, code: Option<i32>, description: Seq<char> },
    Timeout { process: Seq<char>, duration: Seq<char> },
    SubDirectories { code: Option<i32>, description: Seq<char> },
}

/// What a `ProcessedEntry` holds.
pub enum ProcessedEntryView {
    Error(ProcessedErrorView),
    Success { stdout: Seq<char>, stderr: Seq<char> },
}

impl View for ProcessedError {
    type V = ProcessedErrorView;

    open spec fn view(&self) -> ProcessedErrorView {
        match self {
            ProcessedError::Spawn { process, code, description } => ProcessedErrorView::Spawn {
                process: process@,
                code: *code,
                description: description@,
            },
            ProcessedError::Output { process, code, description } => ProcessedErrorView::Output {
                process: process@,
                code: *code,
                description: description@,
            },
            ProcessedError::Timeout { process, duration } => ProcessedErrorView::Timeout {
                process: process@,
                duration: duration@,
            },
            ProcessedError::SubDirectories { code, description } => ProcessedErrorView::SubDirectories {
                code: *code,
                description: description@,
            },
        }
    }
}

impl View for ProcessedEntry {
    type V = ProcessedEntryView;

    open spec fn view(&self) -> ProcessedEntryView {
        match self {
            ProcessedEntry::Error(error) => ProcessedEntryView::Error(error@),
            ProcessedEntry::Success { stdout, stderr } => ProcessedEntryView::Success {
                stdout: stdout@,
                stderr: stderr@,
            },
        }
    }
}

/// The record: what came of each directory, and how many entries changed
/// before anything could be said of them.
#[derive(Debug)]
pub struct ProcessedEntries {
    unknown: usize,
    processed: Vec<(EntryPath, ProcessedEntry)>,
}

/// What a `ProcessedEntries` holds: for each directory the path that it was
/// first reported under, and what is on record.
#[verifier::ext_equal]
pub struct ProcessedView {
    pub unknown: nat,
    pub processed: Map<crate::path::PathKey, (Seq<u8>, ProcessedEntryView)>,
}

/// Whether the record at `index` is that of the directory `key`.
pub open spec fn is_record_of(
    records: Seq<(EntryPath, ProcessedEntry)>,
    index: int,
    key: crate::path::PathKey,
) -> bool {
    0 <= index < records.len() && crate::path::path_key(records[index].0@) == key
}

/// The records by directory.
pub open spec fn record_map(records: Seq<(EntryPath, ProcessedEntry)>) -> Map<
    crate::path::PathKey,
    (Seq<u8>, ProcessedEntryView),
> {
    Map::new(
        |key: crate::path::PathKey| exists|i: int| is_record_of(records, i, key),
        |key: crate::path::PathKey|
            {
                let i = choose|i: int| is_record_of(records, i, key);
                (records[i].0@, records[i].1@)
            },
    )
}

/// Whether no directory has two records.
pub open spec fn records_differ(records: Seq<(EntryPath, ProcessedEntry)>) -> bool {
    forall|i: int, j: int|
        0 <= i < j < records.len() ==> crate::path::path_key((#[trigger] records[i]).0@)
            != crate::path::path_key((#[trigger] records[j]).0@)
}

impl View for ProcessedEntries {
    type V = ProcessedView;

    closed spec fn view(&self) -> ProcessedView {
        ProcessedView { unknown: self.unknown as nat, processed: record_map(self.processed@) }
    }
}

/// What goes on record for a report, and for which directory; `None` where an
/// entry changed and no directory is known.
pub open spec fn record_of(report: crate::process::ReportView) -> Option<
    (Seq<u8>, ProcessedEntryView),
> {
    match report {
        Ok((entry, output)) => Some(
            (
                entry,
                ProcessedEntryView::Success {
                    stdout: crate::text::utf8_lossy(output.stdout),
                    stderr: crate::text::utf8_lossy(output.stderr),
                },
            ),
        ),
        Err(crate::process::ProcessErrorView::ModifiedEntry) => None,
        Err(crate::process::ProcessErrorView::ProcessSpawn { process, entry, origin }) => Some(
            (
                entry,
                ProcessedEntryView::Error(
                    ProcessedErrorView::Spawn {
                        process: crate::text::utf8_lossy(process),
                        code: origin.code,
                        description: origin.description,
                    },
                ),
            ),
        ),
        Err(crate::process::ProcessErrorView::ProcessOutput { process, entry, origin }) => Some(
            (
                entry,
                ProcessedEntryView::Error(
                    ProcessedErrorView::Output {
                        process: crate::text::utf8_lossy(process),
                        code: origin.code,
                        description: origin.description,
                    },
                ),
            ),
        ),
        Err(crate::process::ProcessErrorView::Timeout { process, entry, duration }) => Some(
            (
                entry,
                ProcessedEntryView::Error(
                    ProcessedErrorView::Timeout {
                        process: crate::text::utf8_lossy(process),
                        duration,
                    },
                ),
            ),
        ),
        Err(crate::process::ProcessErrorView::SubDirectories { entry, origin }) => Some(
            (
                entry,
                ProcessedEntryView::Error(
                    ProcessedErrorView::SubDirectories {
                        code: origin.code,
                        description: origin.description,
                    },
                ),
            ),
        ),
    }
}

/// What a list of reports holds.
pub open spec fn report_views(reports: Seq<Report>) -> Seq<crate::process::ReportView> {
    Seq::new(reports.len(), |i: int| crate::process::report_view(reports[i]))
}

/// How many of the reports are of entries that changed.
pub open spec fn count_unknown(reports: Seq<crate::process::ReportView>) -> nat
    decreases reports.len(),
{
    if reports.len() == 0 {
        0
    } else {
        count_unknown(reports.drop_last()) + if record_of(reports.last()) is None {
            1nat
        } else {
            0nat
        }
    }
}

impl ProcessedView {
    /// Nothing on record.
    pub open spec fn nothing() -> ProcessedView {
        ProcessedView { unknown: 0, processed: Map::empty() }
    }

    /// With `record` for the directory `path`, in place of any that it had.
    pub open spec fn recorded(self, path: Seq<u8>, record: ProcessedEntryView) -> ProcessedView {
        let key = crate::path::path_key(path);
        let spelled = if self.processed.dom().contains(key) {
            self.processed[key].0
        } else {
            path
        };
        ProcessedView { processed: self.processed.insert(key, (spelled, record)), ..self }
    }

    /// With one more report.
    pub open spec fn inserted(self, report: crate::process::ReportView) -> ProcessedView {
        match record_of(report) {
            Some((path, record)) => self.recorded(path, record),
            None => ProcessedView { unknown: self.unknown + 1, ..self },
        }
    }

    /// With more reports, one after the other.
    pub open spec fn extended(self, reports: Seq<crate::process::ReportView>) -> ProcessedView
        decreases reports.len(),
    {
        if reports.len() == 0 {
            self
        } else {
            self.extended(reports.drop_last()).inserted(reports.last())
        }
    }
}

/// Where no directory has two records, the record of one is found by any of its
/// indices.
proof fn record_is_unique(records: Seq<(EntryPath, ProcessedEntry)>, index: int)
    requires
        records_differ(records),
        0 <= index < records.len(),
    ensures
        record_map(records).dom().contains(crate::path::path_key(records[index].0@)),
        record_map(records)[crate::path::path_key(records[index].0@)] == (
            records[index].0@,
            records[index].1@,
        ),
{
    let key = crate::path::path_key(records[index].0@);
    assert(is_record_of(records, index, key));
    let chosen = choose|i: int| is_record_of(records, i, key);
    assert(is_record_of(records, chosen, key));
    assert(chosen == index) by {
        if chosen < index {
            assert(crate::path::path_key(records[chosen].0@) != crate::path::path_key(
                records[index].0@,
            ));
        }
        if index < chosen {
            assert(crate::path::path_key(records[index].0@) != crate::path::path_key(
                records[chosen].0@,
            ));
        }
    }
}

/// Two lists with one record per directory that differ in the record at `index`
/// alone differ as maps in the record of that directory alone.
proof fn map_after_change(
    before: Seq<(EntryPath, ProcessedEntry)>,
    after: Seq<(EntryPath, ProcessedEntry)>,
    index: int,
)
    requires
        records_differ(before),
        records_differ(after),
        0 <= index <= before.len(),
        index < after.len(),
        after.len() == if index < before.len() { before.len() } else { before.len() + 1 },
        index < before.len() ==> crate::path::path_key(after[index].0@) == crate::path::path_key(
            before[index].0@,
        ),
        forall|i: int| 0 <= i < before.len() && i != index ==> #[trigger] after[i] == before[i],
    ensures
        record_map(after) == record_map(before).insert(
            crate::path::path_key(after[index].0@),
            (after[index].0@, after[index].1@),
        ),
{
    let changed = crate::path::path_key(after[index].0@);
    let expected = record_map(before).insert(changed, (after[index].0@, after[index].1@));
    record_is_unique(after, index);
    assert forall|key: crate::path::PathKey| #[trigger]
        record_map(before).dom().contains(key) && key != changed implies record_map(
        after,
    ).dom().contains(key) && record_map(after)[key] == record_map(before)[key] by {
        let i = choose|i: int| is_record_of(before, i, key);
        assert(is_record_of(before, i, key));
        assert(after[i] == before[i]);
        record_is_unique(before, i);
        record_is_unique(after, i);
    }
    assert forall|key: crate::path::PathKey| #[trigger]
        record_map(after).dom().contains(key) && key != changed implies record_map(
        before,
    ).dom().contains(key) by {
        let i = choose|i: int| is_record_of(after, i, key);
        assert(is_record_of(after, i, key));
        assert(after[i] == before[i]);
        assert(is_record_of(before, i, key));
    }
    assert(record_map(after).dom() =~= expected.dom());
    assert(record_map(after) =~= expected);
}

/// Puts `record` down for the directory `path`, in place of any that it had.
fn put(records: &mut Vec<(EntryPath, ProcessedEntry)>, path: EntryPath, record: ProcessedEntry)
    requires
        records_differ(old(records)@),
    ensures
        records_differ(final(records)@),
        record_map(final(records)@) == (ProcessedView {
            unknown: 0,
            processed: record_map(old(records)@),
        }).recorded(path@, record@).processed,
{
    let ghost before = records@;
    let ghost key = crate::path::path_key(path@);
    let ghost text = record@;
    let mut i: usize = 0;
    while i < records.len()
        invariant
            i <= records.len(),
            records@ == before,
            before == old(records)@,
            records_differ(before),
            key == crate::path::path_key(path@),
            text == record@,
            forall|j: int|
                0 <= j < i ==> crate::path::path_key((#[trigger] before[j]).0@) != key,
        decreases records.len() - i,
    {
        if records[i].0.is_same(&path) {
            let spelled: EntryPath = records[i].0.clone();
            records[i] = (spelled, record);
            let ghost after = records@;
            proof {
                assert forall|j: int, k: int| 0 <= j < k < after.len() implies crate::path::path_key(
                    (#[trigger] after[j]).0@,
                ) != crate::path::path_key((#[trigger] after[k]).0@) by {
                    assert(crate::path::path_key(before[j].0@) != crate::path::path_key(
                        before[k].0@,
                    ));
                }
                assert(after[i as int].0@ == before[i as int].0@ && after[i as int].1@ == text);
                record_is_unique(before, i as int);
                map_after_change(before, after, i as int);
            }
            return;
        }
        i = i + 1;
    }
    records.push((path, record));
    let ghost after = records@;
    proof {
        assert(forall|j: int| 0 <= j < before.len() ==> #[trigger] after[j] == before[j]);
        assert forall|j: int, k: int| 0 <= j < k < after.len() implies crate::path::path_key(
            (#[trigger] after[j]).0@,
        ) != crate::path::path_key((#[trigger] after[k]).0@) by {
            if k == before.len() {
                assert(before[j] == after[j]);
            } else {
                assert(before[j] == after[j] && before[k] == after[k]);
            }
        }
        assert(!record_map(before).dom().contains(key)) by {
            if record_map(before).dom().contains(key) {
                let j = choose|j: int| is_record_of(before, j, key);
                assert(is_record_of(before, j, key));
            }
        }
        map_after_change(before, after, before.len() as int);
    }
}

impl ProcessedEntries {
    #[verifier::type_invariant]
    spec fn well_formed(self) -> bool {
        records_differ(self.processed@)
    }

    /// How many entries changed before anything could be said of them.
    pub fn unknown(&self) -> (count: usize)
        ensures
            count == self@.unknown,
    {
        self.unknown
    }

    /// The records, one for each directory.
    pub fn processed(&self) -> (records: &Vec<(EntryPath, ProcessedEntry)>)
        ensures
            record_map(records@) == self@.processed,
            records_differ(records@),
    {
        proof {
            use_type_invariant(self);
        }
        &self.processed
    }

    /// Puts `record` down for the directory `path`.
    fn record(&mut self, path: EntryPath, record: ProcessedEntry)
        ensures
            final(self)@ == old(self)@.recorded(path@, record@),
    {
        proof {
            use_type_invariant(&*self);
        }
        let mut records: Vec<(EntryPath, ProcessedEntry)> = Vec::new();
        std::mem::swap(&mut self.processed, &mut records);
        put(&mut records, path, record);
        self.processed = records;
    }

    /// Puts one more report on record.
    pub fn insert(&mut self, processed: Report)
        requires
            record_of(crate::process::report_view(processed)) is None ==> old(self)@.unknown
                < usize::MAX,
        ensures
            final(self)@ == old(self)@.inserted(crate::process::report_view(processed)),
            processed matches Ok((entry, output)) ==> {
                &&& final(self)@.processed.dom().contains(crate::path::path_key(entry@))
                &&& final(self)@.processed[crate::path::path_key(entry@)].1 is Success
                &&& vstd::utf8::valid_utf8(output.stdout@)
                    ==> final(self)@.processed[crate::path::path_key(entry@)].1->stdout
                    == vstd::utf8::decode_utf8(output.stdout@)
                &&& vstd::utf8::valid_utf8(output.stderr@)
                    ==> final(self)@.processed[crate::path::path_key(entry@)].1->stderr
                    == vstd::utf8::decode_utf8(output.stderr@)
                &&& vstd::utf8::valid_utf8(output.stdout@) ==> crate::text::utf8_lossy(
                    output.stdout@,
                ) == vstd::utf8::decode_utf8(output.stdout@)
                &&& vstd::utf8::valid_utf8(output.stderr@) ==> crate::text::utf8_lossy(
                    output.stderr@,
                ) == vstd::utf8::decode_utf8(output.stderr@)
            },
    {
        proof {
            use_type_invariant(&*self);
        }
        match processed {
            Ok((entry, output)) => {
                let record: ProcessedEntry = ProcessedEntry::Success {
                    stdout: from_utf8_lossy(&output.stdout),
                    stderr: from_utf8_lossy(&output.stderr),
                };
                self.record(entry, record);
            },
            Err(ProcessError::ModifiedEntry) => {
                self.unknown = self.unknown + 1;
            },
            Err(ProcessError::ProcessSpawn { process, entry, origin }) => {
                let error: ProcessedError = ProcessedError::Spawn {
                    process: from_utf8_lossy(&process),
                    code: origin.code,
                    description: origin.description,
                };
                self.record(entry, ProcessedEntry::Error(error));
            },
            Err(ProcessError::ProcessOutput { process, entry, origin }) => {
                let error: ProcessedError = ProcessedError::Output {
                    process: from_utf8_lossy(&process),
                    code: origin.code,
                    description: origin.description,
                };
                self.record(entry, ProcessedEntry::Error(error));
            },
            Err(ProcessError::Timeout { process, entry, duration }) => {
                let error: ProcessedError = ProcessedError::Timeout {
                    process: from_utf8_lossy(&process),
                    duration,
                };
                self.record(entry, ProcessedEntry::Error(error));
            },
            Err(ProcessError::SubDirectories { entry, origin }) => {
                let error: ProcessedError = ProcessedError::SubDirectories {
                    code: origin.code,
                    description: origin.description,
                };
                self.record(entry, ProcessedEntry::Error(error));
            },
        }
    }

    /// Puts more reports on record, one after the other.
    pub fn extend(&mut self, processed: Vec<Report>)
        requires
            old(self)@.unknown + count_unknown(report_views(processed@)) <= usize::MAX,
        ensures
            final(self)@ == old(self)@.extended(report_views(processed@)),
    {
        let ghost views = report_views(processed@);
        let ghost before = self@;
        assert(views.take(0) == Seq::<crate::process::ReportView>::empty());
        for report in iter: processed
            invariant
                iter.seq().len() == views.len(),
                forall|i: int|
                    0 <= i < views.len() ==> crate::process::report_view(#[trigger] iter.seq()[i])
                        == views[i],
                self@ == before.extended(views.take(iter.index() as int)),
                before.unknown + count_unknown(views) <= usize::MAX,
        {
            let ghost index = iter.index() as int;
            proof {
                assert(views.take(index + 1).drop_last() == views.take(index));
                unknown_is_counted(before, views.take(index));
                count_grows(views, index + 1);
            }
            self.insert(report);
        }
        assert(views.take(views.len() as int) == views);
    }
}

impl Default for ProcessedEntries {
    fn default() -> (empty: Self)
        ensures
            empty@ == ProcessedView::nothing(),
    {
        let processed: Vec<(EntryPath, ProcessedEntry)> = Vec::new();
        assert(record_map(processed@) =~= Map::empty());
        ProcessedEntries { unknown: 0, processed }
    }
}

/// A part of the reports holds no more changed entries than all of them.
proof fn count_grows(reports: Seq<crate::process::ReportView>, length: int)
    requires
        0 <= length <= reports.len(),
    ensures
        count_unknown(reports.take(length)) <= count_unknown(reports),
    decreases reports.len() - length,
{
    if length < reports.len() {
        count_grows(reports, length + 1);
        assert(reports.take(length + 1).drop_last() == reports.take(length));
    } else {
        assert(reports.take(length) == reports);
    }
}

/// The count of changed entries goes up by one for each report of one, and by
/// nothing else.
pub proof fn unknown_is_counted(
    records: ProcessedView,
    reports: Seq<crate::process::ReportView>,
)
    ensures
        records.extended(reports).unknown == records.unknown + count_unknown(reports),
    decreases reports.len(),
{
    if reports.len() > 0 {
        unknown_is_counted(records, reports.drop_last());
    }
}

/// Whether the report is of the directory `key`.
pub open spec fn is_report_of(
    report: crate::process::ReportView,
    key: crate::path::PathKey,
) -> bool {
    record_of(report) matches Some((path, _)) && crate::path::path_key(path) == key
}

/// A directory has a record exactly where it had one before or one of the
/// reports is of it.
pub proof fn recorded_where_reported(
    records: ProcessedView,
    reports: Seq<crate::process::ReportView>,
    key: crate::path::PathKey,
)
    ensures
        records.extended(reports).processed.dom().contains(key) == (
        records.processed.dom().contains(key) || exists|i: int|
            0 <= i < reports.len() && is_report_of(#[trigger] reports[i], key)),
    decreases reports.len(),
{
    if reports.len() > 0 {
        let shorter = reports.drop_last();
        recorded_where_reported(records, shorter, key);
        if exists|i: int| 0 <= i < shorter.len() && is_report_of(#[trigger] shorter[i], key) {
            let i = choose|i: int| 0 <= i < shorter.len() && is_report_of(#[trigger] shorter[i], key);
            assert(reports[i] == shorter[i]);
        }
        if is_report_of(reports.last(), key) {
            assert(is_report_of(reports[reports.len() - 1], key));
        }
        if exists|i: int| 0 <= i < reports.len() && is_report_of(#[trigger] reports[i], key) {
            let i = choose|i: int| 0 <= i < reports.len() && is_report_of(#[trigger] reports[i], key);
            if i < shorter.len() {
                assert(shorter[i] == reports[i]);
            }
        }
    }
}

/// Whether the report at `index` is of the directory `key`, and none behind it.
pub open spec fn is_last_report_of(
    reports: Seq<crate::process::ReportView>,
    index: int,
    key: crate::path::PathKey,
) -> bool {
    &&& 0 <= index < reports.len() && is_report_of(reports[index], key)
    &&& forall|i: int| index < i < reports.len() ==> !is_report_of(#[trigger] reports[i], key)
}

/// Whether the report at `index` is of the directory `key`, and none before it.
pub open spec fn is_first_report_of(
    reports: Seq<crate::process::ReportView>,
    index: int,
    key: crate::path::PathKey,
) -> bool {
    &&& 0 <= index < reports.len() && is_report_of(reports[index], key)
    &&& forall|i: int| 0 <= i < index ==> !is_report_of(#[trigger] reports[i], key)
}

/// After any reports, the record of a directory is that of the last of them that
/// is of it, under the path that it had before, or else that of the first one;
/// a directory that none is of keeps what it had.
pub proof fn last_report_stands(
    records: ProcessedView,
    reports: Seq<crate::process::ReportView>,
    key: crate::path::PathKey,
)
    ensures
        forall|i: int| #[trigger]
            is_last_report_of(reports, i, key) ==> records.extended(reports).processed[key].1 == (
            record_of(reports[i])->0).1,
        forall|i: int| #[trigger]
            is_first_report_of(reports, i, key) && !records.processed.dom().contains(key)
                ==> records.extended(reports).processed[key].0 == (record_of(reports[i])->0).0,
        records.processed.dom().contains(key) ==> records.extended(reports).processed[key].0
            == records.processed[key].0,
        (forall|i: int| 0 <= i < reports.len() ==> !is_report_of(#[trigger] reports[i], key))
            ==> records.extended(reports).processed[key] == records.processed[key],
    decreases reports.len(),
{
    if reports.len() > 0 {
        let shorter = reports.drop_last();
        let last = reports.len() - 1;
        last_report_stands(records, shorter, key);
        recorded_where_reported(records, shorter, key);
        assert(forall|i: int| 0 <= i < shorter.len() ==> #[trigger] shorter[i] == reports[i]);
        assert forall|i: int| #[trigger] is_last_report_of(reports, i, key) implies records.extended(
            reports,
        ).processed[key].1 == (record_of(reports[i])->0).1 by {
            if i < last {
                assert(!is_report_of(reports[last], key));
                assert(is_last_report_of(shorter, i, key));
            }
        }
        assert forall|i: int| #[trigger]
            is_first_report_of(reports, i, key) && !records.processed.dom().contains(
                key,
            ) implies records.extended(reports).processed[key].0 == (record_of(reports[i])->0).0 by {
            if i < last {
                assert(is_first_report_of(shorter, i, key));
                assert(is_report_of(shorter[i], key));
            }
        }
        if forall|i: int| 0 <= i < reports.len() ==> !is_report_of(#[trigger] reports[i], key) {
            assert(!is_report_of(reports[last], key));
        }
    }
}

/// The order in which two directories report makes no difference.
pub proof fn reports_commute(
    records: ProcessedView,
    left: crate::process::ReportView,
    right: crate::process::ReportView,
)
    requires
        record_of(left) matches Some((path, _)) ==> !is_report_of(
            right,
            crate::path::path_key(path),
        ),
    ensures
        records.inserted(left).inserted(right) == records.inserted(right).inserted(left),
{
    let one = records.inserted(left).inserted(right);
    let other = records.inserted(right).inserted(left);
    assert(one.processed =~= other.processed);
}

/// What a command wrote goes on record whole, whatever its exit code: both
/// outputs, as text, under the directory that it ran in.
pub proof fn outputs_go_on_record(
    records: ProcessedView,
    entry: Seq<u8>,
    output: crate::process::OutputView,
)
    ensures
        records.inserted(Ok((entry, output))).processed.dom().contains(
            crate::path::path_key(entry),
        ),
        records.inserted(Ok((entry, output))).processed[crate::path::path_key(entry)].1
            == (ProcessedEntryView::Success {
            stdout: crate::text::utf8_lossy(output.stdout),
            stderr: crate::text::utf8_lossy(output.stderr),
        }),
{
}

/// An error goes on record as what it is, with the command, the number and the
/// words that it came with, under the directory that it is on.
pub proof fn errors_go_on_record(
    records: ProcessedView,
    process: Seq<u8>,
    entry: Seq<u8>,
    origin: crate::process::OsErrorView,
    duration: Seq<char>,
)
    ensures
        ({
            let spawn = crate::process::ProcessErrorView::ProcessSpawn { process, entry, origin };
            let output = crate::process::ProcessErrorView::ProcessOutput { process, entry, origin };
            let timeout = crate::process::ProcessErrorView::Timeout { process, entry, duration };
            let closed = crate::process::ProcessErrorView::SubDirectories { entry, origin };
            let key = crate::path::path_key(entry);
            let name = crate::text::utf8_lossy(process);
            &&& records.inserted(Err(spawn)).processed[key].1 matches ProcessedEntryView::Error(
                ProcessedErrorView::Spawn { process: named, code, description },
            ) && named == name && code == origin.code && description == origin.description
            &&& records.inserted(Err(output)).processed[key].1 matches ProcessedEntryView::Error(
                ProcessedErrorView::Output { process: named, code, description },
            ) && named == name && code == origin.code && description == origin.description
            &&& records.inserted(Err(timeout)).processed[key].1 matches ProcessedEntryView::Error(
                ProcessedErrorView::Timeout { process: named, duration: span },
            ) && named == name && span == duration
            &&& records.inserted(Err(closed)).processed[key].1 matches ProcessedEntryView::Error(
                ProcessedErrorView::SubDirectories { code, description },
            ) && code == origin.code && description == origin.description
        }),
{
}

/// A report changes the record of the directory that it is on and of no other,
/// and counts no changed entry; the path on record stays that of the first report.
/// A report on a changed entry counts one, and changes no record.
pub proof fn one_report_changes_one_record(
    records: ProcessedView,
    report: crate::process::ReportView,
    other: crate::path::PathKey,
)
    ensures
        match crate::process::reported_on(report) {
            Some(path) => {
                let key = crate::path::path_key(path);
                let after = records.inserted(report);
                &&& after.unknown == records.unknown
                &&& after.processed.dom() == records.processed.dom().insert(key)
                &&& after.processed[key].0 == if records.processed.dom().contains(key) {
                    records.processed[key].0
                } else {
                    path
                }
                &&& other != key ==> after.processed[other] == records.processed[other]
            },
            None => {
                let after = records.inserted(report);
                after.unknown == records.unknown + 1 && after.processed == records.processed
            },
        },
        crate::process::reported_on(report) is None <==> report == Err::<
            (Seq<u8>, crate::process::OutputView),
            crate::process::ProcessErrorView,
        >(crate::process::ProcessErrorView::ModifiedEntry),
        is_report_of(report, other) == (crate::process::reported_on(report) matches Some(path)
            && crate::path::path_key(path) == other),
{
}

/// Reports may be taken in all at once or in two parts, and one report is taken in
/// as it is on its own.
pub proof fn reports_come_in_parts(
    records: ProcessedView,
    left: Seq<crate::process::ReportView>,
    right: Seq<crate::process::ReportView>,
)
    ensures
        records.extended(left + right) == records.extended(left).extended(right),
        right.len() == 1 ==> records.extended(right) == records.inserted(right[0]),
        records.extended(Seq::empty()) == records,
        ProcessedView::nothing().unknown == 0,
        ProcessedView::nothing().processed.dom() == Set::<crate::path::PathKey>::empty(),
    decreases right.len(),
{
    if right.len() == 0 {
        assert(left + right == left);
    } else {
        reports_come_in_parts(records, left, right.drop_last());
        assert((left + right).drop_last() == left + right.drop_last());
        if right.len() == 1 {
            assert(right.drop_last() == Seq::<crate::process::ReportView>::empty());
        }
    }
}

/// The count of changed entries is how many of the reports say so.
pub proof fn changed_entries_are_counted(reports: Seq<crate::process::ReportView>)
    ensures
        count_unknown(reports) == reports.filter(
            |report: crate::process::ReportView|
                report matches Err(error) && error is ModifiedEntry,
        ).len(),
    decreases reports.len(),
{
    reveal(Seq::filter);
    if reports.len() > 0 {
        changed_entries_are_counted(reports.drop_last());
    }
}

/// Each record in a list without doubles is found under its directory.
pub proof fn records_are_found(records: Seq<(EntryPath, ProcessedEntry)>, index: int)
    requires
        forall|i: int, j: int|
            0 <= i < j < records.len() ==> crate::path::path_key((#[trigger] records[i]).0@)
                != crate::path::path_key((#[trigger] records[j]).0@),
        0 <= index < records.len(),
    ensures
        record_map(records).dom().contains(crate::path::path_key(records[index].0@)),
        record_map(records)[crate::path::path_key(records[index].0@)] == (
            records[index].0@,
            records[index].1@,
        ),
        forall|key: crate::path::PathKey| #[trigger]
            record_map(records).dom().contains(key) ==> exists|i: int|
                0 <= i < records.len() && crate::path::path_key((#[trigger] records[i]).0@) == key,
{
    record_is_unique(records, index);
    assert forall|key: crate::path::PathKey| #[trigger]
        record_map(records).dom().contains(key) implies exists|i: int|
        0 <= i < records.len() && crate::path::path_key((#[trigger] records[i]).0@) == key by {
        let i = choose|i: int| is_record_of(records, i, key);
        assert(is_record_of(records, i, key));
        assert(crate::path::path_key(records[i].0@) == key);
    }
}

} // verus!
