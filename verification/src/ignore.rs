//! The directories to pass over.

use crate::path::EntryPath;
use crate::pattern::{IgnoredEntry, IgnoredPattern};
use crate::process::ProcessError;
use crate::text::from_utf8_lossy;
use vstd::prelude::*;

verus! {

/// The directories to pass over: some by their canonical path, some by a
/// pattern on their name.
#[derive(Debug)]
pub struct IgnoredEntries {
    exact: Vec<EntryPath>,
    pattern: IgnoredPattern,
}

/// What an `IgnoredEntries` holds.
#[verifier::ext_equal]
pub struct IgnoredView {
    pub exact: Set<crate::path::PathKey>,
    pub pattern: crate::pattern::IgnoredPatternView,
}

/// The keys of a list of paths.
pub open spec fn path_keys(paths: Seq<EntryPath>) -> Set<crate::path::PathKey> {
    Set::new(
        |key: crate::path::PathKey|
            exists|i: int| 0 <= i < paths.len() && crate::path::path_key((#[trigger] paths[i])@) == key,
    )
}

/// Whether no path occurs twice.
pub open spec fn all_differ(paths: Seq<EntryPath>) -> bool {
    forall|i: int, j: int|
        0 <= i < j < paths.len() ==> crate::path::path_key((#[trigger] paths[i])@)
            != crate::path::path_key((#[trigger] paths[j])@)
}

impl View for IgnoredEntries {
    type V = IgnoredView;

    closed spec fn view(&self) -> IgnoredView {
        IgnoredView { exact: path_keys(self.exact@), pattern: self.pattern@ }
    }
}

/// Whether the single entry `entry` stands for the directory `path`.
pub open spec fn entry_ignores(
    entry: crate::pattern::IgnoredEntryView,
    path: Seq<u8>,
) -> bool {
    match entry {
        crate::pattern::IgnoredEntryView::Exact(exact) => crate::path::path_key(exact)
            == crate::path::path_key(path),
        crate::pattern::IgnoredEntryView::Pattern(text) => crate::path::file_name(
            path,
        ) matches Some(name) && crate::pattern::regex_match(text, crate::text::utf8_lossy(name)),
    }
}

impl IgnoredView {
    /// Nothing to pass over.
    pub open spec fn nothing() -> IgnoredView {
        IgnoredView {
            exact: Set::empty(),
            pattern: crate::pattern::IgnoredPatternView::Raw(Seq::empty()),
        }
    }

    /// Whether the directory with the canonical path `path` is passed over.
    pub open spec fn ignores(self, path: Seq<u8>) -> bool {
        ||| self.exact.contains(crate::path::path_key(path))
        ||| crate::path::file_name(path) matches Some(name) && self.pattern.ignores(
            crate::text::utf8_lossy(name),
        )
    }

    /// Whether the command is to run in the entry with the canonical path
    /// `path`: it is a directory, and not passed over.
    pub open spec fn enters(self, is_dir: bool, path: Seq<u8>) -> bool {
        is_dir && !self.ignores(path)
    }

    /// What one look at an entry of a directory leads to.
    pub open spec fn selected(self, listing: Listing) -> Option<
        Result<Seq<u8>, crate::process::ProcessErrorView>,
    > {
        match listing {
            Listing::Unlisted | Listing::Unread => Some(
                Err(crate::process::ProcessErrorView::ModifiedEntry),
            ),
            Listing::Listed { is_dir, canonical: Some(path) } => if self.enters(is_dir, path@) {
                Some(Ok(path@))
            } else {
                None
            },
            Listing::Listed { is_dir, canonical: None } => if is_dir {
                Some(Err(crate::process::ProcessErrorView::ModifiedEntry))
            } else {
                None
            },
        }
    }

    /// Whether the directory is passed over by its path or has a name.
    pub open spec fn judges(self, path: Seq<u8>) -> bool {
        self.exact.contains(crate::path::path_key(path)) || crate::path::file_name(path) is Some
    }

    /// With one more entry.
    pub open spec fn inserted(self, entry: crate::pattern::IgnoredEntryView) -> IgnoredView {
        match entry {
            crate::pattern::IgnoredEntryView::Exact(path) => IgnoredView {
                exact: self.exact.insert(crate::path::path_key(path)),
                ..self
            },
            crate::pattern::IgnoredEntryView::Pattern(text) => IgnoredView {
                pattern: self.pattern.pushed(text),
                ..self
            },
        }
    }

    /// With more entries, one after the other.
    pub open spec fn extended(self, entries: Seq<crate::pattern::IgnoredEntryView>) -> IgnoredView
        decreases entries.len(),
    {
        if entries.len() == 0 {
            self
        } else {
            self.extended(entries.drop_last()).inserted(entries.last())
        }
    }

    /// Whether the patterns keep apart on the name of the directory `path`.
    pub open spec fn is_separable(self, path: Seq<u8>) -> bool {
        crate::path::file_name(path) matches Some(name) ==> self.pattern.is_separable(
            crate::text::utf8_lossy(name),
        )
    }

    /// With the patterns made into one.
    pub open spec fn finished(self) -> IgnoredView {
        IgnoredView { pattern: self.pattern.compiled(), ..self }
    }
}

/// What a list of entries holds.
pub open spec fn entry_views(entries: Seq<IgnoredEntry>) -> Seq<crate::pattern::IgnoredEntryView> {
    Seq::new(entries.len(), |i: int| entries[i]@)
}

/// What one look at an entry of a directory brought.
#[derive(Debug)]
pub enum Listing {
    /// The entry itself could not be had.
    Unlisted,
    /// Nothing could be learned about the entry.
    Unread,
    /// Whether the entry is a directory, and its canonical path, where it has
    /// one.
    Listed { is_dir: bool, canonical: Option<EntryPath> },
}

impl IgnoredEntries {
    #[verifier::type_invariant]
    spec fn well_formed(self) -> bool {
        all_differ(self.exact@)
    }

    /// Whether the directory `path` is among the ones passed over by path.
    fn has_exact(&self, path: &EntryPath) -> (found: bool)
        ensures
            found == self@.exact.contains(crate::path::path_key(path@)),
    {
        holds(&self.exact, path)
    }

    /// Takes one more entry in.
    pub fn insert(&mut self, entry: IgnoredEntry)
        ensures
            final(self)@ == old(self)@.inserted(entry@),
    {
        proof {
            use_type_invariant(&*self);
        }
        match entry {
            IgnoredEntry::Pattern(pattern) => {
                let mut patterns: IgnoredPattern = IgnoredPattern::default();
                std::mem::swap(&mut self.pattern, &mut patterns);
                patterns.push(pattern);
                self.pattern = patterns;
            },
            IgnoredEntry::Exact(path) => {
                let mut paths: Vec<EntryPath> = Vec::new();
                std::mem::swap(&mut self.exact, &mut paths);
                add_path(&mut paths, path);
                self.exact = paths;
            },
        }
    }

    /// Takes more entries in, one after the other.
    pub fn extend(&mut self, entries: Vec<IgnoredEntry>)
        ensures
            final(self)@ == old(self)@.extended(entry_views(entries@)),
    {
        let ghost views = entry_views(entries@);
        let ghost before = self@;
        assert(views.take(0) == Seq::<crate::pattern::IgnoredEntryView>::empty());
        for entry in iter: entries
            invariant
                iter.seq().len() == views.len(),
                forall|i: int| 0 <= i < views.len() ==> (#[trigger] iter.seq()[i])@ == views[i],
                self@ == before.extended(views.take(iter.index() as int)),
        {
            let ghost index = iter.index() as int;
            assert(views.take(index + 1).drop_last() == views.take(index));
            self.insert(entry);
        }
        assert(views.take(views.len() as int) == views);
    }

    /// With the patterns made into one.
    pub fn finish(self) -> (finished: IgnoredEntries)
        ensures
            finished@ == self@.finished(),
            forall|path: Seq<u8>|
                self@.is_separable(path) || finished@.pattern is Raw ==> #[trigger] finished@.ignores(
                    path,
                ) == self@.ignores(path),
    {
        proof {
            use_type_invariant(&self);
        }
        let IgnoredEntries { exact, pattern } = self;
        IgnoredEntries { exact, pattern: pattern.compiled() }
    }

    /// Whether it can be said if the directory with the canonical path
    /// `canonical` is passed over: it is, by its path, or it has a name.
    pub fn can_judge(&self, canonical: &Option<EntryPath>) -> (judged: bool)
        ensures
            judged == (canonical matches Some(path) ==> self@.judges(path@)),
    {
        match canonical {
            Some(path) => self.has_exact(path) || path.file_name().is_some(),
            None => true,
        }
    }

    /// The directory with the canonical path `canonical`, unless it is passed
    /// over; an error where there is no such path.
    pub fn as_valid(&self, canonical: Option<EntryPath>) -> (result: Result<
        Option<EntryPath>,
        ProcessError,
    >)
        requires
            canonical matches Some(path) ==> self@.judges(path@),
        ensures
            match canonical {
                None => result matches Err(error) && error is ModifiedEntry,
                Some(path) => if self@.ignores(path@) {
                    result matches Ok(None)
                } else {
                    result matches Ok(Some(kept)) && kept@ == path@
                },
            },
    {
        let path: EntryPath = match canonical {
            Some(path) => path,
            None => {
                return Err(ProcessError::ModifiedEntry);
            },
        };
        if self.has_exact(&path) {
            return Ok(None);
        }
        if let Some(name) = path.file_name() {
            if self.pattern.is_match(&from_utf8_lossy(&name)) {
                return Ok(None);
            }
        }
        Ok(Some(path))
    }

    /// What one look at an entry of a directory leads to: a directory to run
    /// the command in, an error to report, or neither.
    pub fn select(&self, listing: Listing) -> (result: Option<Result<EntryPath, ProcessError>>)
        requires
            listing matches Listing::Listed { canonical: Some(path), .. } ==> self@.judges(path@),
        ensures
            match listing {
                Listing::Unlisted => result matches Some(Err(error)) && error is ModifiedEntry,
                Listing::Unread => result matches Some(Err(error)) && error is ModifiedEntry,
                Listing::Listed { is_dir: false, canonical: None } => result is None,
                Listing::Listed { is_dir: true, canonical: None } => result matches Some(Err(error))
                    && error is ModifiedEntry,
                Listing::Listed { is_dir, canonical: Some(path) } => if self@.enters(is_dir, path@) {
                    result matches Some(Ok(kept)) && kept@ == path@
                } else {
                    result is None
                },
            },
            match self@.selected(listing) {
                Some(Ok(path)) => result matches Some(Ok(kept)) && kept@ == path,
                Some(Err(error)) => result matches Some(Err(said)) && said@ == error,
                None => result is None,
            },
    {
        match listing {
            Listing::Unlisted | Listing::Unread => Some(Err(ProcessError::ModifiedEntry)),
            Listing::Listed { is_dir, canonical } => match self.as_valid(canonical) {
                Ok(None) => None,
                Err(error) => if is_dir {
                    Some(Err(error))
                } else {
                    None
                },
                Ok(Some(path)) => if is_dir {
                    Some(Ok(path))
                } else {
                    None
                },
            },
        }
    }
}

impl Default for IgnoredEntries {
    fn default() -> (empty: Self)
        ensures
            empty@ == IgnoredView::nothing(),
    {
        let exact: Vec<EntryPath> = Vec::new();
        assert(path_keys(exact@) == Set::<crate::path::PathKey>::empty());
        IgnoredEntries { exact, pattern: IgnoredPattern::default() }
    }
}

/// Whether `path` is among `paths`.
fn holds(paths: &Vec<EntryPath>, path: &EntryPath) -> (found: bool)
    ensures
        found == path_keys(paths@).contains(crate::path::path_key(path@)),
{
    let mut i: usize = 0;
    while i < paths.len()
        invariant
            i <= paths.len(),
            forall|j: int|
                0 <= j < i ==> crate::path::path_key((#[trigger] paths@[j])@)
                    != crate::path::path_key(path@),
        decreases paths.len() - i,
    {
        if paths[i].is_same(path) {
            return true;
        }
        i = i + 1;
    }
    false
}

/// Adds `path` to `paths`, unless it is there.
fn add_path(paths: &mut Vec<EntryPath>, path: EntryPath)
    requires
        all_differ(old(paths)@),
    ensures
        all_differ(final(paths)@),
        path_keys(final(paths)@) == path_keys(old(paths)@).insert(crate::path::path_key(path@)),
{
    let ghost before = paths@;
    let ghost key = crate::path::path_key(path@);
    if holds(paths, &path) {
        assert(path_keys(before).insert(key) == path_keys(before));
        return;
    }
    paths.push(path);
    let ghost after = paths@;
    proof {
        assert(after[before.len() as int]@ == path@);
        assert(forall|i: int| 0 <= i < before.len() ==> #[trigger] after[i] == before[i]);
        assert forall|k: crate::path::PathKey| path_keys(after).contains(k) == path_keys(before).insert(
            key,
        ).contains(k) by {
            if path_keys(before).contains(k) {
                let i = choose|i: int|
                    0 <= i < before.len() && crate::path::path_key((#[trigger] before[i])@) == k;
                assert(after[i] == before[i]);
            }
        }
        assert(path_keys(after) =~= path_keys(before).insert(key));
        assert forall|i: int, j: int| 0 <= i < j < after.len() implies crate::path::path_key(
            (#[trigger] after[i])@,
        ) != crate::path::path_key((#[trigger] after[j])@) by {
            if j == before.len() {
                assert(before[i] == after[i]);
            }
        }
    }
}

/// Whether one of the entries stands for the directory `path`.
pub open spec fn some_ignores(
    entries: Seq<crate::pattern::IgnoredEntryView>,
    path: Seq<u8>,
) -> bool {
    exists|i: int| 0 <= i < entries.len() && entry_ignores(#[trigger] entries[i], path)
}

/// A directory is passed over exactly where one of the entries stands for it.
pub proof fn ignored_by_some_entry(
    entries: Seq<crate::pattern::IgnoredEntryView>,
    path: Seq<u8>,
)
    ensures
        IgnoredView::nothing().extended(entries).ignores(path) == some_ignores(entries, path),
        IgnoredView::nothing().extended(entries).pattern is Raw,
    decreases entries.len(),
{
    if entries.len() > 0 {
        let shorter = entries.drop_last();
        let before = IgnoredView::nothing().extended(shorter);
        ignored_by_some_entry(shorter, path);
        if let crate::pattern::IgnoredEntryView::Pattern(text) = entries.last() {
            if let Some(name) = crate::path::file_name(path) {
                crate::pattern::pushed_ignores_more(
                    before.pattern,
                    text,
                    crate::text::utf8_lossy(name),
                );
            }
        }
        if some_ignores(shorter, path) {
            let i = choose|i: int| 0 <= i < shorter.len() && entry_ignores(#[trigger] shorter[i], path);
            assert(entries[i] == shorter[i]);
        }
        if entry_ignores(entries.last(), path) {
            assert(entry_ignores(entries[entries.len() - 1], path));
        }
        if some_ignores(entries, path) {
            let i = choose|i: int| 0 <= i < entries.len() && entry_ignores(#[trigger] entries[i], path);
            if i < shorter.len() {
                assert(shorter[i] == entries[i]);
            }
        }
    }
}

/// The order in which the entries are taken in, and how often each is, makes no
/// difference to what is passed over.
pub proof fn entry_order_is_nothing(
    left: Seq<crate::pattern::IgnoredEntryView>,
    right: Seq<crate::pattern::IgnoredEntryView>,
    path: Seq<u8>,
)
    requires
        left.to_set() == right.to_set(),
    ensures
        IgnoredView::nothing().extended(left).ignores(path) == IgnoredView::nothing().extended(
            right,
        ).ignores(path),
{
    ignored_by_some_entry(left, path);
    ignored_by_some_entry(right, path);
    if some_ignores(left, path) {
        let i = choose|i: int| 0 <= i < left.len() && entry_ignores(#[trigger] left[i], path);
        assert(left.to_set().contains(left[i]));
        assert(right.contains(left[i]));
    }
    if some_ignores(right, path) {
        let i = choose|i: int| 0 <= i < right.len() && entry_ignores(#[trigger] right[i], path);
        assert(right.to_set().contains(right[i]));
        assert(left.contains(right[i]));
    }
}

/// The command is to run in an entry exactly where it is a directory and no
/// ignored entry stands for it: none that is a path has its components, and none
/// that is a pattern matches its name. With nothing to pass over, it runs in every
/// directory.
pub proof fn entered_unless_ignored(
    entries: Seq<crate::pattern::IgnoredEntryView>,
    is_dir: bool,
    path: Seq<u8>,
)
    ensures
        IgnoredView::nothing().extended(entries).enters(is_dir, path) == (is_dir && forall|i: int|
            0 <= i < entries.len() ==> match #[trigger] entries[i] {
                crate::pattern::IgnoredEntryView::Exact(exact) => crate::path::path_key(exact)
                    != crate::path::path_key(path),
                crate::pattern::IgnoredEntryView::Pattern(text) => match crate::path::file_name(
                    path,
                ) {
                    Some(name) => !crate::pattern::regex_match(
                        text,
                        crate::text::utf8_lossy(name),
                    ),
                    None => true,
                },
            }),
        IgnoredView::nothing().enters(is_dir, path) == is_dir,
        !IgnoredView::nothing().ignores(path),
{
    ignored_by_some_entry(entries, path);
    ignored_by_some_entry(Seq::empty(), path);
    let ignored = IgnoredView::nothing().extended(entries);
    if is_dir && !ignored.enters(is_dir, path) {
        let i = choose|i: int| 0 <= i < entries.len() && entry_ignores(#[trigger] entries[i], path);
        assert(entry_ignores(entries[i], path));
    }
    if ignored.enters(is_dir, path) {
        assert forall|i: int| 0 <= i < entries.len() implies !entry_ignores(
            #[trigger] entries[i],
            path,
        ) by {}
    }
}

/// A directory that is passed over by its path leaves the other entries of the
/// directory that it is in alone, whatever their names.
pub proof fn other_entries_stay(
    directory: Seq<u8>,
    ignored: Seq<u8>,
    name: Seq<u8>,
    is_dir: bool,
)
    requires
        ignored.len() > 0 && ignored != seq![crate::path::DOT] && !ignored.contains(
            crate::path::SEPARATOR,
        ),
        name.len() > 0 && name != seq![crate::path::DOT] && !name.contains(crate::path::SEPARATOR),
    ensures
        IgnoredView::nothing().inserted(
            crate::pattern::IgnoredEntryView::Exact(
                directory.push(crate::path::SEPARATOR) + ignored,
            ),
        ).enters(is_dir, directory.push(crate::path::SEPARATOR) + name) == (is_dir && name
            != ignored),
{
    let entry = crate::pattern::IgnoredEntryView::Exact(
        directory.push(crate::path::SEPARATOR) + ignored,
    );
    let entries = seq![entry];
    assert(entries.drop_last() == Seq::<crate::pattern::IgnoredEntryView>::empty());
    assert(IgnoredView::nothing().extended(entries.drop_last()) == IgnoredView::nothing());
    assert(entries[0] == entry);
    entered_unless_ignored(entries, is_dir, directory.push(crate::path::SEPARATOR) + name);
    crate::path::entries_of_a_directory_differ(directory, ignored, name);
}

/// One more entry passes over what it stands for, and nothing else that was not
/// passed over before, whatever was taken in before.
pub proof fn inserted_ignores_more(
    ignored: IgnoredView,
    entry: crate::pattern::IgnoredEntryView,
    path: Seq<u8>,
)
    requires
        ignored.pattern matches crate::pattern::IgnoredPatternView::Compiled(text) ==> text.len()
            > 0,
    ensures
        ignored.inserted(entry).ignores(path) == (ignored.ignores(path) || match entry {
            crate::pattern::IgnoredEntryView::Exact(exact) => crate::path::path_key(exact)
                == crate::path::path_key(path),
            crate::pattern::IgnoredEntryView::Pattern(text) => match crate::path::file_name(path) {
                Some(name) => crate::pattern::regex_match(text, crate::text::utf8_lossy(name)),
                None => false,
            },
        }),
{
    if let crate::pattern::IgnoredEntryView::Pattern(text) = entry {
        if let Some(name) = crate::path::file_name(path) {
            crate::pattern::pushed_ignores_more(
                ignored.pattern,
                text,
                crate::text::utf8_lossy(name),
            );
        }
    }
}

/// Entries may be taken in all at once or in two parts.
pub proof fn entries_come_in_parts(
    ignored: IgnoredView,
    left: Seq<crate::pattern::IgnoredEntryView>,
    right: Seq<crate::pattern::IgnoredEntryView>,
)
    ensures
        ignored.extended(left + right) == ignored.extended(left).extended(right),
        right.len() == 1 ==> ignored.extended(right) == ignored.inserted(right[0]),
    decreases right.len(),
{
    if right.len() == 0 {
        assert(left + right == left);
    } else {
        entries_come_in_parts(ignored, left, right.drop_last());
        assert((left + right).drop_last() == left + right.drop_last());
        assert(ignored.extended(Seq::empty()) == ignored);
        if right.len() == 1 {
            assert(right.drop_last() == Seq::<crate::pattern::IgnoredEntryView>::empty());
        }
    }
}

/// A path that has a name can be judged, and so can one that is passed over by
/// its path; no other can. Making the patterns into one changes neither that nor
/// the paths.
pub proof fn named_paths_are_judged(ignored: IgnoredView, path: Seq<u8>, name: Seq<u8>)
    requires
        name.len() > 0 && name != seq![crate::path::DOT] && name != seq![
            crate::path::DOT,
            crate::path::DOT,
        ] && !name.contains(crate::path::SEPARATOR),
    ensures
        ignored.judges(path.push(crate::path::SEPARATOR) + name),
        ignored.judges(path) == (ignored.exact.contains(crate::path::path_key(path))
            || crate::path::file_name(path) is Some),
        ignored.finished().judges(path) == ignored.judges(path),
        ignored.finished().exact == ignored.exact,
{
    crate::path::further_name_is_kept(path, name);
}

/// A directory that can be had and is not passed over is selected under its
/// canonical path; one that is passed over and whatever is no directory is left
/// out in silence. Where the entry, what it is or the path of a directory cannot
/// be had, there is an error, and nowhere else.
pub proof fn selected_where_it_can_be_had(
    entries: Seq<crate::pattern::IgnoredEntryView>,
    is_dir: bool,
    path: EntryPath,
)
    ensures
        ({
            let ignored = IgnoredView::nothing().extended(entries);
            let changed = Some(
                Err::<Seq<u8>, crate::process::ProcessErrorView>(
                    crate::process::ProcessErrorView::ModifiedEntry,
                ),
            );
            &&& ignored.selected(Listing::Listed { is_dir, canonical: Some(path) }) == if is_dir
                && !some_ignores(entries, path@) {
                Some(Ok::<Seq<u8>, crate::process::ProcessErrorView>(path@))
            } else {
                None
            }
            &&& ignored.selected(Listing::Listed { is_dir, canonical: None }) == if is_dir {
                changed
            } else {
                None
            }
            &&& ignored.selected(Listing::Unlisted) == changed
            &&& ignored.selected(Listing::Unread) == changed
        }),
{
    ignored_by_some_entry(entries, path@);
}

} // verus!
