//! The steps of listing, extracting and testing an archive with the native
//! engine.
//!
//! The program carries out one step after the other and reports what came of
//! it; the run decides what comes next and what the operation came to.

use vstd::prelude::*;
use vstd::string::*;
use crate::engine;
use crate::error::{ArchiveError, ArchiveResult, ErrorView};
use crate::extracting;
use crate::file_ops;
use crate::extracting::{ExtractContext, ExtractItem, ItemView, StreamRequest};
use crate::ffi::{E_ABORT, S_OK};
use crate::format::ReadFormat;
use crate::listing;
use crate::listing::{ArchiveListing, Property, RepairedPath};
use crate::options;
use crate::options::{
    ArchiveEntry, ArchiveEntryKind, EntryView, ExtractOptions, InitialConflictPolicy,
    OperationSummary, RuntimePolicy,
};
use crate::paths;
use crate::planning;
use crate::planning::{ExtractPlan, PlanView};
use crate::progress;
use crate::progress::{ProgressPhase, ProgressSnapshot, SnapshotView};
use crate::text;
use crate::zip_names;
use crate::zip_names::ZipNameRecord;

verus! {

/// What is done with the archive.
#[derive(Debug, Clone, Copy, PartialEq, Eq, Structural)]
pub enum ReadKind {
    List,
    Extract,
    Test,
}

/// What an operation does next.
#[derive(Debug, Clone, Copy, PartialEq, Eq, Structural)]
pub enum ReadStage {
    /// Look whether the destination is there.
    InspectDestination,
    /// Make the destination and resolve its path.
    MakeDestination,
    /// Look what the destination is.
    CheckRoot,
    /// Measure the archive.
    Measure,
    /// Tell the archive's format.
    Identify,
    /// Read the names that a ZIP archive holds.
    ReadNames,
    /// Open the archive.
    Open,
    /// Read its entries.
    ReadEntries,
    /// Read the paths of its entries in another way.
    RepairPaths,
    /// Give the entries their names.
    NameEntries,
    /// Ask whether the archive is encrypted.
    AskEncryption,
    /// Let the library run.
    Run,
    Finished,
    Failed,
}

/// An operation.
#[derive(Debug)]
pub struct ReadRun {
    pub kind: ReadKind,
    pub stage: ReadStage,
    /// Whether the destination was missing.
    pub was_missing: bool,
    pub length: u64,
    pub format: Option<ReadFormat>,
    pub entries: Vec<ArchiveEntry>,
    pub error: Option<ArchiveError>,
}

/// A [`ReadRun`] over sequences.
pub struct ReadState {
    pub kind: ReadKind,
    pub stage: ReadStage,
    pub was_missing: bool,
    pub length: u64,
    pub format: Option<ReadFormat>,
    pub entries: Seq<EntryView>,
    pub error: Option<ErrorView>,
}

impl View for ReadRun {
    type V = ReadState;

    open spec fn view(&self) -> ReadState {
        ReadState {
            kind: self.kind,
            stage: self.stage,
            was_missing: self.was_missing,
            length: self.length,
            format: self.format,
            entries: options::entry_views(self.entries@),
            error: extracting::option_error(self.error),
        }
    }
}

impl ReadState {
    /// The state of an operation that failed.
    pub open spec fn failed(self, error: ErrorView) -> ReadState {
        ReadState { stage: ReadStage::Failed, error: Some(error), ..self }
    }

    /// The state once it is known whether the destination is there.
    pub open spec fn after_inspection(self, missing: Result<bool, ErrorView>) -> ReadState {
        match missing {
            Err(error) => self.failed(error),
            Ok(missing) => ReadState {
                stage: ReadStage::MakeDestination,
                was_missing: missing,
                ..self
            },
        }
    }

    /// The state once the destination is there.
    pub open spec fn after_destination(self, failed: Option<ErrorView>) -> ReadState {
        match failed {
            Some(error) => self.failed(error),
            None => ReadState { stage: ReadStage::CheckRoot, ..self },
        }
    }

    /// The state once it is known what the destination is.
    pub open spec fn after_root(self, is_dir: bool, is_reparse: bool, root: Seq<char>)
        -> ReadState {
        if !is_dir {
            self.failed(ErrorView::InvalidInput("extraction destination is not a directory"@))
        } else if is_reparse {
            self.failed(ErrorView::ReparsePoint(root))
        } else {
            ReadState { stage: ReadStage::Measure, ..self }
        }
    }

    /// The state once the archive has been measured.
    pub open spec fn after_measure(self, length: Result<u64, ErrorView>) -> ReadState {
        match length {
            Err(error) => self.failed(error),
            Ok(length) => ReadState { stage: ReadStage::Identify, length, ..self },
        }
    }

    /// The state once the format is known. A test needs no names.
    pub open spec fn after_format(self, format: Option<ReadFormat>) -> ReadState {
        match format {
            None => self.failed(
                ErrorView::UnsupportedOption("7z.dll could not identify the archive format"@),
            ),
            Some(format) => ReadState {
                stage: if self.kind != ReadKind::Test && format == ReadFormat::Zip {
                    ReadStage::ReadNames
                } else {
                    ReadStage::Open
                },
                format: Some(format),
                ..self
            },
        }
    }

    /// The state behind reading the names and opening the archive.
    pub open spec fn after_step(self, failed: Option<ErrorView>) -> ReadState {
        match failed {
            Some(error) => self.failed(error),
            None => ReadState {
                stage: match self.stage {
                    ReadStage::ReadNames => ReadStage::Open,
                    ReadStage::Open => ReadStage::ReadEntries,
                    stage => stage,
                },
                ..self
            },
        }
    }

    /// The state once the handler answered to opening the archive at `path`.
    pub open spec fn after_open(self, path: Seq<char>, code: i32, password_requested: bool)
        -> ReadState {
        self.after_step(
            if code == S_OK {
                None
            } else {
                Some(engine::open_error(path, self.format->0, code, password_requested))
            },
        )
    }

    /// The state once the entries are read.
    pub open spec fn after_entries(self, entries: Result<Seq<EntryView>, ErrorView>) -> ReadState {
        match entries {
            Err(error) => self.failed(error),
            Ok(entries) => ReadState {
                stage: if self.kind == ReadKind::Test {
                    ReadStage::Run
                } else if self.format == Some(ReadFormat::Lzh) {
                    ReadStage::RepairPaths
                } else {
                    ReadStage::NameEntries
                },
                entries,
                ..self
            },
        }
    }

    /// The stage once the entries have their names.
    pub open spec fn named_stage(self) -> ReadStage {
        if self.kind == ReadKind::List {
            ReadStage::AskEncryption
        } else {
            ReadStage::Run
        }
    }
}

/// Entries with paths that were read in another way.
pub open spec fn with_paths(entries: Seq<EntryView>, repaired: Seq<RepairedPath>) -> Seq<
    EntryView,
> {
    Seq::new(
        repaired.len(),
        |i: int|
            EntryView {
                path: text::texts(repaired[i].path@),
                display_path: repaired[i].display_path@,
                ..entries[i]
            },
    )
}

impl ReadRun {
    /// Begins an operation.
    pub fn start(kind: ReadKind, cancelled: bool) -> (run: ArchiveResult<ReadRun>)
        ensures
            match run {
                Ok(run) => !cancelled && run@ == (ReadState {
                    kind,
                    stage: if kind == ReadKind::Extract {
                        ReadStage::InspectDestination
                    } else {
                        ReadStage::Measure
                    },
                    was_missing: false,
                    length: 0,
                    format: None,
                    entries: Seq::empty(),
                    error: None,
                }),
                Err(error) => cancelled && error@ == ErrorView::Cancelled,
            },
    {
        if cancelled {
            return Err(ArchiveError::Cancelled);
        }
        let entries: Vec<ArchiveEntry> = Vec::new();
        proof {
            assert(options::entry_views(entries@) =~= Seq::<EntryView>::empty());
        }
        Ok(
            ReadRun {
                kind,
                stage: if kind == ReadKind::Extract {
                    ReadStage::InspectDestination
                } else {
                    ReadStage::Measure
                },
                was_missing: false,
                length: 0,
                format: None,
                entries,
                error: None,
            },
        )
    }

    /// Notes a failure.
    fn fail(&mut self, error: ArchiveError)
        ensures
            final(self)@ == old(self)@.failed(error@),
    {
        self.stage = ReadStage::Failed;
        self.error = Some(error);
    }

    /// Takes whether the destination is missing.
    pub fn destination_inspected(&mut self, missing: ArchiveResult<bool>)
        ensures
            final(self)@ == old(self)@.after_inspection(
                match missing {
                    Ok(missing) => Ok(missing),
                    Err(error) => Err(error@),
                },
            ),
    {
        match missing {
            Err(error) => {
                self.fail(error);
            },
            Ok(missing) => {
                self.stage = ReadStage::MakeDestination;
                self.was_missing = missing;
            },
        }
    }

    /// Takes what came of making the destination.
    pub fn destination_made(&mut self, outcome: ArchiveResult<()>)
        ensures
            final(self)@ == old(self)@.after_destination(file_ops::failure(outcome)),
    {
        match outcome {
            Err(error) => {
                self.fail(error);
            },
            Ok(_) => {
                self.stage = ReadStage::CheckRoot;
            },
        }
    }

    /// Takes what the destination is.
    pub fn root_checked(&mut self, is_dir: bool, is_reparse: bool, root: &str)
        ensures
            final(self)@ == old(self)@.after_root(is_dir, is_reparse, root@),
    {
        match engine::check_destination(is_dir, is_reparse, root) {
            Err(error) => {
                self.fail(error);
            },
            Ok(_) => {
                self.stage = ReadStage::Measure;
            },
        }
    }

    /// Takes the archive's length.
    pub fn measured(&mut self, length: ArchiveResult<u64>)
        ensures
            final(self)@ == old(self)@.after_measure(
                match length {
                    Ok(length) => Ok(length),
                    Err(error) => Err(error@),
                },
            ),
    {
        match length {
            Err(error) => {
                self.fail(error);
            },
            Ok(length) => {
                self.stage = ReadStage::Identify;
                self.length = length;
            },
        }
    }

    /// Takes the archive's format, where it could be told.
    pub fn identified(&mut self, format: Option<ReadFormat>)
        ensures
            final(self)@ == old(self)@.after_format(format),
    {
        match engine::require_format(format) {
            Err(error) => {
                self.fail(error);
            },
            Ok(format) => {
                self.stage = if self.kind != ReadKind::Test && format == ReadFormat::Zip {
                    ReadStage::ReadNames
                } else {
                    ReadStage::Open
                };
                self.format = Some(format);
            },
        }
    }

    /// Takes what came of reading the names or of opening the archive.
    pub fn step_done(&mut self, outcome: ArchiveResult<()>)
        ensures
            final(self)@ == old(self)@.after_step(file_ops::failure(outcome)),
    {
        match outcome {
            Err(error) => {
                self.fail(error);
            },
            Ok(_) => {
                self.stage = match self.stage {
                    ReadStage::ReadNames => ReadStage::Open,
                    ReadStage::Open => ReadStage::ReadEntries,
                    stage => stage,
                };
            },
        }
    }

    /// Takes the handler's answer to opening the archive at `path`.
    pub fn opened(&mut self, path: &str, code: i32, password_requested: bool)
        requires
            old(self).format is Some,
        ensures
            final(self)@ == old(self)@.after_open(path@, code, password_requested),
    {
        if let Some(format) = self.format {
            self.step_done(engine::open_outcome(path, format, code, password_requested));
        }
    }

    /// Takes the entries.
    pub fn entries_read(&mut self, entries: ArchiveResult<Vec<ArchiveEntry>>)
        ensures
            final(self)@ == old(self)@.after_entries(
                match entries {
                    Ok(entries) => Ok(options::entry_views(entries@)),
                    Err(error) => Err(error@),
                },
            ),
    {
        match entries {
            Err(error) => {
                self.fail(error);
            },
            Ok(entries) => {
                self.stage = if self.kind == ReadKind::Test {
                    ReadStage::Run
                } else {
                    match self.format {
                        Some(ReadFormat::Lzh) => ReadStage::RepairPaths,
                        _ => ReadStage::NameEntries,
                    }
                };
                self.entries = entries;
            },
        }
    }

    /// Takes the paths that were read in another way. There must be one for
    /// each entry.
    pub fn paths_repaired(&mut self, repaired: ArchiveResult<Vec<RepairedPath>>)
        ensures
            match repaired {
                Err(error) => final(self)@ == old(self)@.failed(error@),
                Ok(repaired) => if repaired@.len() == old(self)@.entries.len() {
                    final(self)@ == (ReadState {
                        stage: ReadStage::NameEntries,
                        entries: with_paths(old(self)@.entries, repaired@),
                        ..old(self)@
                    })
                } else {
                    final(self)@ == old(self)@.failed(
                        ErrorView::SevenZip(
                            "LZH readers disagree about the entry count (7z: "@ + text::decimal(
                                old(self)@.entries.len(),
                            ) + ", libarchive: "@ + text::decimal(repaired@.len()) + ")"@,
                        ),
                    )
                },
            },
    {
        match repaired {
            Err(error) => {
                self.fail(error);
            },
            Ok(repaired) => {
                let ghost before = self@.entries;
                let ghost found = repaired@;
                match listing::repair_lzh_paths(&mut self.entries, repaired) {
                    Err(error) => {
                        self.fail(error);
                    },
                    Ok(_) => {
                        self.stage = ReadStage::NameEntries;
                        proof {
                            assert(self@.entries =~= with_paths(before, found));
                        }
                    },
                }
            },
        }
    }

    /// Takes the names that a ZIP archive holds, and what they read as in the
    /// archive's code page.
    pub fn names_found(
        &mut self,
        records: Option<&Vec<ZipNameRecord>>,
        by_codepage: &Vec<Option<String>>,
    )
        requires
            records matches Some(records) ==> by_codepage@.len() == records@.len(),
        ensures
            match records {
                Some(records) if records@.len() == old(self)@.entries.len() => {
                    let (left, total) = zip_names::renamed(
                        old(self)@.entries,
                        zip_names::record_views(records@),
                        zip_names::option_texts(by_codepage@),
                        records@.len() as int,
                    );
                    match total {
                        Ok(_) => final(self)@ == (ReadState {
                            stage: old(self)@.named_stage(),
                            entries: left,
                            ..old(self)@
                        }),
                        Err(error) => final(self)@ == (ReadState {
                            entries: left,
                            ..old(self)@
                        }).failed(error),
                    }
                },
                _ => final(self)@ == (ReadState {
                    stage: old(self)@.named_stage(),
                    ..old(self)@
                }),
            },
    {
        match zip_names::apply_zip_name_records(&mut self.entries, records, by_codepage) {
            Err(error) => {
                self.fail(error);
            },
            Ok(_) => {
                self.stage = if self.kind == ReadKind::List {
                    ReadStage::AskEncryption
                } else {
                    ReadStage::Run
                };
            },
        }
    }

    /// Takes what came of letting the library run. Returns the summary.
    pub fn finished(
        &mut self,
        password_requested: bool,
        password: &Option<String>,
        error: Option<ArchiveError>,
        cancelled: bool,
        code: i32,
        summary: OperationSummary,
    ) -> (done: Option<OperationSummary>)
        ensures
            ({
                let operation = if old(self).kind == ReadKind::Test {
                    "7z test"@
                } else {
                    "7z extraction"@
                };
                let failure = planning::run_error(
                    operation,
                    password_requested,
                    password is Some && password->0@.len() > 0,
                    extracting::option_error(error),
                    cancelled,
                    code,
                );
                match failure {
                    None => done == Some(summary) && final(self)@ == (ReadState {
                        stage: ReadStage::Finished,
                        ..old(self)@
                    }),
                    Some(error) => done is None && final(self)@ == old(self)@.failed(error),
                }
            }),
    {
        let operation: &str = if self.kind == ReadKind::Test { "7z test" } else { "7z extraction" };
        match planning::run_outcome(
            operation,
            password_requested,
            password,
            error,
            cancelled,
            code,
            summary,
        ) {
            Ok(summary) => {
                self.stage = ReadStage::Finished;
                Some(summary)
            },
            Err(error) => {
                self.fail(error);
                None
            },
        }
    }
}

/// A file that the handler of its format does not take is told as no archive,
/// whatever is done with it.
pub proof fn law_foreign_files_are_no_archives(state: ReadState, path: Seq<char>, code: i32)
    requires
        state.stage is Open,
        state.format is Some,
        code != S_OK,
        code != E_ABORT,
    ensures
        state.after_open(path, code, false) == state.failed(ErrorView::InvalidArchive(path)),
{
}

// ---------------------------------------------------------------------------
// What the library is asked for
// ---------------------------------------------------------------------------

/// What the library is asked to extract.
#[derive(Debug)]
pub struct Extraction {
    pub plan: ExtractPlan,
    /// The entries that are asked for.
    pub indices: Vec<u32>,
    /// Whether nothing stands where files go.
    pub targets_missing: bool,
    /// Whether the entries are shared among several workers.
    pub parallel: bool,
    pub total_entries: u64,
    pub total_bytes: Option<u64>,
}

/// Whether two wanted entries of a plan go to the same place, as the order of
/// their paths shows it.
pub open spec fn tells_conflict(plan: PlanView, found: bool) -> bool {
    let wanted = planning::wanted_items(plan.items, plan.selected, plan.items.len() as int);
    exists|order: Seq<usize>| #[trigger]
        planning::is_key_order(wanted, order) && found == planning::has_conflict(wanted, order)
}

/// What the library is asked to extract: every safe entry that is wanted, and
/// nothing where an entry is not safe or a limit is passed. Nothing stands
/// where files go if the destination was missing and no two entries meet.
pub fn prepare_extraction(run: &ReadRun, options: &ExtractOptions) -> (extraction: ArchiveResult<
    Extraction,
>)
    ensures
        ({
            let planned = planning::planned(
                run@.entries,
                *options,
                run@.entries.len() as int,
            );
            match extraction {
                Err(error) => planned == Err::<PlanView, ErrorView>(error@),
                Ok(extraction) => {
                    &&& planned == Ok::<PlanView, ErrorView>(extraction.plan@)
                    &&& extraction.indices@ == planning::wanted_indices(
                        extraction.plan@.items,
                        extraction.plan@.selected,
                        extraction.plan@.items.len() as int,
                    )
                    &&& if run.was_missing {
                        tells_conflict(extraction.plan@, !extraction.targets_missing)
                    } else {
                        !extraction.targets_missing
                    }
                    &&& extraction.parallel == (run.format == Some(ReadFormat::Zip)
                        && extraction.targets_missing && extraction.indices@.len()
                        >= planning::PARALLEL_ENTRIES)
                    &&& extraction.total_entries == match options.total_entries_hint {
                        Some(total) => total,
                        None => extraction.plan@.items.len() as u64,
                    }
                    &&& extraction.total_bytes == match options.total_bytes_hint {
                        Some(total) => Some(total),
                        None => Some(extraction.plan@.bytes),
                    }
                },
            }
        }),
{
    let plan: ExtractPlan = match planning::plan_extraction(&run.entries, options) {
        Err(error) => {
            return Err(error);
        },
        Ok(plan) => plan,
    };
    let mut targets_missing: bool = false;
    if run.was_missing {
        let found: bool = planning::has_parallel_path_conflict(&plan.items, &plan.selected);
        proof {
            let wanted = planning::wanted_items(
                plan@.items,
                plan@.selected,
                plan@.items.len() as int,
            );
            let order = choose|order: Seq<usize>| #[trigger]
                planning::is_key_order(wanted, order) && found == planning::has_conflict(
                    wanted,
                    order,
                );
            assert(planning::is_key_order(wanted, order));
            assert(tells_conflict(plan@, found));
        }
        targets_missing = !found;
    }
    let indices: Vec<u32> = plan.indices();
    let parallel: bool = match run.format {
        Some(format) => planning::extracts_in_parallel(format, targets_missing, indices.len()),
        None => false,
    };
    let total_entries: u64 = plan.total_entries(options);
    let total_bytes: Option<u64> = plan.total_bytes(options);
    Ok(Extraction { plan, indices, targets_missing, parallel, total_entries, total_bytes })
}

/// The policy about existing files with which the entries are extracted. Where
/// several workers share the entries, nothing is asked.
pub open spec fn starting_policy(parallel: bool, initial: InitialConflictPolicy) -> RuntimePolicy {
    if parallel {
        RuntimePolicy::OverwriteAll
    } else {
        match initial {
            InitialConflictPolicy::Ask => RuntimePolicy::Ask,
            InitialConflictPolicy::OverwriteAll => RuntimePolicy::OverwriteAll,
            InitialConflictPolicy::SkipAll => RuntimePolicy::SkipAll,
        }
    }
}

impl Extraction {
    /// The state with which the library, or one of several workers, begins to
    /// extract.
    pub fn start(&self, options: &ExtractOptions) -> (context: ExtractContext)
        ensures
            context.snapshot@ == (SnapshotView {
                total_entries: Some(self.total_entries),
                total_bytes: self.total_bytes,
                ..progress::fresh_snapshot(ProgressPhase::Extracting)
            }),
            text::option_text(context.password) == text::option_text(options.password),
            context.policy == starting_policy(self.parallel, options.conflict_policy),
            context.assume_targets_missing == self.targets_missing,
            !context.test_mode,
            !context.password_requested,
            context.current_file_base_bytes == 0,
            context.summary@ == options::empty_summary(),
            context.pending@.len() == 0,
            context.error is None,
    {
        let mut snapshot = ProgressSnapshot::new(ProgressPhase::Extracting);
        snapshot.total_entries = Some(self.total_entries);
        snapshot.total_bytes = self.total_bytes;
        let policy: RuntimePolicy = if self.parallel {
            RuntimePolicy::OverwriteAll
        } else {
            RuntimePolicy::from_initial(options.conflict_policy)
        };
        ExtractContext::new(
            snapshot,
            copy_text(&options.password),
            policy,
            self.targets_missing,
            false,
        )
    }
}

/// A copy of an optional text.
fn copy_text(from: &Option<String>) -> (copy: Option<String>)
    ensures
        text::option_text(copy) == text::option_text(*from),
{
    match from {
        Some(text) => Some(text.clone()),
        None => None,
    }
}

/// An entry as a test sees it. Nothing is written, so an unsafe path is no
/// error; it is left empty.
pub open spec fn tested_item(entry: EntryView) -> ItemView {
    let names = paths::without_dots(entry.path);
    ItemView {
        index: if entry.index <= u32::MAX {
            entry.index as u32
        } else {
            u32::MAX
        },
        relative: if paths::is_safe_path(names) {
            names
        } else {
            Seq::empty()
        },
        display_path: entry.display_path,
        is_dir: entry.kind == ArchiveEntryKind::Directory,
        size: entry.size,
        mtime_unix: entry.modified_unix_seconds,
    }
}

/// The entries as a test sees them.
pub open spec fn tested_items(entries: Seq<EntryView>) -> Seq<ItemView> {
    Seq::new(entries.len(), |i: int| tested_item(entries[i]))
}

/// What the library is asked to test: every entry.
pub fn test_items(entries: &Vec<ArchiveEntry>) -> (items: Vec<ExtractItem>)
    ensures
        extracting::item_views(items@) == tested_items(options::entry_views(entries@)),
{
    let ghost views = options::entry_views(entries@);
    let mut items: Vec<ExtractItem> = Vec::new();
    let mut i: usize = 0;
    while i < entries.len()
        invariant
            i <= entries@.len(),
            views == options::entry_views(entries@),
            items@.len() == i,
            forall|k: int| 0 <= k < i ==> (#[trigger] items@[k])@ == tested_item(views[k]),
        decreases entries@.len() - i,
    {
        let entry = &entries[i];
        let index: u32 = if entry.index <= 0xFFFF_FFFF {
            entry.index as u32
        } else {
            u32::MAX
        };
        let relative: Vec<String> = match paths::safe_components(
            &entry.path,
            entry.display_path.as_str(),
        ) {
            Ok(safe) => safe,
            Err(_) => {
                let none: Vec<String> = Vec::new();
                proof {
                    assert(text::texts(none@) =~= Seq::<Seq<char>>::empty());
                }
                none
            },
        };
        let item = ExtractItem {
            index,
            relative,
            display_path: entry.display_path.clone(),
            is_dir: entry.kind == ArchiveEntryKind::Directory,
            size: entry.size,
            mtime_unix: entry.modified_unix_seconds,
        };
        proof {
            assert(views[i as int] == entry@);
            assert(item@ =~= tested_item(views[i as int]));
        }
        items.push(item);
        i += 1;
    }
    proof {
        assert(extracting::item_views(items@) =~= tested_items(views));
    }
    items
}

impl ReadRun {
    /// The state with which the library begins to test. Nothing is selected,
    /// so no file is written.
    pub fn start_test(&self, password: &Option<String>) -> (context: ExtractContext)
        ensures
            context.snapshot@ == (SnapshotView {
                total_entries: Some(self.entries@.len() as u64),
                total_bytes: Some(self.length),
                ..progress::fresh_snapshot(ProgressPhase::Testing)
            }),
            text::option_text(context.password) == text::option_text(*password),
            context.policy == RuntimePolicy::OverwriteAll,
            !context.assume_targets_missing,
            context.test_mode,
            !context.password_requested,
            context.current_file_base_bytes == 0,
            context.summary@ == options::empty_summary(),
            context.pending@.len() == 0,
            context.error is None,
    {
        let mut snapshot = ProgressSnapshot::new(ProgressPhase::Testing);
        snapshot.total_entries = Some(self.entries.len() as u64);
        snapshot.total_bytes = Some(self.length);
        ExtractContext::new(snapshot, copy_text(password), RuntimePolicy::OverwriteAll, false, true)
    }

    /// The listing of an archive whose entries have their names, and the last
    /// snapshot. `encrypted` is the archive's own encryption property.
    pub fn listed(self, archive: &str, encrypted: &Property) -> (listed: Option<
        (ArchiveListing, ProgressSnapshot),
    >)
        ensures
            match listed {
                None => self.stage != ReadStage::AskEncryption || self.format is None,
                Some((found, last)) => {
                    let count = self.entries@.len() as u64;
                    &&& self.stage == ReadStage::AskEncryption
                    &&& self.format is Some
                    &&& listing::is_listing(
                        found,
                        archive@,
                        self.format->0,
                        self@.entries,
                        *encrypted,
                    )
                    &&& last@ == (SnapshotView {
                        entries_processed: count,
                        total_entries: Some(count),
                        bytes_processed: self.length,
                        total_bytes: Some(self.length),
                        ..progress::fresh_snapshot(ProgressPhase::Finished)
                    })
                },
            },
    {
        if self.stage != ReadStage::AskEncryption {
            return None;
        }
        let format: ReadFormat = match self.format {
            Some(format) => format,
            None => {
                return None;
            },
        };
        let count: u64 = self.entries.len() as u64;
        let mut last = ProgressSnapshot::new(ProgressPhase::Finished);
        last.entries_processed = count;
        last.total_entries = Some(count);
        last.bytes_processed = self.length;
        last.total_bytes = Some(self.length);
        let found: ArchiveListing = listing::finish_listing(
            archive,
            format,
            self.entries,
            encrypted,
        );
        Some((found, last))
    }
}

// ---------------------------------------------------------------------------
// Laws
// ---------------------------------------------------------------------------

/// An extraction reads the archive only if its destination is a directory and
/// no link or mount point.
pub proof fn law_destination_is_checked_first(
    state: ReadState,
    is_dir: bool,
    is_reparse: bool,
    root: Seq<char>,
)
    ensures
        state.after_root(is_dir, is_reparse, root).stage == ReadStage::Measure <==> is_dir
            && !is_reparse,
        state.after_root(is_dir, is_reparse, root).stage == ReadStage::Failed <==> !is_dir
            || is_reparse,
{
}

/// A test writes nothing: no request for an output stream leads to a file or a
/// directory.
pub proof fn law_test_writes_nothing(
    before: ExtractContext,
    after: ExtractContext,
    items: Seq<ExtractItem>,
    selected: Set<u32>,
    index: u32,
    mode: i32,
    cancelled: bool,
    request: StreamRequest,
)
    requires
        before.test_mode,
        extracting::answered(before, items, selected, index, mode, cancelled, request, after),
    ensures
        request is Return,
        after.pending == before.pending,
        after.test_mode,
{
}

/// A ZIP archive's own names are read for a listing and for an extraction, and
/// never for a test; an LZH archive's paths are repaired likewise.
pub proof fn law_names_are_read_where_they_show(
    state: ReadState,
    format: ReadFormat,
    entries: Seq<EntryView>,
)
    ensures
        state.after_format(Some(format)).stage == ReadStage::ReadNames <==> state.kind
            != ReadKind::Test && format == ReadFormat::Zip,
        state.after_entries(Ok(entries)).stage == ReadStage::RepairPaths <==> state.kind
            != ReadKind::Test && state.format == Some(ReadFormat::Lzh),
{
}

/// Reading goes through its stages in order, for each kind of operation: the
/// names of a ZIP archive are read before it is opened, the paths of an LZH
/// archive are repaired, a listing asks about encryption at the end, and the
/// others run.
pub proof fn law_reading_goes_step_by_step(
    state: ReadState,
    missing: bool,
    length: u64,
    format: ReadFormat,
    entries: Seq<EntryView>,
    path: Seq<char>,
)
    ensures
        state.after_inspection(Ok(missing)).stage == ReadStage::MakeDestination,
        state.after_inspection(Ok(missing)).was_missing == missing,
        state.after_destination(None).stage == ReadStage::CheckRoot,
        state.after_measure(Ok(length)).stage == ReadStage::Identify,
        state.after_measure(Ok(length)).length == length,
        state.after_format(Some(format)).format == Some(format),
        state.kind == ReadKind::Test || format != ReadFormat::Zip ==> state.after_format(
            Some(format),
        ).stage == ReadStage::Open,
        state.kind != ReadKind::Test && format == ReadFormat::Zip ==> state.after_format(
            Some(format),
        ).stage == ReadStage::ReadNames,
        state.after_format(None).stage == ReadStage::Failed,
        state.stage == ReadStage::ReadNames ==> state.after_step(None).stage == ReadStage::Open,
        state.stage == ReadStage::Open && state.format is Some ==> state.after_open(
            path,
            0,
            false,
        ).stage == ReadStage::ReadEntries,
        state.after_entries(Ok(entries)).entries == entries,
        state.kind == ReadKind::Test ==> state.after_entries(Ok(entries)).stage == ReadStage::Run,
        state.kind != ReadKind::Test && state.format == Some(ReadFormat::Lzh)
            ==> state.after_entries(Ok(entries)).stage == ReadStage::RepairPaths,
        state.kind != ReadKind::Test && state.format != Some(ReadFormat::Lzh)
            ==> state.after_entries(Ok(entries)).stage == ReadStage::NameEntries,
        state.kind == ReadKind::List ==> state.named_stage() == ReadStage::AskEncryption,
        state.kind != ReadKind::List ==> state.named_stage() == ReadStage::Run,
{
}

/// Whatever fails ends the reading with its error.
pub proof fn law_failures_end_the_reading(state: ReadState, error: ErrorView)
    ensures
        state.after_inspection(Err(error)) == state.failed(error),
        state.after_destination(Some(error)) == state.failed(error),
        state.after_measure(Err(error)) == state.failed(error),
        state.after_step(Some(error)) == state.failed(error),
        state.after_entries(Err(error)) == state.failed(error),
        state.failed(error).stage == ReadStage::Failed,
        state.failed(error).error == Some(error),
{
}

/// An extraction starts with the policy that was chosen; workers that share
/// the entries need not ask, since nothing is in their way.
pub proof fn law_policies_to_start_with(initial: InitialConflictPolicy)
    ensures
        starting_policy(false, InitialConflictPolicy::Ask) == RuntimePolicy::Ask,
        starting_policy(false, InitialConflictPolicy::OverwriteAll) == RuntimePolicy::OverwriteAll,
        starting_policy(false, InitialConflictPolicy::SkipAll) == RuntimePolicy::SkipAll,
        starting_policy(true, initial) == RuntimePolicy::OverwriteAll,
{
}

/// A test looks at every entry, as what it is.
pub proof fn law_tests_look_at_every_entry(entries: Seq<EntryView>, i: int)
    requires
        0 <= i < entries.len(),
    ensures
        tested_items(entries).len() == entries.len(),
        tested_items(entries)[i].is_dir <==> entries[i].kind == ArchiveEntryKind::Directory,
        tested_items(entries)[i].display_path == entries[i].display_path,
        tested_items(entries)[i].size == entries[i].size,
        tested_items(entries)[i].mtime_unix == entries[i].modified_unix_seconds,
        entries[i].index <= u32::MAX ==> tested_items(entries)[i].index == entries[i].index,
        paths::is_safe_path(paths::without_dots(entries[i].path)) ==> tested_items(
            entries,
        )[i].relative == paths::without_dots(entries[i].path),
{
}

} // verus!
