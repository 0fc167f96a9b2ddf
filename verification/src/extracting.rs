//! The state of an extraction that the native library drives by callbacks.
//!
//! Each callback is answered by a decision. Where a decision asks for a file
//! operation, the caller performs it and reports the outcome.

use std::collections::HashSet;
use std::collections::VecDeque;
use vstd::prelude::*;
use vstd::string::*;
use crate::error::{ArchiveError, ErrorView};
use crate::ffi::{
    E_ABORT, EXTRACT_MODE_SKIP, OPERATION_RESULT_CRC_ERROR, OPERATION_RESULT_DATA_ERROR,
    OPERATION_RESULT_OK, OPERATION_RESULT_UNSUPPORTED_METHOD, S_OK,
};
use crate::options;
use crate::options::{ConflictChoice, OperationSummary, RuntimePolicy};
use crate::progress::{ProgressSnapshot, SnapshotView};
use crate::streams;
use crate::text;

verus! {

/// One entry as the extraction sees it.
#[derive(Debug)]
pub struct ExtractItem {
    pub index: u32,
    pub relative: Vec<String>,
    pub display_path: String,
    pub is_dir: bool,
    pub size: Option<u64>,
    pub mtime_unix: Option<i64>,
}

/// An [`ExtractItem`] over sequences.
#[verifier::ext_equal]
pub struct ItemView {
    pub index: u32,
    pub relative: Seq<Seq<char>>,
    pub display_path: Seq<char>,
    pub is_dir: bool,
    pub size: Option<u64>,
    pub mtime_unix: Option<i64>,
}

impl View for ExtractItem {
    type V = ItemView;

    open spec fn view(&self) -> ItemView {
        ItemView {
            index: self.index,
            relative: text::texts(self.relative@),
            display_path: self.display_path@,
            is_dir: self.is_dir,
            size: self.size,
            mtime_unix: self.mtime_unix,
        }
    }
}

/// The views of items.
pub open spec fn item_views(items: Seq<ExtractItem>) -> Seq<ItemView> {
    Seq::new(items.len(), |i: int| items[i]@)
}

/// A file that is being written. While it is `armed`, giving it up removes
/// the temporary file, or the target where it is written directly.
#[derive(Debug)]
pub struct PendingFile {
    pub temp_path: Option<String>,
    pub target: String,
    pub size: u64,
    pub mtime_unix: Option<i64>,
    pub armed: bool,
}

impl PendingFile {
    /// Keeps the file when the record is given up.
    pub fn disarm(&mut self)
        ensures
            *final(self) == (PendingFile { armed: false, ..*old(self) }),
    {
        self.armed = false;
    }

    /// The time to set on the file before it is put in place, in seconds
    /// since 1970: times before that are not set.
    pub fn time_to_set(&self) -> (seconds: Option<u64>)
        ensures
            match self.mtime_unix {
                Some(time) => if time >= 0 {
                    seconds is Some && seconds->0 == time
                } else {
                    seconds is None
                },
                None => seconds is None,
            },
    {
        match self.mtime_unix {
            Some(time) => if time >= 0 {
                Some(time as u64)
            } else {
                None
            },
            None => None,
        }
    }

    /// The file to remove when the record is given up.
    pub fn leftover(&self) -> (path: Option<String>)
        ensures
            text::option_text(path) == if !self.armed {
                None
            } else {
                match text::option_text(self.temp_path) {
                    Some(temp) => Some(temp),
                    None => Some(self.target@),
                }
            },
    {
        if !self.armed {
            return None;
        }
        match &self.temp_path {
            Some(temp) => Some(temp.clone()),
            None => Some(self.target.clone()),
        }
    }
}

/// What [`split_callback_progress`] computes: the bytes of the whole
/// operation and those of the current file.
pub open spec fn split_progress(reported: u64, base: u64, total: Option<u64>) -> (u64, u64) {
    let shifted = if reported >= base { (reported - base) as u64 } else { reported };
    let current = match total {
        Some(total) => if shifted < total { shifted } else { total },
        None => shifted,
    };
    (options::capped_sum(base, current), current)
}

/// Turns a byte counter into that of the whole operation and that of the
/// current file. Some handlers count over the operation, others start again
/// at zero for each file; both forms are understood.
pub fn split_callback_progress(
    reported_bytes: u64,
    current_file_base_bytes: u64,
    current_file_total_bytes: Option<u64>,
) -> (progress: (u64, u64))
    ensures
        progress == split_progress(
            reported_bytes,
            current_file_base_bytes,
            current_file_total_bytes,
        ),
{
    let shifted: u64 = if reported_bytes >= current_file_base_bytes {
        reported_bytes - current_file_base_bytes
    } else {
        reported_bytes
    };
    let current: u64 = match current_file_total_bytes {
        Some(total) => if shifted < total {
            shifted
        } else {
            total
        },
        None => shifted,
    };
    (current_file_base_bytes.saturating_add(current), current)
}

/// The state that the callbacks of one extraction share.
#[derive(Debug)]
pub struct ExtractContext {
    pub assume_targets_missing: bool,
    pub policy: RuntimePolicy,
    pub password: Option<String>,
    pub password_requested: bool,
    pub current_file_base_bytes: u64,
    pub snapshot: ProgressSnapshot,
    pub summary: OperationSummary,
    pub pending: VecDeque<PendingFile>,
    pub error: Option<ArchiveError>,
    pub test_mode: bool,
}

/// The view of an optional error.
pub open spec fn option_error(error: Option<ArchiveError>) -> Option<ErrorView> {
    match error {
        Some(error) => Some(error@),
        None => None,
    }
}

/// What a request for an output stream comes to.
#[derive(Debug, Clone, Copy, PartialEq, Eq, Structural)]
pub enum StreamRequest {
    /// Return this code; there is no stream.
    Return(i32),
    /// Make sure that the entry's directory exists.
    Directory,
    /// Make sure that the directory above the entry exists, and open the
    /// file.
    File,
}

/// What is found where a file is to be written.
#[derive(Debug)]
pub enum TargetState {
    /// Nothing is there.
    Missing,
    /// Something is there; `reparse` tells a link or mount point.
    Exists { reparse: bool },
    /// It cannot be told.
    Failed(ArchiveError),
}

/// How a file is written.
#[derive(Debug, Clone, Copy, PartialEq, Eq, Structural)]
pub enum TargetDecision {
    /// Ask what to do about the existing file and decide again.
    Ask,
    /// Create the file: the target itself when `direct`, else a temporary
    /// file beside it.
    Write { direct: bool },
    /// Return this code; there is no stream.
    Return(i32),
}

/// What the end of an entry comes to.
#[derive(Debug)]
pub enum ResultDecision {
    /// Return this code and show the snapshot where there is one.
    Return(i32, Option<ProgressSnapshot>),
    /// Close the file, set its time, put it in place where it is a temporary
    /// file, and report with `finish_pending`.
    Install(PendingFile),
}

/// The text of a failed entry.
pub open spec fn operation_error_text(result: i32) -> Seq<char> {
    if result == OPERATION_RESULT_UNSUPPORTED_METHOD {
        "unsupported compression method"@
    } else if result == OPERATION_RESULT_DATA_ERROR {
        "data error"@
    } else if result == OPERATION_RESULT_CRC_ERROR {
        "CRC check failed"@
    } else {
        "unknown extraction error"@
    }
}

/// Whether an entry that had no output stream is shown as done.
pub open spec fn reports_without_file(s: SnapshotView) -> bool {
    s.current_file.len() > 0 && s.current_file_total_bytes is Some
}

/// The snapshot once an entry without an output stream is done.
pub open spec fn done_without_file(s: SnapshotView, base: u64) -> SnapshotView {
    if reports_without_file(s) {
        let total = s.current_file_total_bytes->0;
        SnapshotView {
            current_file_bytes_processed: total,
            bytes_processed: streams::larger(
                s.bytes_processed as int,
                options::capped_sum(base, total) as int,
            ) as u64,
            ..s
        }
    } else {
        s
    }
}

/// The snapshot once a file of `size` bytes is in place, with `entries` and
/// `bytes` done altogether.
pub open spec fn done_with_file(
    s: SnapshotView,
    base: u64,
    size: u64,
    entries: u64,
    bytes: u64,
) -> SnapshotView {
    SnapshotView {
        current_file_total_bytes: Some(size),
        current_file_bytes_processed: size,
        entries_processed: entries,
        bytes_processed: streams::larger(
            streams::larger(s.bytes_processed as int, options::capped_sum(base, size) as int),
            bytes as int,
        ) as u64,
        ..s
    }
}

/// Whether `request` is what a request for an entry's output stream comes to,
/// and `after` is what it makes of `before`. Entries that are only skipped
/// over, unknown entries, entries that are tested and entries that are not
/// selected have no stream.
pub open spec fn answered(
    before: ExtractContext,
    items: Seq<ExtractItem>,
    selected: Set<u32>,
    index: u32,
    mode: i32,
    cancelled: bool,
    request: StreamRequest,
    after: ExtractContext,
) -> bool {
    if cancelled {
        request == StreamRequest::Return(E_ABORT) && after == before
    } else if mode == EXTRACT_MODE_SKIP {
        &&& request == StreamRequest::Return(S_OK)
        &&& after.snapshot@ == (SnapshotView {
            current_file: Seq::empty(),
            current_file_total_bytes: None,
            current_file_bytes_processed: 0,
            ..before.snapshot@
        })
        &&& after == (ExtractContext { snapshot: after.snapshot, ..before })
    } else if index >= items.len() {
        request == StreamRequest::Return(S_OK) && after == before
    } else {
        let item = items[index as int];
        &&& after.snapshot@ == ExtractContext::showing(before.snapshot@, item)
        &&& after.current_file_base_bytes == before.snapshot.bytes_processed
        &&& after == (ExtractContext {
            snapshot: after.snapshot,
            current_file_base_bytes: after.current_file_base_bytes,
            ..before
        })
        &&& request == if before.test_mode || !selected.contains(item.index) {
            StreamRequest::Return(S_OK)
        } else if item.is_dir {
            StreamRequest::Directory
        } else {
            StreamRequest::File
        }
    }
}

/// Whether `decision` about a file whose target is in `state` is right, and
/// `after` is what it makes of `before`. An answer for all files is kept, so
/// later files are not asked about.
pub open spec fn resolved(
    before: ExtractContext,
    target: Seq<char>,
    state: TargetState,
    answer: Option<ConflictChoice>,
    decision: TargetDecision,
    after: ExtractContext,
) -> bool {
    &&& after == (ExtractContext {
        error: after.error,
        policy: after.policy,
        summary: after.summary,
        ..before
    })
    &&& if before.assume_targets_missing {
        decision == (TargetDecision::Write { direct: true }) && after == before
    } else {
        match state {
            TargetState::Missing => decision == (TargetDecision::Write { direct: true }) && after
                == before,
            TargetState::Failed(error) => decision == TargetDecision::Return(E_ABORT) && after == (
            ExtractContext { error: Some(error), ..before }),
            TargetState::Exists { reparse: true } => {
                &&& decision == TargetDecision::Return(E_ABORT)
                &&& option_error(after.error) == Some(ErrorView::ReparsePoint(target))
                &&& after == (ExtractContext { error: after.error, ..before })
            },
            TargetState::Exists { reparse: false } => match before.choice(answer) {
                None => decision == TargetDecision::Ask && after == before,
                Some(choice) => {
                    &&& after.policy == before.policy.after(choice)
                    &&& match choice {
                        ConflictChoice::Overwrite | ConflictChoice::OverwriteAll => {
                            &&& decision == TargetDecision::Write { direct: false }
                            &&& after.summary == before.summary
                            &&& after.error == before.error
                        },
                        ConflictChoice::Skip | ConflictChoice::SkipAll => {
                            &&& decision == TargetDecision::Return(S_OK)
                            &&& after.summary == (OperationSummary {
                                entries_skipped: (before.summary.entries_skipped + 1) as u64,
                                ..before.summary
                            })
                            &&& after.error == before.error
                        },
                        ConflictChoice::Cancel => {
                            &&& decision == TargetDecision::Return(E_ABORT)
                            &&& after.summary == before.summary
                            &&& option_error(after.error) == Some(ErrorView::Cancelled)
                        },
                    }
                },
            },
        }
    }
}

/// The record of an output file that was created.
pub open spec fn pending_file(
    item: ExtractItem,
    target: String,
    temp_path: Option<String>,
) -> PendingFile {
    PendingFile {
        temp_path,
        target,
        size: match item.size {
            Some(size) => size,
            None => 0,
        },
        mtime_unix: item.mtime_unix,
        armed: true,
    }
}

impl ExtractContext {
    /// The state at the start of an extraction, or of a test that writes
    /// nothing.
    pub fn new(
        snapshot: ProgressSnapshot,
        password: Option<String>,
        policy: RuntimePolicy,
        assume_targets_missing: bool,
        test_mode: bool,
    ) -> (context: ExtractContext)
        ensures
            context.snapshot == snapshot,
            context.password == password,
            context.policy == policy,
            context.assume_targets_missing == assume_targets_missing,
            context.test_mode == test_mode,
            !context.password_requested,
            context.current_file_base_bytes == 0,
            context.summary@ == options::empty_summary(),
            context.pending@.len() == 0,
            context.error is None,
    {
        ExtractContext {
            assume_targets_missing,
            policy,
            password,
            password_requested: false,
            current_file_base_bytes: 0,
            snapshot,
            summary: OperationSummary::empty(),
            pending: VecDeque::new(),
            error: None,
            test_mode,
        }
    }

    /// Takes the total that a handler reports. A total that is known already
    /// is kept: it counts the selected entries, while a handler may count
    /// something else.
    pub fn set_total(&mut self, total: u64) -> (shown: ProgressSnapshot)
        ensures
            shown@ == final(self).snapshot@,
            final(self).snapshot@ == (SnapshotView {
                total_bytes: if old(self).snapshot.total_bytes is None {
                    Some(total)
                } else {
                    old(self).snapshot.total_bytes
                },
                ..old(self).snapshot@
            }),
            *final(self) == (ExtractContext { snapshot: final(self).snapshot, ..*old(self) }),
    {
        if self.snapshot.total_bytes.is_none() {
            self.snapshot.total_bytes = Some(total);
        }
        self.snapshot.copy()
    }

    /// Takes a byte counter, where the handler gives one. The bytes of the
    /// whole operation never go back.
    pub fn set_completed(&mut self, complete: Option<u64>, cancelled: bool) -> (answer: (
        i32,
        Option<ProgressSnapshot>,
    ))
        ensures
            answer.0 == if cancelled {
                E_ABORT
            } else {
                S_OK
            },
            cancelled || complete is None ==> answer.1 is None && *final(self) == *old(self),
            !cancelled && complete is Some ==> {
                let (bytes, current) = split_progress(
                    complete->0,
                    old(self).current_file_base_bytes,
                    old(self).snapshot.current_file_total_bytes,
                );
                &&& final(self).snapshot@ == (SnapshotView {
                    bytes_processed: streams::larger(
                        old(self).snapshot.bytes_processed as int,
                        bytes as int,
                    ) as u64,
                    current_file_bytes_processed: current,
                    ..old(self).snapshot@
                })
                &&& answer.1 is Some
                &&& answer.1->0@ == final(self).snapshot@
            },
            *final(self) == (ExtractContext { snapshot: final(self).snapshot, ..*old(self) }),
            final(self).snapshot.bytes_processed >= old(self).snapshot.bytes_processed,
    {
        if cancelled {
            return (E_ABORT, None);
        }
        match complete {
            None => (S_OK, None),
            Some(complete) => {
                let (bytes, current) = split_callback_progress(
                    complete,
                    self.current_file_base_bytes,
                    self.snapshot.current_file_total_bytes,
                );
                if bytes > self.snapshot.bytes_processed {
                    self.snapshot.bytes_processed = bytes;
                }
                self.snapshot.current_file_bytes_processed = current;
                (S_OK, Some(self.snapshot.copy()))
            },
        }
    }

    /// The snapshot while `item` is worked on.
    pub open spec fn showing(s: SnapshotView, item: ExtractItem) -> SnapshotView {
        SnapshotView {
            current_file: item.display_path@,
            current_file_total_bytes: if item.is_dir {
                Some(0)
            } else {
                item.size
            },
            current_file_bytes_processed: 0,
            ..s
        }
    }

    /// Answers a request for an entry's output stream. Entries that are only
    /// skipped over, unknown entries, entries that are tested and entries that
    /// are not selected have none.
    pub fn get_stream(
        &mut self,
        items: &Vec<ExtractItem>,
        selected: &HashSet<u32>,
        index: u32,
        ask_extract_mode: i32,
        cancelled: bool,
    ) -> (request: StreamRequest)
        ensures
            answered(
                *old(self),
                items@,
                selected@,
                index,
                ask_extract_mode,
                cancelled,
                request,
                *final(self),
            ),
    {
        if cancelled {
            return StreamRequest::Return(E_ABORT);
        }
        if ask_extract_mode == EXTRACT_MODE_SKIP {
            self.snapshot.current_file = String::new();
            self.snapshot.current_file_total_bytes = None;
            self.snapshot.current_file_bytes_processed = 0;
            return StreamRequest::Return(S_OK);
        }
        if (index as usize) >= items.len() {
            return StreamRequest::Return(S_OK);
        }
        let item = &items[index as usize];
        self.snapshot.current_file = item.display_path.clone();
        self.snapshot.current_file_total_bytes = if item.is_dir { Some(0) } else { item.size };
        self.snapshot.current_file_bytes_processed = 0;
        self.current_file_base_bytes = self.snapshot.bytes_processed;
        if self.test_mode {
            return StreamRequest::Return(S_OK);
        }
        if !selected.contains(&item.index) {
            return StreamRequest::Return(S_OK);
        }
        if item.is_dir {
            StreamRequest::Directory
        } else {
            StreamRequest::File
        }
    }

    /// The answer about an existing file: the policy's own, or the one given.
    pub open spec fn choice(self, answer: Option<ConflictChoice>) -> Option<ConflictChoice> {
        match self.policy.settled() {
            Some(choice) => Some(choice),
            None => answer,
        }
    }

    /// Decides how a file is written, by what stands at its target. `answer`
    /// is what was said about an existing file, where it was asked. An answer
    /// for all files is kept, so later files are not asked about.
    pub fn resolve_target(
        &mut self,
        target: &str,
        state: TargetState,
        answer: Option<ConflictChoice>,
    ) -> (decision: TargetDecision)
        requires
            old(self).summary.entries_skipped < u64::MAX,
        ensures
            resolved(*old(self), target@, state, answer, decision, *final(self)),
    {
        if self.assume_targets_missing {
            return TargetDecision::Write { direct: true };
        }
        match state {
            TargetState::Missing => TargetDecision::Write { direct: true },
            TargetState::Failed(error) => {
                self.error = Some(error);
                TargetDecision::Return(E_ABORT)
            },
            TargetState::Exists { reparse } => {
                if reparse {
                    self.error = Some(ArchiveError::ReparsePoint(target.to_owned()));
                    return TargetDecision::Return(E_ABORT);
                }
                let choice: ConflictChoice = match self.policy.settled_choice() {
                    Some(choice) => choice,
                    None => match answer {
                        Some(choice) => choice,
                        None => {
                            return TargetDecision::Ask;
                        },
                    },
                };
                self.policy = self.policy.latch(choice);
                match choice {
                    ConflictChoice::Overwrite => TargetDecision::Write { direct: false },
                    ConflictChoice::OverwriteAll => TargetDecision::Write { direct: false },
                    ConflictChoice::Skip => {
                        self.summary.entries_skipped = self.summary.entries_skipped + 1;
                        TargetDecision::Return(S_OK)
                    },
                    ConflictChoice::SkipAll => {
                        self.summary.entries_skipped = self.summary.entries_skipped + 1;
                        TargetDecision::Return(S_OK)
                    },
                    ConflictChoice::Cancel => {
                        self.error = Some(ArchiveError::Cancelled);
                        TargetDecision::Return(E_ABORT)
                    },
                }
            },
        }
    }

    /// Takes note of an output file that was created, or of the failure to.
    pub fn stream_opened(
        &mut self,
        item: &ExtractItem,
        target: String,
        temp_path: Option<String>,
        opened: Result<(), ArchiveError>,
    ) -> (code: i32)
        ensures
            match opened {
                Ok(_) => {
                    &&& code == S_OK
                    &&& final(self).pending@ == old(self).pending@.push(
                        pending_file(*item, target, temp_path),
                    )
                    &&& *final(self) == (ExtractContext {
                        pending: final(self).pending,
                        ..*old(self)
                    })
                },
                Err(error) => code == E_ABORT && *final(self) == (ExtractContext {
                    error: Some(error),
                    ..*old(self)
                }),
            },
    {
        match opened {
            Ok(_) => {
                let size: u64 = match item.size {
                    Some(size) => size,
                    None => 0,
                };
                self.pending.push_back(
                    PendingFile {
                        temp_path,
                        target,
                        size,
                        mtime_unix: item.mtime_unix,
                        armed: true,
                    },
                );
                S_OK
            },
            Err(error) => {
                self.error = Some(error);
                E_ABORT
            },
        }
    }

    /// Takes the result of an entry. Files are put in place in the order in
    /// which their streams were asked for. The first error is kept.
    pub fn set_operation_result(&mut self, operation_result: i32, cancelled: bool) -> (decision:
        ResultDecision)
        requires
            old(self).summary.entries_processed < u64::MAX,
        ensures
            cancelled ==> decision == ResultDecision::Return(E_ABORT, None) && *final(self) == *old(
                self,
            ),
            !cancelled && operation_result != OPERATION_RESULT_OK ==> {
                &&& decision == ResultDecision::Return(E_ABORT, None)
                &&& *final(self) == (ExtractContext { error: final(self).error, ..*old(self) })
                &&& old(self).error is Some ==> final(self).error == old(self).error
                &&& old(self).error is None ==> option_error(final(self).error) == Some(
                    ErrorView::SevenZip(
                        "7z extraction failed for "@ + old(self).snapshot.current_file@ + ": "@
                            + operation_error_text(operation_result),
                    ),
                )
            },
            !cancelled && operation_result == OPERATION_RESULT_OK && old(self).pending@.len() > 0
                ==> {
                &&& decision == ResultDecision::Install(old(self).pending@[0])
                &&& final(self).pending@ == old(self).pending@.drop_first()
                &&& *final(self) == (ExtractContext { pending: final(self).pending, ..*old(self) })
            },
            !cancelled && operation_result == OPERATION_RESULT_OK && old(self).pending@.len() == 0
                ==> {
                let done = done_without_file(
                    old(self).snapshot@,
                    old(self).current_file_base_bytes,
                );
                let entries = if old(self).test_mode {
                    (old(self).summary.entries_processed + 1) as u64
                } else {
                    old(self).summary.entries_processed
                };
                &&& final(self).snapshot@ == if old(self).test_mode {
                    SnapshotView { entries_processed: entries, ..done }
                } else {
                    done
                }
                &&& final(self).summary == (OperationSummary {
                    entries_processed: entries,
                    ..old(self).summary
                })
                &&& final(self).current_file_base_bytes == if reports_without_file(
                    old(self).snapshot@,
                ) {
                    done.bytes_processed
                } else {
                    old(self).current_file_base_bytes
                }
                &&& *final(self) == (ExtractContext {
                    snapshot: final(self).snapshot,
                    summary: final(self).summary,
                    current_file_base_bytes: final(self).current_file_base_bytes,
                    pending: final(self).pending,
                    ..*old(self)
                })
                &&& final(self).pending@ == old(self).pending@
                &&& decision matches ResultDecision::Return(code, shown) && code == S_OK
                    && shown is Some == reports_without_file(old(self).snapshot@) && (shown is Some
                    ==> shown->0@ == final(self).snapshot@)
            },
            final(self).snapshot.bytes_processed >= old(self).snapshot.bytes_processed,
    {
        if cancelled {
            return ResultDecision::Return(E_ABORT, None);
        }
        if operation_result != OPERATION_RESULT_OK {
            if self.error.is_none() {
                let message = if operation_result == OPERATION_RESULT_UNSUPPORTED_METHOD {
                    "unsupported compression method"
                } else if operation_result == OPERATION_RESULT_DATA_ERROR {
                    "data error"
                } else if operation_result == OPERATION_RESULT_CRC_ERROR {
                    "CRC check failed"
                } else {
                    "unknown extraction error"
                };
                let mut shown = text::join3(
                    "7z extraction failed for ",
                    self.snapshot.current_file.as_str(),
                    ": ",
                );
                shown.append(message);
                self.error = Some(ArchiveError::SevenZip(shown));
            }
            return ResultDecision::Return(E_ABORT, None);
        }
        match self.pending.pop_front() {
            Some(pending) => {
                proof {
                    assert(self.pending@ =~= old(self).pending@.drop_first());
                }
                ResultDecision::Install(pending)
            },
            None => {
                let mut should_report: bool = false;
                if !self.snapshot.current_file.as_str().is_empty() {
                    if let Some(total) = self.snapshot.current_file_total_bytes {
                        should_report = true;
                        let completed: u64 = self.current_file_base_bytes.saturating_add(total);
                        self.snapshot.current_file_bytes_processed = total;
                        if completed > self.snapshot.bytes_processed {
                            self.snapshot.bytes_processed = completed;
                        }
                        self.current_file_base_bytes = self.snapshot.bytes_processed;
                    }
                }
                if self.test_mode {
                    self.summary.entries_processed = self.summary.entries_processed + 1;
                    self.snapshot.entries_processed = self.summary.entries_processed;
                }
                if should_report {
                    ResultDecision::Return(S_OK, Some(self.snapshot.copy()))
                } else {
                    ResultDecision::Return(S_OK, None)
                }
            },
        }
    }

    /// Takes the outcome of putting a file in place, and gives the code to
    /// return with the snapshot to show. A failure ends the extraction; the
    /// first error is kept.
    pub fn finish_pending(&mut self, pending: &PendingFile, installed: Result<(), ArchiveError>) -> (
        answer: (i32, Option<ProgressSnapshot>))
        requires
            old(self).summary.entries_processed < u64::MAX,
        ensures
            match installed {
                Err(error) => {
                    &&& answer == (E_ABORT, None::<ProgressSnapshot>)
                    &&& *final(self) == (ExtractContext {
                        error: if old(self).error is Some {
                            old(self).error
                        } else {
                            Some(error)
                        },
                        ..*old(self)
                    })
                },
                Ok(_) => {
                    let entries = (old(self).summary.entries_processed + 1) as u64;
                    let bytes = options::capped_sum(
                        old(self).summary.bytes_processed,
                        pending.size,
                    );
                    &&& final(self).summary == (OperationSummary {
                        entries_processed: entries,
                        bytes_processed: bytes,
                        ..old(self).summary
                    })
                    &&& final(self).snapshot@ == done_with_file(
                        old(self).snapshot@,
                        old(self).current_file_base_bytes,
                        pending.size,
                        entries,
                        bytes,
                    )
                    &&& final(self).current_file_base_bytes == final(self).snapshot.bytes_processed
                    &&& *final(self) == (ExtractContext {
                        snapshot: final(self).snapshot,
                        summary: final(self).summary,
                        current_file_base_bytes: final(self).current_file_base_bytes,
                        ..*old(self)
                    })
                    &&& answer.0 == S_OK
                    &&& answer.1 is Some
                    &&& answer.1->0@ == final(self).snapshot@
                },
            },
            final(self).snapshot.bytes_processed >= old(self).snapshot.bytes_processed,
    {
        match installed {
            Err(error) => {
                if self.error.is_none() {
                    self.error = Some(error);
                }
                (E_ABORT, None)
            },
            Ok(_) => {
                self.summary.entries_processed = self.summary.entries_processed + 1;
                self.summary.bytes_processed = self.summary.bytes_processed.saturating_add(
                    pending.size,
                );
                self.snapshot.current_file_total_bytes = Some(pending.size);
                self.snapshot.current_file_bytes_processed = pending.size;
                self.snapshot.entries_processed = self.summary.entries_processed;
                let completed: u64 = self.current_file_base_bytes.saturating_add(pending.size);
                if completed > self.snapshot.bytes_processed {
                    self.snapshot.bytes_processed = completed;
                }
                if self.summary.bytes_processed > self.snapshot.bytes_processed {
                    self.snapshot.bytes_processed = self.summary.bytes_processed;
                }
                self.current_file_base_bytes = self.snapshot.bytes_processed;
                (S_OK, Some(self.snapshot.copy()))
            },
        }
    }

    /// Takes note of a question for the password and gives the answer.
    pub fn password_asked(&mut self) -> (answer: PasswordAnswer)
        ensures
            answer@ == password_answer(text::option_text(old(self).password)),
            *final(self) == (ExtractContext { password_requested: true, ..*old(self) }),
    {
        self.password_requested = true;
        answer_password(&self.password)
    }
}

// ---------------------------------------------------------------------------
// Passwords
// ---------------------------------------------------------------------------

/// The answer to a question for the password.
#[derive(Debug)]
pub enum PasswordAnswer {
    /// There is none; the operation is aborted.
    Missing,
    /// The password.
    Given(String),
}

/// A [`PasswordAnswer`] over sequences.
pub enum PasswordView {
    Missing,
    Given(Seq<char>),
}

impl View for PasswordAnswer {
    type V = PasswordView;

    open spec fn view(&self) -> PasswordView {
        match *self {
            PasswordAnswer::Missing => PasswordView::Missing,
            PasswordAnswer::Given(password) => PasswordView::Given(password@),
        }
    }
}

/// A missing password is a failure, and so is an empty one: an empty answer
/// would make the native library go on as if one had been supplied.
pub open spec fn password_answer(password: Option<Seq<char>>) -> PasswordView {
    match password {
        Some(password) => if password.len() > 0 {
            PasswordView::Given(password)
        } else {
            PasswordView::Missing
        },
        None => PasswordView::Missing,
    }
}

/// [`password_answer`], executable.
pub fn answer_password(password: &Option<String>) -> (answer: PasswordAnswer)
    ensures
        answer@ == password_answer(text::option_text(*password)),
{
    match password {
        Some(password) => {
            if password.as_str().is_empty() {
                PasswordAnswer::Missing
            } else {
                PasswordAnswer::Given(password.clone())
            }
        },
        None => PasswordAnswer::Missing,
    }
}

impl PasswordAnswer {
    /// The result code that goes with the answer.
    pub fn code(&self) -> (code: i32)
        ensures
            code == if self@ == PasswordView::Missing {
                E_ABORT
            } else {
                S_OK
            },
    {
        match self {
            PasswordAnswer::Missing => E_ABORT,
            PasswordAnswer::Given(_) => S_OK,
        }
    }
}

// ---------------------------------------------------------------------------
// Laws
// ---------------------------------------------------------------------------

/// A counter that starts again at zero for each file means the same as one
/// that counts over the whole operation.
pub proof fn law_restarting_counters_agree(base: u64, current: u64, total: Option<u64>)
    requires
        base + current <= u64::MAX,
        current < base,
    ensures
        split_progress(current, base, total) == split_progress((base + current) as u64, base, total),
{
}

/// The bytes of the current file never pass its size, and those of the whole
/// operation are never behind what was done before it.
pub proof fn law_file_progress_within_file(reported: u64, base: u64, total: Option<u64>)
    ensures
        total matches Some(total) ==> split_progress(reported, base, Some(total)).1 <= total,
        split_progress(reported, base, total).0 >= base,
{
}

/// A file whose place is taken is asked about once, as long as no answer for
/// all files was given: without an answer the decision is to ask, and nothing
/// changes; with one, it is final. Skipping counts the file and touches
/// nothing else; cancelling ends the operation. Once an answer is for all
/// files, no later file is asked about.
pub proof fn law_existing_files_are_asked_about_once(
    before: ExtractContext,
    target: Seq<char>,
    choice: ConflictChoice,
    asked: TargetDecision,
    between: ExtractContext,
    decision: TargetDecision,
    after: ExtractContext,
)
    requires
        !before.assume_targets_missing,
        before.policy == RuntimePolicy::Ask,
        resolved(before, target, TargetState::Exists { reparse: false }, None, asked, between),
        resolved(
            between,
            target,
            TargetState::Exists { reparse: false },
            Some(choice),
            decision,
            after,
        ),
    ensures
        asked == TargetDecision::Ask,
        between == before,
        match choice {
            ConflictChoice::Overwrite | ConflictChoice::OverwriteAll => {
                &&& decision == (TargetDecision::Write { direct: false })
                &&& after == (ExtractContext { policy: after.policy, ..before })
            },
            ConflictChoice::Skip | ConflictChoice::SkipAll => {
                &&& decision == TargetDecision::Return(S_OK)
                &&& after.summary == (OperationSummary {
                    entries_skipped: (before.summary.entries_skipped + 1) as u64,
                    ..before.summary
                })
                &&& after == (ExtractContext {
                    policy: after.policy,
                    summary: after.summary,
                    ..before
                })
            },
            ConflictChoice::Cancel => {
                &&& decision == TargetDecision::Return(E_ABORT)
                &&& option_error(after.error) == Some(ErrorView::Cancelled)
                &&& after == (ExtractContext { error: after.error, ..before })
            },
        },
        choice == ConflictChoice::OverwriteAll || choice == ConflictChoice::SkipAll ==> forall|
            later: ExtractContext,
            other: Seq<char>,
            state: TargetState,
            answer: Option<ConflictChoice>,
            settled: TargetDecision,
            left: ExtractContext,
        |
            later.policy == after.policy && #[trigger] resolved(
                later,
                other,
                state,
                answer,
                settled,
                left,
            ) ==> settled != TargetDecision::Ask && left.policy == after.policy,
{
}

/// Where the handler asks for the output of an entry that is extracted and
/// selected, a directory is made for a directory, and a file is opened for a
/// file, whatever their paths. In a test, for entries that are not selected
/// and for those that are only skipped over, nothing is written.
pub proof fn law_selected_entries_are_written(
    before: ExtractContext,
    items: Seq<ExtractItem>,
    selected: Set<u32>,
    index: u32,
    mode: i32,
    request: StreamRequest,
    after: ExtractContext,
)
    requires
        index < items.len(),
        mode == 0 || mode == 1,
        answered(before, items, selected, index, mode, false, request, after),
    ensures
        !before.test_mode && selected.contains(items[index as int].index)
            && items[index as int].is_dir ==> request == StreamRequest::Directory,
        !before.test_mode && selected.contains(items[index as int].index)
            && !items[index as int].is_dir ==> request == StreamRequest::File,
        before.test_mode || !selected.contains(items[index as int].index) ==> request
            == StreamRequest::Return(0),
        after.snapshot@.current_file == items[index as int].display_path@,
        !items[index as int].is_dir ==> after.snapshot@.current_file_total_bytes
            == items[index as int].size,
        after.snapshot@.current_file_bytes_processed == 0,
        after.snapshot@.bytes_processed == before.snapshot@.bytes_processed,
        after.error == before.error,
        after.policy == before.policy,
        after.summary == before.summary,
        after.pending == before.pending,
{
}

/// Nothing is written where the operation is cancelled, and nothing for an
/// entry that is only skipped over.
pub proof fn law_cancelled_and_skipped_entries_are_not_written(
    before: ExtractContext,
    items: Seq<ExtractItem>,
    selected: Set<u32>,
    index: u32,
    mode: i32,
    cancelled: bool,
    request: StreamRequest,
    after: ExtractContext,
)
    requires
        answered(before, items, selected, index, mode, cancelled, request, after),
        cancelled || mode == 2 || index >= items.len(),
    ensures
        cancelled ==> request == StreamRequest::Return(E_ABORT) && after == before,
        !cancelled ==> request == StreamRequest::Return(0),
{
}

/// What is in the way of a file is never overwritten without leave. A free
/// place is written directly; a link ends the operation; an existing file is
/// replaced only where the answer, or an earlier one for all, says so.
pub proof fn law_overwriting_needs_leave(
    before: ExtractContext,
    target: Seq<char>,
    state: TargetState,
    answer: Option<ConflictChoice>,
    decision: TargetDecision,
    after: ExtractContext,
)
    requires
        !before.assume_targets_missing,
        resolved(before, target, state, answer, decision, after),
    ensures
        state is Missing ==> decision == (TargetDecision::Write { direct: true }),
        state == (TargetState::Exists { reparse: true }) ==> decision == TargetDecision::Return(
            E_ABORT,
        ) && option_error(after.error) == Some(ErrorView::ReparsePoint(target)),
        state == (TargetState::Exists { reparse: false }) && decision is Write ==> decision == (
        TargetDecision::Write { direct: false }) && (before.policy == RuntimePolicy::OverwriteAll
            || (before.policy == RuntimePolicy::Ask && (answer == Some(ConflictChoice::Overwrite)
            || answer == Some(ConflictChoice::OverwriteAll)))),
        state == (TargetState::Exists { reparse: false }) && before.policy
            == RuntimePolicy::OverwriteAll ==> decision is Write,
        state == (TargetState::Exists { reparse: false }) && before.policy
            == RuntimePolicy::SkipAll ==> decision == TargetDecision::Return(0)
            && after.summary.entries_skipped == (before.summary.entries_skipped + 1) as u64,
        state == (TargetState::Exists { reparse: false }) && before.policy == RuntimePolicy::Ask
            && (answer == Some(ConflictChoice::Overwrite) || answer == Some(
            ConflictChoice::OverwriteAll,
        )) ==> decision is Write,
        state == (TargetState::Exists { reparse: false }) && before.policy == RuntimePolicy::Ask
            && answer == Some(ConflictChoice::OverwriteAll) ==> after.policy
            == RuntimePolicy::OverwriteAll,
        state == (TargetState::Exists { reparse: false }) && before.policy == RuntimePolicy::Ask
            && answer == Some(ConflictChoice::SkipAll) ==> after.policy == RuntimePolicy::SkipAll,
        state is Failed ==> decision == TargetDecision::Return(E_ABORT) && after.error
            == Some(state->Failed_0),
{
}

/// A password is handed on as it is; an empty one counts as none.
pub proof fn law_passwords_are_handed_on(password: Seq<char>)
    ensures
        password.len() > 0 ==> password_answer(Some(password)) == PasswordView::Given(password),
        password.len() == 0 ==> password_answer(Some(password)) == PasswordView::Missing,
        password_answer(None) == PasswordView::Missing,
{
}

/// The handler's codes for an entry are told in words: 1 is a method that is
/// not supported, 2 an error in the data, 3 a checksum that does not match.
pub proof fn law_results_in_words(code: i32)
    ensures
        code == 1 ==> operation_error_text(code) == "unsupported compression method"@,
        code == 2 ==> operation_error_text(code) == "data error"@,
        code == 3 ==> operation_error_text(code) == "CRC check failed"@,
        code != 1 && code != 2 && code != 3 ==> operation_error_text(code)
            == "unknown extraction error"@,
{
}

/// A counter over the whole operation is split at where the current file
/// began, and a counter that starts again is that of the file.
pub proof fn law_counters_are_split_at_the_file(base: u64, current: u64, total: Option<u64>)
    requires
        base + current <= u64::MAX,
        total is Some ==> current <= total->0,
    ensures
        split_progress((base + current) as u64, base, total) == ((base + current) as u64, current),
        current < base ==> split_progress(current, base, total) == (
            (base + current) as u64,
            current,
        ),
{
}

/// A file that is in place counts with its size: the file is complete, the
/// bytes of the operation are at least those before it and its own, and they
/// never go back.
pub proof fn law_files_in_place_count(
    s: SnapshotView,
    base: u64,
    size: u64,
    entries: u64,
    bytes: u64,
)
    ensures
        done_with_file(s, base, size, entries, bytes).current_file_bytes_processed == size,
        done_with_file(s, base, size, entries, bytes).current_file_total_bytes == Some(size),
        done_with_file(s, base, size, entries, bytes).entries_processed == entries,
        done_with_file(s, base, size, entries, bytes).bytes_processed >= s.bytes_processed,
        done_with_file(s, base, size, entries, bytes).bytes_processed >= bytes,
        base + size <= u64::MAX ==> done_with_file(s, base, size, entries, bytes).bytes_processed
            >= base + size,
        base + size <= u64::MAX && s.bytes_processed <= base + size && bytes <= base + size
            ==> done_with_file(s, base, size, entries, bytes).bytes_processed == base + size,
{
}

/// A file that was created is removed again unless it is kept, and gets the
/// declared size and time.
pub proof fn law_created_files_are_recorded(
    item: ExtractItem,
    target: String,
    temp_path: Option<String>,
)
    ensures
        ({
            let file = pending_file(item, target, temp_path);
            &&& file.armed
            &&& file.target == target
            &&& file.temp_path == temp_path
            &&& file.mtime_unix == item.mtime_unix
            &&& item.size is Some ==> file.size == item.size->0
            &&& item.size is None ==> file.size == 0
        }),
{
}

/// An entry without an output file is shown as done exactly when it is named
/// and its size is known.
pub proof fn law_entries_shown_without_a_file(s: SnapshotView)
    ensures
        s.current_file.len() != 0 && s.current_file_total_bytes is Some <==> reports_without_file(
            s,
        ),
{
}

} // verus!
