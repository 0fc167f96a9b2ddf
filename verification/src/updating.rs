//! The state of an archive's creation that the native library drives by
//! callbacks.

use vstd::prelude::*;
use vstd::string::*;
use crate::compression_progress;
use crate::compression_progress::CompressionProgressIndex;
use crate::error::{ArchiveError, ErrorView};
use crate::extracting;
use crate::ffi;
use crate::ffi::{
    E_ABORT, E_INVALIDARG, KPID_IS_DIR, KPID_MTIME, KPID_PATH, KPID_SIZE, OPERATION_RESULT_OK,
    PropVariant, PropView, S_OK,
};
use crate::file_ops;
use crate::listing;
use crate::options;
use crate::options::{ArchiveEntryKind, OperationSummary};
use crate::progress::{ProgressSnapshot, SnapshotView};
use crate::source::{SourceItem, SourceKind};
use crate::streams;
use crate::text;

verus! {

/// The state that the callbacks of one creation share.
pub struct UpdateContext {
    pub total_bytes: u64,
    pub handler_total_bytes: Option<u64>,
    pub password: Option<String>,
    pub current_item_index: Option<usize>,
    pub item_bytes_processed: Vec<u64>,
    pub item_total_bytes: Vec<u64>,
    pub progress_index: CompressionProgressIndex,
    pub item_archive_names: Vec<String>,
    pub snapshot: ProgressSnapshot,
    pub summary: OperationSummary,
    pub error: Option<ArchiveError>,
}

/// The input bytes that a handler's counter stands for: the same share of
/// the input as the counter has of the handler's own total.
pub open spec fn scaled(complete: u64, handler_total: u64, total: u64) -> int {
    (streams::smaller(complete as int, handler_total as int) * total) / handler_total as int
}

/// A share of a total is no more than the total.
pub proof fn lemma_scaled(complete: u64, handler_total: u64, total: u64)
    requires
        handler_total > 0,
    ensures
        0 <= scaled(complete, handler_total, total) <= total,
{
    let done = streams::smaller(complete as int, handler_total as int);
    assert(0 <= done * total <= handler_total * total) by (nonlinear_arith)
        requires
            0 <= done <= handler_total,
            0 <= total,
    ;
    assert(0 <= (done * total) / handler_total as int <= total) by (nonlinear_arith)
        requires
            0 <= done * total <= handler_total * total,
            handler_total > 0,
    ;
}

/// A larger counter never stands for fewer bytes.
pub proof fn law_scaled_bytes_grow(a: u64, b: u64, handler_total: u64, total: u64)
    requires
        handler_total > 0,
        a <= b,
    ensures
        scaled(a, handler_total, total) <= scaled(b, handler_total, total),
{
    let low = streams::smaller(a as int, handler_total as int);
    let high = streams::smaller(b as int, handler_total as int);
    assert(low * total <= high * total) by (nonlinear_arith)
        requires
            0 <= low <= high,
            0 <= total,
    ;
    assert((low * total) / handler_total as int <= (high * total) / handler_total as int)
        by (nonlinear_arith)
        requires
            low * total <= high * total,
            handler_total > 0,
    ;
}

/// An element of a list, or a default behind its end.
pub open spec fn number_at(list: Seq<u64>, i: int) -> u64 {
    if 0 <= i < list.len() {
        list[i]
    } else {
        0
    }
}

/// [`number_at`], executable.
fn get_or_zero(list: &Vec<u64>, i: usize) -> (value: u64)
    ensures
        value == number_at(list@, i as int),
{
    if i < list.len() {
        list[i]
    } else {
        0
    }
}

impl UpdateContext {
    /// The index answers for the items, and no more bytes are done than there
    /// are.
    pub open spec fn well_formed(self) -> bool {
        &&& self.progress_index.well_formed()
        &&& self.snapshot.bytes_processed <= self.total_bytes
        &&& self.handler_total_bytes is Some ==> self.handler_total_bytes->0 > 0
    }

    /// The state at the start of a creation from the given items.
    pub fn new(
        items: &Vec<SourceItem>,
        total_bytes: u64,
        password: Option<String>,
        snapshot: ProgressSnapshot,
    ) -> (context: UpdateContext)
        requires
            snapshot.bytes_processed <= total_bytes,
        ensures
            context.well_formed(),
            context.total_bytes == total_bytes,
            context.handler_total_bytes is None,
            context.password == password,
            context.current_item_index is None,
            context.snapshot == snapshot,
            context.summary@ == options::empty_summary(),
            context.error is None,
            context.item_bytes_processed@ == Seq::new(items@.len(), |i: int| 0u64),
            context.item_total_bytes@ == Seq::new(items@.len(), |i: int| items@[i].size),
            text::texts(context.item_archive_names@) == Seq::new(
                items@.len(),
                |i: int| items@[i].archive_name@,
            ),
            context.progress_index.items@ == Seq::new(
                items@.len(),
                |i: int| (items@[i].size, items@[i].kind == SourceKind::File),
            ),
    {
        let mut item_bytes_processed: Vec<u64> = Vec::new();
        let mut item_total_bytes: Vec<u64> = Vec::new();
        let mut item_archive_names: Vec<String> = Vec::new();
        let mut sizes: Vec<(u64, bool)> = Vec::new();
        let mut i: usize = 0;
        while i < items.len()
            invariant
                i <= items@.len(),
                item_bytes_processed@.len() == i,
                item_total_bytes@.len() == i,
                item_archive_names@.len() == i,
                sizes@.len() == i,
                forall|k: int| 0 <= k < i ==> #[trigger] item_bytes_processed@[k] == 0,
                forall|k: int| 0 <= k < i ==> #[trigger] item_total_bytes@[k] == items@[k].size,
                forall|k: int|
                    0 <= k < i ==> (#[trigger] item_archive_names@[k])@ == items@[k].archive_name@,
                forall|k: int|
                    0 <= k < i ==> #[trigger] sizes@[k] == (
                        items@[k].size,
                        items@[k].kind == SourceKind::File,
                    ),
            decreases items@.len() - i,
        {
            item_bytes_processed.push(0);
            item_total_bytes.push(items[i].size);
            item_archive_names.push(items[i].archive_name.clone());
            sizes.push((items[i].size, items[i].kind == SourceKind::File));
            i += 1;
        }
        proof {
            assert(item_bytes_processed@ =~= Seq::new(items@.len(), |i: int| 0u64));
            assert(item_total_bytes@ =~= Seq::new(items@.len(), |i: int| items@[i].size));
            assert(text::texts(item_archive_names@) =~= Seq::new(
                items@.len(),
                |i: int| items@[i].archive_name@,
            ));
            assert(sizes@ =~= Seq::new(
                items@.len(),
                |i: int| (items@[i].size, items@[i].kind == SourceKind::File),
            ));
        }
        let progress_index = CompressionProgressIndex::new(&sizes);
        UpdateContext {
            total_bytes,
            handler_total_bytes: None,
            password,
            current_item_index: None,
            item_bytes_processed,
            item_total_bytes,
            progress_index,
            item_archive_names,
            snapshot,
            summary: OperationSummary::empty(),
            error: None,
        }
    }

    /// Takes the total that a handler counts up to. The input sizes stay the
    /// total that is shown: a handler may count something else.
    pub fn set_total(&mut self, total: u64) -> (shown: ProgressSnapshot)
        ensures
            shown@ == final(self).snapshot@,
            final(self).handler_total_bytes == if total > 0 {
                Some(total)
            } else {
                None
            },
            final(self).snapshot@ == (SnapshotView {
                total_bytes: Some(old(self).total_bytes),
                ..old(self).snapshot@
            }),
            *final(self) == (UpdateContext {
                handler_total_bytes: final(self).handler_total_bytes,
                snapshot: final(self).snapshot,
                ..*old(self)
            }),
            old(self).well_formed() ==> final(self).well_formed(),
    {
        self.handler_total_bytes = if total > 0 { Some(total) } else { None };
        self.snapshot.total_bytes = Some(self.total_bytes);
        self.snapshot.copy()
    }

    /// The snapshot once `bytes` bytes of the input are done and item `item`
    /// is shown.
    pub open spec fn shows_item(self, s: SnapshotView, item: int, item_bytes: u64) -> SnapshotView {
        SnapshotView {
            current_file: if item < self.item_archive_names@.len() {
                self.item_archive_names@[item]@
            } else {
                Seq::empty()
            },
            current_file_total_bytes: Some(number_at(self.item_total_bytes@, item)),
            current_file_bytes_processed: streams::smaller(
                item_bytes as int,
                number_at(self.item_total_bytes@, item) as int,
            ) as u64,
            ..s
        }
    }

    /// The input bytes that are done once a handler's counter has arrived.
    pub open spec fn bytes_after(self, complete: u64) -> u64 {
        streams::larger(
            self.snapshot.bytes_processed as int,
            scaled(complete, self.handler_total_bytes->0, self.total_bytes),
        ) as u64
    }

    /// Takes a handler's byte counter, where it gives one and has given its
    /// total. The bytes done never go back, whatever order the counters of
    /// several workers arrive in; the files that are done, and the file shown,
    /// follow from them.
    pub fn set_completed(&mut self, complete: Option<u64>, cancelled: bool) -> (answer: (
        i32,
        Option<ProgressSnapshot>,
    ))
        requires
            old(self).well_formed(),
        ensures
            final(self).well_formed(),
            answer.0 == if cancelled {
                E_ABORT
            } else {
                S_OK
            },
            cancelled || complete is None || old(self).handler_total_bytes is None
                ==> answer.1 is None && *final(self) == *old(self),
            !cancelled && complete is Some && old(self).handler_total_bytes is Some ==> {
                let items = old(self).progress_index.items@;
                let bytes = old(self).bytes_after(complete->0);
                let counted = SnapshotView {
                    bytes_processed: bytes,
                    entries_processed: if bytes == 0 {
                        0
                    } else {
                        compression_progress::complete_count(
                            items,
                            bytes,
                            items.len() as int,
                        ) as u64
                    },
                    ..old(self).snapshot@
                };
                &&& answer.1 is Some
                &&& answer.1->0@ == final(self).snapshot@
                &&& match final(self).current_item_index {
                    Some(item) if bytes > 0 && compression_progress::is_current(
                        items,
                        bytes,
                        item as int,
                    ) => final(self).snapshot@ == old(self).shows_item(
                        counted,
                        item as int,
                        compression_progress::current_bytes(items, bytes, item as int) as u64,
                    ),
                    _ => {
                        &&& final(self).snapshot@ == counted
                        &&& final(self).current_item_index == old(self).current_item_index
                        &&& bytes == 0 || forall|i: int|
                            0 <= i < items.len() ==> !compression_progress::has_bytes(items, i)
                    },
                }
            },
            *final(self) == (UpdateContext {
                snapshot: final(self).snapshot,
                current_item_index: final(self).current_item_index,
                ..*old(self)
            }),
            final(self).snapshot.bytes_processed >= old(self).snapshot.bytes_processed,
    {
        if cancelled {
            return (E_ABORT, None);
        }
        let complete: u64 = match complete {
            None => {
                return (S_OK, None);
            },
            Some(complete) => complete,
        };
        let handler_total: u64 = match self.handler_total_bytes {
            None => {
                return (S_OK, None);
            },
            Some(total) => total,
        };
        let completed: u64 = if complete < handler_total { complete } else { handler_total };
        proof {
            lemma_scaled(complete, handler_total, self.total_bytes);
            assert((completed as int) * (self.total_bytes as int) <= 0xFFFF_FFFF_FFFF_FFFF
                * 0xFFFF_FFFF_FFFF_FFFF) by (nonlinear_arith)
                requires
                    completed <= 0xFFFF_FFFF_FFFF_FFFF,
                    self.total_bytes <= 0xFFFF_FFFF_FFFF_FFFF,
            ;
        }
        let product: u128 = (completed as u128) * (self.total_bytes as u128);
        let source: u64 = (product / (handler_total as u128)) as u64;
        if source > self.snapshot.bytes_processed {
            self.snapshot.bytes_processed = source;
        }
        let bytes: u64 = self.snapshot.bytes_processed;
        self.snapshot.entries_processed = self.progress_index.completed_files(bytes);
        if bytes > 0 {
            if let Some((item, item_bytes)) = self.progress_index.current_file(bytes) {
                self.current_item_index = Some(item);
                self.snapshot.current_file = if item < self.item_archive_names.len() {
                    self.item_archive_names[item].clone()
                } else {
                    String::new()
                };
                let item_total: u64 = get_or_zero(&self.item_total_bytes, item);
                self.snapshot.current_file_total_bytes = Some(item_total);
                self.snapshot.current_file_bytes_processed = if item_bytes < item_total {
                    item_bytes
                } else {
                    item_total
                };
            }
        }
        (S_OK, Some(self.snapshot.copy()))
    }

    /// Whether the input stream of `item` is the one to show.
    pub open spec fn displays(self, item: usize) -> bool {
        match self.current_item_index {
            None => true,
            Some(shown) => item <= shown || number_at(self.item_bytes_processed@, shown as int)
                >= number_at(self.item_total_bytes@, shown as int),
        }
    }

    /// Takes the position of an item's input stream. Positions count only for
    /// handlers that never give a total of their own. Each item adds at most
    /// its size, and going back adds nothing.
    pub fn input_read(
        &mut self,
        item_index: usize,
        archive_name: &str,
        item_total: u64,
        position: u64,
    ) -> (shown: Option<ProgressSnapshot>)
        requires
            old(self).well_formed(),
        ensures
            final(self).well_formed(),
            item_index >= old(self).item_bytes_processed@.len() ==> shown is None && *final(self)
                == *old(self),
            item_index < old(self).item_bytes_processed@.len() ==> {
                let reached = streams::smaller(position as int, item_total as int);
                let before = old(self).item_bytes_processed@[item_index as int] as int;
                let processed = streams::larger(before, reached);
                &&& final(self).item_bytes_processed@ == old(self).item_bytes_processed@.update(
                    item_index as int,
                    processed as u64,
                )
                &&& old(self).handler_total_bytes is Some ==> shown is None && *final(self) == (
                UpdateContext {
                    item_bytes_processed: final(self).item_bytes_processed,
                    ..*old(self)
                })
                &&& old(self).handler_total_bytes is None ==> {
                    let moved = UpdateContext {
                        item_bytes_processed: final(self).item_bytes_processed,
                        ..*old(self)
                    };
                    let bytes = streams::smaller(
                        old(self).snapshot.bytes_processed + (processed - before),
                        old(self).total_bytes as int,
                    ) as u64;
                    let counted = SnapshotView { bytes_processed: bytes, ..old(self).snapshot@ };
                    &&& shown is Some
                    &&& shown->0@ == final(self).snapshot@
                    &&& *final(self) == (UpdateContext {
                        snapshot: final(self).snapshot,
                        current_item_index: final(self).current_item_index,
                        ..moved
                    })
                    &&& if moved.displays(item_index) {
                        &&& final(self).current_item_index == Some(item_index)
                        &&& final(self).snapshot@ == (SnapshotView {
                            current_file: archive_name@,
                            current_file_total_bytes: Some(item_total),
                            current_file_bytes_processed: processed as u64,
                            ..counted
                        })
                    } else {
                        &&& final(self).current_item_index == old(self).current_item_index
                        &&& final(self).snapshot@ == counted
                    }
                }
            },
            final(self).snapshot.bytes_processed >= old(self).snapshot.bytes_processed,
    {
        let position: u64 = if position < item_total { position } else { item_total };
        if item_index >= self.item_bytes_processed.len() {
            return None;
        }
        let before: u64 = self.item_bytes_processed[item_index];
        let processed: u64 = if before < position { position } else { before };
        let delta: u64 = processed - before;
        self.item_bytes_processed.set(item_index, processed);
        if self.handler_total_bytes.is_some() {
            return None;
        }
        let mut bytes: u64 = self.snapshot.bytes_processed.saturating_add(delta);
        if bytes > self.total_bytes {
            bytes = self.total_bytes;
        }
        self.snapshot.bytes_processed = bytes;
        let display: bool = match self.current_item_index {
            None => true,
            Some(shown) => item_index <= shown || get_or_zero(&self.item_bytes_processed, shown)
                >= get_or_zero(&self.item_total_bytes, shown),
        };
        if display {
            self.current_item_index = Some(item_index);
            self.snapshot.current_file = archive_name.to_owned();
            self.snapshot.current_file_total_bytes = Some(item_total);
            self.snapshot.current_file_bytes_processed = processed;
        }
        Some(self.snapshot.copy())
    }

    /// Takes note of an input that could not be opened; the first error is
    /// kept.
    pub fn input_failed(&mut self, error: ArchiveError) -> (code: i32)
        ensures
            code == E_ABORT,
            *final(self) == (UpdateContext {
                error: if old(self).error is Some {
                    old(self).error
                } else {
                    Some(error)
                },
                ..*old(self)
            }),
    {
        if self.error.is_none() {
            self.error = Some(error);
        }
        E_ABORT
    }

    /// Takes the result of an item. The bytes are those that the counters
    /// have given so far.
    pub fn set_operation_result(&mut self, operation_result: i32, cancelled: bool) -> (answer: (
        i32,
        Option<ProgressSnapshot>,
    ))
        requires
            old(self).summary.entries_processed < u64::MAX,
        ensures
            cancelled ==> answer == (E_ABORT, None::<ProgressSnapshot>) && *final(self) == *old(
                self,
            ),
            !cancelled && operation_result != OPERATION_RESULT_OK ==> {
                &&& answer == (E_ABORT, None::<ProgressSnapshot>)
                &&& *final(self) == (UpdateContext { error: final(self).error, ..*old(self) })
                &&& old(self).error is Some ==> final(self).error == old(self).error
                &&& old(self).error is None ==> extracting::option_error(final(self).error)
                    == Some(
                    ErrorView::SevenZip(
                        "7z creation failed for "@ + old(self).snapshot.current_file@
                            + " (7-Zip result "@ + text::signed_decimal(operation_result as int)
                            + ")"@,
                    ),
                )
            },
            !cancelled && operation_result == OPERATION_RESULT_OK ==> {
                let entries = (old(self).summary.entries_processed + 1) as u64;
                &&& final(self).summary == (OperationSummary {
                    entries_processed: entries,
                    bytes_processed: old(self).snapshot.bytes_processed,
                    ..old(self).summary
                })
                &&& final(self).snapshot@ == if old(self).handler_total_bytes is None {
                    SnapshotView { entries_processed: entries, ..old(self).snapshot@ }
                } else {
                    old(self).snapshot@
                }
                &&& *final(self) == (UpdateContext {
                    snapshot: final(self).snapshot,
                    summary: final(self).summary,
                    ..*old(self)
                })
                &&& answer.0 == S_OK
                &&& answer.1 is Some
                &&& answer.1->0@ == final(self).snapshot@
            },
            final(self).snapshot.bytes_processed == old(self).snapshot.bytes_processed,
    {
        if cancelled {
            return (E_ABORT, None);
        }
        if operation_result != OPERATION_RESULT_OK {
            if self.error.is_none() {
                let mut message = text::join3(
                    "7z creation failed for ",
                    self.snapshot.current_file.as_str(),
                    " (7-Zip result ",
                );
                message.append(text::signed_decimal_text(operation_result as i64).as_str());
                message.append(")");
                self.error = Some(ArchiveError::SevenZip(message));
            }
            return (E_ABORT, None);
        }
        self.summary.entries_processed = self.summary.entries_processed + 1;
        self.summary.bytes_processed = self.snapshot.bytes_processed;
        if self.handler_total_bytes.is_none() {
            self.snapshot.entries_processed = self.summary.entries_processed;
        }
        (S_OK, Some(self.snapshot.copy()))
    }

    /// The password for the new archive, and whether one is defined. Here an
    /// empty password counts as one.
    pub fn creation_password(&self) -> (password: Option<String>)
        ensures
            text::option_text(password) == text::option_text(self.password),
    {
        match &self.password {
            Some(password) => Some(password.clone()),
            None => None,
        }
    }
}

// ---------------------------------------------------------------------------
// Questions about the items
// ---------------------------------------------------------------------------

/// What the library is told about an item: whether it has data, that its
/// properties are new, and that it is in no older archive.
pub fn update_item_info(items: &Vec<SourceItem>, index: u32) -> (info: Result<(i32, i32, u32), i32>)
    ensures
        info == if index < items@.len() {
            Ok::<(i32, i32, u32), i32>(
                (
                    if items@[index as int].kind == SourceKind::File {
                        1i32
                    } else {
                        0i32
                    },
                    1i32,
                    u32::MAX,
                ),
            )
        } else {
            Err::<(i32, i32, u32), i32>(E_INVALIDARG)
        },
{
    if (index as usize) >= items.len() {
        return Err(E_INVALIDARG);
    }
    let new_data: i32 = if items[index as usize].kind == SourceKind::File { 1 } else { 0 };
    Ok((new_data, 1, u32::MAX))
}

/// The property of an item that the library asks for.
pub open spec fn item_property(item: SourceItem, prop_id: u32) -> PropView {
    if prop_id == KPID_PATH {
        PropView::Bstr(text::utf16(item.archive_name@))
    } else if prop_id == KPID_IS_DIR {
        PropView::Bool(item.kind == SourceKind::Directory)
    } else if prop_id == KPID_SIZE && item.kind == SourceKind::File {
        PropView::U64(item.size)
    } else if prop_id == KPID_MTIME && item.modified_unix_seconds is Some {
        PropView::FileTime(ffi::filetime_of(item.modified_unix_seconds->0))
    } else {
        PropView::Empty
    }
}

/// Answers a question for a property of an item.
pub fn update_property(items: &Vec<SourceItem>, index: u32, prop_id: u32) -> (answer: (
    i32,
    PropVariant,
))
    ensures
        index < items@.len() ==> answer.0 == S_OK && answer.1@ == item_property(
            items@[index as int],
            prop_id,
        ),
        index >= items@.len() ==> answer.0 == E_INVALIDARG && answer.1@ == PropView::Empty,
{
    if (index as usize) >= items.len() {
        return (E_INVALIDARG, PropVariant::empty());
    }
    let item = &items[index as usize];
    let value = if prop_id == KPID_PATH {
        PropVariant::bstr(item.archive_name.as_str())
    } else if prop_id == KPID_IS_DIR {
        PropVariant::bool_value(item.kind == SourceKind::Directory)
    } else if prop_id == KPID_SIZE && item.kind == SourceKind::File {
        PropVariant::u64_value(item.size)
    } else if prop_id == KPID_MTIME {
        match item.modified_unix_seconds {
            Some(seconds) => PropVariant::filetime(seconds),
            None => PropVariant::empty(),
        }
    } else {
        PropVariant::empty()
    };
    (S_OK, value)
}

/// What a request for an item's input stream comes to.
#[derive(Debug, Clone, Copy, PartialEq, Eq, Structural)]
pub enum InputRequest {
    /// Return this code; there is no stream.
    Return(i32),
    /// Open the item's source with a buffer of this size.
    Open { buffer: usize },
}

/// Answers a request for an item's input stream. Directories have none.
pub fn update_stream(items: &Vec<SourceItem>, index: u32, cancelled: bool) -> (request: InputRequest)
    ensures
        request == if cancelled {
            InputRequest::Return(E_ABORT)
        } else if index >= items@.len() {
            InputRequest::Return(E_INVALIDARG)
        } else if items@[index as int].kind == SourceKind::Directory {
            InputRequest::Return(S_OK)
        } else {
            InputRequest::Open { buffer: file_ops::buffer_size(items@[index as int].size) }
        },
{
    if cancelled {
        return InputRequest::Return(E_ABORT);
    }
    if (index as usize) >= items.len() {
        return InputRequest::Return(E_INVALIDARG);
    }
    let item = &items[index as usize];
    if item.kind == SourceKind::Directory {
        return InputRequest::Return(S_OK);
    }
    InputRequest::Open { buffer: file_ops::stream_buffer_size(item.size) }
}

/// An item is written with what a listing reads back: under its name in the
/// archive, as a directory exactly when it is one, with the size of a file,
/// and with its time in whole seconds.
pub proof fn law_written_items_read_back(
    item: SourceItem,
    p: listing::EntryProperties,
    index: u64,
    with_encryption: bool,
)
    requires
        p.path.value@ == item_property(item, 3),
        p.is_dir.value@ == item_property(item, 6),
        p.size.value@ == item_property(item, 7),
        p.modified.value@ == item_property(item, 12),
        text::utf16(item.archive_name@).len() < 0x10_0000,
        forall|k: int|
            0 <= k < text::utf16(item.archive_name@).len() ==> text::utf16(item.archive_name@)[k]
                != 0,
        item.modified_unix_seconds is Some ==> item.modified_unix_seconds->0 >= -11_644_473_600 && (
        item.modified_unix_seconds->0 + 11_644_473_600) * 10_000_000 <= i64::MAX,
    ensures
        ({
            let entry = listing::described_entry(index, p, with_encryption);
            &&& entry.display_path == item.archive_name@
            &&& item.kind == SourceKind::Directory ==> entry.kind == ArchiveEntryKind::Directory
                && entry.size is None
            &&& item.kind == SourceKind::File ==> entry.kind == ArchiveEntryKind::File
                && entry.size == Some(item.size)
            &&& entry.modified_unix_seconds == item.modified_unix_seconds
        }),
        forall|id: u32|
            id != 3 && id != 6 && id != 7 && id != 12 ==> #[trigger] item_property(item, id)
                == PropView::Empty,
{
    let name = item.archive_name@;
    let units = text::utf16(name);
    ffi::lemma_before_zero(units, units.len() as int);
    assert(units.subrange(0, units.len() as int) =~= units);
    ffi::law_utf16_reads_back(name);
    if item.modified_unix_seconds is Some {
        ffi::law_filetime_round_trip(item.modified_unix_seconds->0);
    }
}

/// The share of the work that is done is carried over to the bytes of the
/// input: nothing at the start, everything at the end, and the same part of
/// both in between, rounded down.
pub proof fn law_scaled_bytes_keep_the_share(complete: u64, handler_total: u64, total: u64)
    requires
        handler_total > 0,
    ensures
        scaled(0, handler_total, total) == 0,
        complete >= handler_total ==> scaled(complete, handler_total, total) == total,
        complete <= handler_total ==> scaled(complete, handler_total, total) * handler_total
            <= complete * total < (scaled(complete, handler_total, total) + 1) * handler_total,
{
    let h = handler_total as int;
    let t = total as int;
    let c = complete as int;
    assert(0 * t == 0);
    assert(0int / h == 0) by (nonlinear_arith)
        requires
            h > 0,
    ;
    assert((h * t) / h == t) by (nonlinear_arith)
        requires
            h > 0,
    ;
    let q = (c * t) / h;
    assert(q * h <= c * t < (q + 1) * h) by (nonlinear_arith)
        requires
            h > 0,
            q == (c * t) / h,
    ;
}

/// The item that is shown has its name, its size and no more than its size
/// done. An item is shown when none is, when it is not behind the one that is
/// shown, or when that one is done.
pub proof fn law_shown_items(
    context: UpdateContext,
    s: SnapshotView,
    item: usize,
    item_bytes: u64,
    shown: usize,
)
    requires
        item < context.item_archive_names@.len(),
        item < context.item_total_bytes@.len(),
        shown < context.item_total_bytes@.len(),
        shown < context.item_bytes_processed@.len(),
    ensures
        context.shows_item(s, item as int, item_bytes).current_file
            == context.item_archive_names@[item as int]@,
        context.shows_item(s, item as int, item_bytes).current_file_total_bytes == Some(
            context.item_total_bytes@[item as int],
        ),
        item_bytes <= context.item_total_bytes@[item as int] ==> context.shows_item(
            s,
            item as int,
            item_bytes,
        ).current_file_bytes_processed == item_bytes,
        context.shows_item(s, context.item_archive_names@.len() as int, item_bytes).current_file
            == Seq::<char>::empty(),
        context.shows_item(s, item as int, item_bytes).bytes_processed == s.bytes_processed,
        context.current_item_index is None ==> context.displays(item),
        context.current_item_index == Some(shown) && item <= shown ==> context.displays(item),
        context.current_item_index == Some(shown) && item > shown ==> (context.displays(item)
            <==> context.item_bytes_processed@[shown as int] >= context.item_total_bytes@[shown as int]),
{
}

} // verus!
