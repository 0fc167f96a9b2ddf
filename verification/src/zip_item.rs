//! The steps of writing one item to a ZIP archive.

use vstd::prelude::*;
use crate::error::{ArchiveError, ArchiveResult, ErrorView};
use crate::extracting;
use crate::file_ops;
use crate::options::ZipBackend;
use crate::source::SourceKind;

verus! {

/// What is done next for an item.
#[derive(Debug, Clone, Copy, PartialEq, Eq, Structural)]
pub enum ItemStage {
    /// Add the entry of a directory.
    AddDirectory,
    /// Open the file without following links.
    OpenSource,
    /// Start the entry of a file with this compressor.
    StartEntry(ZipBackend),
    /// Report the file, of which nothing was read yet.
    CountStart,
    /// Read bytes of the file.
    Read,
    /// Compress the bytes that were read.
    Write(u64),
    /// Report the bytes that were compressed.
    Count(u64),
    /// Report the whole file.
    CountDone,
    Finished,
    Failed,
}

/// The writing of an item.
#[derive(Debug)]
pub struct ItemRun {
    pub stage: ItemStage,
    pub backend: ZipBackend,
    /// The bytes that were compressed.
    pub current: u64,
    pub error: Option<ArchiveError>,
}

/// An [`ItemRun`] with its error as a value.
pub struct ItemState {
    pub stage: ItemStage,
    pub backend: ZipBackend,
    pub current: u64,
    pub error: Option<ErrorView>,
}

impl View for ItemRun {
    type V = ItemState;

    open spec fn view(&self) -> ItemState {
        ItemState {
            stage: self.stage,
            backend: self.backend,
            current: self.current,
            error: extracting::option_error(self.error),
        }
    }
}

impl ItemState {
    /// The bytes at hand can be counted.
    pub open spec fn valid(self) -> bool {
        self.stage matches ItemStage::Write(amount) ==> self.current + amount <= u64::MAX
    }

    /// The state of a writing that failed.
    pub open spec fn failed(self, error: ErrorView) -> ItemState {
        ItemState { stage: ItemStage::Failed, error: Some(error), ..self }
    }

    /// The state behind a step that says only whether it failed.
    pub open spec fn after_step(self, failed: Option<ErrorView>) -> ItemState {
        if failed is Some {
            self.failed(failed->0)
        } else {
            match self.stage {
                ItemStage::AddDirectory => ItemState { stage: ItemStage::Finished, ..self },
                ItemStage::OpenSource => ItemState {
                    stage: ItemStage::StartEntry(self.backend),
                    ..self
                },
                ItemStage::StartEntry(_) => ItemState { stage: ItemStage::CountStart, ..self },
                ItemStage::CountStart => ItemState { stage: ItemStage::Read, ..self },
                ItemStage::Write(amount) => ItemState {
                    stage: ItemStage::Count(amount),
                    current: (self.current + amount) as u64,
                    ..self
                },
                ItemStage::Count(_) => ItemState { stage: ItemStage::Read, ..self },
                ItemStage::CountDone => ItemState { stage: ItemStage::Finished, ..self },
                _ => self,
            }
        }
    }

    /// The state once bytes were read; none means that the file is over.
    pub open spec fn after_read(self, stop: bool, read: Result<u64, ErrorView>) -> ItemState {
        if stop {
            self.failed(ErrorView::Cancelled)
        } else {
            match read {
                Err(error) => self.failed(error),
                Ok(amount) => ItemState {
                    stage: if amount == 0 {
                        ItemStage::CountDone
                    } else {
                        ItemStage::Write(amount)
                    },
                    ..self
                },
            }
        }
    }
}

impl ItemRun {
    /// Begins to write an item. The compressors of this crate's own ZIP
    /// writer are meant; the native one takes whole archives.
    pub fn start(cancelled: bool, kind: SourceKind, backend: ZipBackend) -> (run: ArchiveResult<
        ItemRun,
    >)
        requires
            kind == SourceKind::File ==> backend != ZipBackend::SevenZip,
        ensures
            match run {
                Err(error) => cancelled && error@ == ErrorView::Cancelled,
                Ok(run) => {
                    &&& !cancelled
                    &&& run@.valid()
                    &&& run@ == (ItemState {
                        stage: if kind == SourceKind::Directory {
                            ItemStage::AddDirectory
                        } else {
                            ItemStage::OpenSource
                        },
                        backend,
                        current: 0,
                        error: None,
                    })
                },
            },
    {
        if cancelled {
            return Err(ArchiveError::Cancelled);
        }
        Ok(
            ItemRun {
                stage: if kind == SourceKind::Directory {
                    ItemStage::AddDirectory
                } else {
                    ItemStage::OpenSource
                },
                backend,
                current: 0,
                error: None,
            },
        )
    }

    /// Notes a failure.
    fn fail(&mut self, error: ArchiveError)
        ensures
            final(self)@ == old(self)@.failed(error@),
    {
        self.stage = ItemStage::Failed;
        self.error = Some(error);
    }

    /// Takes what came of a step that says only whether it failed.
    pub fn step_done(&mut self, outcome: ArchiveResult<()>)
        requires
            old(self)@.valid(),
        ensures
            final(self)@ == old(self)@.after_step(file_ops::failure(outcome)),
            final(self)@.valid(),
    {
        if let Err(error) = outcome {
            self.fail(error);
            return ;
        }
        match self.stage {
            ItemStage::AddDirectory => {
                self.stage = ItemStage::Finished;
            },
            ItemStage::OpenSource => {
                self.stage = ItemStage::StartEntry(self.backend);
            },
            ItemStage::StartEntry(_) => {
                self.stage = ItemStage::CountStart;
            },
            ItemStage::CountStart => {
                self.stage = ItemStage::Read;
            },
            ItemStage::Write(amount) => {
                self.current = self.current + amount;
                self.stage = ItemStage::Count(amount);
            },
            ItemStage::Count(_) => {
                self.stage = ItemStage::Read;
            },
            ItemStage::CountDone => {
                self.stage = ItemStage::Finished;
            },
            _ => {},
        }
    }

    /// Takes bytes that were read, or that reading failed. `stop` is whether
    /// the operation was cancelled before.
    pub fn bytes_read(&mut self, stop: bool, read: ArchiveResult<u64>)
        requires
            read matches Ok(amount) ==> old(self).current + amount <= u64::MAX,
        ensures
            final(self)@ == old(self)@.after_read(stop, file_ops::result_view(read)),
            final(self)@.valid(),
    {
        if stop {
            self.fail(ArchiveError::Cancelled);
            return ;
        }
        match read {
            Err(error) => {
                self.fail(error);
            },
            Ok(amount) => {
                self.stage = if amount == 0 {
                    ItemStage::CountDone
                } else {
                    ItemStage::Write(amount)
                };
            },
        }
    }
}

/// Bytes that are compressed without failure are reported once, with the sum
/// up to them, before the next are read.
pub proof fn law_written_bytes_are_counted(state: ItemState, amount: u64)
    requires
        state.stage is Read,
        amount != 0,
        state.current + amount <= u64::MAX,
    ensures
        ({
            let held = state.after_read(false, Ok::<u64, ErrorView>(amount));
            let written = held.after_step(None);
            &&& held.stage == ItemStage::Write(amount)
            &&& held.current == state.current
            &&& written.stage == ItemStage::Count(amount)
            &&& written.current == state.current + amount
            &&& written.after_step(None) == (ItemState {
                stage: ItemStage::Read,
                ..written
            })
        }),
{
}

/// An item that was not cancelled or failed is only finished as a directory,
/// or once its file was read to the end.
pub proof fn law_files_are_read_to_the_end(state: ItemState)
    requires
        !(state.stage is Finished),
        state.after_step(None).stage is Finished,
    ensures
        state.stage is AddDirectory || state.stage is CountDone,
{
}

/// A file is opened, its entry started with the chosen compressor and
/// reported, before anything is read; a directory is only added. A step that
/// fails ends the item with its error, and so does stopping.
pub proof fn law_items_go_step_by_step(state: ItemState, error: ErrorView)
    ensures
        state.stage is AddDirectory ==> state.after_step(None).stage is Finished,
        state.stage is OpenSource ==> state.after_step(None).stage == ItemStage::StartEntry(
            state.backend,
        ),
        state.stage is StartEntry ==> state.after_step(None).stage is CountStart,
        state.stage is CountStart ==> state.after_step(None).stage is Read,
        state.stage is Count ==> state.after_step(None).stage is Read,
        state.stage is CountDone ==> state.after_step(None).stage is Finished,
        !(state.stage is Write) ==> state.after_step(None).current == state.current,
        state.after_step(None).backend == state.backend,
        state.after_step(Some(error)).stage is Failed && state.after_step(Some(error)).error
            == Some(error),
        state.after_read(false, Ok::<u64, ErrorView>(0)).stage is CountDone,
        state.after_read(false, Err::<u64, ErrorView>(error)).stage is Failed,
        state.after_read(false, Err::<u64, ErrorView>(error)).error == Some(error),
        forall|read: Result<u64, ErrorView>|
            (#[trigger] state.after_read(true, read)).stage is Failed && state.after_read(
                true,
                read,
            ).error == Some(ErrorView::Cancelled),
{
}

} // verus!
