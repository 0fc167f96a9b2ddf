//! The steps of extracting one file of a ZIP archive.
//!
//! A new file is written in place. A file that exists is left alone until the
//! new contents are complete in a temporary file beside it.

use vstd::prelude::*;
use vstd::string::*;
use crate::error::{ArchiveError, ArchiveResult, ErrorView};
use crate::extracting;
use crate::file_ops;
use crate::zip_extraction::FileExtraction;

verus! {

/// What is done next for a file.
#[derive(Debug, Clone, Copy, PartialEq, Eq, Structural)]
pub enum FileStage {
    /// Open the entry in the archive.
    OpenEntry,
    /// Create the file in place, if there is none.
    CreateTarget,
    /// Create a temporary file beside the one that exists.
    CreateTemporary,
    /// Check that the open file lies below the destination.
    VerifyHandle,
    /// Read bytes of the entry.
    Read,
    /// Count the bytes that were read.
    Count(u64),
    /// Write the bytes that were read.
    Write(u64),
    /// Set the time of the file.
    SetTime,
    /// Look once more whether the extraction is to stop.
    LastCheck,
    /// Put the temporary file in place.
    Install,
    /// Count the file.
    CountDone,
    Finished,
    Failed,
}

/// What came of creating a file in place.
#[derive(Debug)]
pub enum CreateOutcome {
    Created,
    Exists,
    Failed(ArchiveError),
}

/// The file that a failed extraction leaves behind.
#[derive(Debug, Clone, Copy, PartialEq, Eq, Structural)]
pub enum Leftover {
    Target,
    Temporary,
}

/// The extraction of a file.
#[derive(Debug)]
pub struct FileRun {
    pub stage: FileStage,
    /// Whether the file is written in place.
    pub direct: bool,
    /// Whether a failure leaves a file that must be removed.
    pub armed: bool,
    /// Whether the archive tells a time for the file.
    pub has_time: bool,
    pub file: FileExtraction,
    pub error: Option<ArchiveError>,
}

/// A [`FileRun`] over sequences.
pub struct FileState {
    pub stage: FileStage,
    pub direct: bool,
    pub armed: bool,
    pub has_time: bool,
    pub target: Seq<char>,
    pub size: u64,
    pub max_file_bytes: u64,
    pub current: u64,
    pub error: Option<ErrorView>,
}

impl View for FileRun {
    type V = FileState;

    open spec fn view(&self) -> FileState {
        FileState {
            stage: self.stage,
            direct: self.direct,
            armed: self.armed,
            has_time: self.has_time,
            target: self.file.target@,
            size: self.file.size,
            max_file_bytes: self.file.max_file_bytes,
            current: self.file.current,
            error: extracting::option_error(self.error),
        }
    }
}

impl FileStage {
    /// Whether the contents are complete.
    pub open spec fn is_complete(self) -> bool {
        self is SetTime || self is LastCheck || self is Install || self is CountDone || self
            is Finished
    }

    /// Whether no file was created yet.
    pub open spec fn is_early(self) -> bool {
        self is OpenEntry || self is CreateTarget || self is CreateTemporary
    }
}

impl FileState {
    /// No more bytes than declared or allowed; all of them where the contents
    /// are complete. A file in place is never installed, and one that is
    /// counted stays.
    pub open spec fn valid(self) -> bool {
        &&& self.current <= self.size
        &&& self.current <= self.max_file_bytes
        &&& self.stage.is_complete() ==> self.current == self.size
        &&& self.stage is Install ==> !self.direct
        &&& self.stage.is_early() ==> !self.armed && !self.direct
        &&& self.stage is CountDone || self.stage is Finished ==> !self.armed
    }

    /// The state of an extraction that failed.
    pub open spec fn failed(self, error: ErrorView) -> FileState {
        FileState { stage: FileStage::Failed, error: Some(error), ..self }
    }

    /// The state behind a step that says only whether it failed.
    pub open spec fn after_step(self, failed: Option<ErrorView>) -> FileState {
        if failed is Some {
            self.failed(failed->0)
        } else {
            match self.stage {
                FileStage::OpenEntry => FileState { stage: FileStage::CreateTarget, ..self },
                FileStage::CreateTemporary => FileState {
                    stage: FileStage::VerifyHandle,
                    armed: true,
                    ..self
                },
                FileStage::VerifyHandle => FileState { stage: FileStage::Read, ..self },
                FileStage::Count(amount) => FileState { stage: FileStage::Write(amount), ..self },
                FileStage::Write(_) => FileState { stage: FileStage::Read, ..self },
                FileStage::SetTime => FileState { stage: FileStage::LastCheck, ..self },
                FileStage::Install => FileState {
                    stage: FileStage::CountDone,
                    armed: false,
                    ..self
                },
                FileStage::CountDone => FileState { stage: FileStage::Finished, ..self },
                _ => self,
            }
        }
    }

    /// The state once it was tried to create the file in place.
    pub open spec fn after_create(self, outcome: CreateOutcome) -> FileState {
        match outcome {
            CreateOutcome::Created => FileState {
                stage: FileStage::VerifyHandle,
                direct: true,
                armed: true,
                ..self
            },
            CreateOutcome::Exists => FileState { stage: FileStage::CreateTemporary, ..self },
            CreateOutcome::Failed(error) => self.failed(error@),
        }
    }

    /// The state once bytes were read; none means that the entry is over.
    pub open spec fn after_read(self, stop: bool, read: Result<u64, ErrorView>) -> FileState {
        if stop {
            self.failed(ErrorView::Cancelled)
        } else {
            match read {
                Err(error) => self.failed(error),
                Ok(amount) => {
                    let sum = file_ops::limited_sum(
                        self.current,
                        amount,
                        self.max_file_bytes,
                        "ZIP file bytes"@,
                    );
                    if amount == 0 {
                        if self.current != self.size {
                            self.failed(ErrorView::InvalidArchive(self.target))
                        } else {
                            FileState {
                                stage: if self.has_time {
                                    FileStage::SetTime
                                } else {
                                    FileStage::LastCheck
                                },
                                ..self
                            }
                        }
                    } else if sum is Err {
                        self.failed(sum->Err_0)
                    } else if sum->Ok_0 > self.size {
                        self.failed(ErrorView::InvalidArchive(self.target))
                    } else {
                        FileState { stage: FileStage::Count(amount), current: sum->Ok_0, ..self }
                    }
                },
            }
        }
    }

    /// The state behind the last look whether to stop.
    pub open spec fn after_check(self, stop: bool) -> FileState {
        if stop {
            self.failed(ErrorView::Cancelled)
        } else if self.direct {
            FileState { stage: FileStage::CountDone, armed: false, ..self }
        } else {
            FileState { stage: FileStage::Install, ..self }
        }
    }

    /// The file that is to be removed.
    pub open spec fn left(self) -> Option<Leftover> {
        if !self.armed {
            None
        } else if self.direct {
            Some(Leftover::Target)
        } else {
            Some(Leftover::Temporary)
        }
    }
}

impl FileRun {
    /// Begins to extract a file.
    pub fn start(
        cancelled: bool,
        target: String,
        size: u64,
        max_file_bytes: u64,
        has_time: bool,
    ) -> (run: ArchiveResult<FileRun>)
        ensures
            match run {
                Err(error) => cancelled && error@ == ErrorView::Cancelled,
                Ok(run) => {
                    &&& !cancelled
                    &&& run@.valid()
                    &&& run@ == (FileState {
                        stage: FileStage::OpenEntry,
                        direct: false,
                        armed: false,
                        has_time,
                        target: target@,
                        size,
                        max_file_bytes,
                        current: 0,
                        error: None,
                    })
                },
            },
    {
        if cancelled {
            return Err(ArchiveError::Cancelled);
        }
        Ok(
            FileRun {
                stage: FileStage::OpenEntry,
                direct: false,
                armed: false,
                has_time,
                file: FileExtraction::start(target, size, max_file_bytes),
                error: None,
            },
        )
    }

    /// Notes a failure.
    fn fail(&mut self, error: ArchiveError)
        ensures
            final(self)@ == old(self)@.failed(error@),
    {
        self.stage = FileStage::Failed;
        self.error = Some(error);
    }

    /// Takes what came of a step that says only whether it failed.
    pub fn step_done(&mut self, outcome: ArchiveResult<()>)
        requires
            old(self)@.valid(),
        ensures
            final(self)@ == old(self)@.after_step(file_ops::failure(outcome)),
            final(self)@.valid(),
    {
        if let Err(error) = outcome {
            self.fail(error);
            return ;
        }
        match self.stage {
            FileStage::OpenEntry => {
                self.stage = FileStage::CreateTarget;
            },
            FileStage::CreateTemporary => {
                self.stage = FileStage::VerifyHandle;
                self.armed = true;
            },
            FileStage::VerifyHandle => {
                self.stage = FileStage::Read;
            },
            FileStage::Count(amount) => {
                self.stage = FileStage::Write(amount);
            },
            FileStage::Write(_) => {
                self.stage = FileStage::Read;
            },
            FileStage::SetTime => {
                self.stage = FileStage::LastCheck;
            },
            FileStage::Install => {
                self.stage = FileStage::CountDone;
                self.armed = false;
            },
            FileStage::CountDone => {
                self.stage = FileStage::Finished;
            },
            _ => {},
        }
    }

    /// Takes what came of creating the file in place.
    pub fn target_created(&mut self, outcome: CreateOutcome)
        requires
            old(self)@.valid(),
            old(self).stage is CreateTarget,
        ensures
            final(self)@ == old(self)@.after_create(outcome),
            final(self)@.valid(),
    {
        match outcome {
            CreateOutcome::Created => {
                self.stage = FileStage::VerifyHandle;
                self.direct = true;
                self.armed = true;
            },
            CreateOutcome::Exists => {
                self.stage = FileStage::CreateTemporary;
            },
            CreateOutcome::Failed(error) => {
                self.fail(error);
            },
        }
    }

    /// Takes how many bytes were read. `stop` says whether the extraction was
    /// to stop before they were.
    pub fn bytes_read(&mut self, stop: bool, read: ArchiveResult<u64>)
        requires
            old(self)@.valid(),
            old(self).stage is Read,
        ensures
            final(self)@ == old(self)@.after_read(stop, file_ops::result_view(read)),
            final(self)@.valid(),
    {
        if stop {
            self.fail(ArchiveError::Cancelled);
            return ;
        }
        let amount: u64 = match read {
            Ok(amount) => amount,
            Err(error) => {
                self.fail(error);
                return ;
            },
        };
        match self.file.take(amount) {
            Err(error) => {
                self.fail(error);
            },
            Ok(more) => {
                self.stage = if more {
                    FileStage::Count(amount)
                } else if self.has_time {
                    FileStage::SetTime
                } else {
                    FileStage::LastCheck
                };
            },
        }
    }

    /// Takes whether the extraction is to stop before the file is put in
    /// place.
    pub fn checked(&mut self, stop: bool)
        requires
            old(self)@.valid(),
            old(self).stage is LastCheck,
        ensures
            final(self)@ == old(self)@.after_check(stop),
            final(self)@.valid(),
    {
        if stop {
            self.fail(ArchiveError::Cancelled);
        } else if self.direct {
            self.stage = FileStage::CountDone;
            self.armed = false;
        } else {
            self.stage = FileStage::Install;
        }
    }

    /// The file to remove when the extraction is given up.
    pub fn leftover(&self) -> (left: Option<Leftover>)
        ensures
            left == self@.left(),
    {
        if !self.armed {
            None
        } else if self.direct {
            Some(Leftover::Target)
        } else {
            Some(Leftover::Temporary)
        }
    }
}

/// A file that existed is replaced only by contents that are complete, and
/// never once the extraction is to stop; where that fails, only the temporary
/// file is removed.
pub proof fn law_existing_files_are_kept(
    state: FileState,
    stop: bool,
    read: Result<u64, ErrorView>,
    failed: Option<ErrorView>,
)
    requires
        state.valid(),
        !state.direct,
    ensures
        state.stage is Install ==> state.current == state.size,
        state.stage is LastCheck && state.after_check(stop).stage is Install ==> !stop
            && state.current == state.size,
        state.stage is Read ==> state.after_read(stop, read).stage !is Install,
        state.stage !is Install ==> state.after_step(failed).stage !is Install,
        state.left() != Some(Leftover::Target),
        state.after_step(failed).left() != Some(Leftover::Target),
        state.after_check(stop).left() != Some(Leftover::Target),
        state.after_read(stop, read).left() != Some(Leftover::Target),
{
}

/// An unfinished new file does not stay: once it was created, it is removed
/// unless its contents are complete and nothing stopped the extraction.
pub proof fn law_unfinished_files_are_removed(
    state: FileState,
    stop: bool,
    read: Result<u64, ErrorView>,
)
    requires
        state.valid(),
        state.armed,
    ensures
        state.stage is Read && state.after_read(stop, read).stage is Failed ==> state.after_read(
            stop,
            read,
        ).left() is Some,
        state.stage is LastCheck && state.after_check(stop).stage is Failed ==> state.after_check(
            stop,
        ).left() is Some,
        state.stage is LastCheck && state.after_check(stop).left() is None ==> !stop
            && state.current == state.size,
        state.left() == Some(
            if state.direct {
                Leftover::Target
            } else {
                Leftover::Temporary
            },
        ),
{
}

/// A file is opened, created, checked and then filled step by step; a step
/// that fails ends it with its error. A new file is written in place, one that
/// exists beside itself and put in place at the end.
pub proof fn law_files_go_step_by_step(state: FileState, error: ErrorView)
    ensures
        state.stage is OpenEntry ==> state.after_step(None).stage is CreateTarget,
        state.stage is CreateTemporary ==> state.after_step(None).stage is VerifyHandle
            && state.after_step(None).armed,
        state.stage is VerifyHandle ==> state.after_step(None).stage is Read,
        state.stage is Count ==> state.after_step(None).stage == FileStage::Write(
            state.stage->Count_0,
        ),
        state.stage is Write ==> state.after_step(None).stage is Read,
        state.stage is SetTime ==> state.after_step(None).stage is LastCheck,
        state.stage is Install ==> state.after_step(None).stage is CountDone && !state.after_step(
            None,
        ).armed,
        state.stage is CountDone ==> state.after_step(None).stage is Finished,
        state.after_step(None).current == state.current,
        state.after_step(Some(error)).stage is Failed && state.after_step(Some(error)).error
            == Some(error),
        state.after_create(CreateOutcome::Created).direct && state.after_create(
            CreateOutcome::Created,
        ).armed && state.after_create(CreateOutcome::Created).stage is VerifyHandle,
        state.after_create(CreateOutcome::Exists).stage is CreateTemporary && state.after_create(
            CreateOutcome::Exists,
        ).direct == state.direct,
        state.direct ==> state.after_check(false).stage is CountDone && !state.after_check(
            false,
        ).armed,
        !state.direct ==> state.after_check(false).stage is Install,
        state.after_check(true).stage is Failed && state.after_check(true).error == Some(
            ErrorView::Cancelled,
        ),
{
}

/// A file gets the bytes that the archive declares, no more and no fewer: each
/// part is counted and written while it fits, the end is accepted where all
/// have come, and anything else is a broken archive. The time is set where the
/// archive tells one.
pub proof fn law_files_get_the_declared_bytes(state: FileState, amount: u64)
    requires
        state.valid(),
        state.stage is Read,
    ensures
        amount > 0 && state.current + amount <= state.size && state.current + amount
            <= state.max_file_bytes ==> {
            let after = state.after_read(false, Ok::<u64, ErrorView>(amount));
            after.stage == FileStage::Count(amount) && after.current == state.current + amount
        },
        amount > 0 && state.current + amount > state.size && state.current + amount
            <= state.max_file_bytes ==> {
            let after = state.after_read(false, Ok::<u64, ErrorView>(amount));
            after.stage is Failed && after.error == Some(ErrorView::InvalidArchive(state.target))
        },
        amount > 0 && state.current + amount > state.max_file_bytes ==> {
            let after = state.after_read(false, Ok::<u64, ErrorView>(amount));
            after.stage is Failed && after.error is Some && after.error->0 is LimitExceeded
        },
        state.current == state.size && state.has_time ==> state.after_read(
            false,
            Ok::<u64, ErrorView>(0),
        ).stage is SetTime,
        state.current == state.size && !state.has_time ==> state.after_read(
            false,
            Ok::<u64, ErrorView>(0),
        ).stage is LastCheck,
        state.current < state.size ==> {
            let after = state.after_read(false, Ok::<u64, ErrorView>(0));
            after.stage is Failed && after.error == Some(ErrorView::InvalidArchive(state.target))
        },
{
}

} // verus!
