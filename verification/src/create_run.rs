//! The steps of creating an archive with the native engine.
//!
//! The program carries out one step after the other and reports what came of
//! it; the run decides what comes next, what the creation failed of, and when
//! temporary files are taken away.

use vstd::prelude::*;
use vstd::string::*;
use crate::creation;
use crate::error::{ArchiveError, ArchiveResult, ErrorView};
use crate::extracting;
use crate::file_ops;
use crate::options;
use crate::options::{CreateFormat, CreateOptions, OperationSummary, SummaryView};
use crate::source;
use crate::source::{SourceItem, SourceView};
use crate::text;

verus! {

/// What a creation does next.
#[derive(Debug, Clone, Copy, PartialEq, Eq, Structural)]
pub enum CreateStage {
    /// Make the destination's directory and resolve its path.
    MakeParent,
    /// Make sure that no link leads to the destination.
    CheckAncestors,
    /// Collect what goes into the archive.
    Collect,
    /// Create the temporary file of an archive in one piece.
    OpenTemporary,
    /// Make the writer.
    MakeWriter,
    /// Hand the writer its properties.
    SetProperties,
    /// Let the writer write.
    Write,
    /// Put what was written in its place.
    Install,
    /// Let the writer go, and remove the temporary files.
    CleanUp,
    Finished,
    Failed,
}

/// A creation.
#[derive(Debug)]
pub struct CreateRun {
    pub stage: CreateStage,
    pub format: CreateFormat,
    /// Whether the archive is split into volumes.
    pub split: bool,
    /// What goes into the archive.
    pub items: Vec<SourceItem>,
    /// How many files there are, and how many bytes.
    pub files: u64,
    pub bytes: u64,
    pub summary: OperationSummary,
    pub error: Option<ArchiveError>,
}

/// A [`CreateRun`] over sequences.
pub struct CreateState {
    pub stage: CreateStage,
    pub format: CreateFormat,
    pub split: bool,
    pub items: Seq<SourceView>,
    pub files: u64,
    pub bytes: u64,
    pub summary: SummaryView,
    pub error: Option<ErrorView>,
}

impl View for CreateRun {
    type V = CreateState;

    open spec fn view(&self) -> CreateState {
        CreateState {
            stage: self.stage,
            format: self.format,
            split: self.split,
            items: source::source_views(self.items@),
            files: self.files,
            bytes: self.bytes,
            summary: self.summary@,
            error: extracting::option_error(self.error),
        }
    }
}

impl CreateStage {
    /// Whether a failure leaves temporary files behind.
    pub open spec fn leaves_files(self) -> bool {
        self == CreateStage::SetProperties || self == CreateStage::Write || self
            == CreateStage::Install
    }
}

impl CreateState {
    /// The state of a creation that failed. Temporary files go first.
    pub open spec fn failed(self, error: ErrorView) -> CreateState {
        CreateState {
            stage: if self.stage.leaves_files() {
                CreateStage::CleanUp
            } else {
                CreateStage::Failed
            },
            error: Some(error),
            ..self
        }
    }

    /// The state behind a step that says only whether it failed.
    pub open spec fn after_step(self, failed: Option<ErrorView>) -> CreateState {
        if self.stage == CreateStage::CleanUp {
            CreateState { stage: CreateStage::Failed, ..self }
        } else if failed is Some {
            self.failed(failed->0)
        } else {
            CreateState {
                stage: match self.stage {
                    CreateStage::CheckAncestors => CreateStage::Collect,
                    CreateStage::OpenTemporary => CreateStage::MakeWriter,
                    CreateStage::MakeWriter => CreateStage::SetProperties,
                    CreateStage::SetProperties => CreateStage::Write,
                    CreateStage::Install => CreateStage::Finished,
                    stage => stage,
                },
                ..self
            }
        }
    }

    /// The state once the directory is there. The destination needs a name.
    pub open spec fn after_parent(self, failed: Option<ErrorView>, named: bool) -> CreateState {
        if failed is Some {
            self.failed(failed->0)
        } else if !named {
            self.failed(ErrorView::InvalidInput("destination has no file name"@))
        } else {
            CreateState { stage: CreateStage::CheckAncestors, ..self }
        }
    }

    /// The state once it is known what goes into the archive.
    pub open spec fn after_collect(self, found: Result<(Seq<SourceView>, u64), ErrorView>)
        -> CreateState {
        match found {
            Err(error) => self.failed(error),
            Ok((items, bytes)) => {
                let written = creation::written_items(items, self.format, items.len() as int);
                if written.len() > u32::MAX {
                    self.failed(ErrorView::LimitExceeded("too many entries"@))
                } else {
                    CreateState {
                        stage: if self.split {
                            CreateStage::MakeWriter
                        } else {
                            CreateStage::OpenTemporary
                        },
                        items: written,
                        files: creation::file_count(written, written.len() as int) as u64,
                        bytes,
                        ..self
                    }
                }
            },
        }
    }

    /// The state once the writer has written.
    pub open spec fn after_write(
        self,
        volume_error: Option<ErrorView>,
        error: Option<ErrorView>,
        cancelled: bool,
        code: i32,
        volumes: usize,
        reported: SummaryView,
    ) -> CreateState {
        let failure = creation::creation_error(
            volume_error,
            error,
            cancelled,
            code,
            if self.split {
                Some(volumes)
            } else {
                None
            },
        );
        match failure {
            Some(error) => self.failed(error),
            None => CreateState {
                stage: CreateStage::Install,
                summary: SummaryView {
                    entries_processed: self.files,
                    bytes_processed: self.bytes,
                    ..reported
                },
                ..self
            },
        }
    }
}

/// The state in which a creation begins, or why it does not.
pub open spec fn begun(
    cancelled: bool,
    inputs: int,
    options: CreateOptions,
    parent: Option<Seq<char>>,
) -> Result<CreateState, ErrorView> {
    if cancelled {
        Err(ErrorView::Cancelled)
    } else if creation::request_error(inputs, options) is Some {
        Err(creation::request_error(inputs, options)->0)
    } else if parent is None || parent->0.len() == 0 {
        Err(ErrorView::InvalidInput("destination has no parent directory"@))
    } else {
        Ok(
            CreateState {
                stage: CreateStage::MakeParent,
                format: options.format,
                split: options.split_size is Some,
                items: Seq::empty(),
                files: 0,
                bytes: 0,
                summary: options::empty_summary(),
                error: None,
            },
        )
    }
}

impl CreateRun {
    /// Begins a creation from `inputs` inputs in a directory: [`begun`],
    /// executable.
    pub fn start(cancelled: bool, inputs: usize, options: &CreateOptions, parent: Option<String>)
        -> (run: ArchiveResult<CreateRun>)
        ensures
            match run {
                Ok(run) => begun(
                    cancelled,
                    inputs as int,
                    *options,
                    text::option_text(parent),
                ) == Ok::<CreateState, ErrorView>(run@),
                Err(error) => begun(
                    cancelled,
                    inputs as int,
                    *options,
                    text::option_text(parent),
                ) == Err::<CreateState, ErrorView>(error@),
            },
    {
        if cancelled {
            return Err(ArchiveError::Cancelled);
        }
        match creation::check_request(inputs, options) {
            Ok(_) => {},
            Err(error) => {
                return Err(error);
            },
        }
        match creation::destination_parent(parent) {
            Ok(_) => {},
            Err(error) => {
                return Err(error);
            },
        }
        let items: Vec<SourceItem> = Vec::new();
        proof {
            assert(source::source_views(items@) =~= Seq::<SourceView>::empty());
        }
        Ok(
            CreateRun {
                stage: CreateStage::MakeParent,
                format: options.format,
                split: options.split_size.is_some(),
                items,
                files: 0,
                bytes: 0,
                summary: OperationSummary {
                    entries_processed: 0,
                    entries_skipped: 0,
                    bytes_processed: 0,
                    warning: None,
                },
                error: None,
            },
        )
    }

    /// Notes a failure.
    fn fail(&mut self, error: ArchiveError)
        ensures
            final(self)@ == old(self)@.failed(error@),
    {
        self.stage = match self.stage {
            CreateStage::SetProperties | CreateStage::Write | CreateStage::Install =>
                CreateStage::CleanUp,
            _ => CreateStage::Failed,
        };
        self.error = Some(error);
    }

    /// Takes what came of a step that says only whether it failed.
    pub fn step_done(&mut self, outcome: ArchiveResult<()>)
        ensures
            final(self)@ == old(self)@.after_step(file_ops::failure(outcome)),
    {
        if self.stage == CreateStage::CleanUp {
            self.stage = CreateStage::Failed;
            return ;
        }
        match outcome {
            Err(error) => {
                self.fail(error);
            },
            Ok(_) => {
                self.stage = match self.stage {
                    CreateStage::CheckAncestors => CreateStage::Collect,
                    CreateStage::OpenTemporary => CreateStage::MakeWriter,
                    CreateStage::MakeWriter => CreateStage::SetProperties,
                    CreateStage::SetProperties => CreateStage::Write,
                    CreateStage::Install => CreateStage::Finished,
                    stage => stage,
                };
            },
        }
    }

    /// Takes what came of making the directory, and whether the destination
    /// has a name.
    pub fn parent_made(&mut self, outcome: ArchiveResult<()>, name: Option<String>)
        ensures
            final(self)@ == old(self)@.after_parent(file_ops::failure(outcome), name is Some),
    {
        match outcome {
            Err(error) => {
                self.fail(error);
            },
            Ok(_) => match creation::destination_name(name) {
                Err(error) => {
                    self.fail(error);
                },
                Ok(_) => {
                    self.stage = CreateStage::CheckAncestors;
                },
            },
        }
    }

    /// Takes what was collected, and how many bytes that is.
    pub fn collected(&mut self, found: ArchiveResult<(Vec<SourceItem>, u64)>)
        ensures
            final(self)@ == old(self)@.after_collect(
                match found {
                    Ok((items, bytes)) => Ok((source::source_views(items@), bytes)),
                    Err(error) => Err(error@),
                },
            ),
    {
        match found {
            Err(error) => {
                self.fail(error);
            },
            Ok((items, bytes)) => match creation::create_items(&items, self.format) {
                Err(error) => {
                    self.fail(error);
                },
                Ok(chosen) => {
                    self.stage = if self.split {
                        CreateStage::MakeWriter
                    } else {
                        CreateStage::OpenTemporary
                    };
                    self.items = chosen.items;
                    self.files = chosen.files;
                    self.bytes = bytes;
                },
            },
        }
    }

    /// Takes what came of writing: the failures of the volumes and of the
    /// callbacks, the writer's code, how many volumes there are, and the
    /// summary that the callbacks kept.
    pub fn written(
        &mut self,
        volume_error: Option<ArchiveError>,
        error: Option<ArchiveError>,
        cancelled: bool,
        code: i32,
        volumes: usize,
        reported: OperationSummary,
    )
        ensures
            final(self)@ == old(self)@.after_write(
                extracting::option_error(volume_error),
                extracting::option_error(error),
                cancelled,
                code,
                volumes,
                reported@,
            ),
    {
        let count: Option<usize> = if self.split { Some(volumes) } else { None };
        match creation::creation_outcome(volume_error, error, cancelled, code, count) {
            Err(error) => {
                self.fail(error);
            },
            Ok(_) => {
                self.stage = CreateStage::Install;
                self.summary = creation::creation_summary(reported, self.files, self.bytes);
            },
        }
    }

    /// What the creation came to, once it is over.
    pub fn result(self) -> (result: Option<ArchiveResult<OperationSummary>>)
        ensures
            match result {
                None => self.stage != CreateStage::Finished && (self.stage != CreateStage::Failed
                    || self.error is None),
                Some(Ok(summary)) => self.stage == CreateStage::Finished && summary@
                    == self.summary@,
                Some(Err(error)) => self.stage == CreateStage::Failed && self@.error == Some(
                    error@,
                ),
            },
    {
        match self.stage {
            CreateStage::Finished => Some(Ok(self.summary)),
            CreateStage::Failed => match self.error {
                Some(error) => Some(Err(error)),
                None => None,
            },
            _ => None,
        }
    }
}

/// What is true of every creation on its way: it has failed of something if
/// and only if it is cleaning up or over without success.
pub open spec fn is_on_its_way(state: CreateState) -> bool {
    state.error is Some <==> (state.stage == CreateStage::CleanUp || state.stage
        == CreateStage::Failed)
}

/// A failure is kept, and temporary files never outlive it: once the writer
/// has been made, a creation that fails passes through the clean-up, and
/// behind the clean-up it has failed of what it failed of before.
pub proof fn law_failed_creation_cleans_up(
    state: CreateState,
    failed: ErrorView,
    outcome: Option<ErrorView>,
)
    requires
        is_on_its_way(state),
        state.stage != CreateStage::Failed && state.stage != CreateStage::CleanUp,
    ensures
        is_on_its_way(state.after_step(Some(failed))),
        state.after_step(Some(failed)).error == Some(failed),
        state.stage.leaves_files() ==> state.after_step(Some(failed)).stage == CreateStage::CleanUp,
        state.stage.leaves_files() ==> {
            let over = state.after_step(Some(failed)).after_step(outcome);
            over.stage == CreateStage::Failed && over.error == Some(failed)
        },
{
}

/// A creation is finished only by putting what was written in its place, and
/// it then counts every file and every byte that was collected.
pub proof fn law_finished_creation_is_installed(
    state: CreateState,
    outcome: Option<ErrorView>,
    volume_error: Option<ErrorView>,
    error: Option<ErrorView>,
    cancelled: bool,
    code: i32,
    volumes: usize,
    reported: SummaryView,
)
    requires
        state.stage != CreateStage::Finished,
    ensures
        state.after_step(outcome).stage == CreateStage::Finished ==> state.stage
            == CreateStage::Install && outcome is None,
        ({
            let written = state.after_write(
                volume_error,
                error,
                cancelled,
                code,
                volumes,
                reported,
            );
            written.stage == CreateStage::Install ==> {
                &&& !cancelled && error is None && code == crate::ffi::S_OK
                &&& written.summary.entries_processed == state.files
                &&& written.summary.bytes_processed == state.bytes
            }
        }),
{
}

/// A creation goes through its stages in order. An archive in one piece gets a
/// temporary file first, a split one does not.
pub proof fn law_creation_goes_step_by_step(
    state: CreateState,
    items: Seq<SourceView>,
    bytes: u64,
    reported: SummaryView,
)
    ensures
        state.after_parent(None, true).stage == CreateStage::CheckAncestors,
        state.stage == CreateStage::CheckAncestors ==> state.after_step(None).stage
            == CreateStage::Collect,
        state.stage == CreateStage::OpenTemporary ==> state.after_step(None).stage
            == CreateStage::MakeWriter,
        state.stage == CreateStage::MakeWriter ==> state.after_step(None).stage
            == CreateStage::SetProperties,
        state.stage == CreateStage::SetProperties ==> state.after_step(None).stage
            == CreateStage::Write,
        state.stage == CreateStage::Install ==> state.after_step(None).stage
            == CreateStage::Finished,
        state.after_write(None, None, false, 0, 1, reported).stage == CreateStage::Install,
        items.len() <= u32::MAX && state.format == CreateFormat::SevenZip ==> {
            let after = state.after_collect(Ok::<(Seq<SourceView>, u64), ErrorView>((items, bytes)));
            &&& after.items == items
            &&& after.bytes == bytes
            &&& after.stage == if state.split {
                CreateStage::MakeWriter
            } else {
                CreateStage::OpenTemporary
            }
        },
        state.after_step(None).items == state.items,
        state.after_step(None).summary == state.summary,
        state.after_parent(None, false).stage != CreateStage::CheckAncestors,
{
    if state.format == CreateFormat::SevenZip {
        creation::law_every_file_is_written(items, state.format, items.len() as int);
        assert(items.take(items.len() as int) =~= items);
    }
}

/// A creation begins when it was not cancelled, the request is taken and the
/// destination has a directory; it begins with nothing collected.
pub proof fn law_creations_that_begin(
    cancelled: bool,
    inputs: int,
    options: CreateOptions,
    parent: Option<Seq<char>>,
)
    ensures
        begun(cancelled, inputs, options, parent) is Ok <==> !cancelled
            && creation::request_error(inputs, options) is None && parent is Some && parent->0.len()
            > 0,
        cancelled ==> begun(cancelled, inputs, options, parent) == Err::<CreateState, ErrorView>(
            ErrorView::Cancelled,
        ),
        begun(cancelled, inputs, options, parent) is Ok ==> {
            let state = begun(cancelled, inputs, options, parent)->Ok_0;
            &&& state.stage == CreateStage::MakeParent
            &&& state.format == options.format
            &&& state.split == (options.split_size is Some)
            &&& state.items.len() == 0 && state.files == 0 && state.bytes == 0
            &&& state.error is None
        },
{
}

} // verus!
