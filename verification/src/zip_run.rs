//! The steps of creating and extracting ZIP archives in this process.
//!
//! The program carries out one step after the other and reports what came of
//! it; the runs decide what comes next.

use vstd::prelude::*;
use vstd::string::*;
use crate::creation;
use crate::error::{ArchiveError, ArchiveResult, ErrorView};
use crate::extracting;
use crate::extracting::TargetState;
use crate::file_ops;
use crate::options::{ConflictChoice, CreateOptions, RuntimePolicy, ThreadCount};
use crate::source;
use crate::source::{SourceItem, SourceView};
use crate::zip_creation;
use crate::zip_extraction;

verus! {

// ---------------------------------------------------------------------------
// Creating
// ---------------------------------------------------------------------------

/// What a creation does next. Its temporary files stand in a directory of
/// their own, which goes with the run.
#[derive(Debug, Clone, Copy, PartialEq, Eq, Structural)]
pub enum ZipCreateStage {
    /// Make the destination's directory and resolve its path.
    MakeParent,
    /// Make sure that no link leads to the destination.
    CheckAncestors,
    /// Collect what goes into the archive.
    Collect,
    /// Make the directory of temporary files, and the output in it.
    OpenOutput,
    /// Write the archive.
    Write,
    /// Make sure again that no link leads to the destination.
    CheckAgain,
    /// Put what was written in its place.
    Install,
    Finished,
    Failed,
}

/// A creation.
#[derive(Debug)]
pub struct ZipCreateRun {
    pub stage: ZipCreateStage,
    pub items: Vec<SourceItem>,
    pub bytes: u64,
    pub error: Option<ArchiveError>,
}

/// A [`ZipCreateRun`] over sequences.
pub struct ZipCreateState {
    pub stage: ZipCreateStage,
    pub items: Seq<SourceView>,
    pub bytes: u64,
    pub error: Option<ErrorView>,
}

impl View for ZipCreateRun {
    type V = ZipCreateState;

    open spec fn view(&self) -> ZipCreateState {
        ZipCreateState {
            stage: self.stage,
            items: source::source_views(self.items@),
            bytes: self.bytes,
            error: extracting::option_error(self.error),
        }
    }
}

impl ZipCreateState {
    /// The state of a creation that failed.
    pub open spec fn failed(self, error: ErrorView) -> ZipCreateState {
        ZipCreateState { stage: ZipCreateStage::Failed, error: Some(error), ..self }
    }

    /// The state behind a step that says only whether it failed.
    pub open spec fn after_step(self, failed: Option<ErrorView>) -> ZipCreateState {
        match failed {
            Some(error) => self.failed(error),
            None => ZipCreateState {
                stage: match self.stage {
                    ZipCreateStage::CheckAncestors => ZipCreateStage::Collect,
                    ZipCreateStage::OpenOutput => ZipCreateStage::Write,
                    ZipCreateStage::CheckAgain => ZipCreateStage::Install,
                    ZipCreateStage::Install => ZipCreateStage::Finished,
                    stage => stage,
                },
                ..self
            },
        }
    }

    /// The state once the archive is written. Cancelling outranks the failure
    /// that it may have brought about.
    pub open spec fn after_write(self, cancelled: bool, failed: Option<ErrorView>)
        -> ZipCreateState {
        if cancelled {
            self.failed(ErrorView::Cancelled)
        } else if failed is Some {
            self.failed(failed->0)
        } else {
            ZipCreateState { stage: ZipCreateStage::CheckAgain, ..self }
        }
    }
}

/// Whether no two items share a name.
pub open spec fn names_differ(items: Seq<SourceView>) -> bool {
    forall|i: int| 0 <= i < items.len() ==> !#[trigger] zip_creation::repeats(items, i)
}

/// The error for items that share a name.
pub open spec fn is_duplicate_error(items: Seq<SourceView>, error: ErrorView) -> bool {
    exists|i: int| #[trigger]
        zip_creation::is_first_repeat(items, i) && error == ErrorView::InvalidInput(
            "duplicate ZIP entry: "@ + items[i].archive_name,
        )
}

impl ZipCreateRun {
    /// Begins a creation from `inputs` inputs.
    pub fn start(cancelled: bool, inputs: usize, options: &CreateOptions) -> (run: ArchiveResult<
        ZipCreateRun,
    >)
        ensures
            match run {
                Ok(run) => !cancelled && zip_creation::zip_request_error(inputs as int, *options)
                    is None && run@ == (ZipCreateState {
                    stage: ZipCreateStage::MakeParent,
                    items: Seq::empty(),
                    bytes: 0,
                    error: None,
                }),
                Err(error) => if cancelled {
                    error@ == ErrorView::Cancelled
                } else {
                    zip_creation::zip_request_error(inputs as int, *options) == Some(error@)
                },
            },
    {
        if cancelled {
            return Err(ArchiveError::Cancelled);
        }
        match zip_creation::check_zip_request(inputs, options) {
            Err(error) => {
                return Err(error);
            },
            Ok(_) => {},
        }
        let items: Vec<SourceItem> = Vec::new();
        proof {
            assert(source::source_views(items@) =~= Seq::<SourceView>::empty());
        }
        Ok(ZipCreateRun { stage: ZipCreateStage::MakeParent, items, bytes: 0, error: None })
    }

    /// Notes a failure.
    fn fail(&mut self, error: ArchiveError)
        ensures
            final(self)@ == old(self)@.failed(error@),
    {
        self.stage = ZipCreateStage::Failed;
        self.error = Some(error);
    }

    /// Takes what came of making the directory, and the destination's name.
    pub fn parent_made(&mut self, outcome: ArchiveResult<()>, name: Option<String>)
        ensures
            final(self)@ == match outcome {
                Err(error) => old(self)@.failed(error@),
                Ok(_) => if name is None {
                    old(self)@.failed(ErrorView::InvalidInput("destination has no file name"@))
                } else {
                    ZipCreateState { stage: ZipCreateStage::CheckAncestors, ..old(self)@ }
                },
            },
    {
        match outcome {
            Err(error) => {
                self.fail(error);
            },
            Ok(_) => match creation::destination_name(name) {
                Err(error) => {
                    self.fail(error);
                },
                Ok(_) => {
                    self.stage = ZipCreateStage::CheckAncestors;
                },
            },
        }
    }

    /// Takes what came of a step that says only whether it failed.
    pub fn step_done(&mut self, outcome: ArchiveResult<()>)
        ensures
            final(self)@ == old(self)@.after_step(file_ops::failure(outcome)),
    {
        match outcome {
            Err(error) => {
                self.fail(error);
            },
            Ok(_) => {
                self.stage = match self.stage {
                    ZipCreateStage::CheckAncestors => ZipCreateStage::Collect,
                    ZipCreateStage::OpenOutput => ZipCreateStage::Write,
                    ZipCreateStage::CheckAgain => ZipCreateStage::Install,
                    ZipCreateStage::Install => ZipCreateStage::Finished,
                    stage => stage,
                };
            },
        }
    }

    /// Takes what was collected, and how many bytes that is. Items that share
    /// a name are refused before there is any output.
    pub fn collected(&mut self, found: ArchiveResult<(Vec<SourceItem>, u64)>)
        ensures
            match found {
                Err(error) => final(self)@ == old(self)@.failed(error@),
                Ok((items, bytes)) => {
                    let views = source::source_views(items@);
                    if names_differ(views) {
                        final(self)@ == (ZipCreateState {
                            stage: ZipCreateStage::OpenOutput,
                            items: views,
                            bytes,
                            ..old(self)@
                        })
                    } else {
                        &&& final(self)@.error is Some
                        &&& is_duplicate_error(views, final(self)@.error->0)
                        &&& final(self)@ == old(self)@.failed(final(self)@.error->0)
                    }
                },
            },
    {
        match found {
            Err(error) => {
                self.fail(error);
            },
            Ok((items, bytes)) => match zip_creation::check_duplicate_names(&items) {
                Err(error) => {
                    proof {
                        let views = source::source_views(items@);
                        assert(is_duplicate_error(views, error@));
                        let i = choose|i: int| #[trigger]
                            zip_creation::is_first_repeat(views, i) && error@
                                == ErrorView::InvalidInput(
                                "duplicate ZIP entry: "@ + views[i].archive_name,
                            );
                        assert(zip_creation::repeats(views, i));
                    }
                    self.fail(error);
                },
                Ok(_) => {
                    self.stage = ZipCreateStage::OpenOutput;
                    self.items = items;
                    self.bytes = bytes;
                },
            },
        }
    }

    /// Takes what came of writing.
    pub fn written(&mut self, cancelled: bool, outcome: ArchiveResult<()>)
        ensures
            final(self)@ == old(self)@.after_write(
                cancelled,
                file_ops::failure(outcome),
            ),
    {
        match zip_creation::zip_creation_outcome(cancelled, outcome) {
            Err(error) => {
                self.fail(error);
            },
            Ok(_) => {
                self.stage = ZipCreateStage::CheckAgain;
            },
        }
    }
}

/// A creation is finished only by putting what was written in its place, and
/// that only behind a second look at the way to the destination.
pub proof fn law_links_are_looked_for_twice(
    state: ZipCreateState,
    failed: Option<ErrorView>,
    cancelled: bool,
)
    ensures
        state.stage != ZipCreateStage::Finished && state.after_step(failed).stage
            == ZipCreateStage::Finished ==> state.stage == ZipCreateStage::Install,
        state.stage != ZipCreateStage::Install && state.after_step(failed).stage
            == ZipCreateStage::Install ==> state.stage == ZipCreateStage::CheckAgain,
        state.after_write(cancelled, failed).stage == ZipCreateStage::CheckAgain ==> !cancelled
            && failed is None,
{
}

/// How items are compressed: by how many workers, and in which groups.
#[derive(Debug)]
pub struct CompressionPlan {
    pub workers: usize,
    pub groups: Vec<(usize, usize)>,
}

/// The bytes that a group is to have.
pub open spec fn target_of(bytes: u64, workers: int) -> int {
    zip_creation::between(
        bytes as int / workers,
        zip_creation::PARALLEL_BYTES as int,
        zip_creation::SPOOL_BYTES as int,
    )
}

/// Plans how items are compressed. There are no more workers than groups.
pub fn plan_compression(items: &Vec<SourceItem>, bytes: u64, threads: ThreadCount, cpus: u32) -> (
    plan: CompressionPlan)
    ensures
        ({
            let views = source::source_views(items@);
            let workers = zip_creation::compress_workers(
                bytes,
                threads.threads(cpus),
                items@.len() as int,
            );
            let groups = zip_creation::all_groups(views, target_of(bytes, workers) as u64);
            &&& zip_creation::group_views(plan.groups@) == groups
            &&& plan.workers == if groups.len() == 0 {
                1
            } else if workers < groups.len() {
                workers
            } else {
                groups.len() as int
            }
        }),
{
    let mut workers: usize = zip_creation::compression_workers(bytes, threads, cpus, items.len());
    let target: u64 = zip_creation::group_target(bytes, workers);
    let groups: Vec<(usize, usize)> = zip_creation::group_items(items, target);
    proof {
        assert(zip_creation::group_views(groups@).len() == groups@.len());
    }
    let most: usize = if groups.len() < 1 { 1 } else { groups.len() };
    if workers > most {
        workers = most;
    }
    CompressionPlan { workers, groups }
}

// ---------------------------------------------------------------------------
// Extracting
// ---------------------------------------------------------------------------

/// What an extraction does next.
#[derive(Debug, Clone, Copy, PartialEq, Eq, Structural)]
pub enum ZipExtractStage {
    /// Make a job ready: look for links on the way, and decide on what stands
    /// in its place.
    Prepare,
    /// Extract the jobs that are ready.
    ExtractBatch,
    Finish,
    Finished,
    Failed,
}

/// What came of making a job ready.
#[derive(Debug, Clone, Copy, PartialEq, Eq, Structural)]
pub enum Prepared {
    /// What stands in its place stays.
    Skipped,
    /// The job is a directory, which is there now.
    Directory,
    /// The job is a file that is extracted with its batch.
    File,
}

/// What is done to make a job ready.
#[derive(Debug)]
pub enum JobAction {
    /// Ask what to do about what stands in the way, and decide again.
    Ask,
    /// Leave what stands in the way, and the job out.
    Skip,
    /// Make the job's directory, in place of what stands there if `replace`.
    MakeDirectory { replace: bool },
    /// Make the directories above the job's file, which is then extracted.
    MakeParents,
    /// Give up, since a link stands in the way.
    RefuseLink,
    /// Give up.
    Fail(ArchiveError),
}

/// What a job is in need of once its place is free, or may be taken.
pub open spec fn making(directory: bool, replace: bool) -> JobAction {
    if directory {
        JobAction::MakeDirectory { replace }
    } else {
        JobAction::MakeParents
    }
}

/// Whether `action` is right for a job whose place is in `state`, and `after`
/// is what it makes of the policy `before`. An answer for all files is kept,
/// so later jobs are not asked about.
pub open spec fn job_decided(
    directory: bool,
    state: TargetState,
    before: RuntimePolicy,
    answer: Option<ConflictChoice>,
    action: JobAction,
    after: RuntimePolicy,
) -> bool {
    match state {
        TargetState::Missing => action == making(directory, false) && after == before,
        TargetState::Failed(error) => action == JobAction::Fail(error) && after == before,
        TargetState::Exists { reparse: true } => action == JobAction::RefuseLink && after
            == before,
        TargetState::Exists { reparse: false } => {
            let choice = match before.settled() {
                Some(choice) => Some(choice),
                None => answer,
            };
            match choice {
                None => action == JobAction::Ask && after == before,
                Some(choice) => {
                    &&& after == before.after(choice)
                    &&& action == match choice {
                        ConflictChoice::Overwrite | ConflictChoice::OverwriteAll => making(
                            directory,
                            true,
                        ),
                        ConflictChoice::Skip | ConflictChoice::SkipAll => JobAction::Skip,
                        ConflictChoice::Cancel => JobAction::Fail(ArchiveError::Cancelled),
                    }
                },
            }
        },
    }
}

/// What stands in the way of a job, by what is found at its place. A directory
/// is not in the way of a directory.
pub fn in_the_way(directory: bool, state: TargetState, is_dir: bool) -> (way: TargetState)
    ensures
        way == match state {
            TargetState::Exists { reparse: false } if directory && is_dir => TargetState::Missing,
            state => state,
        },
{
    match state {
        TargetState::Exists { reparse } => {
            if !reparse && directory && is_dir {
                TargetState::Missing
            } else {
                TargetState::Exists { reparse }
            }
        },
        state => state,
    }
}

/// Decides how a job is made ready, by what stands in its way. `answer` is what
/// was said about it, where it was asked.
pub fn prepare_job(
    directory: bool,
    state: TargetState,
    policy: &mut RuntimePolicy,
    answer: Option<ConflictChoice>,
) -> (action: JobAction)
    ensures
        job_decided(directory, state, *old(policy), answer, action, *final(policy)),
{
    let replace: bool = match state {
        TargetState::Missing => false,
        TargetState::Failed(error) => {
            return JobAction::Fail(error);
        },
        TargetState::Exists { reparse } => {
            if reparse {
                return JobAction::RefuseLink;
            }
            let choice: ConflictChoice = match policy.settled_choice() {
                Some(choice) => choice,
                None => match answer {
                    Some(choice) => choice,
                    None => {
                        return JobAction::Ask;
                    },
                },
            };
            *policy = policy.latch(choice);
            match choice {
                ConflictChoice::Overwrite | ConflictChoice::OverwriteAll => true,
                ConflictChoice::Skip | ConflictChoice::SkipAll => {
                    return JobAction::Skip;
                },
                ConflictChoice::Cancel => {
                    return JobAction::Fail(ArchiveError::Cancelled);
                },
            }
        },
    };
    if directory {
        JobAction::MakeDirectory { replace }
    } else {
        JobAction::MakeParents
    }
}

/// Nothing that stands in the way of a job is replaced unless that was chosen,
/// for this job or for all.
pub proof fn law_replacing_was_chosen(
    directory: bool,
    state: TargetState,
    before: RuntimePolicy,
    answer: Option<ConflictChoice>,
    action: JobAction,
    after: RuntimePolicy,
)
    requires
        job_decided(directory, state, before, answer, action, after),
        state is Exists,
        action is MakeDirectory || action is MakeParents,
    ensures
        before == RuntimePolicy::OverwriteAll || (before == RuntimePolicy::Ask && (answer == Some(
            ConflictChoice::Overwrite,
        ) || answer == Some(ConflictChoice::OverwriteAll))),
{
}

/// The extraction of jobs in batches. Conflicts are decided one after the
/// other; the files of a batch are then extracted together.
#[derive(Debug)]
pub struct ZipExtractRun {
    pub stage: ZipExtractStage,
    /// How many jobs there are, and how many make a batch.
    pub jobs: usize,
    pub batch: usize,
    /// The job that comes next, and the job behind the batch's last.
    pub at: usize,
    pub end: usize,
    /// The files of the batch.
    pub ready: Vec<usize>,
    /// How many jobs were skipped.
    pub skipped: u64,
    pub error: Option<ArchiveError>,
}

/// A [`ZipExtractRun`] over sequences.
pub struct ZipExtractState {
    pub stage: ZipExtractStage,
    pub jobs: int,
    pub batch: int,
    pub at: int,
    pub end: int,
    pub ready: Seq<usize>,
    pub skipped: u64,
    pub error: Option<ErrorView>,
}

impl View for ZipExtractRun {
    type V = ZipExtractState;

    open spec fn view(&self) -> ZipExtractState {
        ZipExtractState {
            stage: self.stage,
            jobs: self.jobs as int,
            batch: self.batch as int,
            at: self.at as int,
            end: self.end as int,
            ready: self.ready@,
            skipped: self.skipped,
            error: extracting::option_error(self.error),
        }
    }
}

/// The job behind the last one of a batch that begins at a job.
pub open spec fn batch_end(at: int, batch: int, jobs: int) -> int {
    if batch < jobs - at {
        at + batch
    } else {
        jobs
    }
}

impl ZipExtractState {
    /// Whether the extraction is in order: a batch is a range of jobs, and what
    /// is ready are jobs of it, in order and none twice.
    pub open spec fn valid(self) -> bool {
        &&& self.batch > 0
        &&& 0 <= self.at <= self.end <= self.jobs <= usize::MAX
        &&& self.end - self.at <= self.batch
        &&& self.stage == ZipExtractStage::Prepare ==> self.at < self.end
        &&& self.stage == ZipExtractStage::ExtractBatch ==> self.at == self.end
        &&& self.stage == ZipExtractStage::Finish ==> self.at == self.jobs
        &&& self.stage == ZipExtractStage::Finished ==> self.at == self.jobs
        &&& self.skipped <= self.at
        &&& forall|k: int| 0 <= k < self.ready.len() ==> #[trigger] self.ready[k] < self.at
        &&& forall|k: int, l: int|
            0 <= k < l < self.ready.len() ==> #[trigger] self.ready[k] < #[trigger] self.ready[l]
    }

    /// The state of an extraction that failed.
    pub open spec fn failed(self, error: ErrorView) -> ZipExtractState {
        ZipExtractState { stage: ZipExtractStage::Failed, error: Some(error), ..self }
    }

    /// The state once a job is ready.
    pub open spec fn after_job(self, prepared: Result<Prepared, ErrorView>) -> ZipExtractState {
        match prepared {
            Err(error) => self.failed(error),
            Ok(prepared) => ZipExtractState {
                stage: if self.at + 1 == self.end {
                    ZipExtractStage::ExtractBatch
                } else {
                    ZipExtractStage::Prepare
                },
                at: self.at + 1,
                ready: if prepared == Prepared::File {
                    self.ready.push(self.at as usize)
                } else {
                    self.ready
                },
                skipped: if prepared == Prepared::Skipped {
                    (self.skipped + 1) as u64
                } else {
                    self.skipped
                },
                ..self
            },
        }
    }

    /// The state once a batch is extracted.
    pub open spec fn after_batch(self, failed: Option<ErrorView>) -> ZipExtractState {
        match failed {
            Some(error) => self.failed(error),
            None => ZipExtractState {
                stage: if self.at < self.jobs {
                    ZipExtractStage::Prepare
                } else {
                    ZipExtractStage::Finish
                },
                end: batch_end(self.at, self.batch, self.jobs),
                ready: Seq::empty(),
                ..self
            },
        }
    }
}

impl ZipExtractRun {
    /// Begins to extract jobs by a number of workers.
    pub fn start(jobs: usize, workers: usize) -> (run: ZipExtractRun)
        requires
            1 <= workers <= zip_creation::MAX_COMPRESS_WORKERS,
        ensures
            run@.valid(),
            ({
                let batch = if workers == 1 {
                    1
                } else {
                    workers * 32
                };
                run@ == (ZipExtractState {
                    stage: if jobs == 0 {
                        ZipExtractStage::Finish
                    } else {
                        ZipExtractStage::Prepare
                    },
                    jobs: jobs as int,
                    batch,
                    at: 0,
                    end: batch_end(0, batch, jobs as int),
                    ready: Seq::empty(),
                    skipped: 0,
                    error: None,
                })
            }),
    {
        let batch: usize = zip_extraction::batch_size(workers);
        let end: usize = if batch < jobs { batch } else { jobs };
        let ready: Vec<usize> = Vec::new();
        proof {
            assert(ready@ =~= Seq::<usize>::empty());
        }
        ZipExtractRun {
            stage: if jobs == 0 { ZipExtractStage::Finish } else { ZipExtractStage::Prepare },
            jobs,
            batch,
            at: 0,
            end,
            ready,
            skipped: 0,
            error: None,
        }
    }

    /// Takes what came of making the next job ready. Cancelling comes first.
    pub fn job_prepared(&mut self, cancelled: bool, prepared: ArchiveResult<Prepared>)
        requires
            old(self)@.valid(),
            old(self).stage == ZipExtractStage::Prepare,
        ensures
            final(self)@.valid(),
            final(self)@ == old(self)@.after_job(
                if cancelled {
                    Err(ErrorView::Cancelled)
                } else {
                    match prepared {
                        Ok(prepared) => Ok(prepared),
                        Err(error) => Err(error@),
                    }
                },
            ),
    {
        if cancelled {
            self.stage = ZipExtractStage::Failed;
            self.error = Some(ArchiveError::Cancelled);
            return ;
        }
        match prepared {
            Err(error) => {
                self.stage = ZipExtractStage::Failed;
                self.error = Some(error);
            },
            Ok(prepared) => {
                let at: usize = self.at;
                match prepared {
                    Prepared::Skipped => {
                        self.skipped = self.skipped + 1;
                    },
                    Prepared::File => {
                        self.ready.push(at);
                    },
                    Prepared::Directory => {},
                }
                self.at = at + 1;
                if self.at == self.end {
                    self.stage = ZipExtractStage::ExtractBatch;
                }
            },
        }
    }

    /// Takes the workers' results of a batch.
    pub fn batch_extracted(&mut self, cancelled: bool, results: Vec<ArchiveResult<()>>)
        requires
            old(self)@.valid(),
            old(self).stage == ZipExtractStage::ExtractBatch,
        ensures
            final(self)@.valid(),
            final(self)@ == old(self)@.after_batch(
                if cancelled {
                    Some(ErrorView::Cancelled)
                } else {
                    zip_extraction::batch_error(results@, results@.len() as int)
                },
            ),
    {
        match zip_extraction::batch_outcome(cancelled, results) {
            Err(error) => {
                self.stage = ZipExtractStage::Failed;
                self.error = Some(error);
            },
            Ok(_) => {
                let left: usize = self.jobs - self.at;
                self.end = if self.batch < left { self.at + self.batch } else { self.jobs };
                self.ready = Vec::new();
                self.stage = if left > 0 {
                    ZipExtractStage::Prepare
                } else {
                    ZipExtractStage::Finish
                };
                proof {
                    assert(self.ready@ =~= Seq::<usize>::empty());
                }
            },
        }
    }

    /// Ends the extraction, unless it is cancelled at the last moment.
    pub fn finish(&mut self, cancelled: bool)
        requires
            old(self)@.valid(),
            old(self).stage == ZipExtractStage::Finish,
        ensures
            final(self)@.valid(),
            final(self)@ == if cancelled {
                old(self)@.failed(ErrorView::Cancelled)
            } else {
                ZipExtractState { stage: ZipExtractStage::Finished, ..old(self)@ }
            },
    {
        if cancelled {
            self.stage = ZipExtractStage::Failed;
            self.error = Some(ArchiveError::Cancelled);
        } else {
            self.stage = ZipExtractStage::Finished;
        }
    }
}

/// What came of the jobs of a batch, from a job on.
pub open spec fn after_jobs(state: ZipExtractState, prepared: Seq<Prepared>) -> ZipExtractState
    decreases prepared.len(),
{
    if prepared.len() == 0 {
        state
    } else {
        after_jobs(state, prepared.drop_last()).after_job(Ok(prepared.last()))
    }
}

/// How many of the jobs came out in a way.
pub open spec fn came_out(prepared: Seq<Prepared>, way: Prepared) -> nat
    decreases prepared.len(),
{
    if prepared.len() == 0 {
        0
    } else {
        came_out(prepared.drop_last(), way) + if prepared.last() == way {
            1nat
        } else {
            0
        }
    }
}

/// Every job of a batch is accounted for: it is skipped, or it is a directory
/// that is there, or it is among the files that are extracted; and a batch is
/// extracted once all its jobs have been looked at.
pub proof fn law_jobs_are_accounted_for(state: ZipExtractState, prepared: Seq<Prepared>)
    requires
        state.valid(),
        state.stage == ZipExtractStage::Prepare,
        prepared.len() <= state.end - state.at,
    ensures
        ({
            let after = after_jobs(state, prepared);
            &&& after.valid()
            &&& after.at == state.at + prepared.len()
            &&& after.end == state.end
            &&& after.jobs == state.jobs
            &&& after.skipped == state.skipped + came_out(prepared, Prepared::Skipped)
            &&& after.ready.len() == state.ready.len() + came_out(prepared, Prepared::File)
            &&& prepared.len() > 0 ==> (after.stage == ZipExtractStage::ExtractBatch
                <==> prepared.len() == state.end - state.at)
            &&& prepared.len() > 0 ==> (after.stage == ZipExtractStage::Prepare <==> prepared.len()
                < state.end - state.at)
            &&& came_out(prepared, Prepared::Skipped) + came_out(prepared, Prepared::Directory)
                + came_out(prepared, Prepared::File) == prepared.len()
        }),
    decreases prepared.len(),
{
    if prepared.len() > 0 {
        law_jobs_are_accounted_for(state, prepared.drop_last());
        let before = after_jobs(state, prepared.drop_last());
        let after = after_jobs(state, prepared);
        assert(before.valid() && before.at < before.end);
        if prepared.last() == Prepared::File {
            assert(after.ready == before.ready.push(before.at as usize));
        }
    }
}

/// Batch follows batch without a gap, until every job has been looked at.
pub proof fn law_batches_follow_each_other(state: ZipExtractState)
    requires
        state.valid(),
        state.stage == ZipExtractStage::ExtractBatch,
    ensures
        ({
            let after = state.after_batch(None);
            &&& after.valid()
            &&& after.at == state.end
            &&& after.stage == ZipExtractStage::Prepare ==> state.end < after.end <= state.end
                + state.batch
            &&& after.stage == ZipExtractStage::Finish <==> state.end == state.jobs
        }),
{
}

/// A creation goes through its stages in order, and stops at the first that
/// fails, with the error of that stage.
pub proof fn law_creation_goes_step_by_step(
    state: ZipCreateState,
    error: ErrorView,
    cancelled: bool,
)
    ensures
        state.stage == ZipCreateStage::CheckAncestors ==> state.after_step(None).stage
            == ZipCreateStage::Collect,
        state.stage == ZipCreateStage::OpenOutput ==> state.after_step(None).stage
            == ZipCreateStage::Write,
        state.stage == ZipCreateStage::CheckAgain ==> state.after_step(None).stage
            == ZipCreateStage::Install,
        state.stage == ZipCreateStage::Install ==> state.after_step(None).stage
            == ZipCreateStage::Finished,
        state.after_step(None).error == state.error,
        state.after_step(None).items == state.items && state.after_step(None).bytes == state.bytes,
        state.after_step(Some(error)).stage == ZipCreateStage::Failed,
        state.after_step(Some(error)).error == Some(error),
        state.after_write(false, None).stage == ZipCreateStage::CheckAgain,
        state.after_write(false, Some(error)).stage == ZipCreateStage::Failed
            && state.after_write(false, Some(error)).error == Some(error),
        state.after_write(true, None).stage == ZipCreateStage::Failed && state.after_write(
            true,
            None,
        ).error == Some(ErrorView::Cancelled),
        state.after_write(cancelled, None).items == state.items,
{
}

/// What a job does is decided by what stands in its place. Where nothing
/// does, a directory is made for a directory, and the directories above it for
/// a file. What exists is replaced, left or asked about as the answers say,
/// and a link ends the extraction.
pub proof fn law_jobs_do_what_was_chosen(
    directory: bool,
    state: TargetState,
    before: RuntimePolicy,
    answer: Option<ConflictChoice>,
    action: JobAction,
    after: RuntimePolicy,
)
    requires
        job_decided(directory, state, before, answer, action, after),
    ensures
        state is Missing && directory ==> action == (JobAction::MakeDirectory { replace: false }),
        state is Missing && !directory ==> action == JobAction::MakeParents,
        state == (TargetState::Exists { reparse: true }) ==> action == JobAction::RefuseLink,
        state == (TargetState::Exists { reparse: false }) && before == RuntimePolicy::SkipAll
            ==> action == JobAction::Skip,
        state == (TargetState::Exists { reparse: false }) && before == RuntimePolicy::Ask && (answer
            == Some(ConflictChoice::Skip) || answer == Some(ConflictChoice::SkipAll)) ==> action
            == JobAction::Skip,
        state == (TargetState::Exists { reparse: false }) && before == RuntimePolicy::Ask && answer
            is None ==> action == JobAction::Ask,
        state == (TargetState::Exists { reparse: false }) && before == RuntimePolicy::Ask && answer
            == Some(ConflictChoice::Cancel) ==> action == JobAction::Fail(ArchiveError::Cancelled),
        state == (TargetState::Exists { reparse: false }) && (before == RuntimePolicy::OverwriteAll
            || (before == RuntimePolicy::Ask && (answer == Some(ConflictChoice::Overwrite) || answer
            == Some(ConflictChoice::OverwriteAll)))) ==> action == if directory {
            JobAction::MakeDirectory { replace: true }
        } else {
            JobAction::MakeParents
        },
        state == (TargetState::Exists { reparse: false }) && before == RuntimePolicy::Ask && answer
            == Some(ConflictChoice::OverwriteAll) ==> after == RuntimePolicy::OverwriteAll,
        state == (TargetState::Exists { reparse: false }) && before == RuntimePolicy::Ask && answer
            == Some(ConflictChoice::SkipAll) ==> after == RuntimePolicy::SkipAll,
        before != RuntimePolicy::Ask ==> after == before,
        !(state is Exists) ==> after == before,
        state is Failed ==> action == JobAction::Fail(state->Failed_0),
{
}

/// A file that is ready is extracted with its batch, a directory and a
/// skipped entry are not; a skipped entry is counted.
pub proof fn law_ready_files_are_extracted(state: ZipExtractState, error: ErrorView)
    requires
        state.valid(),
        state.stage == ZipExtractStage::Prepare,
    ensures
        state.after_job(Ok(Prepared::File)).ready == state.ready.push(state.at as usize),
        state.after_job(Ok(Prepared::File)).skipped == state.skipped,
        state.after_job(Ok(Prepared::Directory)).ready == state.ready,
        state.after_job(Ok(Prepared::Directory)).skipped == state.skipped,
        state.after_job(Ok(Prepared::Skipped)).ready == state.ready,
        state.after_job(Ok(Prepared::Skipped)).skipped == state.skipped + 1,
        state.after_job(Err(error)).stage == ZipExtractStage::Failed && state.after_job(
            Err(error),
        ).error == Some(error),
        state.after_batch(Some(error)).stage == ZipExtractStage::Failed && state.after_batch(
            Some(error),
        ).error == Some(error),
{
}

/// Items that share a name are refused by the name of the first that repeats
/// one; where all names differ there is no such error.
pub proof fn law_shared_names_are_refused(items: Seq<SourceView>, i: int, error: ErrorView)
    ensures
        zip_creation::is_first_repeat(items, i) ==> (is_duplicate_error(items, error) <==> error
            == ErrorView::InvalidInput("duplicate ZIP entry: "@ + items[i].archive_name)),
        (forall|a: int, b: int|
            0 <= a < b < items.len() ==> (#[trigger] items[a]).archive_name != (
            #[trigger] items[b]).archive_name) ==> !is_duplicate_error(items, error),
{
    if is_duplicate_error(items, error) {
        let k = choose|k: int| #[trigger]
            zip_creation::is_first_repeat(items, k) && error == ErrorView::InvalidInput(
                "duplicate ZIP entry: "@ + items[k].archive_name,
            );
        if zip_creation::is_first_repeat(items, i) {
            assert(zip_creation::repeats(items, i) && zip_creation::repeats(items, k));
            assert(i == k);
        }
    }
}

} // verus!
