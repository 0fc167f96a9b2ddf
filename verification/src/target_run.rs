//! The way from a request for an entry's output stream to an open file.
//!
//! Directories are made once. A file's own path is checked for links each
//! time, so that a link that appears between two files cannot lead the second
//! one out of the destination.

use vstd::prelude::*;
use vstd::string::*;
use crate::error::ArchiveError;
use crate::extracting;
use crate::extracting::{ExtractContext, ExtractItem, TargetDecision, TargetState};
use crate::ffi::{E_ABORT, S_OK};
use crate::options::ConflictChoice;
use crate::paths;
use crate::text;

verus! {

/// The directories below the destination that are known to be there.
#[derive(Debug)]
pub struct PreparedDirectories {
    pub paths: Vec<Vec<String>>,
}

impl View for PreparedDirectories {
    type V = Seq<Seq<Seq<char>>>;

    open spec fn view(&self) -> Seq<Seq<Seq<char>>> {
        Seq::new(self.paths@.len(), |i: int| text::texts(self.paths@[i]@))
    }
}

/// Whether two paths are the same.
fn same_path(a: &Vec<String>, b: &Vec<String>) -> (same: bool)
    ensures
        same == (text::texts(a@) == text::texts(b@)),
{
    let same: bool = a.len() == b.len() && paths::path_starts_with(a, b);
    proof {
        let x = text::texts(a@);
        let y = text::texts(b@);
        if x.len() == y.len() {
            assert(x.subrange(0, y.len() as int) =~= x);
        }
    }
    same
}

impl PreparedDirectories {
    /// Only the destination itself is there.
    pub fn new() -> (prepared: PreparedDirectories)
        ensures
            prepared@ == seq![Seq::<Seq<char>>::empty()],
    {
        let mut paths: Vec<Vec<String>> = Vec::new();
        let root: Vec<String> = Vec::new();
        paths.push(root);
        let prepared = PreparedDirectories { paths };
        proof {
            assert(text::texts(root@) =~= Seq::<Seq<char>>::empty());
            assert(prepared@ =~= seq![Seq::<Seq<char>>::empty()]);
        }
        prepared
    }

    /// Whether a directory is known to be there.
    pub fn contains(&self, path: &Vec<String>) -> (found: bool)
        ensures
            found == self@.contains(text::texts(path@)),
    {
        let mut i: usize = 0;
        while i < self.paths.len()
            invariant
                i <= self.paths@.len(),
                forall|k: int| 0 <= k < i ==> #[trigger] self@[k] != text::texts(path@),
            decreases self.paths@.len() - i,
        {
            if same_path(&self.paths[i], path) {
                proof {
                    assert(self@[i as int] == text::texts(path@));
                }
                return true;
            }
            i += 1;
        }
        false
    }

    /// Takes note of a directory.
    fn note(&mut self, path: &Vec<String>)
        ensures
            final(self)@ == old(self)@.push(text::texts(path@)),
    {
        let ghost before = self@;
        self.paths.push(paths::copy_path(path));
        proof {
            assert(self@ =~= before.push(text::texts(path@)));
        }
    }
}

/// What is done next for an entry.
#[derive(Debug, Clone, Copy, PartialEq, Eq, Structural)]
pub enum TargetStep {
    /// Check that no link stands on the way to the directory.
    CheckDirectory,
    /// Make the directory and those above it.
    MakeDirectory,
    /// Check that no link stands on the way to the file.
    CheckTarget,
    /// Look at what stands in the file's place, and ask about it where that
    /// is wanted.
    InspectTarget,
    /// Create the file: the target itself when `direct`, else a temporary
    /// file beside it.
    Open { direct: bool },
    /// Return this code.
    Done(i32),
}

/// An entry on its way to an open file.
#[derive(Debug)]
pub struct TargetRun {
    /// Whether the entry is a directory.
    pub is_dir: bool,
    /// The directory that the entry needs: itself, or the one above it.
    pub directory: Vec<String>,
    pub step: TargetStep,
}

/// The directory that an entry needs.
pub open spec fn needed_directory(relative: Seq<Seq<char>>, is_dir: bool) -> Seq<Seq<char>> {
    if is_dir {
        relative
    } else {
        relative.drop_last()
    }
}

/// The first step for an entry whose directory is there or not.
pub open spec fn first_step(is_dir: bool, prepared: bool) -> TargetStep {
    if !prepared {
        TargetStep::CheckDirectory
    } else if is_dir {
        TargetStep::Done(S_OK)
    } else {
        TargetStep::CheckTarget
    }
}

/// The step behind one that succeeded. Nothing is looked at where all targets
/// are known to be missing.
pub open spec fn step_after(step: TargetStep, is_dir: bool, targets_missing: bool) -> TargetStep {
    match step {
        TargetStep::CheckDirectory => TargetStep::MakeDirectory,
        TargetStep::MakeDirectory => if is_dir {
            TargetStep::Done(S_OK)
        } else {
            TargetStep::CheckTarget
        },
        TargetStep::CheckTarget => if targets_missing {
            TargetStep::Open { direct: true }
        } else {
            TargetStep::InspectTarget
        },
        step => step,
    }
}

/// The step behind a decision about what stands in a file's place.
pub open spec fn step_for(decision: TargetDecision) -> TargetStep {
    match decision {
        TargetDecision::Ask => TargetStep::InspectTarget,
        TargetDecision::Write { direct } => TargetStep::Open { direct },
        TargetDecision::Return(code) => TargetStep::Done(code),
    }
}

impl TargetRun {
    /// Begins with an entry that is extracted.
    pub fn start(item: &ExtractItem, prepared: &PreparedDirectories) -> (run: TargetRun)
        requires
            item.relative@.len() > 0,
        ensures
            run.is_dir == item.is_dir,
            text::texts(run.directory@) == needed_directory(
                text::texts(item.relative@),
                item.is_dir,
            ),
            run.step == first_step(
                item.is_dir,
                prepared@.contains(text::texts(run.directory@)),
            ),
    {
        let mut directory: Vec<String> = paths::copy_path(&item.relative);
        if !item.is_dir {
            let ghost whole = text::texts(directory@);
            let length: usize = directory.len();
            proof {
                assert(text::texts(directory@).len() == directory@.len());
            }
            directory.truncate(length - 1);
            proof {
                assert(text::texts(directory@) =~= whole.drop_last());
            }
        }
        let is_there: bool = prepared.contains(&directory);
        let step: TargetStep = if !is_there {
            TargetStep::CheckDirectory
        } else if item.is_dir {
            TargetStep::Done(S_OK)
        } else {
            TargetStep::CheckTarget
        };
        TargetRun { is_dir: item.is_dir, directory, step }
    }

    /// Takes the outcome of a check or of making the directory. A failure
    /// ends the extraction; a directory that was made is not made again.
    pub fn step_done(
        &mut self,
        context: &mut ExtractContext,
        prepared: &mut PreparedDirectories,
        outcome: Result<(), ArchiveError>,
    )
        ensures
            *final(self) == (TargetRun { step: final(self).step, ..*old(self) }),
            match outcome {
                Err(error) => {
                    &&& final(self).step == TargetStep::Done(E_ABORT)
                    &&& *final(context) == (ExtractContext { error: Some(error), ..*old(context) })
                    &&& *final(prepared) == *old(prepared)
                },
                Ok(_) => {
                    &&& final(self).step == step_after(
                        old(self).step,
                        old(self).is_dir,
                        old(context).assume_targets_missing,
                    )
                    &&& *final(context) == *old(context)
                    &&& final(prepared)@ == if old(self).step == TargetStep::MakeDirectory {
                        old(prepared)@.push(text::texts(old(self).directory@))
                    } else {
                        old(prepared)@
                    }
                },
            },
    {
        if let Err(error) = outcome {
            context.error = Some(error);
            self.step = TargetStep::Done(E_ABORT);
            return ;
        }
        self.step = match self.step {
            TargetStep::CheckDirectory => TargetStep::MakeDirectory,
            TargetStep::MakeDirectory => {
                prepared.note(&self.directory);
                if self.is_dir {
                    TargetStep::Done(S_OK)
                } else {
                    TargetStep::CheckTarget
                }
            },
            TargetStep::CheckTarget => {
                if context.assume_targets_missing {
                    TargetStep::Open { direct: true }
                } else {
                    TargetStep::InspectTarget
                }
            },
            step => step,
        };
    }

    /// Takes what stands in the file's place, with the answer about it where
    /// it was asked for. The decision is that of
    /// [`ExtractContext::resolve_target`].
    pub fn inspected(
        &mut self,
        context: &mut ExtractContext,
        target: &str,
        state: TargetState,
        answer: Option<ConflictChoice>,
    )
        requires
            old(self).step == TargetStep::InspectTarget,
            old(context).summary.entries_skipped < u64::MAX,
        ensures
            *final(self) == (TargetRun { step: final(self).step, ..*old(self) }),
            exists|decision: TargetDecision| #[trigger]
                extracting::resolved(
                    *old(context),
                    target@,
                    state,
                    answer,
                    decision,
                    *final(context),
                ) && final(self).step == step_for(decision),
    {
        let decision: TargetDecision = context.resolve_target(target, state, answer);
        proof {
            assert(extracting::resolved(
                *old(context),
                target@,
                state,
                answer,
                decision,
                *context,
            ));
        }
        self.step = match decision {
            TargetDecision::Ask => TargetStep::InspectTarget,
            TargetDecision::Write { direct } => TargetStep::Open { direct },
            TargetDecision::Return(code) => TargetStep::Done(code),
        };
    }

    /// Takes the outcome of creating the file, which is put in place once the
    /// entry is done.
    pub fn opened(
        &mut self,
        context: &mut ExtractContext,
        item: &ExtractItem,
        target: String,
        temp_path: Option<String>,
        opened: Result<(), ArchiveError>,
    )
        ensures
            *final(self) == (TargetRun { step: final(self).step, ..*old(self) }),
            final(self).step == TargetStep::Done(
                if opened is Ok {
                    S_OK
                } else {
                    E_ABORT
                },
            ),
            match opened {
                Ok(_) => {
                    &&& final(context).pending@ == old(context).pending@.push(
                        extracting::pending_file(*item, target, temp_path),
                    )
                    &&& *final(context) == (ExtractContext {
                        pending: final(context).pending,
                        ..*old(context)
                    })
                },
                Err(error) => *final(context) == (ExtractContext {
                    error: Some(error),
                    ..*old(context)
                }),
            },
    {
        let code: i32 = context.stream_opened(item, target, temp_path, opened);
        self.step = TargetStep::Done(code);
    }
}

/// Whatever directories were made before, a file is opened only after its own
/// path was checked for links: the first step never opens, and the steps that
/// open follow the check. A directory is never opened.
pub proof fn law_every_target_is_checked(
    is_dir: bool,
    prepared: bool,
    step: TargetStep,
    targets_missing: bool,
)
    ensures
        first_step(is_dir, prepared) !is Open,
        first_step(is_dir, prepared) !is InspectTarget,
        step !is Open && step_after(step, is_dir, targets_missing) is Open ==> step is CheckTarget,
        step !is InspectTarget && step_after(step, is_dir, targets_missing) is InspectTarget
            ==> step is CheckTarget,
        is_dir ==> first_step(is_dir, prepared) !is CheckTarget,
        is_dir && step !is CheckTarget ==> step_after(step, is_dir, targets_missing) !is CheckTarget,
{
}

/// A directory that was made is neither checked nor made again.
pub proof fn law_directories_are_made_once(
    prepared: Seq<Seq<Seq<char>>>,
    directory: Seq<Seq<char>>,
    is_dir: bool,
)
    ensures
        first_step(is_dir, prepared.push(directory).contains(directory)) !is CheckDirectory,
        forall|other: Seq<Seq<char>>|
            prepared.contains(other) ==> #[trigger] prepared.push(directory).contains(other),
{
    let after = prepared.push(directory);
    assert(after[prepared.len() as int] == directory);
    assert forall|other: Seq<Seq<char>>| prepared.contains(other) implies #[trigger] after.contains(
        other,
    ) by {
        let k = choose|k: int| 0 <= k < prepared.len() && prepared[k] == other;
        assert(after[k] == other);
    }
}

/// A directory needs itself, and a file the directory above it. A directory
/// that is there already is done; a file is checked, looked at where something
/// may be in its place, and then created.
pub proof fn law_targets_go_step_by_step(
    relative: Seq<Seq<char>>,
    name: Seq<char>,
    direct: bool,
    code: i32,
)
    ensures
        needed_directory(relative, true) == relative,
        needed_directory(relative.push(name), false) == relative,
        first_step(true, true) == TargetStep::Done(0),
        first_step(false, true) == TargetStep::CheckTarget,
        first_step(true, false) == TargetStep::CheckDirectory,
        first_step(false, false) == TargetStep::CheckDirectory,
        step_after(TargetStep::CheckDirectory, direct, true) == TargetStep::MakeDirectory,
        step_after(TargetStep::CheckDirectory, direct, false) == TargetStep::MakeDirectory,
        step_after(TargetStep::MakeDirectory, true, direct) == TargetStep::Done(0),
        step_after(TargetStep::MakeDirectory, false, direct) == TargetStep::CheckTarget,
        step_after(TargetStep::CheckTarget, false, true) == (TargetStep::Open { direct: true }),
        step_after(TargetStep::CheckTarget, false, false) == TargetStep::InspectTarget,
        step_for(TargetDecision::Write { direct }) == (TargetStep::Open { direct }),
        step_for(TargetDecision::Return(code)) == TargetStep::Done(code),
        step_for(TargetDecision::Ask) == TargetStep::InspectTarget,
{
    assert(relative.push(name).drop_last() =~= relative);
}

} // verus!
