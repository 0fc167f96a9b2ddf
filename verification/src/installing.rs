//! Putting finished temporary files in the place of the files they replace.
//!
//! The caller performs each file operation that is asked for and reports how
//! it went.

use vstd::prelude::*;
use vstd::string::*;
use crate::error::{ArchiveError, ArchiveResult, ErrorView};
use crate::names;
use crate::paths;
use crate::text;

verus! {

/// How a rename went.
#[derive(Debug)]
pub enum RenameOutcome {
    Done,
    AlreadyExists(String),
    Failed(String),
}

/// What is done with a single temporary file.
#[derive(Debug, Clone, Copy, PartialEq, Eq, Structural)]
pub enum InstallStage {
    Rename,
    RemoveTarget,
    RenameAgain,
}

/// What comes after a step.
#[derive(Debug)]
pub enum InstallNext {
    Go(InstallStage),
    Finished,
    Failed(ArchiveError),
}

/// An [`InstallNext`] over sequences.
pub enum InstallNextView {
    Go(InstallStage),
    Finished,
    Failed(ErrorView),
}

impl View for InstallNext {
    type V = InstallNextView;

    open spec fn view(&self) -> InstallNextView {
        match *self {
            InstallNext::Go(stage) => InstallNextView::Go(stage),
            InstallNext::Finished => InstallNextView::Finished,
            InstallNext::Failed(error) => InstallNextView::Failed(error@),
        }
    }
}

/// What follows a step that installs a file. A target that is in the way is
/// removed once, and the rename is tried again.
pub open spec fn install_next(
    stage: InstallStage,
    outcome: RenameOutcome,
    target_exists: bool,
    target: Seq<char>,
) -> InstallNextView {
    match (stage, outcome) {
        (InstallStage::RemoveTarget, RenameOutcome::Done) => InstallNextView::Go(
            InstallStage::RenameAgain,
        ),
        (_, RenameOutcome::Done) => InstallNextView::Finished,
        (InstallStage::Rename, RenameOutcome::AlreadyExists(_)) => InstallNextView::Go(
            InstallStage::RemoveTarget,
        ),
        (InstallStage::Rename, RenameOutcome::Failed(message)) => if target_exists {
            InstallNextView::Go(InstallStage::RemoveTarget)
        } else {
            InstallNextView::Failed(ErrorView::Io(target, message@))
        },
        (_, RenameOutcome::AlreadyExists(message)) => InstallNextView::Failed(
            ErrorView::Io(target, message@),
        ),
        (_, RenameOutcome::Failed(message)) => InstallNextView::Failed(
            ErrorView::Io(target, message@),
        ),
    }
}

/// Moves a temporary file onto `target`, replacing an existing file:
/// [`install_next`], executable.
pub fn install_temporary(
    stage: InstallStage,
    outcome: RenameOutcome,
    target_exists: bool,
    target: &str,
) -> (next: InstallNext)
    ensures
        next@ == install_next(stage, outcome, target_exists, target@),
{
    match outcome {
        RenameOutcome::Done => match stage {
            InstallStage::RemoveTarget => InstallNext::Go(InstallStage::RenameAgain),
            _ => InstallNext::Finished,
        },
        RenameOutcome::AlreadyExists(message) => match stage {
            InstallStage::Rename => InstallNext::Go(InstallStage::RemoveTarget),
            _ => InstallNext::Failed(ArchiveError::io(target, message.as_str())),
        },
        RenameOutcome::Failed(message) => {
            if stage == InstallStage::Rename && target_exists {
                InstallNext::Go(InstallStage::RemoveTarget)
            } else {
                InstallNext::Failed(ArchiveError::io(target, message.as_str()))
            }
        },
    }
}

/// Where the installation of a set of volumes stands.
#[derive(Debug, Clone, Copy, PartialEq, Eq, Structural)]
pub enum VolumeStage {
    /// The temporary file at this index is moved to its place.
    Installing(usize),
    /// An earlier archive may have left a part with this number.
    InspectingStale(u32),
    RemovingStale(u32),
    /// An earlier archive may have been a single file.
    InspectingTarget,
    RemovingTarget,
    Finished,
    Failed,
}

/// What a look at a file found.
#[derive(Debug)]
pub enum Inspection {
    Missing,
    Found { is_reparse: bool },
    Failed(String),
}

/// The largest number of a part that is looked for.
pub const LAST_STALE_PART: u32 = 0xFFFF;

/// Replaces an archive by a set of volumes.
#[derive(Debug)]
pub struct VolumeInstall {
    /// The name of the archive without a volume number.
    pub base: Option<String>,
    /// How many volumes there are.
    pub count: usize,
    pub stage: VolumeStage,
    /// The names that were put in place.
    pub installed: Vec<String>,
    pub error: Option<ArchiveError>,
    /// Whether what was put in place is taken away again.
    pub roll_back: bool,
}

/// A [`VolumeInstall`] over sequences.
#[verifier::ext_equal]
pub struct InstallState {
    pub base: Option<Seq<char>>,
    pub count: nat,
    pub stage: VolumeStage,
    pub installed: Seq<Seq<char>>,
    pub error: Option<ErrorView>,
    pub roll_back: bool,
}

impl View for VolumeInstall {
    type V = InstallState;

    open spec fn view(&self) -> InstallState {
        InstallState {
            base: text::option_text(self.base),
            count: self.count as nat,
            stage: self.stage,
            installed: text::texts(self.installed@),
            error: match self.error {
                Some(error) => Some(error@),
                None => None,
            },
            roll_back: self.roll_back,
        }
    }
}

/// The names of the first `n` volumes.
pub open spec fn part_names(base: Option<Seq<char>>, n: nat) -> Seq<Seq<char>> {
    Seq::new(n, |i: int| names::volume_name(base, (i + 1) as nat))
}

impl InstallState {
    /// While the installation goes on nothing has failed, and what was put in
    /// place are the first volumes.
    pub open spec fn valid(self) -> bool {
        &&& self.installed.len() <= self.count
        &&& self.installed =~= part_names(self.base, self.installed.len())
        &&& self.stage is Failed == self.error is Some
        &&& self.stage !is Failed ==> !self.roll_back
        &&& match self.stage {
            VolumeStage::Installing(index) => index == self.installed.len() && index < self.count
                && index < u32::MAX,
            VolumeStage::Failed => true,
            _ => self.installed.len() == self.count,
        }
        &&& match self.stage {
            VolumeStage::InspectingStale(number) => self.count < number <= LAST_STALE_PART,
            VolumeStage::RemovingStale(number) => self.count < number <= LAST_STALE_PART,
            _ => true,
        }
    }

    /// The installation stops, and what was put in place goes away again.
    pub open spec fn failed(self, error: ErrorView) -> InstallState {
        InstallState { stage: VolumeStage::Failed, error: Some(error), roll_back: true, ..self }
    }

    /// The stage once `installed` files are in place.
    pub open spec fn next_part(self) -> InstallState {
        let done = self.installed.len();
        if done < self.count {
            if done < u32::MAX {
                InstallState { stage: VolumeStage::Installing(done as usize), ..self }
            } else {
                self.too_many()
            }
        } else if done < u32::MAX {
            InstallState { stage: stale_stage(done + 1), ..self }
        } else {
            self.too_many()
        }
    }

    /// There are more volumes than numbers for them.
    pub open spec fn too_many(self) -> InstallState {
        InstallState {
            stage: VolumeStage::Failed,
            error: Some(ErrorView::LimitExceeded("too many output volumes"@)),
            ..self
        }
    }

    /// What follows the installation of a part.
    pub open spec fn after_part(self, outcome: Option<ErrorView>) -> InstallState {
        match (self.stage, outcome) {
            (VolumeStage::Installing(index), None) => InstallState {
                installed: self.installed.push(names::volume_name(self.base, index as nat + 1)),
                ..self
            }.next_part(),
            (VolumeStage::Installing(_), Some(error)) => self.failed(error),
            _ => self,
        }
    }

    /// What follows a look at a file that may be left over.
    pub open spec fn after_inspection(self, found: Inspection, path: Seq<char>) -> InstallState {
        match (self.stage, found) {
            (VolumeStage::InspectingStale(_), Inspection::Missing) => InstallState {
                stage: VolumeStage::InspectingTarget,
                ..self
            },
            (VolumeStage::InspectingStale(number), Inspection::Found { is_reparse }) =>
                if is_reparse {
                    self.failed(ErrorView::ReparsePoint(path))
                } else {
                    InstallState { stage: VolumeStage::RemovingStale(number), ..self }
                },
            (VolumeStage::InspectingTarget, Inspection::Missing) => InstallState {
                stage: VolumeStage::Finished,
                ..self
            },
            (VolumeStage::InspectingTarget, Inspection::Found { is_reparse }) => if is_reparse {
                self.failed(ErrorView::ReparsePoint(path))
            } else {
                InstallState { stage: VolumeStage::RemovingTarget, ..self }
            },
            (VolumeStage::InspectingStale(_), Inspection::Failed(message)) => self.failed(
                ErrorView::Io(path, message@),
            ),
            (VolumeStage::InspectingTarget, Inspection::Failed(message)) => self.failed(
                ErrorView::Io(path, message@),
            ),
            _ => self,
        }
    }

    /// What follows the removal of a file that was left over.
    pub open spec fn after_removal(self, failure: Option<Seq<char>>, path: Seq<char>)
        -> InstallState {
        match (self.stage, failure) {
            (VolumeStage::RemovingStale(number), None) => InstallState {
                stage: stale_stage(number as nat + 1),
                ..self
            },
            (VolumeStage::RemovingTarget, None) => InstallState {
                stage: VolumeStage::Finished,
                ..self
            },
            (VolumeStage::RemovingStale(_), Some(message)) => self.failed(
                ErrorView::Io(path, message),
            ),
            (VolumeStage::RemovingTarget, Some(message)) => self.failed(
                ErrorView::Io(path, message),
            ),
            _ => self,
        }
    }
}

/// Where the search for parts that are left over stands at part `number`.
pub open spec fn stale_stage(number: nat) -> VolumeStage {
    if number <= LAST_STALE_PART {
        VolumeStage::InspectingStale(number as u32)
    } else {
        VolumeStage::InspectingTarget
    }
}

/// What the caller is to do next.
#[derive(Debug)]
pub enum VolumeAction {
    /// Move the temporary file at the index to the name.
    Install(usize, String),
    InspectPart(String),
    RemovePart(String),
    /// Look at the archive's name without a volume number.
    InspectTarget,
    RemoveTarget,
    Finished,
    /// Remove the files and report the error.
    Stop(Vec<String>),
}

/// A [`VolumeAction`] over sequences.
pub enum VolumeActionView {
    Install(usize, Seq<char>),
    InspectPart(Seq<char>),
    RemovePart(Seq<char>),
    InspectTarget,
    RemoveTarget,
    Finished,
    Stop(Seq<Seq<char>>),
}

impl View for VolumeAction {
    type V = VolumeActionView;

    open spec fn view(&self) -> VolumeActionView {
        match *self {
            VolumeAction::Install(index, name) => VolumeActionView::Install(index, name@),
            VolumeAction::InspectPart(name) => VolumeActionView::InspectPart(name@),
            VolumeAction::RemovePart(name) => VolumeActionView::RemovePart(name@),
            VolumeAction::InspectTarget => VolumeActionView::InspectTarget,
            VolumeAction::RemoveTarget => VolumeActionView::RemoveTarget,
            VolumeAction::Finished => VolumeActionView::Finished,
            VolumeAction::Stop(files) => VolumeActionView::Stop(text::texts(files@)),
        }
    }
}

impl InstallState {
    /// The action of a stage.
    pub open spec fn action(self) -> VolumeActionView {
        match self.stage {
            VolumeStage::Installing(index) => VolumeActionView::Install(
                index,
                names::volume_name(self.base, index as nat + 1),
            ),
            VolumeStage::InspectingStale(number) => VolumeActionView::InspectPart(
                names::volume_name(self.base, number as nat),
            ),
            VolumeStage::RemovingStale(number) => VolumeActionView::RemovePart(
                names::volume_name(self.base, number as nat),
            ),
            VolumeStage::InspectingTarget => VolumeActionView::InspectTarget,
            VolumeStage::RemovingTarget => VolumeActionView::RemoveTarget,
            VolumeStage::Finished => VolumeActionView::Finished,
            VolumeStage::Failed => VolumeActionView::Stop(
                if self.roll_back {
                    self.installed
                } else {
                    Seq::<Seq<char>>::empty()
                },
            ),
        }
    }
}

impl VolumeInstall {
    /// Begins to install `count` temporary files as the volumes of `base`.
    pub fn new(base: Option<String>, count: usize) -> (install: VolumeInstall)
        ensures
            install@ == (InstallState {
                base: text::option_text(base),
                count: count as nat,
                stage: VolumeStage::Finished,
                installed: Seq::empty(),
                error: None,
                roll_back: false,
            }).next_part(),
            install@.valid(),
    {
        let stage: VolumeStage = if count > 0 {
            VolumeStage::Installing(0)
        } else {
            VolumeStage::InspectingStale(1)
        };
        let install = VolumeInstall {
            base,
            count,
            stage,
            installed: Vec::new(),
            error: None,
            roll_back: false,
        };
        proof {
            assert(install@.installed =~= Seq::<Seq<char>>::empty());
        }
        install
    }

    /// What is to be done next.
    pub fn next(&self) -> (action: VolumeAction)
        requires
            self@.valid(),
        ensures
            action@ == self@.action(),
    {
        match self.stage {
            VolumeStage::Installing(index) => VolumeAction::Install(
                index,
                names::volume_part_path(&self.base, index as u32 + 1),
            ),
            VolumeStage::InspectingStale(number) => VolumeAction::InspectPart(
                names::volume_part_path(&self.base, number),
            ),
            VolumeStage::RemovingStale(number) => VolumeAction::RemovePart(
                names::volume_part_path(&self.base, number),
            ),
            VolumeStage::InspectingTarget => VolumeAction::InspectTarget,
            VolumeStage::RemovingTarget => VolumeAction::RemoveTarget,
            VolumeStage::Finished => VolumeAction::Finished,
            VolumeStage::Failed => {
                let files: Vec<String> = if self.roll_back {
                    paths::copy_path(&self.installed)
                } else {
                    Vec::new()
                };
                proof {
                    if !self.roll_back {
                        assert(text::texts(files@) =~= Seq::<Seq<char>>::empty());
                    }
                }
                VolumeAction::Stop(files)
            },
        }
    }

    /// Stops for an error.
    fn fail(&mut self, error: ArchiveError)
        ensures
            final(self)@ == old(self)@.failed(error@),
    {
        self.stage = VolumeStage::Failed;
        self.error = Some(error);
        self.roll_back = true;
        proof {
            assert(self@ =~= old(self)@.failed(error@));
        }
    }

    /// A part was moved to its place, or could not be.
    pub fn part_installed(&mut self, outcome: ArchiveResult<()>)
        requires
            old(self)@.valid(),
        ensures
            final(self)@ == old(self)@.after_part(
                match outcome {
                    Ok(_) => None,
                    Err(error) => Some(error@),
                },
            ),
            final(self)@.valid(),
    {
        if let VolumeStage::Installing(index) = self.stage {
            match outcome {
                Err(error) => {
                    self.fail(error);
                },
                Ok(_) => {
                    let name = names::volume_part_path(&self.base, index as u32 + 1);
                    let ghost before = self@.installed;
                    let ghost added = name@;
                    self.installed.push(name);
                    proof {
                        assert(self@.installed =~= before.push(added));
                        assert(self@.installed =~= part_names(self@.base, self@.installed.len()));
                    }
                    let done: usize = self.installed.len();
                    if done as u64 >= u32::MAX as u64 {
                        self.stage = VolumeStage::Failed;
                        self.error =
                        Some(ArchiveError::LimitExceeded("too many output volumes".to_owned()));
                    } else if done < self.count {
                        self.stage = VolumeStage::Installing(done);
                    } else if done as u32 + 1 <= LAST_STALE_PART {
                        self.stage = VolumeStage::InspectingStale(done as u32 + 1);
                    } else {
                        self.stage = VolumeStage::InspectingTarget;
                    }
                },
            }
        }
        proof {
            assert(self@ =~= old(self)@.after_part(
                match outcome {
                    Ok(_) => None,
                    Err(error) => Some(error@),
                },
            ));
        }
    }

    /// A file that may be left over was looked at.
    pub fn inspected(&mut self, found: Inspection, path: &str)
        requires
            old(self)@.valid(),
        ensures
            final(self)@ == old(self)@.after_inspection(found, path@),
            final(self)@.valid(),
    {
        match self.stage {
            VolumeStage::InspectingStale(number) => match found {
                Inspection::Missing => {
                    self.stage = VolumeStage::InspectingTarget;
                },
                Inspection::Found { is_reparse } => {
                    if is_reparse {
                        self.fail(ArchiveError::ReparsePoint(path.to_owned()));
                    } else {
                        self.stage = VolumeStage::RemovingStale(number);
                    }
                },
                Inspection::Failed(message) => {
                    self.fail(ArchiveError::io(path, message.as_str()));
                },
            },
            VolumeStage::InspectingTarget => match found {
                Inspection::Missing => {
                    self.stage = VolumeStage::Finished;
                },
                Inspection::Found { is_reparse } => {
                    if is_reparse {
                        self.fail(ArchiveError::ReparsePoint(path.to_owned()));
                    } else {
                        self.stage = VolumeStage::RemovingTarget;
                    }
                },
                Inspection::Failed(message) => {
                    self.fail(ArchiveError::io(path, message.as_str()));
                },
            },
            _ => {},
        }
        proof {
            assert(self@ =~= old(self)@.after_inspection(found, path@));
        }
    }

    /// A file that was left over was removed, or could not be.
    pub fn removed(&mut self, failure: Option<String>, path: &str)
        requires
            old(self)@.valid(),
        ensures
            final(self)@ == old(self)@.after_removal(text::option_text(failure), path@),
            final(self)@.valid(),
    {
        match self.stage {
            VolumeStage::RemovingStale(number) => match failure {
                None => {
                    if number < LAST_STALE_PART {
                        self.stage = VolumeStage::InspectingStale(number + 1);
                    } else {
                        self.stage = VolumeStage::InspectingTarget;
                    }
                },
                Some(message) => {
                    self.fail(ArchiveError::io(path, message.as_str()));
                },
            },
            VolumeStage::RemovingTarget => match failure {
                None => {
                    self.stage = VolumeStage::Finished;
                },
                Some(message) => {
                    self.fail(ArchiveError::io(path, message.as_str()));
                },
            },
            _ => {},
        }
        proof {
            assert(self@ =~= old(self)@.after_removal(text::option_text(failure), path@));
        }
    }
}

/// The files that matter to an installation, with their contents: those in the
/// archive's directory by their names, the temporary files by their numbers,
/// and the one with the archive's own name.
#[verifier::ext_equal]
pub struct Files {
    pub names: Map<Seq<char>, Seq<u8>>,
    pub temporary: Map<int, Seq<u8>>,
    pub target: Option<Seq<u8>>,
}

impl Files {
    /// The files once a temporary file was moved to a name.
    pub open spec fn with_part(self, index: int, name: Seq<char>) -> Files {
        Files {
            names: self.names.insert(name, self.temporary[index]),
            temporary: self.temporary.remove(index),
            ..self
        }
    }
}

/// How many steps remain at most.
pub open spec fn steps_left(state: InstallState) -> nat {
    match state.stage {
        VolumeStage::Installing(index) => (2 * LAST_STALE_PART + 10 + (if state.count >= index {
            state.count - index
        } else {
            0
        })) as nat,
        VolumeStage::InspectingStale(number) => if number <= LAST_STALE_PART {
            (2 * (LAST_STALE_PART - number) + 6) as nat
        } else {
            6
        },
        VolumeStage::RemovingStale(number) => if number <= LAST_STALE_PART {
            (2 * (LAST_STALE_PART - number) + 5) as nat
        } else {
            4
        },
        VolumeStage::InspectingTarget => 3,
        VolumeStage::RemovingTarget => 2,
        VolumeStage::Finished => 0,
        VolumeStage::Failed => 0,
    }
}

/// An installation in a directory where every file operation succeeds and no
/// file is a link.
pub open spec fn run_install(state: InstallState, files: Files, steps: nat) -> (InstallState, Files)
    decreases steps,
{
    if steps == 0 {
        (state, files)
    } else {
        match state.action() {
            VolumeActionView::Install(index, name) => run_install(
                state.after_part(None),
                files.with_part(index as int, name),
                (steps - 1) as nat,
            ),
            VolumeActionView::InspectPart(name) => run_install(
                state.after_inspection(
                    if files.names.contains_key(name) {
                        Inspection::Found { is_reparse: false }
                    } else {
                        Inspection::Missing
                    },
                    name,
                ),
                files,
                (steps - 1) as nat,
            ),
            VolumeActionView::RemovePart(name) => run_install(
                state.after_removal(None, name),
                Files { names: files.names.remove(name), ..files },
                (steps - 1) as nat,
            ),
            VolumeActionView::InspectTarget => run_install(
                state.after_inspection(
                    if files.target is Some {
                        Inspection::Found { is_reparse: false }
                    } else {
                        Inspection::Missing
                    },
                    Seq::empty(),
                ),
                files,
                (steps - 1) as nat,
            ),
            VolumeActionView::RemoveTarget => run_install(
                state.after_removal(None, Seq::empty()),
                Files { target: None, ..files },
                (steps - 1) as nat,
            ),
            VolumeActionView::Finished => (state, files),
            VolumeActionView::Stop(_) => (state, files),
        }
    }
}

/// Whether a name is that of a volume of an archive.
pub open spec fn is_part(base: Option<Seq<char>>, name: Seq<char>) -> bool {
    exists|number: nat| name == #[trigger] names::volume_name(base, number)
}

/// Whether the files that are no volumes of an archive are as they were.
pub open spec fn others_stay(
    base: Option<Seq<char>>,
    before: Map<Seq<char>, Seq<u8>>,
    after: Map<Seq<char>, Seq<u8>>,
) -> bool {
    forall|name: Seq<char>|
        !is_part(base, name) ==> #[trigger] after.contains_key(name) == before.contains_key(name)
            && (before.contains_key(name) ==> after[name] == before[name])
}

/// What holds of the files at a stage. `held` is what the temporary files held
/// at the start.
pub open spec fn on_the_way(
    state: InstallState,
    files: Files,
    held: Seq<Seq<u8>>,
    before: Map<Seq<char>, Seq<u8>>,
) -> bool {
    let following = names::volume_name(state.base, state.count + 1);
    &&& state.valid()
    &&& state.count < u32::MAX
    &&& state.count == held.len()
    &&& state.stage !is Failed
    &&& forall|i: int|
        0 <= i < state.installed.len() ==> files.names.contains_key(#[trigger] state.installed[i])
            && files.names[state.installed[i]] == held[i]
    &&& forall|i: int|
        0 <= i < held.len() ==> #[trigger] files.temporary.contains_key(i) == (i
            >= state.installed.len())
    &&& forall|i: int|
        state.installed.len() <= i < held.len() ==> #[trigger] files.temporary[i] == held[i]
    &&& others_stay(state.base, before, files.names)
    &&& match state.stage {
        VolumeStage::Installing(_) => true,
        VolumeStage::InspectingStale(number) => number == state.count + 1
            || !files.names.contains_key(following),
        VolumeStage::RemovingStale(number) => number == state.count + 1
            || !files.names.contains_key(following),
        _ => state.count < LAST_STALE_PART ==> !files.names.contains_key(following),
    }
    &&& state.stage is Finished ==> files.target is None
}

/// Moving a temporary file keeps what holds of the files.
proof fn lemma_part_moved(
    state: InstallState,
    files: Files,
    held: Seq<Seq<u8>>,
    before: Map<Seq<char>, Seq<u8>>,
    index: usize,
)
    requires
        on_the_way(state, files, held, before),
        state.stage == VolumeStage::Installing(index),
    ensures
        on_the_way(
            state.after_part(None),
            files.with_part(index as int, names::volume_name(state.base, index as nat + 1)),
            held,
            before,
        ),
{
    let name = names::volume_name(state.base, index as nat + 1);
    let next = state.after_part(None);
    let left = files.with_part(index as int, name);
    assert(files.temporary[index as int] == held[index as int]);
    assert(next.installed =~= part_names(state.base, index as nat + 1));
    assert forall|i: int| 0 <= i < next.installed.len() implies left.names.contains_key(
        #[trigger] next.installed[i],
    ) && left.names[next.installed[i]] == held[i] by {
        if i < index {
            assert(next.installed[i] == state.installed[i]);
            assert(files.names.contains_key(state.installed[i]));
            names::law_volume_names_differ(state.base, (i + 1) as u32, (index + 1) as u32);
        }
    }
    assert forall|i: int| 0 <= i < held.len() implies #[trigger] left.temporary.contains_key(i) == (i
        >= next.installed.len()) by {
        assert(files.temporary.contains_key(i) == (i >= state.installed.len()));
    }
    assert forall|i: int| next.installed.len() <= i < held.len() implies #[trigger] left.temporary[i]
        == held[i] by {
        assert(files.temporary[i] == held[i]);
    }
    assert forall|other: Seq<char>| !is_part(state.base, other) implies #[trigger] left.names.contains_key(
        other,
    ) == before.contains_key(other) && (before.contains_key(other) ==> left.names[other]
        == before[other]) by {
        assert(files.names.contains_key(other) == before.contains_key(other));
        assert(is_part(state.base, name));
    }
}

/// Removing a part of an earlier archive keeps what holds of the files.
proof fn lemma_stale_removed(
    state: InstallState,
    files: Files,
    held: Seq<Seq<u8>>,
    before: Map<Seq<char>, Seq<u8>>,
    number: u32,
)
    requires
        on_the_way(state, files, held, before),
        state.stage == VolumeStage::RemovingStale(number),
    ensures
        ({
            let name = names::volume_name(state.base, number as nat);
            on_the_way(
                state.after_removal(None, name),
                Files { names: files.names.remove(name), ..files },
                held,
                before,
            )
        }),
{
    let name = names::volume_name(state.base, number as nat);
    let next = state.after_removal(None, name);
    let left = Files { names: files.names.remove(name), ..files };
    assert forall|i: int| 0 <= i < next.installed.len() implies left.names.contains_key(
        #[trigger] next.installed[i],
    ) && left.names[next.installed[i]] == held[i] by {
        assert(files.names.contains_key(state.installed[i]));
        names::law_volume_names_differ(state.base, (i + 1) as u32, number);
    }
    assert forall|other: Seq<char>| !is_part(state.base, other) implies #[trigger] left.names.contains_key(
        other,
    ) == before.contains_key(other) && (before.contains_key(other) ==> left.names[other]
        == before[other]) by {
        assert(files.names.contains_key(other) == before.contains_key(other));
        assert(is_part(state.base, name));
    }
}

/// An installation on its way ends well.
pub proof fn lemma_run_install(
    state: InstallState,
    files: Files,
    held: Seq<Seq<u8>>,
    before: Map<Seq<char>, Seq<u8>>,
    steps: nat,
)
    requires
        on_the_way(state, files, held, before),
        steps >= steps_left(state),
    ensures
        on_the_way(
            run_install(state, files, steps).0,
            run_install(state, files, steps).1,
            held,
            before,
        ),
        run_install(state, files, steps).0.stage is Finished,
        run_install(state, files, steps).0.base == state.base,
        run_install(state, files, steps).0.count == state.count,
    decreases steps,
{
    if steps > 0 {
        let fewer = (steps - 1) as nat;
        match state.stage {
            VolumeStage::Installing(index) => {
                let name = names::volume_name(state.base, index as nat + 1);
                lemma_part_moved(state, files, held, before, index);
                lemma_run_install(
                    state.after_part(None),
                    files.with_part(index as int, name),
                    held,
                    before,
                    fewer,
                );
            },
            VolumeStage::InspectingStale(number) => {
                let name = names::volume_name(state.base, number as nat);
                let found = if files.names.contains_key(name) {
                    Inspection::Found { is_reparse: false }
                } else {
                    Inspection::Missing
                };
                lemma_run_install(
                    state.after_inspection(found, name),
                    files,
                    held,
                    before,
                    fewer,
                );
            },
            VolumeStage::RemovingStale(number) => {
                let name = names::volume_name(state.base, number as nat);
                lemma_stale_removed(state, files, held, before, number);
                lemma_run_install(
                    state.after_removal(None, name),
                    Files { names: files.names.remove(name), ..files },
                    held,
                    before,
                    fewer,
                );
            },
            VolumeStage::InspectingTarget => {
                let found = if files.target is Some {
                    Inspection::Found { is_reparse: false }
                } else {
                    Inspection::Missing
                };
                lemma_run_install(
                    state.after_inspection(found, Seq::empty()),
                    files,
                    held,
                    before,
                    fewer,
                );
            },
            VolumeStage::RemovingTarget => {
                let next = state.after_removal(None, Seq::empty());
                lemma_run_install(
                    next,
                    Files { target: None, ..files },
                    held,
                    before,
                    fewer,
                );
            },
            VolumeStage::Finished => {},
            VolumeStage::Failed => {},
        }
    }
}

/// An installation that meets no failure ends with all its volumes in place:
/// each holds what its temporary file held, and the temporary files are gone.
/// Afterwards no file has the archive's own name, no part follows the new
/// ones, and files that are no volumes of the archive are as they were.
pub proof fn law_install_replaces_the_archive(
    base: Option<Seq<char>>,
    held: Seq<Seq<u8>>,
    files: Files,
)
    requires
        held.len() < u32::MAX,
        held.len() <= usize::MAX,
        forall|i: int|
            0 <= i < held.len() ==> #[trigger] files.temporary.contains_key(i)
                && files.temporary[i] == held[i],
    ensures
        ({
            let count = held.len();
            let start = InstallState {
                base,
                count,
                stage: VolumeStage::Finished,
                installed: Seq::empty(),
                error: None,
                roll_back: false,
            }.next_part();
            let (end, left) = run_install(start, files, steps_left(start));
            &&& end.stage is Finished
            &&& end.error is None
            &&& forall|i: nat|
                1 <= i <= count ==> left.names.contains_key(
                    #[trigger] names::volume_name(base, i),
                ) && left.names[names::volume_name(base, i)] == held[i - 1]
            &&& forall|i: int|
                0 <= i < count ==> !(#[trigger] left.temporary.contains_key(i))
            &&& count < LAST_STALE_PART ==> !left.names.contains_key(
                names::volume_name(base, count + 1),
            )
            &&& left.target is None
            &&& others_stay(base, files.names, left.names)
        }),
{
    let count = held.len();
    let start = InstallState {
        base,
        count,
        stage: VolumeStage::Finished,
        installed: Seq::empty(),
        error: None,
        roll_back: false,
    }.next_part();
    assert(start.installed =~= part_names(base, 0));
    assert forall|i: int| start.installed.len() <= i < held.len() implies #[trigger] files.temporary[i]
        == held[i] by {
        assert(files.temporary.contains_key(i));
    }
    assert(on_the_way(start, files, held, files.names));
    lemma_run_install(start, files, held, files.names, steps_left(start));
    let (end, left) = run_install(start, files, steps_left(start));
    assert forall|i: nat| 1 <= i <= count implies left.names.contains_key(
        #[trigger] names::volume_name(base, i),
    ) && left.names[names::volume_name(base, i)] == held[i - 1] by {
        assert(end.installed[i - 1] == part_names(base, count)[i - 1]);
        assert(left.names.contains_key(end.installed[i - 1]));
    }
}

/// A failed installation has the caller remove every volume that was put in
/// place, whatever failed.
pub proof fn law_failed_install_rolls_back(
    state: InstallState,
    part: Option<ErrorView>,
    found: Inspection,
    failure: Option<Seq<char>>,
    path: Seq<char>,
)
    requires
        state.valid(),
        state.count < u32::MAX,
        state.stage !is Failed,
    ensures
        state.after_part(part).stage is Failed ==> state.after_part(part).action()
            == VolumeActionView::Stop(part_names(state.base, state.installed.len())),
        state.after_inspection(found, path).stage is Failed ==> state.after_inspection(
            found,
            path,
        ).action() == VolumeActionView::Stop(part_names(state.base, state.installed.len())),
        state.after_removal(failure, path).stage is Failed ==> state.after_removal(
            failure,
            path,
        ).action() == VolumeActionView::Stop(part_names(state.base, state.installed.len())),
{
}

/// A temporary file is renamed to its place. Where something is there, that is
/// removed first, once; what still fails then is the failure.
pub proof fn law_temporary_files_are_put_in_place(
    stage: InstallStage,
    outcome: RenameOutcome,
    target_exists: bool,
    target: Seq<char>,
)
    ensures
        stage == InstallStage::Rename && outcome is Done ==> install_next(
            stage,
            outcome,
            target_exists,
            target,
        ) == InstallNextView::Finished,
        stage == InstallStage::RenameAgain && outcome is Done ==> install_next(
            stage,
            outcome,
            target_exists,
            target,
        ) == InstallNextView::Finished,
        stage == InstallStage::RemoveTarget && outcome is Done ==> install_next(
            stage,
            outcome,
            target_exists,
            target,
        ) == InstallNextView::Go(InstallStage::RenameAgain),
        stage == InstallStage::Rename && (outcome is AlreadyExists || (outcome is Failed
            && target_exists)) ==> install_next(stage, outcome, target_exists, target)
            == InstallNextView::Go(InstallStage::RemoveTarget),
        stage == InstallStage::Rename && outcome is Failed && !target_exists ==> install_next(
            stage,
            outcome,
            target_exists,
            target,
        ) == InstallNextView::Failed(ErrorView::Io(target, outcome->Failed_0@)),
        stage != InstallStage::Rename && outcome is Failed ==> install_next(
            stage,
            outcome,
            target_exists,
            target,
        ) == InstallNextView::Failed(ErrorView::Io(target, outcome->Failed_0@)),
        stage != InstallStage::Rename && outcome is AlreadyExists ==> install_next(
            stage,
            outcome,
            target_exists,
            target,
        ) is Failed,
{
}

} // verus!
