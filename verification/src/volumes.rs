//! Writing one logical stream into volumes of a fixed size.
//!
//! [`VolumeOutput`] decides which file operation comes next. The caller
//! performs it and reports back; the operations together keep the logical
//! stream equal to the volumes one after the other.

use vstd::prelude::*;
use vstd::string::*;
use crate::error::{ArchiveError, ErrorView};
use crate::ffi::{SEEK_CUR, SEEK_END, SEEK_SET};
use crate::joined;
use crate::names;
use crate::streams;
use crate::text;

verus! {

/// One volume: its file name, whether the file is open, its length and the
/// file's cursor, if that is known.
#[derive(Debug)]
pub struct VolumePart {
    pub path: String,
    pub open: bool,
    pub length: u64,
    pub position: Option<u64>,
}

/// A logical output stream cut into volumes of `volume_size` bytes.
#[derive(Debug)]
pub struct VolumeOutput {
    pub prefix: Option<String>,
    pub volume_size: u64,
    pub parts: Vec<VolumePart>,
    pub position: u64,
    pub length: u64,
    pub error: Option<ArchiveError>,
}

/// What the volumes need next.
#[derive(Debug)]
pub enum VolumeStep {
    /// Nothing is left to do.
    Done,
    /// Create the next volume's file; it must not exist yet.
    Create { path: String },
    /// Write the next `amount` bytes to volume `index`, after moving the file
    /// to `seek` where that is given.
    Write { index: usize, seek: Option<u64>, amount: usize },
    /// Set the length of volume `index`.
    Resize { index: usize, length: u64 },
    /// Close the file and remove it; a missing file is no failure.
    Remove { path: String },
    /// The operation failed; the error has been remembered.
    Failed,
}

/// A change of the stream's length that has been started: `required` volumes
/// are to stay, and those before `next` have their new length.
#[derive(Debug, Clone, Copy, PartialEq, Eq, Structural)]
pub struct PendingResize {
    pub size: u64,
    pub required: usize,
    pub next: usize,
}

/// What the stream's rules speak of: the lengths of the volumes and the
/// logical position and length.
#[verifier::ext_equal]
pub struct VolumeState {
    pub size: int,
    pub lengths: Seq<u64>,
    pub position: int,
    pub length: int,
}

/// A [`VolumePart`] over sequences.
#[verifier::ext_equal]
pub struct PartState {
    pub path: Seq<char>,
    pub open: bool,
    pub length: u64,
    pub position: Option<u64>,
}

impl View for VolumePart {
    type V = PartState;

    open spec fn view(&self) -> PartState {
        PartState {
            path: self.path@,
            open: self.open,
            length: self.length,
            position: self.position,
        }
    }
}

/// A [`VolumeOutput`] over sequences.
#[verifier::ext_equal]
pub struct OutputState {
    pub prefix: Option<Seq<char>>,
    pub volume_size: u64,
    pub parts: Seq<PartState>,
    pub position: u64,
    pub length: u64,
    pub error: Option<ErrorView>,
}

impl View for VolumeOutput {
    type V = OutputState;

    open spec fn view(&self) -> OutputState {
        OutputState {
            prefix: text::option_text(self.prefix),
            volume_size: self.volume_size,
            parts: Seq::new(self.parts@.len(), |i: int| self.parts@[i]@),
            position: self.position,
            length: self.length,
            error: match self.error {
                Some(error) => Some(error@),
                None => None,
            },
        }
    }
}

/// A [`VolumeStep`] over sequences.
pub enum StepView {
    Done,
    Create(Seq<char>),
    Write { index: usize, seek: Option<u64>, amount: usize },
    Resize { index: usize, length: u64 },
    Remove(Seq<char>),
    Failed,
}

impl View for VolumeStep {
    type V = StepView;

    open spec fn view(&self) -> StepView {
        match *self {
            VolumeStep::Done => StepView::Done,
            VolumeStep::Create { path } => StepView::Create(path@),
            VolumeStep::Write { index, seek, amount } => StepView::Write { index, seek, amount },
            VolumeStep::Resize { index, length } => StepView::Resize { index, length },
            VolumeStep::Remove { path } => StepView::Remove(path@),
            VolumeStep::Failed => StepView::Failed,
        }
    }
}

impl OutputState {
    /// What the stream's rules speak of.
    pub open spec fn rules(self) -> VolumeState {
        VolumeState {
            size: self.volume_size as int,
            lengths: Seq::new(self.parts.len(), |i: int| self.parts[i].length),
            position: self.position as int,
            length: self.length as int,
        }
    }

    /// The volume that the stream's position lies in.
    pub open spec fn current_volume(self) -> int {
        self.position as int / self.volume_size as int
    }

    /// The stream's position within that volume.
    pub open spec fn local_position(self) -> int {
        self.position as int % self.volume_size as int
    }

    /// The stream that remembers an error, unless one came before.
    pub open spec fn with_error(self, error: ErrorView) -> OutputState {
        OutputState {
            error: match self.error {
                Some(first) => Some(first),
                None => Some(error),
            },
            ..self
        }
    }

    /// The next step of writing `remaining` bytes at the stream's position.
    pub open spec fn write_next(self, remaining: int) -> StepView {
        let index = self.current_volume();
        if remaining == 0 {
            StepView::Done
        } else if index >= u32::MAX {
            StepView::Failed
        } else if self.parts.len() <= index {
            StepView::Create(names::volume_name(self.prefix, self.parts.len() + 1))
        } else if !self.parts[index].open {
            StepView::Failed
        } else {
            StepView::Write {
                index: index as usize,
                seek: if self.parts[index].position == Some(self.local_position() as u64) {
                    None
                } else {
                    Some(self.local_position() as u64)
                },
                amount: streams::smaller(
                    remaining,
                    self.volume_size - self.local_position(),
                ) as usize,
            }
        }
    }

    /// The stream once that step was asked for. Until a write is done, the
    /// cursor of its volume is not known.
    pub open spec fn after_write_asked(self, remaining: int) -> OutputState {
        let index = self.current_volume();
        match self.write_next(remaining) {
            StepView::Write { .. } => OutputState {
                parts: self.parts.update(
                    index,
                    PartState { position: None, ..self.parts[index] },
                ),
                ..self
            },
            StepView::Failed => self.with_error(
                ErrorView::SevenZip(
                    if index >= u32::MAX {
                        "too many output volumes"@
                    } else {
                        closed_volume_text(self.parts[index].path)
                    },
                ),
            ),
            _ => self,
        }
    }

    /// The stream once a volume was created.
    pub open spec fn after_created(self, path: Seq<char>) -> OutputState {
        OutputState {
            parts: self.parts.push(
                PartState { path, open: true, length: 0, position: Some(0) },
            ),
            ..self
        }
    }

    /// The stream once bytes were written to a volume at the stream's position.
    pub open spec fn after_written(self, index: int, amount: int) -> OutputState {
        let end = self.local_position() + amount;
        let position = streams::smaller(self.position + amount, u64::MAX as int);
        OutputState {
            parts: self.parts.update(
                index,
                PartState {
                    position: Some(end as u64),
                    length: streams::larger(self.parts[index].length as int, end) as u64,
                    ..self.parts[index]
                },
            ),
            position: position as u64,
            length: streams::larger(self.length as int, position) as u64,
            ..self
        }
    }

    /// The next step of a change of length.
    pub open spec fn resize_next(self, pending: PendingResize) -> StepView {
        if self.parts.len() < pending.required {
            StepView::Create(names::volume_name(self.prefix, self.parts.len() + 1))
        } else if pending.next < pending.required {
            if self.parts[pending.next as int].open {
                StepView::Resize {
                    index: pending.next,
                    length: part_length(
                        pending.size as int,
                        self.volume_size as int,
                        pending.next as int,
                    ) as u64,
                }
            } else {
                StepView::Failed
            }
        } else if self.parts.len() > pending.required {
            StepView::Remove(self.parts.last().path)
        } else {
            StepView::Done
        }
    }

    /// The stream once that step was asked for.
    pub open spec fn after_resize_asked(self, pending: PendingResize) -> OutputState {
        if self.resize_next(pending) is Failed {
            self.with_error(
                ErrorView::SevenZip(closed_volume_text(self.parts[pending.next as int].path)),
            )
        } else {
            self
        }
    }

    /// The stream once a volume got its new length.
    pub open spec fn after_resized(self, index: int, length: u64) -> OutputState {
        OutputState {
            parts: self.parts.update(index, PartState { length, ..self.parts[index] }),
            ..self
        }
    }

    /// The stream once its last volume was removed.
    pub open spec fn after_removed(self) -> OutputState {
        OutputState { parts: self.parts.drop_last(), ..self }
    }

    /// The stream at the end of a change of length.
    pub open spec fn after_resize(self, size: u64) -> OutputState {
        OutputState {
            length: size,
            position: streams::smaller(self.position as int, size as int) as u64,
            ..self
        }
    }
}

/// The text of the error when a volume is no longer open.
pub open spec fn closed_volume_text(path: Seq<char>) -> Seq<char> {
    "output volume "@ + path + " is already closed"@
}

/// The first error is kept.
pub open spec fn remembered(old_error: Option<ArchiveError>, error: ErrorView) -> ErrorView {
    match old_error {
        Some(first) => first@,
        None => error,
    }
}

/// The length that volume `index` has in a stream of `size` bytes.
pub open spec fn part_length(size: int, volume_size: int, index: int) -> int {
    streams::smaller(size - index * volume_size, volume_size)
}

/// The number of volumes of a stream of `size` bytes.
pub open spec fn parts_for(size: int, volume_size: int) -> int {
    if size <= 0 {
        0
    } else {
        (size - 1) / volume_size + 1
    }
}

impl VolumeOutput {
    /// The lengths of the volumes.
    pub open spec fn lengths(self) -> Seq<u64> {
        Seq::new(self.parts@.len(), |i: int| self.parts@[i].length)
    }

    /// What the stream's rules speak of.
    pub open spec fn state(self) -> VolumeState {
        VolumeState {
            size: self.volume_size as int,
            lengths: self.lengths(),
            position: self.position as int,
            length: self.length as int,
        }
    }

    /// Volumes are not empty, there are not too many of them, and none is
    /// longer than allowed.
    pub open spec fn well_formed(self) -> bool {
        &&& self.volume_size > 0
        &&& self.parts@.len() <= u32::MAX
        &&& forall|i: int|
            0 <= i < self.parts@.len() ==> (#[trigger] self.parts@[i]).length <= self.volume_size
    }

    /// An empty stream. `prefix` is the archive's file name, if it has one.
    pub fn new(prefix: Option<String>, volume_size: u64) -> (output: VolumeOutput)
        requires
            volume_size > 0,
        ensures
            output.well_formed(),
            output.prefix == prefix,
            output.volume_size == volume_size,
            output.parts@.len() == 0,
            output.position == 0,
            output.length == 0,
            output.error is None,
    {
        VolumeOutput {
            prefix,
            volume_size,
            parts: Vec::new(),
            position: 0,
            length: 0,
            error: None,
        }
    }

    /// The file name of volume `index`, counted from zero.
    pub fn part_path(&self, index: usize) -> (path: String)
        requires
            index < u32::MAX,
        ensures
            path@ == names::volume_name(text::option_text(self.prefix), (index + 1) as nat),
    {
        names::volume_part_path(&self.prefix, index as u32 + 1)
    }

    /// Keeps the failure of a file operation, unless an error came before.
    pub fn remember_error(&mut self, path: &str, message: &str)
        ensures
            final(self).error is Some,
            final(self).error->0@ == remembered(old(self).error, ErrorView::Io(path@, message@)),
            *final(self) == (VolumeOutput { error: final(self).error, ..*old(self) }),
    {
        if self.error.is_none() {
            self.error = Some(ArchiveError::io(path, message));
        }
    }

    /// Keeps a failure, unless an error came before.
    pub fn remember_message(&mut self, message: &str)
        ensures
            final(self).error is Some,
            final(self).error->0@ == remembered(old(self).error, ErrorView::SevenZip(message@)),
            *final(self) == (VolumeOutput { error: final(self).error, ..*old(self) }),
    {
        if self.error.is_none() {
            self.error = Some(ArchiveError::SevenZip(message.to_owned()));
        }
    }

    /// The file to create before volume `index` can be used, if there is one.
    pub fn ensure_part(&self, index: usize) -> (missing: Option<String>)
        requires
            index < u32::MAX,
        ensures
            match missing {
                Some(path) => self.parts@.len() <= index && path@ == names::volume_name(
                    text::option_text(self.prefix),
                    self.parts@.len() + 1,
                ),
                None => index < self.parts@.len(),
            },
    {
        if self.parts.len() <= index {
            Some(self.part_path(self.parts.len()))
        } else {
            None
        }
    }

    /// Takes note of a volume that was created.
    pub fn part_created(&mut self, path: String)
        requires
            old(self).well_formed(),
            old(self).parts@.len() < u32::MAX,
        ensures
            final(self).well_formed(),
            final(self).parts@ == old(self).parts@.push(
                VolumePart { path, open: true, length: 0, position: Some(0) },
            ),
            *final(self) == (VolumeOutput { parts: final(self).parts, ..*old(self) }),
            final(self).state() == with_part(old(self).state()),
            final(self)@ == old(self)@.after_created(path@),
    {
        self.parts.push(VolumePart { path, open: true, length: 0, position: Some(0) });
        proof {
            assert(self@.parts =~= old(self)@.after_created(path@).parts);
            assert(self.lengths() =~= old(self).lengths().push(0));
        }
    }

    /// The volume that the stream's position lies in.
    pub open spec fn current_volume(self) -> int {
        self.position as int / self.volume_size as int
    }

    /// The stream's position within that volume.
    pub open spec fn local_position(self) -> int {
        self.position as int % self.volume_size as int
    }

    /// The next step of writing `remaining` bytes at the stream's position:
    /// the volume at the position is created where it is missing, and then
    /// gets as many bytes as it can take.
    pub fn write(&mut self, remaining: usize) -> (step: VolumeStep)
        requires
            old(self).well_formed(),
        ensures
            final(self).well_formed(),
            *final(self) == (VolumeOutput {
                error: final(self).error,
                parts: final(self).parts,
                ..*old(self)
            }),
            final(self).state() == old(self).state(),
            step@ == old(self)@.write_next(remaining as int),
            final(self)@ == old(self)@.after_write_asked(remaining as int),
            match step {
                VolumeStep::Done => remaining == 0 && *final(self) == *old(self),
                VolumeStep::Create { path } => {
                    &&& remaining != 0
                    &&& old(self).parts@.len() <= old(self).current_volume() < u32::MAX
                    &&& path@ == names::volume_name(
                        text::option_text(old(self).prefix),
                        old(self).parts@.len() + 1,
                    )
                    &&& *final(self) == *old(self)
                },
                VolumeStep::Write { index, seek, amount } => {
                    &&& remaining != 0
                    &&& index == old(self).current_volume()
                    &&& index < old(self).parts@.len()
                    &&& old(self).parts@[index as int].open
                    &&& amount == streams::smaller(
                        remaining as int,
                        old(self).volume_size - old(self).local_position(),
                    )
                    &&& seek == if old(self).parts@[index as int].position == Some(
                        old(self).local_position() as u64,
                    ) {
                        None::<u64>
                    } else {
                        Some(old(self).local_position() as u64)
                    }
                    &&& final(self).error == old(self).error
                    &&& final(self).parts@ == old(self).parts@.update(
                        index as int,
                        VolumePart { position: None, ..old(self).parts@[index as int] },
                    )
                },
                VolumeStep::Failed => {
                    &&& remaining != 0
                    &&& final(self).parts@ == old(self).parts@
                    &&& final(self).error is Some
                    &&& if old(self).current_volume() >= u32::MAX {
                        final(self).error->0@ == remembered(
                            old(self).error,
                            ErrorView::SevenZip("too many output volumes"@),
                        )
                    } else {
                        &&& old(self).current_volume() < old(self).parts@.len()
                        &&& !old(self).parts@[old(self).current_volume()].open
                        &&& final(self).error->0@ == remembered(
                            old(self).error,
                            ErrorView::SevenZip(
                                closed_volume_text(
                                    old(self).parts@[old(self).current_volume()].path@,
                                ),
                            ),
                        )
                    }
                },
                _ => false,
            },
    {
        if remaining == 0 {
            return VolumeStep::Done;
        }
        let volume: u64 = self.position / self.volume_size;
        let local: u64 = self.position % self.volume_size;
        if volume >= u32::MAX as u64 {
            self.remember_message("too many output volumes");
            return VolumeStep::Failed;
        }
        let index: usize = volume as usize;
        if let Some(path) = self.ensure_part(index) {
            return VolumeStep::Create { path };
        }
        if !self.parts[index].open {
            let message = text::join3(
                "output volume ",
                self.parts[index].path.as_str(),
                " is already closed",
            );
            self.remember_message(message.as_str());
            return VolumeStep::Failed;
        }
        let available: u64 = self.volume_size - local;
        let amount: usize = if (remaining as u64) <= available {
            remaining
        } else {
            available as usize
        };
        let known: bool = match self.parts[index].position {
            Some(position) => position == local,
            None => false,
        };
        let seek: Option<u64> = if known { None } else { Some(local) };
        let part = VolumePart {
            path: self.parts[index].path.clone(),
            open: true,
            length: self.parts[index].length,
            position: None,
        };
        self.parts.set(index, part);
        proof {
            assert(self.lengths() =~= old(self).lengths());
            assert(self@.parts =~= old(self)@.after_write_asked(remaining as int).parts);
        }
        VolumeStep::Write { index, seek, amount }
    }

    /// Takes note of `amount` bytes that were written to volume `index` at the
    /// stream's position, and moves the stream behind them.
    pub fn part_written(&mut self, index: usize, amount: usize)
        requires
            old(self).well_formed(),
            index == old(self).current_volume(),
            index < old(self).parts@.len(),
            amount <= old(self).volume_size - old(self).local_position(),
        ensures
            final(self).well_formed(),
            final(self).parts@ == old(self).parts@.update(
                index as int,
                VolumePart {
                    position: Some((old(self).local_position() + amount) as u64),
                    length: streams::larger(
                        old(self).parts@[index as int].length as int,
                        old(self).local_position() + amount,
                    ) as u64,
                    ..old(self).parts@[index as int]
                },
            ),
            final(self).position == streams::smaller(
                old(self).position + amount,
                u64::MAX as int,
            ),
            final(self).length == streams::larger(
                old(self).length as int,
                final(self).position as int,
            ),
            *final(self) == (VolumeOutput {
                parts: final(self).parts,
                position: final(self).position,
                length: final(self).length,
                ..*old(self)
            }),
            final(self).state() == with_bytes(old(self).state(), index as int, amount as int),
            final(self)@ == old(self)@.after_written(index as int, amount as int),
    {
        let local: u64 = self.position % self.volume_size;
        let end: u64 = local + amount as u64;
        let mut length: u64 = self.parts[index].length;
        if end > length {
            length = end;
        }
        let part = VolumePart {
            path: self.parts[index].path.clone(),
            open: self.parts[index].open,
            length,
            position: Some(end),
        };
        self.parts.set(index, part);
        self.position = self.position.saturating_add(amount as u64);
        if self.position > self.length {
            self.length = self.position;
        }
        proof {
            assert(self.lengths() =~= old(self).lengths().update(index as int, length));
            assert(self@.parts =~= old(self)@.after_written(index as int, amount as int).parts);
        }
    }

    /// Takes note of a failed file operation at `path`.
    pub fn step_failed(&mut self, path: &str, message: &str)
        ensures
            final(self).error is Some,
            final(self).error->0@ == remembered(old(self).error, ErrorView::Io(path@, message@)),
            *final(self) == (VolumeOutput { error: final(self).error, ..*old(self) }),
    {
        self.remember_error(path, message);
    }

    /// The position that a seek counts from.
    pub open spec fn seek_base(self, origin: u32) -> Option<u64> {
        if origin == SEEK_SET {
            Some(0)
        } else if origin == SEEK_CUR {
            Some(self.position)
        } else if origin == SEEK_END {
            Some(self.length)
        } else {
            None
        }
    }

    /// Moves the stream. Nothing is returned when the origin is unknown or
    /// the position is no 64-bit number; the error is then remembered.
    pub fn seek(&mut self, offset: i64, origin: u32) -> (position: Option<u64>)
        ensures
            position == match old(self).seek_base(origin) {
                None => None::<u64>,
                Some(base) => streams::moved(base, offset),
            },
            match position {
                Some(position) => *final(self) == (VolumeOutput { position, ..*old(self) }),
                None => {
                    &&& *final(self) == (VolumeOutput { error: final(self).error, ..*old(self) })
                    &&& final(self).error is Some
                    &&& final(self).error->0@ == remembered(
                        old(self).error,
                        ErrorView::SevenZip(
                            if old(self).seek_base(origin) is None {
                                "invalid output stream seek origin"@
                            } else {
                                "output stream seek moved before the beginning"@
                            },
                        ),
                    )
                },
            },
    {
        let base: u64 = if origin == SEEK_SET {
            0
        } else if origin == SEEK_CUR {
            self.position
        } else if origin == SEEK_END {
            self.length
        } else {
            self.remember_message("invalid output stream seek origin");
            return None;
        };
        match streams::move_from(base, offset) {
            Some(position) => {
                self.position = position;
                Some(position)
            },
            None => {
                self.remember_message("output stream seek moved before the beginning");
                None
            },
        }
    }

    /// Starts a change of the stream's length. Nothing is returned when it
    /// would need too many volumes; the error is then remembered.
    pub fn set_size(&mut self, size: u64) -> (pending: Option<PendingResize>)
        requires
            old(self).well_formed(),
        ensures
            match pending {
                Some(pending) => {
                    &&& pending.size == size
                    &&& pending.required == parts_for(size as int, old(self).volume_size as int)
                    &&& pending.required <= u32::MAX
                    &&& pending.next == 0
                    &&& *final(self) == *old(self)
                },
                None => {
                    &&& parts_for(size as int, old(self).volume_size as int) > u32::MAX
                    &&& *final(self) == (VolumeOutput { error: final(self).error, ..*old(self) })
                    &&& final(self).error is Some
                    &&& final(self).error->0@ == remembered(
                        old(self).error,
                        ErrorView::SevenZip("too many output volumes"@),
                    )
                },
            },
    {
        let required: u64 = if size == 0 {
            0
        } else {
            let full: u64 = (size - 1) / self.volume_size;
            if full >= u32::MAX as u64 {
                self.remember_message("too many output volumes");
                return None;
            }
            full + 1
        };
        Some(PendingResize { size, required: required as usize, next: 0 })
    }

    /// The next step of a change of length: missing volumes are created, then
    /// those that stay get their new length, then the others are removed from
    /// the end.
    pub fn next_resize(&mut self, pending: PendingResize) -> (step: VolumeStep)
        requires
            old(self).well_formed(),
            pending.required == parts_for(pending.size as int, old(self).volume_size as int),
            pending.required <= u32::MAX,
            pending.next <= pending.required,
        ensures
            *final(self) == (VolumeOutput { error: final(self).error, ..*old(self) }),
            step@ == old(self)@.resize_next(pending),
            final(self)@ == old(self)@.after_resize_asked(pending),
            match step {
                VolumeStep::Create { path } => {
                    &&& old(self).parts@.len() < pending.required
                    &&& path@ == names::volume_name(
                        text::option_text(old(self).prefix),
                        old(self).parts@.len() + 1,
                    )
                    &&& *final(self) == *old(self)
                },
                VolumeStep::Resize { index, length } => {
                    &&& old(self).parts@.len() >= pending.required
                    &&& index == pending.next
                    &&& index < pending.required
                    &&& old(self).parts@[index as int].open
                    &&& length == part_length(
                        pending.size as int,
                        old(self).volume_size as int,
                        index as int,
                    )
                    &&& *final(self) == *old(self)
                },
                VolumeStep::Remove { path } => {
                    &&& pending.next == pending.required
                    &&& old(self).parts@.len() > pending.required
                    &&& path@ == old(self).parts@.last().path@
                    &&& *final(self) == *old(self)
                },
                VolumeStep::Done => {
                    &&& pending.next == pending.required
                    &&& old(self).parts@.len() == pending.required
                    &&& *final(self) == *old(self)
                },
                VolumeStep::Failed => {
                    &&& old(self).parts@.len() >= pending.required
                    &&& pending.next < pending.required
                    &&& !old(self).parts@[pending.next as int].open
                    &&& final(self).error is Some
                    &&& final(self).error->0@ == remembered(
                        old(self).error,
                        ErrorView::SevenZip(
                            closed_volume_text(old(self).parts@[pending.next as int].path@),
                        ),
                    )
                },
                VolumeStep::Write { .. } => false,
            },
    {
        if self.parts.len() < pending.required {
            let path = self.part_path(self.parts.len());
            return VolumeStep::Create { path };
        }
        if pending.next < pending.required {
            let index: usize = pending.next;
            if !self.parts[index].open {
                let message = text::join3(
                    "output volume ",
                    self.parts[index].path.as_str(),
                    " is already closed",
                );
                self.remember_message(message.as_str());
                return VolumeStep::Failed;
            }
            proof {
                let size = pending.size as int;
                let volume_size = self.volume_size as int;
                vstd::arithmetic::div_mod::lemma_fundamental_div_mod(size - 1, volume_size);
                assert(index * volume_size <= ((size - 1) / volume_size) * volume_size)
                    by (nonlinear_arith)
                    requires
                        index <= (size - 1) / volume_size,
                        volume_size > 0,
                ;
                assert(volume_size * ((size - 1) / volume_size) == ((size - 1) / volume_size)
                    * volume_size) by (nonlinear_arith);
            }
            let before: u64 = (index as u64) * self.volume_size;
            let left: u64 = pending.size - before;
            let length: u64 = if left < self.volume_size { left } else { self.volume_size };
            return VolumeStep::Resize { index, length };
        }
        if self.parts.len() > pending.required {
            let path = self.parts[self.parts.len() - 1].path.clone();
            return VolumeStep::Remove { path };
        }
        VolumeStep::Done
    }

    /// Takes note of a volume that got its new length.
    pub fn part_resized(&mut self, pending: &mut PendingResize, length: u64)
        requires
            old(self).well_formed(),
            old(pending).next < old(self).parts@.len(),
            old(pending).next < old(pending).required,
            length <= old(self).volume_size,
        ensures
            final(self).well_formed(),
            final(self).parts@ == old(self).parts@.update(
                old(pending).next as int,
                VolumePart { length, ..old(self).parts@[old(pending).next as int] },
            ),
            *final(self) == (VolumeOutput { parts: final(self).parts, ..*old(self) }),
            *final(pending) == (PendingResize {
                next: (old(pending).next + 1) as usize,
                ..*old(pending)
            }),
            final(self).state() == (VolumeState {
                lengths: old(self).lengths().update(old(pending).next as int, length),
                ..old(self).state()
            }),
            final(self)@ == old(self)@.after_resized(old(pending).next as int, length),
    {
        let index: usize = pending.next;
        let part = VolumePart {
            path: self.parts[index].path.clone(),
            open: self.parts[index].open,
            length,
            position: self.parts[index].position,
        };
        self.parts.set(index, part);
        pending.next = index + 1;
        proof {
            assert(self@.parts =~= old(self)@.after_resized(index as int, length).parts);
            assert(self.lengths() =~= old(self).lengths().update(index as int, length));
        }
    }

    /// Forgets the last volume, whether or not its file could be removed.
    pub fn part_removed(&mut self)
        requires
            old(self).well_formed(),
            old(self).parts@.len() > 0,
        ensures
            final(self).well_formed(),
            final(self).parts@ == old(self).parts@.drop_last(),
            *final(self) == (VolumeOutput { parts: final(self).parts, ..*old(self) }),
            final(self).state() == (VolumeState {
                lengths: old(self).lengths().drop_last(),
                ..old(self).state()
            }),
            final(self)@ == old(self)@.after_removed(),
    {
        let _ = self.parts.pop();
        proof {
            assert(self.parts@ =~= old(self).parts@.drop_last());
            assert(self@.parts =~= old(self)@.parts.drop_last());
            assert(self.lengths() =~= old(self).lengths().drop_last());
        }
    }

    /// Ends a change of length: a position behind the new end moves to it.
    pub fn finish_resize(&mut self, pending: PendingResize)
        ensures
            *final(self) == (VolumeOutput {
                length: pending.size,
                position: streams::smaller(old(self).position as int, pending.size as int) as u64,
                ..*old(self)
            }),
            final(self)@ == old(self)@.after_resize(pending.size),
    {
        self.length = pending.size;
        if pending.size < self.position {
            self.position = pending.size;
        }
    }

    /// Marks every volume as closed.
    pub fn close_files(&mut self)
        ensures
            final(self).parts@.len() == old(self).parts@.len(),
            forall|i: int|
                0 <= i < old(self).parts@.len() ==> #[trigger] final(self).parts@[i] == (
                VolumePart { open: false, ..old(self).parts@[i] }),
            *final(self) == (VolumeOutput { parts: final(self).parts, ..*old(self) }),
    {
        let mut i: usize = 0;
        while i < self.parts.len()
            invariant
                i <= self.parts@.len(),
                self.parts@.len() == old(self).parts@.len(),
                *self == (VolumeOutput { parts: self.parts, ..*old(self) }),
                forall|k: int|
                    0 <= k < i ==> #[trigger] self.parts@[k] == (VolumePart {
                        open: false,
                        ..old(self).parts@[k]
                    }),
                forall|k: int|
                    i <= k < self.parts@.len() ==> #[trigger] self.parts@[k] == old(self).parts@[k],
            decreases self.parts@.len() - i,
        {
            let part = VolumePart {
                path: self.parts[i].path.clone(),
                open: false,
                length: self.parts[i].length,
                position: self.parts[i].position,
            };
            self.parts.set(i, part);
            i += 1;
        }
    }

    /// The file names of the volumes, in order.
    pub fn paths(&self) -> (paths: Vec<String>)
        ensures
            paths@.len() == self.parts@.len(),
            forall|i: int| 0 <= i < paths@.len() ==> (#[trigger] paths@[i])@ == self.parts@[i].path@,
    {
        let mut paths: Vec<String> = Vec::new();
        let mut i: usize = 0;
        while i < self.parts.len()
            invariant
                i <= self.parts@.len(),
                paths@.len() == i,
                forall|k: int| 0 <= k < i ==> (#[trigger] paths@[k])@ == self.parts@[k].path@,
            decreases self.parts@.len() - i,
        {
            paths.push(self.parts[i].path.clone());
            i += 1;
        }
        paths
    }

    /// Takes the remembered error.
    pub fn take_error(&mut self) -> (error: Option<ArchiveError>)
        ensures
            error == old(self).error,
            *final(self) == (VolumeOutput { error: None, ..*old(self) }),
    {
        self.error.take()
    }
}

// ---------------------------------------------------------------------------
// The stream's rules
// ---------------------------------------------------------------------------

/// The state once an empty volume was added.
pub open spec fn with_part(s: VolumeState) -> VolumeState {
    VolumeState { lengths: s.lengths.push(0), ..s }
}

/// The state once `amount` bytes were written to volume `index` at the
/// stream's position.
pub open spec fn with_bytes(s: VolumeState, index: int, amount: int) -> VolumeState {
    let position = streams::smaller(s.position + amount, u64::MAX as int);
    VolumeState {
        size: s.size,
        lengths: s.lengths.update(
            index,
            streams::larger(s.lengths[index] as int, s.position % s.size + amount) as u64,
        ),
        position,
        length: streams::larger(s.length, position),
    }
}

/// The contents of a file after `bytes` were written at `at`. A gap is filled
/// with zeros; writing nothing changes nothing.
pub open spec fn overwritten(contents: Seq<u8>, at: int, bytes: Seq<u8>) -> Seq<u8> {
    Seq::new(
        if bytes.len() == 0 {
            contents.len()
        } else {
            streams::larger(contents.len() as int, at + bytes.len()) as nat
        },
        |k: int|
            if at <= k < at + bytes.len() {
                bytes[k - at]
            } else if k < contents.len() {
                contents[k]
            } else {
                0u8
            },
    )
}

/// The contents of a file after its length was set.
pub open spec fn resized(contents: Seq<u8>, length: int) -> Seq<u8> {
    Seq::new(
        length as nat,
        |k: int|
            if k < contents.len() {
                contents[k]
            } else {
                0u8
            },
    )
}

/// All volumes but the last are full, the lengths are those of the files, and
/// the stream's length is that of the volumes together.
pub open spec fn contiguous(s: VolumeState, files: Seq<Seq<u8>>) -> bool {
    &&& s.size > 0
    &&& joined::lengths_of(s.lengths, files)
    &&& forall|i: int| 0 <= i < files.len() - 1 ==> (#[trigger] files[i]).len() == s.size
    &&& files.len() > 0 ==> 0 < files.last().len() <= s.size
    &&& s.length == joined::joined(files).len()
}

/// The position lies within the stream or at its end, or behind it in the last
/// volume.
pub open spec fn within_volumes(s: VolumeState, files: Seq<Seq<u8>>) -> bool {
    0 <= s.position && (s.position <= s.length || s.position < files.len() * s.size)
}

/// One step of a write that creates the volume where it is missing.
pub open spec fn write_step(s: VolumeState, files: Seq<Seq<u8>>, bytes: Seq<u8>) -> (
    VolumeState,
    Seq<Seq<u8>>,
) {
    let index = s.position / s.size;
    let local = s.position % s.size;
    let amount = streams::smaller(bytes.len() as int, s.size - local);
    let created = if files.len() <= index { with_part(s) } else { s };
    let present = if files.len() <= index { files.push(Seq::empty()) } else { files };
    (
        with_bytes(created, index, amount),
        present.update(index, overwritten(present[index], local, bytes.take(amount))),
    )
}

/// All steps of a write.
pub open spec fn run_write(s: VolumeState, files: Seq<Seq<u8>>, bytes: Seq<u8>) -> (
    VolumeState,
    Seq<Seq<u8>>,
)
    decreases bytes.len(),
{
    if bytes.len() == 0 || s.size <= 0 || s.position < 0 {
        (s, files)
    } else {
        let amount = streams::smaller(bytes.len() as int, s.size - s.position % s.size);
        let (next, changed) = write_step(s, files, bytes);
        if amount <= 0 {
            (next, changed)
        } else {
            run_write(next, changed, bytes.skip(amount))
        }
    }
}

/// Byte `j` of volume `i` stands at `i * size + j` in the joined contents.
pub open spec fn joined_byte(size: int, files: Seq<Seq<u8>>, i: int, j: int) -> bool {
    &&& 0 <= i * size + j < joined::joined(files).len()
    &&& joined::joined(files)[i * size + j] == files[i][j]
}

/// Which byte of which volume is which byte of the joined contents.
pub proof fn lemma_joined_index(size: int, files: Seq<Seq<u8>>)
    requires
        size > 0,
        forall|i: int| 0 <= i < files.len() - 1 ==> (#[trigger] files[i]).len() == size,
        files.len() > 0 ==> files.last().len() <= size,
    ensures
        files.len() == 0 ==> joined::joined(files).len() == 0,
        files.len() > 0 ==> joined::joined(files).len() == (files.len() - 1) * size
            + files.last().len(),
        forall|i: int, j: int|
            0 <= i < files.len() && 0 <= j < files[i].len() ==> #[trigger] joined_byte(
                size,
                files,
                i,
                j,
            ),
    decreases files.len(),
{
    if files.len() > 0 {
        let short = files.drop_last();
        let n = files.len() - 1;
        assert forall|i: int| 0 <= i < short.len() - 1 implies (#[trigger] short[i]).len()
            == size by {
            assert(files[i].len() == size);
        }
        if short.len() > 0 {
            assert(short.last() == files[n - 1]);
        }
        lemma_joined_index(size, short);
        assert(joined::joined(short).len() == n * size) by {
            if short.len() > 0 {
                assert((n - 1) * size + size == n * size) by (nonlinear_arith);
            } else {
                assert(0 * size == 0) by (nonlinear_arith);
            }
        }
        assert forall|i: int, j: int|
            0 <= i < files.len() && 0 <= j < files[i].len() implies #[trigger] joined_byte(
            size,
            files,
            i,
            j,
        ) by {
            if i < n {
                assert(short[i][j] == files[i][j]);
                assert(joined_byte(size, short, i, j));
            } else {
                assert(0 <= n * size) by (nonlinear_arith)
                    requires
                        n >= 0,
                        size > 0,
                ;
            }
        }
    }
}

/// A joined byte comes from the volume at its position divided by the size.
pub proof fn lemma_joined_at(size: int, files: Seq<Seq<u8>>, k: int)
    requires
        size > 0,
        forall|i: int| 0 <= i < files.len() - 1 ==> (#[trigger] files[i]).len() == size,
        files.len() > 0 ==> files.last().len() <= size,
        0 <= k < joined::joined(files).len(),
    ensures
        0 <= k / size < files.len(),
        0 <= k % size < files[k / size].len(),
        joined::joined(files)[k] == files[k / size][k % size],
{
    lemma_joined_index(size, files);
    vstd::arithmetic::div_mod::lemma_fundamental_div_mod(k, size);
    let i = k / size;
    let j = k % size;
    let n = files.len() - 1;
    assert(size * i == i * size) by (nonlinear_arith);
    assert(i >= 0) by (nonlinear_arith)
        requires
            k >= 0,
            size > 0,
            i == k / size,
    ;
    assert(i <= n) by (nonlinear_arith)
        requires
            i * size + j < n * size + size,
            0 <= j,
            size > 0,
    ;
    if i < n {
        assert(files[i].len() == size);
    } else {
        assert(files[i] == files.last());
    }
    assert(joined_byte(size, files, i, j));
}

/// Two writes one after the other are one write of both.
pub proof fn lemma_overwritten_twice(contents: Seq<u8>, at: int, first: Seq<u8>, second: Seq<u8>)
    requires
        0 <= at,
        first.len() > 0,
    ensures
        overwritten(overwritten(contents, at, first), at + first.len(), second) == overwritten(
            contents,
            at,
            first + second,
        ),
{
    assert(overwritten(overwritten(contents, at, first), at + first.len(), second)
        =~= overwritten(contents, at, first + second));
}

/// One step of a write changes the joined contents as a write to one file
/// would, and keeps the volumes contiguous.
pub proof fn lemma_write_step(s: VolumeState, files: Seq<Seq<u8>>, bytes: Seq<u8>)
    requires
        contiguous(s, files),
        within_volumes(s, files),
        bytes.len() > 0,
        s.position + bytes.len() <= u64::MAX,
        s.size <= u64::MAX,
    ensures
        ({
            let amount = streams::smaller(bytes.len() as int, s.size - s.position % s.size);
            let (next, changed) = write_step(s, files, bytes);
            &&& 0 < amount <= bytes.len()
            &&& contiguous(next, changed)
            &&& within_volumes(next, changed)
            &&& next.size == s.size
            &&& next.position == s.position + amount
            &&& joined::joined(changed) == overwritten(
                joined::joined(files),
                s.position,
                bytes.take(amount),
            )
        }),
{
    let size = s.size;
    let index = s.position / size;
    let local = s.position % size;
    let amount = streams::smaller(bytes.len() as int, size - local);
    let part = bytes.take(amount);
    let whole = joined::joined(files);
    let n = files.len() as int;
    vstd::arithmetic::div_mod::lemma_fundamental_div_mod(s.position, size);
    assert(size * index == index * size) by (nonlinear_arith);
    lemma_joined_index(size, files);
    assert(0 <= index) by (nonlinear_arith)
        requires
            s.position >= 0,
            size > 0,
            index == s.position / size,
    ;
    // The volume at the position exists already, or is the next one.
    assert(index <= n) by (nonlinear_arith)
        requires
            index * size + local <= whole.len() || index * size + local < n * size,
            0 <= local,
            size > 0,
            n >= 0,
            n == 0 ==> whole.len() == 0,
            n > 0 ==> whole.len() <= (n - 1) * size + size,
    ;
    let created = if n <= index { with_part(s) } else { s };
    let present = if n <= index { files.push(Seq::<u8>::empty()) } else { files };
    let (next, changed) = write_step(s, files, bytes);
    let m = changed.len() as int;
    if n <= index {
        assert(index == n);
        // The position is no longer inside the last volume.
        assert(n * size <= s.position) by (nonlinear_arith)
            requires
                s.position == index * size + local,
                index == n,
                local >= 0,
        ;
        // Everything before is full, so nothing of the new volume is used yet.
        assert(local == 0 && whole.len() == n * size) by {
            if n == 0 {
                assert(index * size >= 0) by (nonlinear_arith)
                    requires
                        index >= 0,
                        size > 0,
                ;
                assert(0 * size == 0) by (nonlinear_arith);
            } else {
                assert((n - 1) * size + size == n * size) by (nonlinear_arith);
            }
        }
        assert(present[index].len() == 0);
    } else if index == n - 1 {
        assert(files[index] == files.last());
    } else {
        assert(files[index].len() == size);
    }
    assert(changed[index].len() == streams::larger(present[index].len() as int, local + amount));
    assert(next.lengths.len() == m);
    assert forall|i: int| 0 <= i < m implies #[trigger] next.lengths[i] == changed[i].len() by {
        if i != index {
            assert(i < n);
            assert(s.lengths[i] == files[i].len());
        } else if index < n {
            assert(s.lengths[index] == files[index].len());
        }
    }
    assert forall|i: int| 0 <= i < m - 1 implies (#[trigger] changed[i]).len() == size by {
        if i == index {
            assert(index < n - 1);
            assert(files[index].len() == size);
        } else if i < n - 1 {
            assert(files[i].len() == size);
        } else {
            // The former last volume, behind which a new one was added.
            assert(i == n - 1 && index == n);
            assert((n - 1) * size + size == n * size) by (nonlinear_arith);
            assert(files[i] == files.last());
        }
    }
    assert(0 < changed.last().len() <= size) by {
        if index == m - 1 {
            assert(changed.last() == changed[index]);
        } else {
            assert(changed.last() == files.last());
        }
    }
    lemma_joined_index(size, changed);
    let expected = overwritten(whole, s.position, part);
    let result = joined::joined(changed);
    assert(result.len() == expected.len()) by {
        if index == m - 1 {
            assert(changed.last() == changed[index]);
            if n > index {
                assert(files.last() == files[index]);
            }
        } else {
            assert(changed.last() == files.last());
            // The write stays before the last volume.
            assert(s.position + amount <= (index + 1) * size) by (nonlinear_arith)
                requires
                    s.position == index * size + local,
                    amount <= size - local,
            ;
            assert((index + 1) * size <= (n - 1) * size) by (nonlinear_arith)
                requires
                    index + 1 <= n - 1,
                    size > 0,
            ;
        }
    }
    assert forall|k: int| 0 <= k < result.len() implies result[k] == expected[k] by {
        lemma_joined_at(size, changed, k);
        let i = k / size;
        let j = k % size;
        vstd::arithmetic::div_mod::lemma_fundamental_div_mod(k, size);
        assert(size * i == i * size) by (nonlinear_arith);
        if i == index {
            assert(k - s.position == j - local);
            if j < present[index].len() && !(local <= j < local + amount) {
                assert(index < n);
                assert(joined_byte(size, files, index, j));
            }
        } else {
            assert(i < n);
            assert(joined_byte(size, files, i, j));
            // Outside the volume that is written, nothing changes.
            if i < index {
                assert(k < s.position) by (nonlinear_arith)
                    requires
                        k == i * size + j,
                        j < size,
                        i + 1 <= index,
                        s.position == index * size + local,
                        local >= 0,
                        size > 0,
                ;
            } else {
                assert(k >= s.position + amount) by (nonlinear_arith)
                    requires
                        k == i * size + j,
                        j >= 0,
                        index + 1 <= i,
                        s.position == index * size + local,
                        amount <= size - local,
                        size > 0,
                ;
            }
        }
    }
    assert(result =~= expected);
}

/// Writing through the volumes is writing to one file: joined again, they
/// hold what a single file would hold after the same write. A write behind the
/// end leaves zeros before it, as long as it starts in the last volume; further
/// on, the volumes between would be left short.
pub proof fn law_volumes_hold_what_was_written(
    s: VolumeState,
    files: Seq<Seq<u8>>,
    bytes: Seq<u8>,
)
    requires
        contiguous(s, files),
        bytes.len() == 0 || within_volumes(s, files),
        s.position + bytes.len() <= u64::MAX,
        s.size <= u64::MAX,
    ensures
        ({
            let (next, changed) = run_write(s, files, bytes);
            &&& contiguous(next, changed)
            &&& next.size == s.size
            &&& next.position == s.position + bytes.len()
            &&& joined::joined(changed) == overwritten(joined::joined(files), s.position, bytes)
        }),
    decreases bytes.len(),
{
    let whole = joined::joined(files);
    if bytes.len() == 0 {
        assert(overwritten(whole, s.position, bytes) =~= whole);
    } else {
        let amount = streams::smaller(bytes.len() as int, s.size - s.position % s.size);
        lemma_write_step(s, files, bytes);
        let (next, changed) = write_step(s, files, bytes);
        law_volumes_hold_what_was_written(next, changed, bytes.skip(amount));
        lemma_overwritten_twice(whole, s.position, bytes.take(amount), bytes.skip(amount));
        assert(bytes.take(amount) + bytes.skip(amount) =~= bytes);
    }
}

/// The files once enough empty volumes were added.
pub open spec fn run_create(files: Seq<Seq<u8>>, required: int) -> Seq<Seq<u8>>
    decreases required - files.len(),
{
    if files.len() < required {
        run_create(files.push(Seq::empty()), required)
    } else {
        files
    }
}

/// The files once the volumes from `next` on got their new length.
pub open spec fn run_lengths(
    files: Seq<Seq<u8>>,
    size: int,
    volume_size: int,
    next: int,
    required: int,
) -> Seq<Seq<u8>>
    decreases required - next,
{
    if next < required {
        run_lengths(
            files.update(next, resized(files[next], part_length(size, volume_size, next))),
            size,
            volume_size,
            next + 1,
            required,
        )
    } else {
        files
    }
}

/// The files after all steps of a change of length: the missing volumes are
/// created, those that stay get their new length, the others are removed.
pub open spec fn run_resize(files: Seq<Seq<u8>>, volume_size: int, size: int) -> Seq<Seq<u8>> {
    let required = parts_for(size, volume_size);
    run_lengths(run_create(files, required), size, volume_size, 0, required).take(required)
}

/// The state after a change of length.
pub open spec fn state_after_resize(s: VolumeState, files: Seq<Seq<u8>>, size: int) -> VolumeState {
    VolumeState {
        size: s.size,
        lengths: Seq::new(
            parts_for(size, s.size) as nat,
            |i: int| part_length(size, s.size, i) as u64,
        ),
        position: streams::smaller(s.position, size),
        length: size,
    }
}

/// Adding volumes leaves those that are there alone.
pub proof fn lemma_run_create(files: Seq<Seq<u8>>, required: int)
    ensures
        run_create(files, required).len() == streams::larger(files.len() as int, required),
        forall|i: int|
            0 <= i < run_create(files, required).len() ==> #[trigger] run_create(
                files,
                required,
            )[i] == if i < files.len() {
                files[i]
            } else {
                Seq::<u8>::empty()
            },
    decreases required - files.len(),
{
    if files.len() < required {
        lemma_run_create(files.push(Seq::empty()), required);
    }
}

/// Each volume gets its new length, and the others are left alone.
pub proof fn lemma_run_lengths(
    files: Seq<Seq<u8>>,
    size: int,
    volume_size: int,
    next: int,
    required: int,
)
    requires
        0 <= next <= required <= files.len(),
    ensures
        run_lengths(files, size, volume_size, next, required).len() == files.len(),
        forall|i: int|
            0 <= i < files.len() ==> #[trigger] run_lengths(
                files,
                size,
                volume_size,
                next,
                required,
            )[i] == if next <= i < required {
                resized(files[i], part_length(size, volume_size, i))
            } else {
                files[i]
            },
    decreases required - next,
{
    if next < required {
        let changed = files.update(
            next,
            resized(files[next], part_length(size, volume_size, next)),
        );
        lemma_run_lengths(changed, size, volume_size, next + 1, required);
    }
}

/// Setting the length of the stream sets the length of the joined contents:
/// what is cut off is gone, and what is added is zeros.
pub proof fn law_volumes_follow_the_length(s: VolumeState, files: Seq<Seq<u8>>, size: int)
    requires
        contiguous(s, files),
        0 <= size <= u64::MAX,
        s.size <= u64::MAX,
    ensures
        contiguous(state_after_resize(s, files, size), run_resize(files, s.size, size)),
        joined::joined(run_resize(files, s.size, size)) == resized(joined::joined(files), size),
{
    let v = s.size;
    let required = parts_for(size, v);
    let whole = joined::joined(files);
    let created = run_create(files, required);
    let cut = run_lengths(created, size, v, 0, required);
    let result = run_resize(files, v, size);
    let next = state_after_resize(s, files, size);
    if size > 0 {
        vstd::arithmetic::div_mod::lemma_fundamental_div_mod(size - 1, v);
        assert(v * ((size - 1) / v) == (required - 1) * v) by (nonlinear_arith)
            requires
                required == (size - 1) / v + 1,
        ;
        assert((size - 1) / v >= 0) by (nonlinear_arith)
            requires
                size > 0,
                v > 0,
        ;
    }
    lemma_run_create(files, required);
    lemma_run_lengths(created, size, v, 0, required);
    assert(result.len() == required);
    // Every volume but the last is full, and the last holds the rest.
    assert forall|i: int| 0 <= i < required implies 0 < #[trigger] part_length(size, v, i) <= v && (
    i < required - 1 ==> part_length(size, v, i) == v) by {
        if i < required - 1 {
            assert(i * v + v <= (required - 1) * v) by (nonlinear_arith)
                requires
                    i + 1 <= required - 1,
                    v > 0,
            ;
        }
        assert(i * v <= (required - 1) * v) by (nonlinear_arith)
            requires
                i <= required - 1,
                v > 0,
        ;
    }
    assert forall|i: int| 0 <= i < required implies (#[trigger] result[i]).len() == part_length(
        size,
        v,
        i,
    ) && result[i] == resized(created[i], part_length(size, v, i)) by {
        assert(cut[i] == resized(created[i], part_length(size, v, i)));
    }
    assert forall|i: int| 0 <= i < result.len() implies #[trigger] next.lengths[i]
        == result[i].len() by {
        assert(0 < part_length(size, v, i) <= v);
    }
    assert forall|i: int| 0 <= i < result.len() - 1 implies (#[trigger] result[i]).len() == v by {
        assert(part_length(size, v, i) == v);
    }
    if required > 0 {
        assert(result.last() == result[required - 1]);
        assert(0 < part_length(size, v, required - 1) <= v);
    }
    lemma_joined_index(v, result);
    lemma_joined_index(v, files);
    let all = joined::joined(result);
    assert(all.len() == size) by {
        if required > 0 {
            assert(part_length(size, v, required - 1) == size - (required - 1) * v);
        }
    }
    let expected = resized(whole, size);
    assert forall|k: int| 0 <= k < size implies all[k] == expected[k] by {
        lemma_joined_at(v, result, k);
        let i = k / v;
        let j = k % v;
        vstd::arithmetic::div_mod::lemma_fundamental_div_mod(k, v);
        assert(v * i == i * v) by (nonlinear_arith);
        assert(result[i] == resized(created[i], part_length(size, v, i)));
        if k < whole.len() {
            lemma_joined_at(v, files, k);
        } else {
            // Behind the old end there are only new zeros.
            if i < files.len() {
                assert(j >= files[i].len()) by {
                    if j < files[i].len() {
                        assert(joined_byte(v, files, i, j));
                    }
                }
            }
        }
    }
    assert(all =~= expected);
}

// ---------------------------------------------------------------------------
// The calls carried out in turn
// ---------------------------------------------------------------------------

/// The file of a volume: what it holds, and where its cursor stands.
#[verifier::ext_equal]
pub struct PartFile {
    pub contents: Seq<u8>,
    pub cursor: int,
}

/// What the files hold.
pub open spec fn contents_of(files: Seq<PartFile>) -> Seq<Seq<u8>> {
    Seq::new(files.len(), |i: int| files[i].contents)
}

/// Whether a stream is right about its volumes: they have their names and are
/// open, and their lengths and the cursors that are known are those of the
/// files.
pub open spec fn agrees(output: OutputState, files: Seq<PartFile>) -> bool {
    &&& output.volume_size > 0
    &&& output.parts.len() == files.len()
    &&& forall|i: int|
        0 <= i < files.len() ==> {
            let part = #[trigger] output.parts[i];
            &&& part.open
            &&& part.path == names::volume_name(output.prefix, (i + 1) as nat)
            &&& part.length == files[i].contents.len()
            &&& part.position matches Some(position) ==> files[i].cursor == position
        }
}

/// A change of length from the call on that `pending` stands for: each step
/// that is asked for is carried out and reported. Gives the stream and the
/// files at the end, and whether that is reached.
pub open spec fn resize_by_calls(
    output: OutputState,
    files: Seq<PartFile>,
    pending: PendingResize,
) -> (OutputState, Seq<PartFile>, bool)
    decreases
            streams::larger(
                pending.required - output.parts.len(),
                output.parts.len() - pending.required,
            ) + streams::larger(pending.required - pending.next, 0),
{
    let asked = output.after_resize_asked(pending);
    match output.resize_next(pending) {
        StepView::Create(path) => resize_by_calls(
            asked.after_created(path),
            files.push(PartFile { contents: Seq::empty(), cursor: 0 }),
            pending,
        ),
        StepView::Resize { index, length } => resize_by_calls(
            asked.after_resized(pending.next as int, length),
            files.update(
                index as int,
                PartFile {
                    contents: resized(files[index as int].contents, length as int),
                    ..files[index as int]
                },
            ),
            PendingResize { next: (pending.next + 1) as usize, ..pending },
        ),
        StepView::Remove(_) => resize_by_calls(asked.after_removed(), files.drop_last(), pending),
        StepView::Done => (asked.after_resize(pending.size), files, true),
        _ => (asked, files, false),
    }
}

/// The length of a volume that stays is between nothing and a whole volume.
proof fn lemma_part_length(size: int, volume_size: int, index: int)
    requires
        volume_size > 0,
        size >= 0,
        0 <= index < parts_for(size, volume_size),
    ensures
        0 <= part_length(size, volume_size, index) <= volume_size,
{
    vstd::arithmetic::div_mod::lemma_fundamental_div_mod(size - 1, volume_size);
    let last = (size - 1) / volume_size;
    assert(volume_size * last == last * volume_size) by (nonlinear_arith);
    assert(index * volume_size <= last * volume_size) by (nonlinear_arith)
        requires
            index <= last,
            volume_size > 0,
    ;
}

/// The steps of a change of length lead to the volumes that it is to have.
proof fn lemma_resize_by_calls(output: OutputState, files: Seq<PartFile>, pending: PendingResize)
    requires
        agrees(output, files),
        pending.required == parts_for(pending.size as int, output.volume_size as int),
        pending.next <= pending.required,
    ensures
        ({
            let (end, left, done) = resize_by_calls(output, files, pending);
            let required = pending.required as int;
            &&& done
            &&& agrees(end, left)
            &&& end == (OutputState { parts: end.parts, ..output.after_resize(pending.size) })
            &&& contents_of(left) == run_lengths(
                run_create(contents_of(files), required),
                pending.size as int,
                output.volume_size as int,
                pending.next as int,
                required,
            ).take(required)
        }),
    decreases
            streams::larger(
                pending.required - output.parts.len(),
                output.parts.len() - pending.required,
            ) + streams::larger(pending.required - pending.next, 0),
{
    let required = pending.required as int;
    let size = pending.size as int;
    let volume_size = output.volume_size as int;
    let held = contents_of(files);
    if output.parts.len() < required {
        let path = names::volume_name(output.prefix, output.parts.len() + 1);
        let more = files.push(PartFile { contents: Seq::empty(), cursor: 0 });
        let next = output.after_created(path);
        assert forall|i: int| 0 <= i < more.len() implies {
            let part = #[trigger] next.parts[i];
            &&& part.open
            &&& part.path == names::volume_name(next.prefix, (i + 1) as nat)
            &&& part.length == more[i].contents.len()
            &&& part.position matches Some(position) ==> more[i].cursor == position
        } by {
            if i < files.len() {
                assert(next.parts[i] == output.parts[i]);
            }
        }
        assert(contents_of(more) =~= held.push(Seq::empty()));
        lemma_resize_by_calls(next, more, pending);
    } else if pending.next < required {
        let index = pending.next as int;
        lemma_part_length(size, volume_size, index);
        let length = part_length(size, volume_size, index) as u64;
        assert(output.parts[index].open);
        let file = PartFile {
            contents: resized(files[index].contents, length as int),
            ..files[index]
        };
        let changed = files.update(index, file);
        let next = output.after_resized(index, length);
        assert forall|i: int| 0 <= i < changed.len() implies {
            let part = #[trigger] next.parts[i];
            &&& part.open
            &&& part.path == names::volume_name(next.prefix, (i + 1) as nat)
            &&& part.length == changed[i].contents.len()
            &&& part.position matches Some(position) ==> changed[i].cursor == position
        } by {
            assert(output.parts[i].open);
        }
        assert(contents_of(changed) =~= held.update(index, file.contents));
        lemma_resize_by_calls(
            next,
            changed,
            PendingResize { next: (pending.next + 1) as usize, ..pending },
        );
        assert(run_create(held, required) == held);
        assert(run_create(contents_of(changed), required) == contents_of(changed));
        assert(held[index] == files[index].contents);
    } else if output.parts.len() > required {
        let fewer = files.drop_last();
        let next = output.after_removed();
        assert forall|i: int| 0 <= i < fewer.len() implies {
            let part = #[trigger] next.parts[i];
            &&& part.open
            &&& part.path == names::volume_name(next.prefix, (i + 1) as nat)
            &&& part.length == fewer[i].contents.len()
            &&& part.position matches Some(position) ==> fewer[i].cursor == position
        } by {
            assert(next.parts[i] == output.parts[i]);
        }
        assert(contents_of(fewer) =~= held.drop_last());
        lemma_resize_by_calls(next, fewer, pending);
        assert(held.drop_last().take(required) =~= held.take(required));
    } else {
        let end = output.after_resize(pending.size);
        assert forall|i: int| 0 <= i < files.len() implies {
            let part = #[trigger] end.parts[i];
            &&& part.open
            &&& part.path == names::volume_name(end.prefix, (i + 1) as nat)
            &&& part.length == files[i].contents.len()
            &&& part.position matches Some(position) ==> files[i].cursor == position
        } by {
            assert(end.parts[i] == output.parts[i]);
        }
        assert(held.take(required) =~= held);
    }
}

/// Setting the length of a stream call by call, with every file operation
/// carried out as it is asked for, comes to its end. The volumes joined hold
/// what they held, cut off or with zeros behind it; there are as many as the
/// length needs, by their names, all full but the last; and a position behind
/// the new end moves to it.
pub proof fn law_set_size_calls_set_the_length(
    output: OutputState,
    files: Seq<PartFile>,
    size: u64,
)
    requires
        agrees(output, files),
        contiguous(output.rules(), contents_of(files)),
        parts_for(size as int, output.volume_size as int) <= u32::MAX,
    ensures
        ({
            let required = parts_for(size as int, output.volume_size as int);
            let (end, left, done) = resize_by_calls(
                output,
                files,
                PendingResize { size, required: required as usize, next: 0 },
            );
            &&& done
            &&& agrees(end, left)
            &&& end.rules() == state_after_resize(
                output.rules(),
                contents_of(files),
                size as int,
            )
            &&& end.prefix == output.prefix
            &&& end.error == output.error
            &&& left.len() == required
            &&& contents_of(left) == run_resize(
                contents_of(files),
                output.volume_size as int,
                size as int,
            )
            &&& contiguous(end.rules(), contents_of(left))
            &&& joined::joined(contents_of(left)) == resized(
                joined::joined(contents_of(files)),
                size as int,
            )
        }),
{
    let volume_size = output.volume_size as int;
    let required = parts_for(size as int, volume_size);
    let held = contents_of(files);
    assert(required >= 0) by {
        if size > 0 {
            assert((size - 1) / volume_size >= 0) by (nonlinear_arith)
                requires
                    size > 0,
                    volume_size > 0,
            ;
        }
    }
    let pending = PendingResize { size, required: required as usize, next: 0 };
    lemma_resize_by_calls(output, files, pending);
    law_volumes_follow_the_length(output.rules(), held, size as int);
    let (end, left, done) = resize_by_calls(output, files, pending);
    let wanted = state_after_resize(output.rules(), held, size as int);
    assert(contents_of(left) == run_resize(held, volume_size, size as int));
    assert(end.rules().lengths =~= wanted.lengths) by {
        assert(contents_of(left).len() == wanted.lengths.len());
        assert forall|i: int| 0 <= i < left.len() implies end.rules().lengths[i]
            == wanted.lengths[i] by {
            assert(end.parts[i].length == left[i].contents.len());
            assert(wanted.lengths[i] == contents_of(left)[i].len());
        }
    }
    assert(end.rules() =~= wanted);
}

/// A write from the call on that has `bytes` left: each step that is asked for
/// is carried out and reported. A write goes to the place that it is sought to,
/// or to the file's cursor. Gives the stream and the files at the end, and
/// whether that is reached.
pub open spec fn write_by_calls(
    output: OutputState,
    files: Seq<PartFile>,
    bytes: Seq<u8>,
    steps: nat,
) -> (OutputState, Seq<PartFile>, bool)
    decreases steps,
{
    let asked = output.after_write_asked(bytes.len() as int);
    if steps == 0 {
        (output, files, false)
    } else {
        match output.write_next(bytes.len() as int) {
            StepView::Create(path) => write_by_calls(
                asked.after_created(path),
                files.push(PartFile { contents: Seq::empty(), cursor: 0 }),
                bytes,
                (steps - 1) as nat,
            ),
            StepView::Write { index, seek, amount } => {
                let file = files[index as int];
                let at = match seek {
                    Some(place) => place as int,
                    None => file.cursor,
                };
                write_by_calls(
                    asked.after_written(index as int, amount as int),
                    files.update(
                        index as int,
                        PartFile {
                            contents: overwritten(file.contents, at, bytes.take(amount as int)),
                            cursor: at + amount,
                        },
                    ),
                    bytes.skip(amount as int),
                    (steps - 1) as nat,
                )
            },
            StepView::Done => (asked, files, true),
            _ => (asked, files, false),
        }
    }
}

/// One write to a volume that is there is one step of the rules, and keeps the
/// stream right about its volumes.
proof fn lemma_write_call(output: OutputState, files: Seq<PartFile>, bytes: Seq<u8>)
    requires
        agrees(output, files),
        output.current_volume() < files.len(),
        output.current_volume() < u32::MAX,
        0 < bytes.len() <= usize::MAX,
        output.position + bytes.len() <= u64::MAX,
    ensures
        ({
            let index = output.current_volume();
            let local = output.local_position();
            let amount = streams::smaller(bytes.len() as int, output.volume_size - local);
            let step = output.write_next(bytes.len() as int);
            let file = files[index];
            let at = match step {
                StepView::Write { seek: Some(place), .. } => place as int,
                _ => file.cursor,
            };
            let next = output.after_write_asked(bytes.len() as int).after_written(index, amount);
            let left = files.update(
                index,
                PartFile {
                    contents: overwritten(file.contents, at, bytes.take(amount)),
                    cursor: at + amount,
                },
            );
            &&& step matches StepView::Write { index: i, amount: a, .. } && i == index && a == amount
            &&& 0 <= index
            &&& 0 < amount <= bytes.len()
            &&& at == local
            &&& agrees(next, left)
            &&& next.prefix == output.prefix
            &&& next.error == output.error
            &&& next.volume_size == output.volume_size
            &&& next.position == output.position + amount
            &&& next.rules() == with_bytes(output.rules(), index, amount)
            &&& contents_of(left) == contents_of(files).update(
                index,
                overwritten(contents_of(files)[index], local, bytes.take(amount)),
            )
        }),
{
    let size = output.volume_size as int;
    let index = output.current_volume();
    let local = output.local_position();
    let amount = streams::smaller(bytes.len() as int, size - local);
    vstd::arithmetic::div_mod::lemma_fundamental_div_mod(output.position as int, size);
    assert(0 <= index) by (nonlinear_arith)
        requires
            output.position >= 0,
            size > 0,
            index == output.position as int / size,
    ;
    assert(0 <= local < size);
    let part = output.parts[index];
    assert(part.open);
    let file = files[index];
    let asked = output.after_write_asked(bytes.len() as int);
    let next = asked.after_written(index, amount);
    let at = match output.write_next(bytes.len() as int) {
        StepView::Write { seek: Some(place), .. } => place as int,
        _ => file.cursor,
    };
    assert(at == local);
    let left = files.update(
        index,
        PartFile {
            contents: overwritten(file.contents, at, bytes.take(amount)),
            cursor: at + amount,
        },
    );
    assert(left[index].contents.len() == streams::larger(
        file.contents.len() as int,
        local + amount,
    ));
    assert forall|i: int| 0 <= i < left.len() implies {
        let part = #[trigger] next.parts[i];
        &&& part.open
        &&& part.path == names::volume_name(next.prefix, (i + 1) as nat)
        &&& part.length == left[i].contents.len()
        &&& part.position matches Some(position) ==> left[i].cursor == position
    } by {
        assert(output.parts[i].open);
    }
    assert(next.rules().lengths =~= with_bytes(output.rules(), index, amount).lengths);
    assert(next.rules() =~= with_bytes(output.rules(), index, amount));
    assert(contents_of(left) =~= contents_of(files).update(
        index,
        overwritten(contents_of(files)[index], local, bytes.take(amount)),
    ));
}

/// Creating the next volume keeps the stream right about its volumes.
proof fn lemma_create_call(output: OutputState, files: Seq<PartFile>)
    requires
        agrees(output, files),
    ensures
        ({
            let path = names::volume_name(output.prefix, output.parts.len() + 1);
            let next = output.after_created(path);
            let more = files.push(PartFile { contents: Seq::empty(), cursor: 0 });
            &&& agrees(next, more)
            &&& next.rules() == with_part(output.rules())
            &&& contents_of(more) == contents_of(files).push(Seq::empty())
        }),
{
    let path = names::volume_name(output.prefix, output.parts.len() + 1);
    let next = output.after_created(path);
    let more = files.push(PartFile { contents: Seq::empty(), cursor: 0 });
    assert forall|i: int| 0 <= i < more.len() implies {
        let part = #[trigger] next.parts[i];
        &&& part.open
        &&& part.path == names::volume_name(next.prefix, (i + 1) as nat)
        &&& part.length == more[i].contents.len()
        &&& part.position matches Some(position) ==> more[i].cursor == position
    } by {
        if i < files.len() {
            assert(next.parts[i] == output.parts[i]);
        }
    }
    assert(next.rules().lengths =~= with_part(output.rules()).lengths);
    assert(next.rules() =~= with_part(output.rules()));
    assert(contents_of(more) =~= contents_of(files).push(Seq::empty()));
}

/// Writing to a stream call by call, with every file operation carried out as
/// it is asked for, comes to its end after at most twice as many steps as there
/// are bytes, and one more. The volumes joined hold what a single file would
/// hold after the same write, whether or not a call asks for a seek.
pub proof fn law_write_calls_write_the_bytes(
    output: OutputState,
    files: Seq<PartFile>,
    bytes: Seq<u8>,
    steps: nat,
)
    requires
        agrees(output, files),
        contiguous(output.rules(), contents_of(files)),
        bytes.len() == 0 || within_volumes(output.rules(), contents_of(files)),
        bytes.len() <= usize::MAX,
        output.position + bytes.len() <= u64::MAX,
        bytes.len() == 0 || (output.position + bytes.len() - 1) / (output.volume_size as int)
            < u32::MAX,
        steps >= 2 * bytes.len() + 1,
    ensures
        ({
            let (end, left, done) = write_by_calls(output, files, bytes, steps);
            &&& done
            &&& agrees(end, left)
            &&& end.prefix == output.prefix
            &&& end.error == output.error
            &&& (end.rules(), contents_of(left)) == run_write(
                output.rules(),
                contents_of(files),
                bytes,
            )
            &&& end.position == output.position + bytes.len()
            &&& contiguous(end.rules(), contents_of(left))
            &&& joined::joined(contents_of(left)) == overwritten(
                joined::joined(contents_of(files)),
                output.position as int,
                bytes,
            )
        }),
    decreases bytes.len(),
{
    law_volumes_hold_what_was_written(output.rules(), contents_of(files), bytes);
    if bytes.len() > 0 {
        let size = output.volume_size as int;
        let index = output.current_volume();
        let held = contents_of(files);
        let position = output.position as int;
        assert(index < u32::MAX) by {
            vstd::arithmetic::div_mod::lemma_div_is_ordered(
                position,
                position + bytes.len() - 1,
                size,
            );
        }
        lemma_joined_index(size, held);
        vstd::arithmetic::div_mod::lemma_fundamental_div_mod(position, size);
        assert(size * index == index * size) by (nonlinear_arith);
        let local = position % size;
        let n = held.len() as int;
        assert(index <= n) by (nonlinear_arith)
            requires
                index * size + local <= joined::joined(held).len() || index * size + local < n
                    * size,
                0 <= local,
                size > 0,
                n >= 0,
                n == 0 ==> joined::joined(held).len() == 0,
                n > 0 ==> joined::joined(held).len() <= (n - 1) * size + size,
        ;
        let (ready, present, left_steps) = if files.len() <= index {
            lemma_create_call(output, files);
            (
                output.after_created(names::volume_name(output.prefix, output.parts.len() + 1)),
                files.push(PartFile { contents: Seq::empty(), cursor: 0 }),
                (steps - 1) as nat,
            )
        } else {
            (output, files, steps)
        };
        assert(write_by_calls(output, files, bytes, steps) == write_by_calls(
            ready,
            present,
            bytes,
            left_steps,
        ));
        lemma_write_call(ready, present, bytes);
        let amount = streams::smaller(bytes.len() as int, size - local);
        let next = ready.after_write_asked(bytes.len() as int).after_written(index, amount);
        let file = present[index];
        let at = match ready.write_next(bytes.len() as int) {
            StepView::Write { seek: Some(place), .. } => place as int,
            _ => file.cursor,
        };
        let changed = present.update(
            index,
            PartFile {
                contents: overwritten(file.contents, at, bytes.take(amount)),
                cursor: at + amount,
            },
        );
        lemma_write_step(output.rules(), held, bytes);
        assert(write_step(output.rules(), held, bytes) == (next.rules(), contents_of(changed)));
        law_write_calls_write_the_bytes(
            next,
            changed,
            bytes.skip(amount),
            (left_steps - 1) as nat,
        );
        assert(write_by_calls(ready, present, bytes, left_steps) == write_by_calls(
            next,
            changed,
            bytes.skip(amount),
            (left_steps - 1) as nat,
        ));
    }
}

/// Moving a stream changes none of its volumes, so that it stays right about
/// them.
pub proof fn law_seeking_keeps_the_volumes(
    output: OutputState,
    files: Seq<PartFile>,
    position: u64,
)
    requires
        agrees(output, files),
        contiguous(output.rules(), contents_of(files)),
    ensures
        agrees(OutputState { position, ..output }, files),
        contiguous((OutputState { position, ..output }).rules(), contents_of(files)),
{
    let moved = OutputState { position, ..output };
    assert forall|i: int| 0 <= i < files.len() implies {
        let part = #[trigger] moved.parts[i];
        &&& part.open
        &&& part.path == names::volume_name(moved.prefix, (i + 1) as nat)
        &&& part.length == files[i].contents.len()
        &&& part.position matches Some(place) ==> files[i].cursor == place
    } by {
        assert(output.parts[i].open);
    }
    assert(moved.rules().lengths =~= output.rules().lengths);
}

/// A stream that was just made is right about its volumes, of which there are
/// none.
pub proof fn law_new_streams_agree(output: OutputState)
    requires
        output.volume_size > 0,
        output.parts.len() == 0,
        output.position == 0,
        output.length == 0,
    ensures
        agrees(output, Seq::empty()),
        contiguous(output.rules(), contents_of(Seq::empty())),
        within_volumes(output.rules(), contents_of(Seq::empty())),
{
    assert(contents_of(Seq::empty()) =~= Seq::<Seq<u8>>::empty());
}

/// The first failure is the one that is remembered, a place counts from the
/// start, the cursor or the end, and a volume that is closed is told by its
/// path.
pub proof fn law_first_failure_is_kept(
    output: OutputState,
    stream: VolumeOutput,
    first: ErrorView,
    second: ErrorView,
    path: Seq<char>,
)
    ensures
        output.error is None ==> output.with_error(first).error == Some(first)
            && output.with_error(first).with_error(second).error == Some(first),
        output.error is Some ==> output.with_error(first).error == output.error,
        remembered(None, first) == first,
        stream.error is Some ==> remembered(stream.error, first) == stream.error->0@,
        stream.seek_base(0) == Some(0u64),
        stream.seek_base(1) == Some(stream.position),
        stream.seek_base(2) == Some(stream.length),
        forall|origin: u32| origin > 2 ==> (#[trigger] stream.seek_base(origin)) is None,
        closed_volume_text(path) == "output volume "@ + path + " is already closed"@,
{
}

/// Each volume is full but for the last, and together they hold the size.
pub proof fn law_volumes_share_the_size(size: int, volume_size: int, index: int)
    requires
        volume_size > 0,
        size > 0,
        0 <= index < parts_for(size, volume_size),
    ensures
        index + 1 < parts_for(size, volume_size) ==> part_length(size, volume_size, index)
            == volume_size,
        index + 1 == parts_for(size, volume_size) ==> 0 < part_length(size, volume_size, index)
            <= volume_size && index * volume_size + part_length(size, volume_size, index) == size,
        parts_for(0, volume_size) == 0,
{
    let last = (size - 1) / volume_size;
    assert(last * volume_size <= size - 1 < (last + 1) * volume_size) by (nonlinear_arith)
        requires
            volume_size > 0,
            last == (size - 1) / volume_size,
    ;
    assert((last + 1) * volume_size == last * volume_size + volume_size) by (nonlinear_arith);
    if index < last {
        assert((index + 1) * volume_size <= last * volume_size) by (nonlinear_arith)
            requires
                index + 1 <= last,
                volume_size > 0,
        ;
        assert((index + 1) * volume_size == index * volume_size + volume_size) by (nonlinear_arith);
    }
}

/// Bytes that are written stand at their place, and what lay around them is
/// kept; a new length keeps what lies before it.
pub proof fn law_written_bytes_stand_in_place(
    contents: Seq<u8>,
    at: int,
    bytes: Seq<u8>,
    length: int,
)
    requires
        0 <= at <= contents.len(),
        length >= 0,
    ensures
        at + bytes.len() <= contents.len() ==> overwritten(contents, at, bytes) == contents.take(at)
            + bytes + contents.skip(at + bytes.len()),
        at + bytes.len() > contents.len() ==> overwritten(contents, at, bytes) == contents.take(at)
            + bytes,
        resized(contents, length).len() == length,
        length <= contents.len() ==> resized(contents, length) == contents.take(length),
        length >= contents.len() ==> resized(contents, length).take(contents.len() as int)
            == contents,
{
    let now = overwritten(contents, at, bytes);
    if at + bytes.len() <= contents.len() {
        assert(now =~= contents.take(at) + bytes + contents.skip(at + bytes.len()));
    } else {
        assert(now =~= contents.take(at) + bytes);
    }
    if length <= contents.len() {
        assert(resized(contents, length) =~= contents.take(length));
    }
    if length >= contents.len() {
        assert(resized(contents, length).take(contents.len() as int) =~= contents);
    }
}

} // verus!
