//! Output accounting and seekable streams over one file or several volumes.
//!
//! The types here decide what is to be read or written where. The caller
//! performs the file operation and reports how it went.

use vstd::prelude::*;
use crate::error::{ArchiveError, ErrorView};
use crate::ffi::{E_ABORT, E_FAIL, E_INVALIDARG, SEEK_CUR, SEEK_END, SEEK_SET, S_OK};

verus! {

/// The larger of two numbers.
pub open spec fn larger(a: int, b: int) -> int {
    if a < b { b } else { a }
}

/// The smaller of two numbers.
pub open spec fn smaller(a: int, b: int) -> int {
    if a < b { a } else { b }
}

// ---------------------------------------------------------------------------
// Output budget
// ---------------------------------------------------------------------------

/// One budget for the entire extraction, including parallel workers.
/// The greater of decoded bytes and the file's high-water extent is charged,
/// so preallocation is not charged again when filled, but rewrites count.
#[derive(Debug)]
pub struct OutputBudget {
    pub max_file: u64,
    pub max_total: u64,
    pub total: u64,
    pub exceeded: bool,
}

/// One output file's account with the budget.
///
/// `position` is the cursor of the file; [`UNKNOWN_POSITION`] stands for an
/// unknown one after a failed operation.
#[derive(Debug)]
pub struct OutStream {
    pub open: bool,
    pub written: u64,
    pub charged: u64,
    pub position: u64,
}

/// The cursor of a file whose last operation failed half way.
pub const UNKNOWN_POSITION: u64 = 0xFFFF_FFFF_FFFF_FFFF;

impl OutputBudget {
    /// The charge of a file that held `charged` once `amount` more bytes were
    /// decoded into it and it reaches up to `extent`.
    pub open spec fn charge_after(stream: OutStream, amount: int, extent: int) -> int {
        larger(larger(stream.charged as int, stream.written + amount), extent)
    }

    /// Whether the request fits in both limits.
    pub open spec fn admits(self, stream: OutStream, amount: u64, extent: Option<u64>) -> bool {
        &&& !self.exceeded
        &&& stream.written + amount <= u64::MAX
        &&& extent is Some
        &&& OutputBudget::charge_after(stream, amount as int, extent->0 as int) <= self.max_file
        &&& self.total + (OutputBudget::charge_after(stream, amount as int, extent->0 as int)
            - stream.charged) <= self.max_total
    }

    /// An unused budget.
    pub fn new(max_file: u64, max_total: u64) -> (budget: OutputBudget)
        ensures
            budget == (OutputBudget { max_file, max_total, total: 0, exceeded: false }),
    {
        OutputBudget { max_file, max_total, total: 0, exceeded: false }
    }

    /// The error to report once a request was refused.
    pub fn error(&self) -> (error: Option<ArchiveError>)
        ensures
            match error {
                Some(e) => self.exceeded && e@ == ErrorView::LimitExceeded(
                    "7z actual output exceeds the extraction byte limit"@,
                ),
                None => !self.exceeded,
            },
    {
        if self.exceeded {
            Some(
                ArchiveError::LimitExceeded(
                    "7z actual output exceeds the extraction byte limit".to_owned(),
                ),
            )
        } else {
            None
        }
    }

    /// Reserves `amount` more decoded bytes that reach up to `extent`, or
    /// refuses this and every later request. `extent` is absent when it is
    /// not a 64-bit number.
    pub fn reserve(&mut self, stream: &mut OutStream, amount: u64, extent: Option<u64>) -> (granted:
        bool)
        ensures
            granted == old(self).admits(*old(stream), amount, extent),
            granted ==> *final(stream) == (OutStream {
                written: (old(stream).written + amount) as u64,
                charged: OutputBudget::charge_after(
                    *old(stream),
                    amount as int,
                    extent->0 as int,
                ) as u64,
                ..*old(stream)
            }),
            granted ==> *final(self) == (OutputBudget {
                total: (old(self).total + final(stream).charged - old(stream).charged) as u64,
                ..*old(self)
            }),
            !granted ==> *final(stream) == *old(stream),
            !granted ==> *final(self) == (OutputBudget { exceeded: true, ..*old(self) }),
    {
        if self.exceeded {
            return false;
        }
        let written: Option<u64> = stream.written.checked_add(amount);
        let previous: u64 = stream.charged;
        if let Some(written) = written {
            if let Some(extent) = extent {
                let mut charge: u64 = previous;
                if written > charge {
                    charge = written;
                }
                if extent > charge {
                    charge = extent;
                }
                let next: Option<u64> = self.total.checked_add(charge - previous);
                if let Some(next) = next {
                    if charge <= self.max_file && next <= self.max_total {
                        self.total = next;
                        stream.written = written;
                        stream.charged = charge;
                        return true;
                    }
                }
            }
        }
        self.exceeded = true;
        false
    }
}

/// What all files of an extraction have been charged together.
pub open spec fn charged_sum(streams: Seq<OutStream>) -> int
    decreases streams.len(),
{
    if streams.len() == 0 {
        0
    } else {
        charged_sum(streams.drop_last()) + streams.last().charged
    }
}

/// Changing one file's charge changes the sum by the same amount.
pub proof fn lemma_charged_sum_update(streams: Seq<OutStream>, i: int, stream: OutStream)
    requires
        0 <= i < streams.len(),
    ensures
        charged_sum(streams.update(i, stream)) == charged_sum(streams) - streams[i].charged
            + stream.charged,
    decreases streams.len(),
{
    let changed = streams.update(i, stream);
    if i == streams.len() - 1 {
        assert(changed.drop_last() =~= streams.drop_last());
    } else {
        assert(changed.drop_last() =~= streams.drop_last().update(i, stream));
        assert(streams.drop_last()[i] == streams[i]);
        lemma_charged_sum_update(streams.drop_last(), i, stream);
    }
}

/// The accounts of one extraction: the total is what the files were charged,
/// and neither limit has been passed.
pub open spec fn balanced(budget: OutputBudget, streams: Seq<OutStream>) -> bool {
    &&& budget.total == charged_sum(streams)
    &&& budget.total <= budget.max_total
    &&& forall|i: int|
        0 <= i < streams.len() ==> (#[trigger] streams[i]).charged <= budget.max_file
            && streams[i].written <= streams[i].charged
}

/// The budget after a request, as [`OutputBudget::reserve`] leaves it.
pub open spec fn budget_after(
    budget: OutputBudget,
    stream: OutStream,
    amount: u64,
    extent: Option<u64>,
) -> OutputBudget {
    if budget.admits(stream, amount, extent) {
        OutputBudget {
            total: (budget.total + OutputBudget::charge_after(
                stream,
                amount as int,
                extent->0 as int,
            ) - stream.charged) as u64,
            ..budget
        }
    } else {
        OutputBudget { exceeded: true, ..budget }
    }
}

/// The file's account after a request, as [`OutputBudget::reserve`] leaves it.
pub open spec fn stream_after(
    budget: OutputBudget,
    stream: OutStream,
    amount: u64,
    extent: Option<u64>,
) -> OutStream {
    if budget.admits(stream, amount, extent) {
        OutStream {
            written: (stream.written + amount) as u64,
            charged: OutputBudget::charge_after(stream, amount as int, extent->0 as int) as u64,
            ..stream
        }
    } else {
        stream
    }
}

/// However the files of an extraction share the budget, the bytes charged to
/// all of them never pass the total limit, and none passes the file limit.
pub proof fn law_output_stays_within_limits(
    budget: OutputBudget,
    streams: Seq<OutStream>,
    i: int,
    amount: u64,
    extent: Option<u64>,
)
    requires
        balanced(budget, streams),
        0 <= i < streams.len(),
    ensures
        balanced(
            budget_after(budget, streams[i], amount, extent),
            streams.update(i, stream_after(budget, streams[i], amount, extent)),
        ),
{
    let stream = stream_after(budget, streams[i], amount, extent);
    lemma_charged_sum_update(streams, i, stream);
    if !budget.admits(streams[i], amount, extent) {
        assert(streams.update(i, stream) =~= streams);
    }
}

/// Charges only grow: truncating or rewriting a file gives nothing back, and
/// a refusal is final.
pub proof fn law_budget_never_refunds(
    budget: OutputBudget,
    stream: OutStream,
    amount: u64,
    extent: Option<u64>,
)
    requires
        budget.total <= budget.max_total,
    ensures
        budget_after(budget, stream, amount, extent).total >= budget.total,
        stream_after(budget, stream, amount, extent).charged >= stream.charged,
        budget.exceeded ==> budget_after(budget, stream, amount, extent).exceeded,
        budget.exceeded ==> forall|later: OutStream, more: u64, reach: Option<u64>|
            !budget_after(budget, stream, amount, extent).admits(later, more, reach),
{
}

// ---------------------------------------------------------------------------
// A single output file
// ---------------------------------------------------------------------------

/// What the caller is to do for a write.
#[derive(Debug, Clone, Copy, PartialEq, Eq, Structural)]
pub enum WriteDecision {
    /// Write all bytes at the cursor, then report with `finish_write`.
    Perform,
    /// Return this result code and write nothing.
    Return(i32),
}

impl OutStream {
    /// A new account for an open, empty file.
    pub fn new() -> (stream: OutStream)
        ensures
            stream == (OutStream { open: true, written: 0, charged: 0, position: 0 }),
    {
        OutStream { open: true, written: 0, charged: 0, position: 0 }
    }

    /// Whether the cursor has to be asked of the file before a write.
    pub fn needs_position(&self) -> (needed: bool)
        ensures
            needed == (self.open && self.position == UNKNOWN_POSITION),
    {
        self.open && self.position == UNKNOWN_POSITION
    }

    /// Where the next byte goes: the cached cursor, or what the file answered.
    pub open spec fn cursor(self, asked: Option<u64>) -> Option<u64> {
        if self.position == UNKNOWN_POSITION {
            asked
        } else {
            Some(self.position)
        }
    }

    /// The end of a write of `size` bytes at `at`, if it is a 64-bit number.
    pub open spec fn write_extent(at: u64, size: u32) -> Option<u64> {
        if at + size <= u64::MAX {
            Some((at + size) as u64)
        } else {
            None
        }
    }

    /// Decides on a write of `size` bytes. `asked` is the file's own cursor,
    /// needed only where [`OutStream::needs_position`] says so and absent when
    /// the file could not tell. The bytes are reserved before they are
    /// written, and stay reserved when the write fails.
    pub fn begin_write(&mut self, budget: &mut OutputBudget, size: u32, asked: Option<u64>) -> (decision:
        WriteDecision)
        ensures
            size == 0 ==> decision == WriteDecision::Return(S_OK),
            size != 0 && !old(self).open ==> decision == WriteDecision::Return(E_FAIL),
            size != 0 && old(self).open && old(self).cursor(asked) is None ==> decision
                == WriteDecision::Return(E_FAIL),
            decision == WriteDecision::Return(S_OK) || decision == WriteDecision::Return(E_FAIL)
                ==> *final(self) == *old(self) && *final(budget) == *old(budget),
            size != 0 && old(self).open && old(self).cursor(asked) is Some ==> {
                let at = old(self).cursor(asked)->0;
                let extent = OutStream::write_extent(at, size);
                let granted = old(budget).admits(*old(self), size as u64, extent);
                &&& decision == if granted {
                    WriteDecision::Perform
                } else {
                    WriteDecision::Return(E_ABORT)
                }
                &&& *final(budget) == budget_after(*old(budget), *old(self), size as u64, extent)
                &&& *final(self) == if granted {
                    OutStream {
                        position: at,
                        ..stream_after(*old(budget), *old(self), size as u64, extent)
                    }
                } else {
                    *old(self)
                }
            },
    {
        if size == 0 {
            return WriteDecision::Return(S_OK);
        }
        if !self.open {
            return WriteDecision::Return(E_FAIL);
        }
        let at: u64 = if self.position == UNKNOWN_POSITION {
            match asked {
                Some(position) => position,
                None => {
                    return WriteDecision::Return(E_FAIL);
                },
            }
        } else {
            self.position
        };
        let extent: Option<u64> = at.checked_add(size as u64);
        if !budget.reserve(self, size as u64, extent) {
            return WriteDecision::Return(E_ABORT);
        }
        self.position = at;
        WriteDecision::Perform
    }

    /// Decides on a write to a file that no budget limits.
    pub fn begin_unlimited_write(&self, size: u32) -> (decision: WriteDecision)
        ensures
            decision == if size == 0 {
                WriteDecision::Return(S_OK)
            } else if !self.open {
                WriteDecision::Return(E_FAIL)
            } else {
                WriteDecision::Perform
            },
    {
        if size == 0 {
            WriteDecision::Return(S_OK)
        } else if !self.open {
            WriteDecision::Return(E_FAIL)
        } else {
            WriteDecision::Perform
        }
    }

    /// Takes the outcome of a write of `size` bytes and gives the result code
    /// with the number of bytes processed.
    pub fn finish_write(&mut self, size: u32, succeeded: bool) -> (outcome: (i32, u32))
        ensures
            succeeded ==> outcome == (S_OK, size) && final(self).position == smaller(
                old(self).position + size,
                u64::MAX as int,
            ),
            !succeeded ==> outcome == (E_FAIL, 0u32) && final(self).position == UNKNOWN_POSITION,
            *final(self) == (OutStream { position: final(self).position, ..*old(self) }),
    {
        if succeeded {
            self.position = self.position.saturating_add(size as u64);
        } else {
            self.position = UNKNOWN_POSITION;
        }
        write_result(size, succeeded)
    }

    /// Decides on setting the file's length. Nothing is given back for a
    /// shorter file, and the cursor stays.
    pub fn begin_set_size(&mut self, budget: &mut OutputBudget, size: u64) -> (decision:
        WriteDecision)
        ensures
            !old(self).open ==> decision == WriteDecision::Return(E_FAIL) && *final(self) == *old(
                self,
            ) && *final(budget) == *old(budget),
            old(self).open ==> {
                let granted = old(budget).admits(*old(self), 0, Some(size));
                &&& decision == if granted {
                    WriteDecision::Perform
                } else {
                    WriteDecision::Return(E_ABORT)
                }
                &&& *final(self) == stream_after(*old(budget), *old(self), 0, Some(size))
                &&& *final(budget) == budget_after(*old(budget), *old(self), 0, Some(size))
            },
    {
        if !self.open {
            return WriteDecision::Return(E_FAIL);
        }
        if !budget.reserve(self, 0, Some(size)) {
            return WriteDecision::Return(E_ABORT);
        }
        WriteDecision::Perform
    }

    /// Decides on setting the length of a file that no budget limits.
    pub fn begin_unlimited_set_size(&self) -> (decision: WriteDecision)
        ensures
            decision == if self.open {
                WriteDecision::Perform
            } else {
                WriteDecision::Return(E_FAIL)
            },
    {
        if self.open {
            WriteDecision::Perform
        } else {
            WriteDecision::Return(E_FAIL)
        }
    }

    /// Decides on a seek: the move to make, or the result code. An unknown
    /// origin is noticed before a closed file.
    pub fn begin_seek(&self, offset: i64, origin: u32) -> (target: Result<SeekTarget, i32>)
        ensures
            target == if !known_origin(origin) {
                Err::<SeekTarget, i32>(E_INVALIDARG)
            } else if !self.open {
                Err::<SeekTarget, i32>(E_FAIL)
            } else {
                Ok::<SeekTarget, i32>(target_of(offset, origin))
            },
    {
        match seek_target(offset, origin) {
            Ok(target) => {
                if self.open {
                    Ok(target)
                } else {
                    Err(E_FAIL)
                }
            },
            Err(code) => Err(code),
        }
    }

    /// Takes the outcome of a seek: the new cursor, or nothing on failure.
    pub fn finish_seek(&mut self, landed: Option<u64>) -> (code: i32)
        ensures
            match landed {
                Some(position) => code == S_OK && *final(self) == (OutStream {
                    position,
                    ..*old(self)
                }),
                None => code == E_FAIL && *final(self) == (OutStream {
                    position: UNKNOWN_POSITION,
                    ..*old(self)
                }),
            },
    {
        match landed {
            Some(position) => {
                self.position = position;
                S_OK
            },
            None => {
                self.position = UNKNOWN_POSITION;
                E_FAIL
            },
        }
    }
}

/// A file that a granted write touches is charged at least up to the end of
/// that write, so the bytes on disk never pass what was reserved.
pub proof fn law_writes_are_reserved_first(
    budget: OutputBudget,
    stream: OutStream,
    at: u64,
    size: u32,
)
    requires
        budget.admits(stream, size as u64, OutStream::write_extent(at, size)),
    ensures
        at + size <= stream_after(
            budget,
            stream,
            size as u64,
            OutStream::write_extent(at, size),
        ).charged,
        stream_after(budget, stream, size as u64, OutStream::write_extent(at, size)).charged
            <= budget.max_file,
{
}

// ---------------------------------------------------------------------------
// Requests and input
// ---------------------------------------------------------------------------

/// The answer to a request to move `size` bytes that needs no file: a missing
/// buffer is refused and an empty request succeeds. `None` asks the file.
pub fn answer_without_file(has_buffer: bool, size: u32) -> (answer: Option<i32>)
    ensures
        answer == if !has_buffer && size != 0 {
            Some(E_INVALIDARG)
        } else if size == 0 {
            Some(S_OK)
        } else {
            None
        },
{
    if !has_buffer && size != 0 {
        Some(E_INVALIDARG)
    } else if size == 0 {
        Some(S_OK)
    } else {
        None
    }
}

/// The result code of an operation on a file.
pub fn result_code(succeeded: bool) -> (code: i32)
    ensures
        code == if succeeded {
            S_OK
        } else {
            E_FAIL
        },
{
    if succeeded {
        S_OK
    } else {
        E_FAIL
    }
}

/// The result code of a write of `size` bytes that is made whole or fails,
/// with the number of bytes processed.
pub fn write_result(size: u32, succeeded: bool) -> (outcome: (i32, u32))
    ensures
        outcome == if succeeded {
            (S_OK, size)
        } else {
            (E_FAIL, 0u32)
        },
{
    if succeeded {
        (S_OK, size)
    } else {
        (E_FAIL, 0)
    }
}

/// A single input file, which counts how far it was read.
#[derive(Debug)]
pub struct InStream {
    pub position: u64,
}

/// What a read came to.
#[derive(Debug, Clone, Copy, PartialEq, Eq, Structural)]
pub struct ReadReply {
    /// The result code.
    pub code: i32,
    /// How many bytes were read.
    pub processed: u32,
    /// The position to tell whoever watches the progress.
    pub report: Option<u64>,
}

impl InStream {
    /// A file that was just opened.
    pub fn new() -> (stream: InStream)
        ensures
            stream.position == 0,
    {
        InStream { position: 0 }
    }

    /// Takes the outcome of a read: how many bytes came, or nothing when it
    /// failed. Only a read that brought bytes is reported.
    pub fn finish_read(&mut self, read: Option<u32>) -> (reply: ReadReply)
        ensures
            match read {
                None => reply == (ReadReply { code: E_FAIL, processed: 0, report: None })
                    && *final(self) == *old(self),
                Some(amount) => {
                    &&& reply.code == S_OK
                    &&& reply.processed == amount
                    &&& reply.report == if amount == 0 {
                        None
                    } else {
                        Some(smaller(old(self).position + amount, u64::MAX as int) as u64)
                    }
                    &&& final(self).position == (old(self).position + amount) % (u64::MAX + 1)
                },
            },
    {
        match read {
            None => ReadReply { code: E_FAIL, processed: 0, report: None },
            Some(amount) => {
                let reached: u64 = self.position.saturating_add(amount as u64);
                self.position = self.position.wrapping_add(amount as u64);
                ReadReply {
                    code: S_OK,
                    processed: amount,
                    report: if amount == 0 {
                        None
                    } else {
                        Some(reached)
                    },
                }
            },
        }
    }

    /// Takes the outcome of a seek: the new position, or nothing when it
    /// failed, which leaves the counted position.
    pub fn finish_seek(&mut self, landed: Option<u64>) -> (code: i32)
        ensures
            match landed {
                Some(position) => code == S_OK && final(self).position == position,
                None => code == E_FAIL && *final(self) == *old(self),
            },
    {
        match landed {
            Some(position) => {
                self.position = position;
                S_OK
            },
            None => E_FAIL,
        }
    }
}

// ---------------------------------------------------------------------------
// Seeking
// ---------------------------------------------------------------------------

/// Where a file is to be moved for a seek request.
#[derive(Debug, Clone, Copy, PartialEq, Eq, Structural)]
pub enum SeekTarget {
    /// To this many bytes from the start.
    Start(u64),
    /// By this many bytes from the cursor.
    Current(i64),
    /// By this many bytes from the end.
    End(i64),
}

/// Whether a seek request counts from a place that is known.
pub open spec fn known_origin(origin: u32) -> bool {
    origin == SEEK_SET || origin == SEEK_CUR || origin == SEEK_END
}

/// The move that a seek request with a known origin asks of a single file.
/// An absolute request before the start goes to the start.
pub open spec fn target_of(offset: i64, origin: u32) -> SeekTarget {
    if origin == SEEK_SET {
        SeekTarget::Start(larger(offset as int, 0) as u64)
    } else if origin == SEEK_CUR {
        SeekTarget::Current(offset)
    } else {
        SeekTarget::End(offset)
    }
}

/// The move that a seek request asks of a single file; unknown origins are
/// refused.
pub fn seek_target(offset: i64, origin: u32) -> (target: Result<SeekTarget, i32>)
    ensures
        target == if known_origin(origin) {
            Ok::<SeekTarget, i32>(target_of(offset, origin))
        } else {
            Err::<SeekTarget, i32>(E_INVALIDARG)
        },
{
    if origin == SEEK_SET {
        if offset < 0 {
            Ok(SeekTarget::Start(0))
        } else {
            Ok(SeekTarget::Start(offset as u64))
        }
    } else if origin == SEEK_CUR {
        Ok(SeekTarget::Current(offset))
    } else if origin == SEEK_END {
        Ok(SeekTarget::End(offset))
    } else {
        Err(E_INVALIDARG)
    }
}

/// The position `offset` away from `base`, if it is a 64-bit number.
pub open spec fn moved(base: u64, offset: i64) -> Option<u64> {
    if 0 <= base + offset <= u64::MAX {
        Some((base + offset) as u64)
    } else {
        None
    }
}

/// [`moved`], executable.
pub fn move_from(base: u64, offset: i64) -> (position: Option<u64>)
    ensures
        position == moved(base, offset),
{
    let wide: i128 = (base as i128) + (offset as i128);
    if wide < 0 || wide > u64::MAX as i128 {
        None
    } else {
        Some(wide as u64)
    }
}

/// How a buffered reader reaches a position.
#[derive(Debug, Clone, Copy, PartialEq, Eq, Structural)]
pub enum BufferedSeek {
    /// Move by this many bytes, keeping what was read ahead.
    Relative(i64),
    /// Seek from the start and drop what was read ahead.
    Absolute(u64),
}

/// How to bring a buffered reader from its known cursor, if it is known, to
/// `target`. A short move keeps the bytes read ahead; an unknown cursor forces
/// an absolute seek.
pub fn seek_buffered(cursor: Option<u64>, target: u64) -> (how: BufferedSeek)
    ensures
        match how {
            BufferedSeek::Relative(offset) => cursor is Some && cursor->0 + offset == target,
            BufferedSeek::Absolute(position) => position == target && (cursor is None
                || target - cursor->0 < i64::MIN || target - cursor->0 > i64::MAX),
        },
{
    if let Some(position) = cursor {
        let offset: i128 = (target as i128) - (position as i128);
        if offset >= i64::MIN as i128 && offset <= i64::MAX as i128 {
            return BufferedSeek::Relative(offset as i64);
        }
    }
    BufferedSeek::Absolute(target)
}

/// A stream is moved from its start, its cursor or its end, and by no other
/// origin; from the start never to before it.
pub proof fn law_origins_of_a_move(offset: i64, origin: u32, base: u64)
    ensures
        known_origin(origin) <==> origin == 0 || origin == 1 || origin == 2,
        offset >= 0 ==> target_of(offset, 0) == SeekTarget::Start(offset as u64),
        offset < 0 ==> target_of(offset, 0) == SeekTarget::Start(0),
        target_of(offset, 1) == SeekTarget::Current(offset),
        target_of(offset, 2) == SeekTarget::End(offset),
        moved(base, offset) is Some <==> 0 <= base + offset <= u64::MAX,
        moved(base, offset) is Some ==> moved(base, offset)->0 == base + offset,
{
}

/// The larger and the smaller of two numbers.
pub proof fn law_larger_and_smaller(a: int, b: int)
    ensures
        larger(a, b) >= a && larger(a, b) >= b && (larger(a, b) == a || larger(a, b) == b),
        smaller(a, b) <= a && smaller(a, b) <= b && (smaller(a, b) == a || smaller(a, b) == b),
{
}

/// What fits both limits may be written, and what does not ends the output.
pub proof fn law_writes_within_the_limits_are_granted(
    budget: OutputBudget,
    stream: OutStream,
    amount: u64,
    at: u64,
)
    requires
        !budget.exceeded,
        stream.charged == stream.written,
        at == stream.written,
        at + amount <= u64::MAX,
    ensures
        budget.admits(stream, amount, Some((at + amount) as u64)) <==> at + amount
            <= budget.max_file && budget.total + amount <= budget.max_total,
        budget.admits(stream, amount, Some((at + amount) as u64)) ==> budget_after(
            budget,
            stream,
            amount,
            Some((at + amount) as u64),
        ).total == budget.total + amount,
        !budget.admits(stream, amount, Some((at + amount) as u64)) ==> budget_after(
            budget,
            stream,
            amount,
            Some((at + amount) as u64),
        ).exceeded,
        OutStream::write_extent(at, 0) == Some(at),
{
}

} // verus!
