//! Reading several volumes as one logical stream.

use vstd::prelude::*;
use crate::error::{ArchiveError, ArchiveResult, ErrorView};
use crate::ffi::{E_FAIL, E_INVALIDARG, SEEK_CUR, SEEK_END, SEEK_SET, S_OK};
use crate::streams;
use crate::streams::{BufferedSeek, SeekTarget};

verus! {

/// The sum of the first `n` lengths.
pub open spec fn sum_to(lengths: Seq<u64>, n: int) -> int
    decreases n,
{
    if n <= 0 {
        0
    } else {
        sum_to(lengths, n - 1) + lengths[n - 1]
    }
}

/// The start of each volume is the sum of the lengths before it.
pub open spec fn starts_of(starts: Seq<u64>, lengths: Seq<u64>) -> bool {
    &&& starts.len() == lengths.len()
    &&& forall|i: int| 0 <= i < starts.len() ==> #[trigger] starts[i] == sum_to(lengths, i)
}

/// The volume that holds logical position `position`: the last one that
/// starts at or before it.
pub open spec fn holds_position(starts: Seq<u64>, position: u64, index: int) -> bool {
    &&& 0 <= index < starts.len()
    &&& starts[index] <= position
    &&& forall|k: int| index < k < starts.len() ==> starts[k] > position
}

/// A longer prefix has the larger sum.
pub proof fn lemma_sum_to_monotonic(lengths: Seq<u64>, i: int, j: int)
    requires
        0 <= i <= j <= lengths.len(),
    ensures
        sum_to(lengths, i) <= sum_to(lengths, j),
    decreases j - i,
{
    if i < j {
        lemma_sum_to_monotonic(lengths, i, j - 1);
    }
}

/// Only the lengths before `n` matter for the sum up to `n`.
pub proof fn lemma_sum_to_prefix(a: Seq<u64>, b: Seq<u64>, n: int)
    requires
        n <= a.len(),
        n <= b.len(),
        forall|k: int| 0 <= k < n ==> a[k] == b[k],
    ensures
        sum_to(a, n) == sum_to(b, n),
    decreases n,
{
    if n > 0 {
        lemma_sum_to_prefix(a, b, n - 1);
    }
}

/// Finds the volume that holds a position by halving.
pub fn find_volume(starts: &Vec<u64>, position: u64) -> (index: usize)
    requires
        starts@.len() > 0,
        starts@[0] == 0,
        forall|i: int, j: int| 0 <= i <= j < starts@.len() ==> starts@[i] <= starts@[j],
    ensures
        holds_position(starts@, position, index as int),
{
    let mut low: usize = 0;
    let mut high: usize = starts.len();
    while high - low > 1
        invariant
            low < high <= starts@.len(),
            starts@[low as int] <= position,
            forall|k: int| high <= k < starts@.len() ==> starts@[k] > position,
            forall|i: int, j: int| 0 <= i <= j < starts@.len() ==> starts@[i] <= starts@[j],
        decreases high - low,
    {
        let middle: usize = low + (high - low) / 2;
        if starts[middle] <= position {
            low = middle;
        } else {
            high = middle;
        }
    }
    low
}

/// Adds up the lengths of the volumes: where each starts, and the total.
/// Nothing is returned when the total is not a 64-bit number.
pub fn lay_out(lengths: &Vec<u64>) -> (layout: Option<(Vec<u64>, u64)>)
    ensures
        match layout {
            Some((starts, total)) => starts_of(starts@, lengths@) && total == sum_to(
                lengths@,
                lengths@.len() as int,
            ),
            None => sum_to(lengths@, lengths@.len() as int) > u64::MAX,
        },
{
    let mut starts: Vec<u64> = Vec::new();
    let mut total: u64 = 0;
    let mut i: usize = 0;
    while i < lengths.len()
        invariant
            i <= lengths@.len(),
            starts@.len() == i,
            total == sum_to(lengths@, i as int),
            forall|k: int| 0 <= k < i ==> #[trigger] starts@[k] == sum_to(lengths@, k),
        decreases lengths@.len() - i,
    {
        starts.push(total);
        let next: Option<u64> = total.checked_add(lengths[i]);
        match next {
            Some(next) => {
                total = next;
            },
            None => {
                proof {
                    lemma_sum_to_monotonic(lengths@, i + 1, lengths@.len() as int);
                }
                return None;
            },
        }
        i += 1;
    }
    Some((starts, total))
}

/// The starts of laid out volumes are in order, from zero.
pub proof fn lemma_starts_sorted(starts: Seq<u64>, lengths: Seq<u64>)
    requires
        starts_of(starts, lengths),
    ensures
        starts.len() > 0 ==> starts[0] == 0,
        forall|i: int, j: int| 0 <= i <= j < starts.len() ==> starts[i] <= starts[j],
{
    assert forall|i: int, j: int| 0 <= i <= j < starts.len() implies starts[i] <= starts[j] by {
        lemma_sum_to_monotonic(lengths, i, j);
    }
}

/// A position before the end lies inside the volume that holds it.
pub proof fn lemma_position_inside(starts: Seq<u64>, lengths: Seq<u64>, position: u64, index: int)
    requires
        starts_of(starts, lengths),
        holds_position(starts, position, index),
        position < sum_to(lengths, lengths.len() as int),
    ensures
        position - starts[index] < lengths[index],
{
    if index + 1 < starts.len() {
        assert(starts[index + 1] > position);
    }
    assert(sum_to(lengths, index + 1) == sum_to(lengths, index) + lengths[index]);
}

// ---------------------------------------------------------------------------
// The joined contents
// ---------------------------------------------------------------------------

/// The contents of the volumes, one after the other.
pub open spec fn joined(volumes: Seq<Seq<u8>>) -> Seq<u8>
    decreases volumes.len(),
{
    if volumes.len() == 0 {
        Seq::empty()
    } else {
        joined(volumes.drop_last()) + volumes.last()
    }
}

/// Whether the lengths are those of the volumes.
pub open spec fn lengths_of(lengths: Seq<u64>, volumes: Seq<Seq<u8>>) -> bool {
    &&& lengths.len() == volumes.len()
    &&& forall|i: int| 0 <= i < lengths.len() ==> #[trigger] lengths[i] == volumes[i].len()
}

/// The joined contents are as long as the volumes together, and hold each
/// volume at its start.
pub proof fn lemma_joined(lengths: Seq<u64>, volumes: Seq<Seq<u8>>)
    requires
        lengths_of(lengths, volumes),
    ensures
        joined(volumes).len() == sum_to(lengths, lengths.len() as int),
        forall|i: int|
            0 <= i < volumes.len() ==> sum_to(lengths, i) + volumes[i].len() <= joined(
                volumes,
            ).len() && joined(volumes).subrange(
                sum_to(lengths, i),
                sum_to(lengths, i) + volumes[i].len(),
            ) == #[trigger] volumes[i],
    decreases volumes.len(),
{
    if volumes.len() > 0 {
        let short = volumes.drop_last();
        let n = volumes.len() - 1;
        lemma_joined(lengths.drop_last(), short);
        lemma_sum_to_prefix(lengths.drop_last(), lengths, n);
        assert(lengths[n] == volumes[n].len());
        assert forall|i: int| 0 <= i < volumes.len() implies sum_to(lengths, i)
            + volumes[i].len() <= joined(volumes).len() && joined(volumes).subrange(
            sum_to(lengths, i),
            sum_to(lengths, i) + volumes[i].len(),
        ) == #[trigger] volumes[i] by {
            if i < n {
                assert(short[i] == volumes[i]);
                lemma_sum_to_prefix(lengths.drop_last(), lengths, i);
                lemma_sum_to_monotonic(lengths, 0, i);
                assert(joined(volumes).subrange(
                    sum_to(lengths, i),
                    sum_to(lengths, i) + volumes[i].len(),
                ) =~= joined(short).subrange(
                    sum_to(lengths, i),
                    sum_to(lengths, i) + volumes[i].len(),
                ));
            } else {
                assert(joined(volumes).subrange(
                    sum_to(lengths, i),
                    sum_to(lengths, i) + volumes[i].len(),
                ) =~= volumes[i]);
            }
        }
    }
}

/// Reading the volumes joins them again: the bytes read from the chosen
/// volume are those of the joined contents at the logical position.
pub proof fn law_reading_joins_volumes(
    starts: Seq<u64>,
    lengths: Seq<u64>,
    volumes: Seq<Seq<u8>>,
    position: u64,
    index: int,
    amount: int,
)
    requires
        starts_of(starts, lengths),
        lengths_of(lengths, volumes),
        holds_position(starts, position, index),
        0 <= amount <= lengths[index] - (position - starts[index]),
    ensures
        position + amount <= joined(volumes).len(),
        volumes[index].subrange(
            position - starts[index],
            position - starts[index] + amount,
        ) == joined(volumes).subrange(position as int, position + amount),
{
    lemma_joined(lengths, volumes);
    let whole = joined(volumes);
    let start = starts[index] as int;
    assert(volumes[index] == whole.subrange(start, start + volumes[index].len()));
    assert(lengths[index] == volumes[index].len());
    assert(volumes[index].subrange(position - start, position - start + amount)
        =~= whole.subrange(position as int, position + amount));
}

// ---------------------------------------------------------------------------
// The native stream over several volumes
// ---------------------------------------------------------------------------

/// `<archive>.<nnn>` files presented as one logical input stream. The volume
/// writer splits the byte stream outside the format, so joining the parts
/// again is the inverse operation.
#[derive(Debug)]
pub struct MultiInStream {
    pub starts: Vec<u64>,
    pub lengths: Vec<u64>,
    pub cursors: Vec<Option<u64>>,
    pub total_length: u64,
    pub position: u64,
}

/// A read that has been started: where it stands and what is still wanted.
#[derive(Debug, Clone, Copy, PartialEq, Eq, Structural)]
pub struct PendingRead {
    pub position: u64,
    pub remaining: usize,
}

/// The next thing a read needs.
#[derive(Debug, Clone, Copy, PartialEq, Eq, Structural)]
pub enum ReadStep {
    /// The read is complete.
    Done,
    /// Move volume `index` as told, to `local`, and read up to `amount` bytes.
    Read { index: usize, seek: BufferedSeek, local: u64, amount: usize },
}

/// How a step of a read went.
#[derive(Debug, Clone, Copy, PartialEq, Eq, Structural)]
pub enum ReadOutcome {
    SeekFailed,
    ReadFailed,
    Read(usize),
}

impl MultiInStream {
    /// The volumes are laid out one after the other, without gaps.
    pub open spec fn well_formed(self) -> bool {
        &&& self.lengths@.len() > 0
        &&& self.cursors@.len() == self.lengths@.len()
        &&& starts_of(self.starts@, self.lengths@)
        &&& self.total_length == sum_to(self.lengths@, self.lengths@.len() as int)
    }

    /// Joins volumes of the given lengths, each opened at its start.
    pub fn open(lengths: Vec<u64>) -> (stream: ArchiveResult<MultiInStream>)
        ensures
            match stream {
                Ok(stream) => {
                    &&& stream.well_formed()
                    &&& stream.lengths@ == lengths@
                    &&& stream.position == 0
                    &&& forall|i: int|
                        0 <= i < lengths@.len() ==> #[trigger] stream.cursors@[i] == Some(0u64)
                },
                Err(error) => if lengths@.len() == 0 {
                    error@ == ErrorView::InvalidInput("split archive has no volume files"@)
                } else {
                    sum_to(lengths@, lengths@.len() as int) > u64::MAX && error@
                        == ErrorView::LimitExceeded("split archive size overflow"@)
                },
            },
    {
        if lengths.len() == 0 {
            return Err(
                ArchiveError::InvalidInput("split archive has no volume files".to_owned()),
            );
        }
        match lay_out(&lengths) {
            None => Err(ArchiveError::LimitExceeded("split archive size overflow".to_owned())),
            Some((starts, total_length)) => {
                let mut cursors: Vec<Option<u64>> = Vec::new();
                let mut i: usize = 0;
                while i < lengths.len()
                    invariant
                        i <= lengths@.len(),
                        cursors@.len() == i,
                        forall|k: int| 0 <= k < i ==> #[trigger] cursors@[k] == Some(0u64),
                    decreases lengths@.len() - i,
                {
                    cursors.push(Some(0));
                    i += 1;
                }
                Ok(MultiInStream { starts, lengths, cursors, total_length, position: 0 })
            },
        }
    }

    /// The volume that holds a position.
    pub fn volume_index(&self, position: u64) -> (index: usize)
        requires
            self.well_formed(),
        ensures
            holds_position(self.starts@, position, index as int),
    {
        proof {
            lemma_starts_sorted(self.starts@, self.lengths@);
        }
        find_volume(&self.starts, position)
    }

    /// Starts a read of `size` bytes at the stream's position.
    pub fn begin_read(&self, size: usize) -> (read: PendingRead)
        ensures
            read == (PendingRead { position: self.position, remaining: size }),
    {
        PendingRead { position: self.position, remaining: size }
    }

    /// The next step of a read: the part of it that the volume at the read's
    /// position can give, or the end of the read.
    pub fn next_read(&self, read: PendingRead) -> (step: ReadStep)
        requires
            self.well_formed(),
        ensures
            match step {
                ReadStep::Done => read.remaining == 0 || read.position >= self.total_length,
                ReadStep::Read { index, seek, local, amount } => {
                    &&& read.remaining != 0
                    &&& read.position < self.total_length
                    &&& holds_position(self.starts@, read.position, index as int)
                    &&& local == read.position - self.starts@[index as int]
                    &&& 0 < amount <= read.remaining
                    &&& amount <= self.lengths@[index as int] - local
                    &&& amount == read.remaining || amount == self.lengths@[index as int] - local
                    &&& match seek {
                        BufferedSeek::Relative(offset) => self.cursors@[index as int] is Some
                            && self.cursors@[index as int]->0 + offset == local,
                        BufferedSeek::Absolute(target) => target == local && (
                        self.cursors@[index as int] is None || local
                            - self.cursors@[index as int]->0 < i64::MIN || local
                            - self.cursors@[index as int]->0 > i64::MAX),
                    }
                },
            },
    {
        if read.remaining == 0 || read.position >= self.total_length {
            return ReadStep::Done;
        }
        let index: usize = self.volume_index(read.position);
        let local: u64 = read.position - self.starts[index];
        proof {
            lemma_position_inside(self.starts@, self.lengths@, read.position, index as int);
        }
        let available: u64 = self.lengths[index] - local;
        let amount: usize = if (read.remaining as u64) <= available {
            read.remaining
        } else {
            available as usize
        };
        let seek = streams::seek_buffered(self.cursors[index], local);
        ReadStep::Read { index, seek, local, amount }
    }

    /// Takes the outcome of a step that [`MultiInStream::next_read`] asked
    /// for. A step that fails, or that reads nothing, fails the whole read;
    /// the stream's own position then stays where it was.
    pub fn step_read(
        &mut self,
        read: &mut PendingRead,
        index: usize,
        local: u64,
        outcome: ReadOutcome,
    ) -> (code: i32)
        requires
            old(self).well_formed(),
            index < old(self).lengths@.len(),
            outcome matches ReadOutcome::Read(count) ==> count <= old(read).remaining && local
                + count <= u64::MAX && old(read).position + count <= u64::MAX,
        ensures
            final(self).well_formed(),
            final(self).starts == old(self).starts,
            final(self).lengths == old(self).lengths,
            final(self).position == old(self).position,
            match outcome {
                ReadOutcome::SeekFailed => code == E_FAIL && *final(read) == *old(read)
                    && final(self).cursors@ == old(self).cursors@.update(index as int, None),
                ReadOutcome::ReadFailed => code == E_FAIL && *final(read) == *old(read)
                    && final(self).cursors@ == old(self).cursors@.update(index as int, None),
                ReadOutcome::Read(count) => {
                    &&& code == if count == 0 {
                        E_FAIL
                    } else {
                        S_OK
                    }
                    &&& final(self).cursors@ == old(self).cursors@.update(
                        index as int,
                        Some((local + count) as u64),
                    )
                    &&& *final(read) == PendingRead {
                        position: (old(read).position + count) as u64,
                        remaining: (old(read).remaining - count) as usize,
                    }
                },
            },
    {
        match outcome {
            ReadOutcome::SeekFailed => {
                self.cursors.set(index, None);
                E_FAIL
            },
            ReadOutcome::ReadFailed => {
                self.cursors.set(index, None);
                E_FAIL
            },
            ReadOutcome::Read(count) => {
                self.cursors.set(index, Some(local + count as u64));
                read.position = read.position + count as u64;
                read.remaining = read.remaining - count;
                if count == 0 {
                    E_FAIL
                } else {
                    S_OK
                }
            },
        }
    }

    /// Ends a read of `size` bytes: the stream stands behind what was read,
    /// and the number of bytes read is returned.
    pub fn finish_read(&mut self, read: PendingRead, size: usize) -> (processed: usize)
        requires
            read.remaining <= size,
        ensures
            processed == size - read.remaining,
            *final(self) == (MultiInStream { position: read.position, ..*old(self) }),
    {
        self.position = read.position;
        size - read.remaining
    }

    /// The position that a seek counts from.
    pub open spec fn seek_base(self, origin: u32) -> Option<u64> {
        if origin == SEEK_SET {
            Some(0)
        } else if origin == SEEK_CUR {
            Some(self.position)
        } else if origin == SEEK_END {
            Some(self.total_length)
        } else {
            None
        }
    }

    /// Moves the stream. Positions behind the end are allowed; a position
    /// that is no 64-bit number is refused, and so is an unknown origin.
    pub fn seek(&mut self, offset: i64, origin: u32) -> (position: Result<u64, i32>)
        ensures
            position == match old(self).seek_base(origin) {
                None => Err::<u64, i32>(E_INVALIDARG),
                Some(base) => match streams::moved(base, offset) {
                    None => Err::<u64, i32>(E_FAIL),
                    Some(position) => Ok::<u64, i32>(position),
                },
            },
            *final(self) == (MultiInStream {
                position: if position is Ok { position->Ok_0 } else { old(self).position },
                ..*old(self)
            }),
    {
        let base: u64 = if origin == SEEK_SET {
            0
        } else if origin == SEEK_CUR {
            self.position
        } else if origin == SEEK_END {
            self.total_length
        } else {
            return Err(E_INVALIDARG);
        };
        match streams::move_from(base, offset) {
            None => Err(E_FAIL),
            Some(position) => {
                self.position = position;
                Ok(position)
            },
        }
    }
}

// ---------------------------------------------------------------------------
// The ZIP reader's input
// ---------------------------------------------------------------------------

/// The input of the ZIP reader: one file or several volumes, read at explicit
/// offsets. Clones of the handles keep independent positions.
#[derive(Debug)]
pub struct ZipInput {
    pub starts: Vec<u64>,
    pub lengths: Vec<u64>,
    pub length: u64,
    pub position: u64,
}

/// What a read of the ZIP input asks of the files.
#[derive(Debug, Clone, Copy, PartialEq, Eq, Structural)]
pub enum ZipRead {
    /// Nothing is left to read.
    End,
    /// Read up to `count` bytes of file `index` from `offset`.
    At { index: usize, offset: u64, count: usize },
}

/// A copy of a list of numbers.
fn copy_numbers(list: &Vec<u64>) -> (copy: Vec<u64>)
    ensures
        copy@ == list@,
{
    let mut copy: Vec<u64> = Vec::new();
    let mut i: usize = 0;
    while i < list.len()
        invariant
            i <= list@.len(),
            copy@ == list@.take(i as int),
        decreases list@.len() - i,
    {
        copy.push(list[i]);
        i += 1;
        proof {
            assert(list@.take(i as int) =~= list@.take(i - 1).push(list@[i - 1]));
        }
    }
    proof {
        assert(list@.take(i as int) =~= list@);
    }
    copy
}

impl ZipInput {
    /// The volumes are laid out one after the other.
    pub open spec fn well_formed(self) -> bool {
        &&& self.lengths@.len() > 0
        &&& starts_of(self.starts@, self.lengths@)
        &&& self.length == sum_to(self.lengths@, self.lengths@.len() as int)
    }

    /// Joins files of the given lengths; there is at least one.
    pub fn open(lengths: Vec<u64>) -> (input: ArchiveResult<ZipInput>)
        requires
            lengths@.len() > 0,
        ensures
            match input {
                Ok(input) => input.well_formed() && input.lengths@ == lengths@ && input.position
                    == 0,
                Err(error) => sum_to(lengths@, lengths@.len() as int) > u64::MAX && error@
                    == ErrorView::LimitExceeded("ZIP volume size overflow"@),
            },
    {
        match lay_out(&lengths) {
            None => Err(ArchiveError::LimitExceeded("ZIP volume size overflow".to_owned())),
            Some((starts, length)) => Ok(ZipInput { starts, lengths, length, position: 0 }),
        }
    }

    /// Another input of the same volumes, at the same position. It moves on its
    /// own.
    pub fn copy(&self) -> (input: ZipInput)
        ensures
            input.starts@ == self.starts@,
            input.lengths@ == self.lengths@,
            input.length == self.length,
            input.position == self.position,
            self.well_formed() ==> input.well_formed(),
    {
        ZipInput {
            starts: copy_numbers(&self.starts),
            lengths: copy_numbers(&self.lengths),
            length: self.length,
            position: self.position,
        }
    }

    /// Where the next `wanted` bytes come from. One read stays in one volume.
    pub fn read(&self, wanted: usize) -> (read: ZipRead)
        requires
            self.well_formed(),
        ensures
            match read {
                ZipRead::End => wanted == 0 || self.position >= self.length,
                ZipRead::At { index, offset, count } => {
                    &&& wanted != 0
                    &&& self.position < self.length
                    &&& holds_position(self.starts@, self.position, index as int)
                    &&& offset == self.position - self.starts@[index as int]
                    &&& 0 < count <= wanted
                    &&& count <= self.lengths@[index as int] - offset
                    &&& count == wanted || count == self.lengths@[index as int] - offset
                },
            },
    {
        if wanted == 0 || self.position >= self.length {
            return ZipRead::End;
        }
        proof {
            lemma_starts_sorted(self.starts@, self.lengths@);
        }
        let index: usize = find_volume(&self.starts, self.position);
        proof {
            lemma_position_inside(self.starts@, self.lengths@, self.position, index as int);
        }
        let offset: u64 = self.position - self.starts[index];
        let available: u64 = self.lengths[index] - offset;
        let count: usize = if (wanted as u64) <= available {
            wanted
        } else {
            available as usize
        };
        ZipRead::At { index, offset, count }
    }

    /// Moves past the bytes that a read returned.
    pub fn advance(&mut self, amount: usize)
        requires
            old(self).position + amount <= u64::MAX,
        ensures
            *final(self) == (ZipInput {
                position: (old(self).position + amount) as u64,
                ..*old(self)
            }),
    {
        self.position = self.position + amount as u64;
    }

    /// The position that a seek asks for, as a whole number.
    pub open spec fn sought(self, target: SeekTarget) -> int {
        match target {
            SeekTarget::Start(value) => value as int,
            SeekTarget::Current(value) => self.position + value,
            SeekTarget::End(value) => self.length + value,
        }
    }

    /// Moves the input. A position that is no 64-bit number is refused with
    /// the text of the error.
    pub fn seek(&mut self, target: SeekTarget) -> (position: Result<u64, String>)
        ensures
            match position {
                Ok(position) => position == old(self).sought(target) && *final(self) == (
                ZipInput { position, ..*old(self) }),
                Err(message) => !(0 <= old(self).sought(target) <= u64::MAX) && message@
                    == "invalid ZIP seek"@ && *final(self) == *old(self),
            },
    {
        let wide: i128 = match target {
            SeekTarget::Start(value) => value as i128,
            SeekTarget::Current(value) => (self.position as i128) + (value as i128),
            SeekTarget::End(value) => (self.length as i128) + (value as i128),
        };
        if wide < 0 || wide > u64::MAX as i128 {
            return Err("invalid ZIP seek".to_owned());
        }
        self.position = wide as u64;
        Ok(self.position)
    }
}

/// Volumes follow one another: one more adds its bytes at the end, and the
/// length of all is that of each, added up.
pub proof fn law_volumes_follow_one_another(
    volumes: Seq<Seq<u8>>,
    last: Seq<u8>,
    lengths: Seq<u64>,
)
    ensures
        joined(Seq::<Seq<u8>>::empty()).len() == 0,
        joined(volumes.push(last)) == joined(volumes) + last,
        lengths_of(lengths, volumes) ==> sum_to(lengths, lengths.len() as int) == joined(
            volumes,
        ).len(),
    decreases volumes.len(),
{
    assert(volumes.push(last).drop_last() =~= volumes);
    if lengths_of(lengths, volumes) && volumes.len() > 0 {
        let less = volumes.drop_last();
        let shorter = lengths.drop_last();
        assert forall|i: int| 0 <= i < shorter.len() implies #[trigger] shorter[i]
            == less[i].len() by {
            assert(shorter[i] == lengths[i]);
            assert(less[i] == volumes[i]);
        }
        law_volumes_follow_one_another(less, last, shorter);
        lemma_sum_of_the_first(lengths, shorter, shorter.len() as int);
    }
}

/// A sum of the first lengths does not depend on what follows them.
proof fn lemma_sum_of_the_first(lengths: Seq<u64>, shorter: Seq<u64>, n: int)
    requires
        0 <= n <= shorter.len() <= lengths.len(),
        forall|i: int| 0 <= i < shorter.len() ==> #[trigger] shorter[i] == lengths[i],
    ensures
        sum_to(lengths, n) == sum_to(shorter, n),
    decreases n,
{
    if n > 0 {
        lemma_sum_of_the_first(lengths, shorter, n - 1);
        assert(shorter[n - 1] == lengths[n - 1]);
    }
}

} // verus!
