//! Indexed source-byte ranges for progress reports from codec workers.

use vstd::prelude::*;

verus! {

/// The bytes of the files among the first `n` items, up to the largest
/// 64-bit number.
pub open spec fn bytes_before(items: Seq<(u64, bool)>, n: int) -> u64
    decreases n,
{
    if n <= 0 {
        0
    } else {
        let before = bytes_before(items, n - 1);
        if !items[n - 1].1 {
            before
        } else if before + items[n - 1].0 > u64::MAX {
            u64::MAX
        } else {
            (before + items[n - 1].0) as u64
        }
    }
}

/// Whether an item is a file that has bytes.
pub open spec fn has_bytes(items: Seq<(u64, bool)>, i: int) -> bool {
    items[i].1 && items[i].0 != 0
}

/// The number of files among the first `n` items that are complete once
/// `completed` bytes are.
pub open spec fn complete_count(items: Seq<(u64, bool)>, completed: u64, n: int) -> int
    decreases n,
{
    if n <= 0 {
        0
    } else {
        complete_count(items, completed, n - 1) + if items[n - 1].1 && bytes_before(items, n)
            <= completed {
            1int
        } else {
            0
        }
    }
}

/// Whether item `i` is the one shown once `completed` bytes are done: the
/// first whose bytes reach up to there, else the last that has any.
pub open spec fn is_current(items: Seq<(u64, bool)>, completed: u64, i: int) -> bool {
    &&& 0 <= i < items.len()
    &&& has_bytes(items, i)
    &&& forall|k: int|
        #![trigger has_bytes(items, k)]
        0 <= k < i && has_bytes(items, k) ==> bytes_before(items, k + 1) < completed
    &&& bytes_before(items, i + 1) >= completed || forall|k: int|
        #![trigger has_bytes(items, k)]
        i < k < items.len() ==> !has_bytes(items, k)
}

/// The bytes of item `i` that are done once `completed` bytes are.
pub open spec fn current_bytes(items: Seq<(u64, bool)>, completed: u64, i: int) -> int {
    let start = bytes_before(items, i);
    let end = bytes_before(items, i + 1);
    let reached = if completed < end { completed } else { end };
    if reached < start { 0 } else { reached - start }
}

/// Answers which file a byte count of an operation lies in.
///
/// Only nonempty files have a visible range. The numbers of the items are
/// kept so that directories and empty files do not shift the shown name.
pub struct CompressionProgressIndex {
    pub ranges: Vec<(u64, usize)>,
    pub file_ends: Vec<u64>,
    pub items: Ghost<Seq<(u64, bool)>>,
}

/// The range ends and item numbers of the nonempty files among the first `n`.
pub open spec fn ranges_of(items: Seq<(u64, bool)>, n: int) -> Seq<(u64, usize)>
    decreases n,
{
    if n <= 0 {
        Seq::empty()
    } else if has_bytes(items, n - 1) {
        ranges_of(items, n - 1).push((bytes_before(items, n), (n - 1) as usize))
    } else {
        ranges_of(items, n - 1)
    }
}

/// The range ends of all files among the first `n`.
pub open spec fn ends_of(items: Seq<(u64, bool)>, n: int) -> Seq<u64>
    decreases n,
{
    if n <= 0 {
        Seq::empty()
    } else if items[n - 1].1 {
        ends_of(items, n - 1).push(bytes_before(items, n))
    } else {
        ends_of(items, n - 1)
    }
}

/// The bytes before an item only grow.
pub proof fn lemma_bytes_monotonic(items: Seq<(u64, bool)>, i: int, j: int)
    requires
        0 <= i <= j <= items.len(),
    ensures
        bytes_before(items, i) <= bytes_before(items, j),
    decreases j - i,
{
    if i < j {
        lemma_bytes_monotonic(items, i, j - 1);
    }
}

/// What the ranges hold: each is one nonempty file, in the order of the items.
pub proof fn lemma_ranges(items: Seq<(u64, bool)>, n: int)
    requires
        0 <= n <= items.len(),
        items.len() <= usize::MAX,
    ensures
        ranges_of(items, n).len() <= n,
        forall|r: int|
            0 <= r < ranges_of(items, n).len() ==> {
                let (end, i) = #[trigger] ranges_of(items, n)[r];
                i < n && has_bytes(items, i as int) && end == bytes_before(items, i + 1)
            },
        forall|r: int, q: int|
            0 <= r < q < ranges_of(items, n).len() ==> #[trigger] ranges_of(items, n)[r].1
                < #[trigger] ranges_of(items, n)[q].1,
        forall|i: int|
            0 <= i < n && #[trigger] has_bytes(items, i) ==> exists|r: int|
                0 <= r < ranges_of(items, n).len() && #[trigger] ranges_of(items, n)[r].1 == i,
    decreases n,
{
    if n > 0 {
        lemma_ranges(items, n - 1);
        let before = ranges_of(items, n - 1);
        let now = ranges_of(items, n);
        assert forall|i: int| 0 <= i < n && #[trigger] has_bytes(items, i) implies exists|r: int|
            0 <= r < now.len() && #[trigger] now[r].1 == i by {
            if i == n - 1 {
                assert(now[now.len() - 1].1 == i);
            } else {
                let r = choose|r: int| 0 <= r < before.len() && #[trigger] before[r].1 == i;
                assert(now[r] == before[r]);
            }
        }
    }
}

/// The file ends in order, and how many of them a byte count reaches.
pub proof fn lemma_ends(items: Seq<(u64, bool)>, completed: u64, n: int)
    requires
        0 <= n <= items.len(),
    ensures
        ends_of(items, n).len() <= n,
        forall|r: int|
            0 <= r < ends_of(items, n).len() ==> #[trigger] ends_of(items, n)[r] <= bytes_before(
                items,
                n,
            ),
        forall|r: int, q: int|
            0 <= r <= q < ends_of(items, n).len() ==> #[trigger] ends_of(items, n)[r]
                <= #[trigger] ends_of(items, n)[q],
        0 <= complete_count(items, completed, n) <= ends_of(items, n).len(),
        forall|r: int|
            0 <= r < ends_of(items, n).len() ==> (r < complete_count(items, completed, n)
                <==> #[trigger] ends_of(items, n)[r] <= completed),
    decreases n,
{
    if n > 0 {
        lemma_ends(items, completed, n - 1);
        let before = ends_of(items, n - 1);
        let now = ends_of(items, n);
        if items[n - 1].1 {
            assert forall|r: int| 0 <= r < now.len() implies (r < complete_count(
                items,
                completed,
                n,
            ) <==> #[trigger] now[r] <= completed) by {
                if r < before.len() {
                    assert(now[r] == before[r]);
                    if bytes_before(items, n) <= completed {
                        // All earlier ends are reached as well.
                        assert(before[r] <= bytes_before(items, n - 1));
                    }
                } else if bytes_before(items, n) <= completed && before.len() > 0 {
                    assert(before[before.len() - 1] <= completed);
                }
            }
        }
    }
}

impl CompressionProgressIndex {
    /// The ranges and ends are those of the items.
    pub open spec fn well_formed(self) -> bool {
        &&& self.items@.len() <= usize::MAX
        &&& self.ranges@ == ranges_of(self.items@, self.items@.len() as int)
        &&& self.file_ends@ == ends_of(self.items@, self.items@.len() as int)
    }

    /// Indexes items by their sizes; the flag tells a file from a directory.
    /// Directories do not contribute bytes.
    pub fn new(items: &Vec<(u64, bool)>) -> (index: CompressionProgressIndex)
        ensures
            index.well_formed(),
            index.items@ == items@,
    {
        let mut ranges: Vec<(u64, usize)> = Vec::new();
        let mut file_ends: Vec<u64> = Vec::new();
        let mut total: u64 = 0;
        let size: usize = items.len();
        let mut i: usize = 0;
        while i < items.len()
            invariant
                i <= size,
                size == items@.len(),
                total == bytes_before(items@, i as int),
                ranges@ == ranges_of(items@, i as int),
                file_ends@ == ends_of(items@, i as int),
            decreases size - i,
        {
            let (bytes, is_file) = items[i];
            if is_file {
                total = total.saturating_add(bytes);
                file_ends.push(total);
                if bytes != 0 {
                    ranges.push((total, i));
                }
            }
            i += 1;
        }
        CompressionProgressIndex { ranges, file_ends, items: Ghost(items@) }
    }

    /// The file that the `completed`th byte lies in, and how many of its bytes
    /// are done. At an exact boundary the completed file stays visible until
    /// work on the next one starts. The answer does not depend on earlier
    /// questions.
    pub fn current_file(&self, completed: u64) -> (current: Option<(usize, u64)>)
        requires
            self.well_formed(),
        ensures
            match current {
                Some((index, bytes)) => is_current(self.items@, completed, index as int) && bytes
                    == current_bytes(self.items@, completed, index as int),
                None => forall|i: int| 0 <= i < self.items@.len() ==> !has_bytes(self.items@, i),
            },
    {
        let ghost items = self.items@;
        let ghost n = items.len() as int;
        let ghost ranges = ranges_of(items, n);
        proof {
            lemma_ranges(items, n);
        }
        if self.ranges.len() == 0 {
            return None;
        }
        let mut low: usize = 0;
        let mut high: usize = self.ranges.len();
        while low < high
            invariant
                low <= high <= ranges.len(),
                self.ranges@ == ranges,
                ranges == ranges_of(items, n),
                n == items.len(),
                n <= usize::MAX,
                forall|r: int| 0 <= r < low ==> (#[trigger] ranges[r]).0 < completed,
                forall|r: int| high <= r < ranges.len() ==> (#[trigger] ranges[r]).0 >= completed,
            decreases high - low,
        {
            let middle: usize = low + (high - low) / 2;
            let end: u64 = self.ranges[middle].0;
            proof {
                lemma_ranges(items, n);
                assert forall|r: int, q: int| 0 <= r <= q < ranges.len() implies (
                #[trigger] ranges[r]).0 <= (#[trigger] ranges[q]).0 by {
                    if r < q {
                        assert(ranges[r].1 < ranges[q].1);
                    }
                    lemma_bytes_monotonic(items, ranges[r].1 + 1, ranges[q].1 + 1);
                }
            }
            if end < completed {
                low = middle + 1;
            } else {
                high = middle;
            }
        }
        let last: usize = self.ranges.len() - 1;
        let position: usize = if low < last { low } else { last };
        let (end, index) = self.ranges[position];
        let start: u64 = if position == 0 { 0 } else { self.ranges[position - 1].0 };
        proof {
            let i = index as int;
            assert(ranges[position as int] == (end, index));
            lemma_start(items, n, position as int);
            assert forall|k: int|
                #![trigger has_bytes(items, k)]
                0 <= k < i && has_bytes(items, k) implies bytes_before(items, k + 1)
                < completed by {
                let r = choose|r: int| 0 <= r < ranges.len() && #[trigger] ranges[r].1 == k;
                if r >= position {
                    if r > position {
                        assert(ranges[position as int].1 < ranges[r].1);
                    }
                }
                assert(ranges[r].0 < completed);
            }
            if position == last {
                assert forall|k: int|
                    #![trigger has_bytes(items, k)]
                    i < k < items.len() implies !has_bytes(items, k) by {
                    if has_bytes(items, k) {
                        let r = choose|r: int|
                            0 <= r < ranges.len() && #[trigger] ranges[r].1 == k;
                        if r < position {
                            assert(ranges[r].1 < ranges[position as int].1);
                        }
                    }
                }
            }
        }
        let reached: u64 = if completed < end { completed } else { end };
        let bytes: u64 = if reached < start { 0 } else { reached - start };
        Some((index, bytes))
    }

    /// The number of files that are complete once `completed` bytes are.
    /// Empty files count only after work on bytes has begun.
    pub fn completed_files(&self, completed: u64) -> (count: u64)
        requires
            self.well_formed(),
        ensures
            count == if completed == 0 {
                0
            } else {
                complete_count(self.items@, completed, self.items@.len() as int)
            },
    {
        if completed == 0 {
            return 0;
        }
        let ghost items = self.items@;
        let ghost n = items.len() as int;
        let ghost ends = ends_of(items, n);
        proof {
            lemma_ends(items, completed, n);
        }
        let mut low: usize = 0;
        let mut high: usize = self.file_ends.len();
        while low < high
            invariant
                low <= high <= ends.len(),
                self.file_ends@ == ends,
                ends == ends_of(items, n),
                n == items.len(),
                forall|r: int| 0 <= r < low ==> #[trigger] ends[r] <= completed,
                forall|r: int| high <= r < ends.len() ==> #[trigger] ends[r] > completed,
            decreases high - low,
        {
            let middle: usize = low + (high - low) / 2;
            proof {
                lemma_ends(items, completed, n);
            }
            if self.file_ends[middle] <= completed {
                low = middle + 1;
            } else {
                high = middle;
            }
        }
        proof {
            let count = complete_count(items, completed, n);
            if low < count {
                assert(ends[low as int] <= completed);
            }
            if count < low {
                assert(ends[count] <= completed);
            }
        }
        low as u64
    }
}

/// A range starts where the one before it ends.
pub proof fn lemma_start(items: Seq<(u64, bool)>, n: int, position: int)
    requires
        0 <= n <= items.len(),
        items.len() <= usize::MAX,
        0 <= position < ranges_of(items, n).len(),
    ensures
        bytes_before(items, ranges_of(items, n)[position].1 as int) == if position == 0 {
            0
        } else {
            ranges_of(items, n)[position - 1].0
        },
    decreases n,
{
    let now = ranges_of(items, n);
    if n > 0 {
        let before = ranges_of(items, n - 1);
        if position < before.len() {
            lemma_start(items, n - 1, position);
        } else {
            // The range of the last item: nothing between has bytes.
            lemma_gap(items, n - 1);
        }
    }
}

/// The bytes before item `n` are the end of the last range before it.
pub proof fn lemma_gap(items: Seq<(u64, bool)>, n: int)
    requires
        0 <= n <= items.len(),
    ensures
        bytes_before(items, n) == if ranges_of(items, n).len() == 0 {
            0
        } else {
            ranges_of(items, n).last().0
        },
    decreases n,
{
    if n > 0 {
        lemma_gap(items, n - 1);
    }
}

/// Files are complete in order: more bytes never make fewer files complete.
pub proof fn law_completed_files_grow(items: Seq<(u64, bool)>, a: u64, b: u64, n: int)
    requires
        a <= b,
        0 <= n <= items.len(),
    ensures
        complete_count(items, a, n) <= complete_count(items, b, n),
    decreases n,
{
    if n > 0 {
        law_completed_files_grow(items, a, b, n - 1);
    }
}

/// There is one shown file for a byte count, however the counts arrive.
pub proof fn law_current_file_is_unique(items: Seq<(u64, bool)>, completed: u64, i: int, j: int)
    requires
        is_current(items, completed, i),
        is_current(items, completed, j),
    ensures
        i == j,
{
    if i < j {
        assert(has_bytes(items, i));
        assert(has_bytes(items, j));
    }
    if j < i {
        assert(has_bytes(items, i));
        assert(has_bytes(items, j));
    }
}

/// How many of the first `n` items are files.
pub open spec fn files_before(items: Seq<(u64, bool)>, n: int) -> int
    decreases n,
{
    if n <= 0 {
        0
    } else if items[n - 1].1 {
        files_before(items, n - 1) + 1
    } else {
        files_before(items, n - 1)
    }
}

/// The sizes of the files among the first `n` items, added up.
pub open spec fn file_bytes(items: Seq<(u64, bool)>, n: int) -> int
    decreases n,
{
    if n <= 0 {
        0
    } else if items[n - 1].1 {
        file_bytes(items, n - 1) + items[n - 1].0
    } else {
        file_bytes(items, n - 1)
    }
}

/// A file is complete once the bytes up to its end are done: all of them are
/// at the end, and the bytes before an item are those of the files before it.
pub proof fn law_all_files_are_complete_at_the_end(
    items: Seq<(u64, bool)>,
    completed: u64,
    n: int,
)
    requires
        0 <= n <= items.len(),
        file_bytes(items, n) <= u64::MAX,
    ensures
        0 <= bytes_before(items, n) == file_bytes(items, n),
        completed >= file_bytes(items, n) ==> complete_count(items, completed, n) == files_before(
            items,
            n,
        ),
    decreases n,
{
    if n > 0 {
        lemma_file_bytes(items, n - 1);
        law_all_files_are_complete_at_the_end(items, completed, n - 1);
    }
}

/// A sum of sizes is not negative.
proof fn lemma_file_bytes(items: Seq<(u64, bool)>, n: int)
    ensures
        0 <= file_bytes(items, n) <= file_bytes(items, n + 1),
    decreases n,
{
    if n > 0 {
        lemma_file_bytes(items, n - 1);
    }
}

/// A file that begins and ends beyond what is done is not complete, and
/// nothing of it is done.
pub proof fn law_later_files_are_not_complete(items: Seq<(u64, bool)>, completed: u64, i: int)
    requires
        0 <= i < items.len(),
        items[i].1,
    ensures
        bytes_before(items, i + 1) > completed ==> complete_count(items, completed, i + 1)
            == complete_count(items, completed, i),
        bytes_before(items, i + 1) <= completed ==> complete_count(items, completed, i + 1)
            == complete_count(items, completed, i) + 1,
        bytes_before(items, i) >= completed ==> current_bytes(items, completed, i) == 0,
        bytes_before(items, i) <= completed <= bytes_before(items, i + 1) ==> current_bytes(
            items,
            completed,
            i,
        ) == completed - bytes_before(items, i),
        bytes_before(items, i) <= bytes_before(items, i + 1) <= completed ==> current_bytes(
            items,
            completed,
            i,
        ) == bytes_before(items, i + 1) - bytes_before(items, i),
{
}

} // verus!
