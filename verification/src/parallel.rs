//! Progress of several workers on one operation, and how work is shared out.

use vstd::prelude::*;
use vstd::string::*;
use crate::error::{ArchiveError, ArchiveResult, ErrorView};
use crate::extracting;
use crate::options;
use crate::options::{OperationSummary, SummaryView};
use crate::progress::{ProgressPhase, ProgressSnapshot, SnapshotView};
use crate::streams;

verus! {

/// What one worker reported last.
#[derive(Debug)]
pub struct ParallelWorkerState {
    pub sequence: u64,
    pub current_file: String,
    pub current_file_bytes_processed: u64,
    pub current_file_total_bytes: Option<u64>,
    pub entries_processed: u64,
    pub bytes_processed: u64,
    pub phase: ProgressPhase,
}

/// Adds up the progress of several workers.
#[derive(Debug)]
pub struct ParallelProgress {
    pub sequence: u64,
    pub workers: Vec<ParallelWorkerState>,
}

/// The entries that all workers have done.
pub open spec fn total_entries(workers: Seq<ParallelWorkerState>) -> int
    decreases workers.len(),
{
    if workers.len() == 0 {
        0
    } else {
        total_entries(workers.drop_last()) + workers.last().entries_processed
    }
}

/// The bytes that all workers have done.
pub open spec fn total_bytes(workers: Seq<ParallelWorkerState>) -> int
    decreases workers.len(),
{
    if workers.len() == 0 {
        0
    } else {
        total_bytes(workers.drop_last()) + workers.last().bytes_processed
    }
}

/// A worker's state after it reported: its counters never go back.
pub open spec fn reported(
    worker: ParallelWorkerState,
    sequence: u64,
    snapshot: ProgressSnapshot,
) -> ParallelWorkerState {
    ParallelWorkerState {
        sequence,
        current_file: snapshot.current_file,
        current_file_bytes_processed: snapshot.current_file_bytes_processed,
        current_file_total_bytes: snapshot.current_file_total_bytes,
        entries_processed: streams::larger(
            worker.entries_processed as int,
            snapshot.entries_processed as int,
        ) as u64,
        bytes_processed: streams::larger(
            worker.bytes_processed as int,
            snapshot.bytes_processed as int,
        ) as u64,
        phase: snapshot.phase,
    }
}

/// The workers after one of them reported.
pub open spec fn workers_after(
    workers: Seq<ParallelWorkerState>,
    sequence: u64,
    index: int,
    snapshot: ProgressSnapshot,
) -> Seq<ParallelWorkerState> {
    workers.update(index, reported(workers[index], sequence, snapshot))
}

/// Whether worker `i` is the one that reported last.
pub open spec fn is_latest(workers: Seq<ParallelWorkerState>, i: int) -> bool {
    &&& 0 <= i < workers.len()
    &&& forall|k: int| 0 <= k < workers.len() ==> (#[trigger] workers[k]).sequence
        <= workers[i].sequence
    &&& forall|k: int| i < k < workers.len() ==> (#[trigger] workers[k]).sequence
        < workers[i].sequence
}

/// The snapshot of the whole operation: the file of the latest report, and
/// the sums of what the workers have done.
pub open spec fn combined(
    workers: Seq<ParallelWorkerState>,
    latest: int,
    s: SnapshotView,
) -> SnapshotView {
    SnapshotView {
        phase: workers[latest].phase,
        current_file: workers[latest].current_file@,
        current_file_bytes_processed: workers[latest].current_file_bytes_processed,
        current_file_total_bytes: workers[latest].current_file_total_bytes,
        entries_processed: total_entries(workers) as u64,
        bytes_processed: total_bytes(workers) as u64,
        ..s
    }
}

/// The sums of a prefix are no larger.
pub proof fn lemma_totals_monotonic(workers: Seq<ParallelWorkerState>, n: int)
    requires
        0 <= n <= workers.len(),
    ensures
        0 <= total_entries(workers.take(n)) <= total_entries(workers),
        0 <= total_bytes(workers.take(n)) <= total_bytes(workers),
    decreases workers.len(),
{
    if n == workers.len() {
        assert(workers.take(n) =~= workers);
        if n > 0 {
            lemma_totals_monotonic(workers.drop_last(), n - 1);
            assert(workers.drop_last().take(n - 1) =~= workers.drop_last());
        }
    } else {
        lemma_totals_monotonic(workers.drop_last(), n);
        assert(workers.drop_last().take(n) =~= workers.take(n));
    }
}

/// One worker's report changes the sums by what it adds.
pub proof fn lemma_totals_update(
    workers: Seq<ParallelWorkerState>,
    i: int,
    worker: ParallelWorkerState,
)
    requires
        0 <= i < workers.len(),
    ensures
        total_entries(workers.update(i, worker)) == total_entries(workers)
            - workers[i].entries_processed + worker.entries_processed,
        total_bytes(workers.update(i, worker)) == total_bytes(workers) - workers[i].bytes_processed
            + worker.bytes_processed,
    decreases workers.len(),
{
    let changed = workers.update(i, worker);
    if i == workers.len() - 1 {
        assert(changed.drop_last() =~= workers.drop_last());
    } else {
        assert(changed.drop_last() =~= workers.drop_last().update(i, worker));
        assert(workers.drop_last()[i] == workers[i]);
        lemma_totals_update(workers.drop_last(), i, worker);
    }
}

/// The progress of the whole operation never goes back, whichever worker
/// reports and whatever it says.
pub proof fn law_parallel_progress_never_goes_back(
    workers: Seq<ParallelWorkerState>,
    sequence: u64,
    index: int,
    snapshot: ProgressSnapshot,
)
    requires
        0 <= index < workers.len(),
    ensures
        total_bytes(workers_after(workers, sequence, index, snapshot)) >= total_bytes(workers),
        total_entries(workers_after(workers, sequence, index, snapshot)) >= total_entries(workers),
{
    lemma_totals_update(workers, index, reported(workers[index], sequence, snapshot));
}

impl ParallelProgress {
    /// Workers that have not reported yet.
    pub fn new(worker_count: usize) -> (progress: ParallelProgress)
        ensures
            progress.sequence == 0,
            progress.workers@.len() == worker_count,
            forall|i: int|
                0 <= i < worker_count ==> {
                    let worker = #[trigger] progress.workers@[i];
                    &&& worker.sequence == 0
                    &&& worker.current_file@ == Seq::<char>::empty()
                    &&& worker.current_file_bytes_processed == 0
                    &&& worker.current_file_total_bytes is None
                    &&& worker.entries_processed == 0
                    &&& worker.bytes_processed == 0
                    &&& worker.phase == ProgressPhase::Extracting
                },
    {
        let mut workers: Vec<ParallelWorkerState> = Vec::new();
        let mut i: usize = 0;
        while i < worker_count
            invariant
                i <= worker_count,
                workers@.len() == i,
                forall|k: int|
                    0 <= k < i ==> {
                        let worker = #[trigger] workers@[k];
                        &&& worker.sequence == 0
                        &&& worker.current_file@ == Seq::<char>::empty()
                        &&& worker.current_file_bytes_processed == 0
                        &&& worker.current_file_total_bytes is None
                        &&& worker.entries_processed == 0
                        &&& worker.bytes_processed == 0
                        &&& worker.phase == ProgressPhase::Extracting
                    },
            decreases worker_count - i,
        {
            workers.push(
                ParallelWorkerState {
                    sequence: 0,
                    current_file: String::new(),
                    current_file_bytes_processed: 0,
                    current_file_total_bytes: None,
                    entries_processed: 0,
                    bytes_processed: 0,
                    phase: ProgressPhase::Extracting,
                },
            );
            i += 1;
        }
        ParallelProgress { sequence: 0, workers }
    }

    /// Takes one worker's snapshot and gives that of the whole operation. The
    /// file of the latest report is shown; counters are added up. Reports of
    /// workers that do not exist are dropped.
    pub fn report(&mut self, worker_index: usize, snapshot: ProgressSnapshot) -> (shown: Option<
        ProgressSnapshot,
    >)
        requires
            worker_index < old(self).workers@.len() ==> {
                let after = workers_after(
                    old(self).workers@,
                    options::capped_sum(old(self).sequence, 1),
                    worker_index as int,
                    snapshot,
                );
                total_entries(after) <= u64::MAX && total_bytes(after) <= u64::MAX
            },
        ensures
            final(self).sequence == options::capped_sum(old(self).sequence, 1),
            worker_index >= old(self).workers@.len() ==> shown is None && final(self).workers@
                == old(self).workers@,
            worker_index < old(self).workers@.len() ==> {
                &&& final(self).workers@ == workers_after(
                    old(self).workers@,
                    final(self).sequence,
                    worker_index as int,
                    snapshot,
                )
                &&& shown is Some
                &&& exists|latest: int|
                    is_latest(final(self).workers@, latest) && shown->0@ == #[trigger] combined(
                        final(self).workers@,
                        latest,
                        snapshot@,
                    )
            },
    {
        self.sequence = self.sequence.saturating_add(1);
        if worker_index >= self.workers.len() {
            return None;
        }
        let mut entries: u64 = self.workers[worker_index].entries_processed;
        if snapshot.entries_processed > entries {
            entries = snapshot.entries_processed;
        }
        let mut bytes: u64 = self.workers[worker_index].bytes_processed;
        if snapshot.bytes_processed > bytes {
            bytes = snapshot.bytes_processed;
        }
        let worker = ParallelWorkerState {
            sequence: self.sequence,
            current_file: snapshot.current_file.clone(),
            current_file_bytes_processed: snapshot.current_file_bytes_processed,
            current_file_total_bytes: snapshot.current_file_total_bytes,
            entries_processed: entries,
            bytes_processed: bytes,
            phase: snapshot.phase,
        };
        self.workers.set(worker_index, worker);
        let ghost workers = self.workers@;
        let mut latest: usize = 0;
        let mut all_entries: u64 = 0;
        let mut all_bytes: u64 = 0;
        let mut i: usize = 0;
        proof {
            assert(workers.take(0) =~= Seq::<ParallelWorkerState>::empty());
        }
        while i < self.workers.len()
            invariant
                i <= self.workers@.len(),
                self.workers@ == workers,
                workers.len() > 0,
                latest < workers.len(),
                i == 0 ==> latest == 0,
                i > 0 ==> latest < i,
                forall|k: int| 0 <= k < i ==> (#[trigger] workers[k]).sequence
                    <= workers[latest as int].sequence,
                forall|k: int| latest < k < i ==> (#[trigger] workers[k]).sequence
                    < workers[latest as int].sequence,
                all_entries == total_entries(workers.take(i as int)),
                all_bytes == total_bytes(workers.take(i as int)),
                total_entries(workers) <= u64::MAX,
                total_bytes(workers) <= u64::MAX,
            decreases self.workers@.len() - i,
        {
            if self.workers[i].sequence >= self.workers[latest].sequence {
                latest = i;
            }
            proof {
                lemma_totals_monotonic(workers, i + 1);
                assert(workers.take(i + 1).drop_last() =~= workers.take(i as int));
                assert(workers.take(i + 1).last() == workers[i as int]);
            }
            all_entries = all_entries + self.workers[i].entries_processed;
            all_bytes = all_bytes + self.workers[i].bytes_processed;
            i += 1;
        }
        proof {
            assert(workers.take(i as int) =~= workers);
            assert(is_latest(workers, latest as int));
        }
        let mut shown = snapshot;
        shown.phase = self.workers[latest].phase;
        shown.current_file = self.workers[latest].current_file.clone();
        shown.current_file_bytes_processed = self.workers[latest].current_file_bytes_processed;
        shown.current_file_total_bytes = self.workers[latest].current_file_total_bytes;
        shown.entries_processed = all_entries;
        shown.bytes_processed = all_bytes;
        proof {
            assert(shown@ == combined(workers, latest as int, snapshot@));
        }
        Some(shown)
    }
}

// ---------------------------------------------------------------------------
// Sharing out work
// ---------------------------------------------------------------------------

/// The most workers that extract one archive natively.
pub const MAX_EXTRACT_WORKERS: usize = 8;

/// The fewest entries for which another worker is used.
pub const MIN_ENTRIES_PER_WORKER: usize = 128;

/// The number of workers for an extraction.
pub open spec fn extract_workers(cpus: int, entries: int) -> int {
    streams::larger(
        streams::smaller(
            streams::smaller(cpus, MAX_EXTRACT_WORKERS as int),
            entries / MIN_ENTRIES_PER_WORKER as int,
        ),
        1,
    )
}

/// The numbers of a share of the work.
pub open spec fn share(indices: Seq<u32>, size: int, i: int) -> Seq<u32> {
    indices.subrange(
        i * size,
        streams::smaller((i + 1) * size, indices.len() as int),
    )
}

/// Splits the entries of an extraction among workers, on a machine with
/// `cpus` processors: the shares follow each other, and all but the last have
/// the same size. With fewer than two workers there is one share.
pub fn share_entries(indices: &Vec<u32>, cpus: usize) -> (shares: Vec<Vec<u32>>)
    ensures
        ({
            let workers = extract_workers(cpus as int, indices@.len() as int);
            if workers < 2 {
                shares@.len() == 1 && shares@[0]@ == indices@
            } else {
                let size = (indices@.len() + workers - 1) / workers;
                &&& shares@.len() == (indices@.len() + size - 1) / size
                &&& shares@.len() <= workers
                &&& forall|i: int|
                    0 <= i < shares@.len() ==> (#[trigger] shares@[i])@ == share(indices@, size, i)
            }
        }),
{
    let mut workers: usize = cpus;
    if workers > MAX_EXTRACT_WORKERS {
        workers = MAX_EXTRACT_WORKERS;
    }
    let by_entries: usize = indices.len() / MIN_ENTRIES_PER_WORKER;
    if workers > by_entries {
        workers = by_entries;
    }
    if workers < 1 {
        workers = 1;
    }
    let mut shares: Vec<Vec<u32>> = Vec::new();
    if workers < 2 {
        shares.push(copy_range(indices, 0, indices.len()));
        proof {
            assert(indices@.subrange(0, indices@.len() as int) =~= indices@);
        }
        return shares;
    }
    let total: usize = indices.len();
    proof {
        assert(total as int / workers as int <= total as int / 2) by (nonlinear_arith)
            requires
                workers >= 2,
                total >= 0,
        ;
    }
    let size: usize = total / workers + if total % workers == 0 { 0usize } else { 1usize };
    let ghost n = total as int;
    let ghost w = workers as int;
    let ghost s = size as int;
    proof {
        assert(s == (n + w - 1) / w) by (nonlinear_arith)
            requires
                w >= 2,
                n >= 0,
                s == n / w + if n % w == 0 {
                    0int
                } else {
                    1int
                },
        ;
        assert(s >= 1) by (nonlinear_arith)
            requires
                w >= 2,
                n >= 1,
                s == (n + w - 1) / w,
        ;
        assert(s * w >= n) by (nonlinear_arith)
            requires
                w >= 2,
                n >= 0,
                s == (n + w - 1) / w,
        ;
        assert(0 * s == 0) by (nonlinear_arith);
    }
    let mut start: usize = 0;
    while start < total
        invariant
            total == indices@.len(),
            n == total,
            s == size,
            s >= 1,
            0 <= start <= total,
            shares@.len() * s >= start,
            start == total || start == shares@.len() * s,
            start < total ==> start == shares@.len() * s,
            start == total ==> shares@.len() > 0 && (shares@.len() - 1) * s < total,
            total > 0,
            forall|i: int|
                0 <= i < shares@.len() ==> (#[trigger] shares@[i])@ == share(indices@, s, i),
        decreases total - start,
    {
        let end: usize = if total - start > size { start + size } else { total };
        let ghost k = shares@.len() as int;
        let part = copy_range(indices, start, end);
        shares.push(part);
        proof {
            assert((k + 1) * s == k * s + s) by (nonlinear_arith);
            assert(part@ =~= share(indices@, s, k));
        }
        start = end;
    }
    proof {
        let k = shares@.len() as int;
        assert(k == (n + s - 1) / s) by (nonlinear_arith)
            requires
                s >= 1,
                k >= 1,
                (k - 1) * s < n,
                k * s >= n,
        ;
        assert(k <= w) by (nonlinear_arith)
            requires
                (k - 1) * s < n,
                s * w >= n,
                s >= 1,
        ;
    }
    shares
}

/// A copy of part of a list.
fn copy_range(list: &Vec<u32>, start: usize, end: usize) -> (out: Vec<u32>)
    requires
        start <= end <= list@.len(),
    ensures
        out@ == list@.subrange(start as int, end as int),
{
    let mut out: Vec<u32> = Vec::new();
    let mut i: usize = start;
    while i < end
        invariant
            start <= i <= end <= list@.len(),
            out@ == list@.subrange(start as int, i as int),
        decreases end - i,
    {
        out.push(list[i]);
        i += 1;
        proof {
            assert(list@.subrange(start as int, i as int) =~= list@.subrange(
                start as int,
                i - 1,
            ).push(list@[i - 1]));
        }
    }
    out
}

/// How a worker ended.
#[derive(Debug)]
pub enum WorkerOutcome {
    Done(OperationSummary),
    Failed(ArchiveError),
    Panicked,
}

/// The error of a worker, where it failed.
pub open spec fn worker_error(outcome: WorkerOutcome) -> Option<ErrorView> {
    match outcome {
        WorkerOutcome::Done(_) => None,
        WorkerOutcome::Failed(error) => Some(error@),
        WorkerOutcome::Panicked => Some(
            ErrorView::SevenZip("parallel ZIP extraction worker panicked"@),
        ),
    }
}

/// The summaries of the first `n` workers together.
pub open spec fn summed(outcomes: Seq<WorkerOutcome>, n: int) -> SummaryView
    decreases n,
{
    if n <= 0 {
        options::empty_summary()
    } else {
        match outcomes[n - 1] {
            WorkerOutcome::Done(summary) => options::merged_summary(
                summed(outcomes, n - 1),
                summary@,
            ),
            _ => summed(outcomes, n - 1),
        }
    }
}

/// The first error among the first `n` workers.
pub open spec fn first_error(outcomes: Seq<WorkerOutcome>, n: int) -> Option<ErrorView>
    decreases n,
{
    if n <= 0 {
        None
    } else if first_error(outcomes, n - 1) is Some {
        first_error(outcomes, n - 1)
    } else {
        worker_error(outcomes[n - 1])
    }
}

/// The results of workers that are joined one after the other.
#[derive(Debug)]
pub struct WorkerJoin {
    pub summary: OperationSummary,
    pub error: Option<ArchiveError>,
}

/// The error after one more worker: the first one stays.
pub open spec fn kept_error(error: Option<ErrorView>, outcome: WorkerOutcome) -> Option<ErrorView> {
    if error is Some {
        error
    } else {
        worker_error(outcome)
    }
}

impl WorkerJoin {
    /// No worker is joined yet.
    pub fn new() -> (joined: WorkerJoin)
        ensures
            joined.summary@ == options::empty_summary(),
            joined.error is None,
    {
        WorkerJoin { summary: OperationSummary::empty(), error: None }
    }

    /// Takes what came of the next worker. Returns whether the other workers
    /// are to be cancelled.
    pub fn join(&mut self, outcome: WorkerOutcome) -> (cancel: bool)
        ensures
            cancel == worker_error(outcome) is Some,
            final(self).summary@ == match outcome {
                WorkerOutcome::Done(summary) => options::merged_summary(
                    old(self).summary@,
                    summary@,
                ),
                _ => old(self).summary@,
            },
            extracting::option_error(final(self).error) == kept_error(
                extracting::option_error(old(self).error),
                outcome,
            ),
    {
        match outcome {
            WorkerOutcome::Done(worker) => {
                self.summary.merge(worker);
                false
            },
            WorkerOutcome::Failed(error) => {
                if self.error.is_none() {
                    self.error = Some(error);
                }
                true
            },
            WorkerOutcome::Panicked => {
                if self.error.is_none() {
                    self.error = Some(
                        ArchiveError::SevenZip(
                            "parallel ZIP extraction worker panicked".to_owned(),
                        ),
                    );
                }
                true
            },
        }
    }

    /// What the workers did together, or the first error.
    pub fn finish(self) -> (joined: ArchiveResult<OperationSummary>)
        ensures
            match joined {
                Ok(summary) => self.error is None && summary@ == self.summary@,
                Err(error) => extracting::option_error(self.error) == Some(error@),
            },
    {
        match self.error {
            Some(error) => Err(error),
            None => Ok(self.summary),
        }
    }
}

/// What all workers did together. The error of the first worker that failed,
/// in the order of the shares, is the one that is reported.
pub fn join_workers(outcomes: Vec<WorkerOutcome>) -> (joined: ArchiveResult<OperationSummary>)
    ensures
        match joined {
            Ok(summary) => first_error(outcomes@, outcomes@.len() as int) is None && summary@
                == summed(outcomes@, outcomes@.len() as int),
            Err(error) => first_error(outcomes@, outcomes@.len() as int) == Some(error@),
        },
{
    let ghost all = outcomes@;
    let mut outcomes = outcomes;
    let mut joined = WorkerJoin::new();
    let ghost mut taken: int = 0;
    proof {
        assert(all.subrange(0, all.len() as int) =~= all);
    }
    while outcomes.len() > 0
        invariant
            0 <= taken <= all.len(),
            outcomes@ == all.subrange(taken, all.len() as int),
            joined.summary@ == summed(all, taken),
            extracting::option_error(joined.error) == first_error(all, taken),
        decreases outcomes@.len(),
    {
        let outcome = outcomes.remove(0);
        proof {
            assert(outcome == all[taken]);
            taken = taken + 1;
            assert(outcomes@ =~= all.subrange(taken, all.len() as int));
        }
        joined.join(outcome);
    }
    joined.finish()
}

/// Every entry is in exactly one share, and the shares keep the order.
pub proof fn law_shares_cover_the_entries(indices: Seq<u32>, size: int, k: int)
    requires
        size >= 1,
        0 <= k < indices.len(),
    ensures
        0 <= k - (k / size) * size < share(indices, size, k / size).len(),
        share(indices, size, k / size)[k - (k / size) * size] == indices[k],
{
    let i = k / size;
    vstd::arithmetic::div_mod::lemma_fundamental_div_mod(k, size);
    assert(size * i == i * size) by (nonlinear_arith);
    assert((i + 1) * size == i * size + size) by (nonlinear_arith);
    assert(i >= 0) by (nonlinear_arith)
        requires
            k >= 0,
            size >= 1,
            i == k / size,
    ;
    assert(i * size >= 0) by (nonlinear_arith)
        requires
            i >= 0,
            size >= 1,
    ;
}

/// As many workers extract as there are processors, up to eight, but each has
/// at least 128 entries.
pub proof fn law_workers_follow_the_processors(cpus: int, entries: int)
    requires
        cpus >= 0,
        entries >= 0,
    ensures
        1 <= extract_workers(cpus, entries) <= 8,
        entries < 256 ==> extract_workers(cpus, entries) == 1,
        cpus <= 1 ==> extract_workers(cpus, entries) == 1,
        1 <= cpus <= 8 && entries >= 1024 ==> extract_workers(cpus, entries) == cpus,
        cpus >= 8 && entries >= 1024 ==> extract_workers(cpus, entries) == 8,
        extract_workers(cpus, entries) > 1 ==> extract_workers(cpus, entries) * 128 <= entries,
{
    let limit = entries / 128;
    assert(limit * 128 <= entries < (limit + 1) * 128);
}

/// What the workers did is added up, and the first failure among them is the
/// failure of all.
pub proof fn law_workers_are_joined(outcomes: Seq<WorkerOutcome>, n: int, i: int)
    requires
        0 <= i < n <= outcomes.len(),
    ensures
        (forall|k: int| 0 <= k < n ==> (#[trigger] outcomes[k]) is Done) ==> first_error(
            outcomes,
            n,
        ) is None,
        !(outcomes[i] is Done) && (forall|k: int| 0 <= k < i ==> (#[trigger] outcomes[k]) is Done)
            ==> first_error(outcomes, n) == worker_error(outcomes[i]) && worker_error(outcomes[i])
            is Some,
        outcomes[n - 1] is Done ==> summed(outcomes, n) == options::merged_summary(
            summed(outcomes, n - 1),
            outcomes[n - 1]->Done_0@,
        ),
        summed(outcomes, 0) == options::empty_summary(),
    decreases n,
{
    if n > 1 {
        law_workers_are_joined(
            outcomes,
            n - 1,
            if i < n - 1 {
                i
            } else {
                0
            },
        );
        if i == n - 1 && (forall|k: int| 0 <= k < i ==> (#[trigger] outcomes[k]) is Done) {
            assert(first_error(outcomes, n - 1) is None);
        }
    } else {
        assert(first_error(outcomes, 0) is None);
    }
}

/// What a worker reports is shown as it is; its counts never go back, and a
/// worker that reports alone is all there is.
pub proof fn law_reports_of_a_worker(
    worker: ParallelWorkerState,
    sequence: u64,
    snapshot: ProgressSnapshot,
)
    ensures
        reported(worker, sequence, snapshot).current_file == snapshot.current_file,
        reported(worker, sequence, snapshot).phase == snapshot.phase,
        reported(worker, sequence, snapshot).current_file_bytes_processed
            == snapshot.current_file_bytes_processed,
        reported(worker, sequence, snapshot).current_file_total_bytes
            == snapshot.current_file_total_bytes,
        snapshot.bytes_processed >= worker.bytes_processed ==> reported(
            worker,
            sequence,
            snapshot,
        ).bytes_processed == snapshot.bytes_processed,
        snapshot.bytes_processed < worker.bytes_processed ==> reported(
            worker,
            sequence,
            snapshot,
        ).bytes_processed == worker.bytes_processed,
        snapshot.entries_processed >= worker.entries_processed ==> reported(
            worker,
            sequence,
            snapshot,
        ).entries_processed == snapshot.entries_processed,
        total_bytes(seq![worker]) == worker.bytes_processed,
        total_entries(seq![worker]) == worker.entries_processed,
{
    reveal_with_fuel(total_bytes, 2);
    reveal_with_fuel(total_entries, 2);
    assert(seq![worker].drop_last() =~= Seq::<ParallelWorkerState>::empty());
}

} // verus!
