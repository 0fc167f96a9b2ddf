//! Handing jobs out to workers whose results are taken in order.
//!
//! There are as many slots as workers. A slot holds one job at a time and is
//! filled again once its result was taken, so that slow jobs cannot pile up
//! results.

use vstd::prelude::*;
use vstd::string::*;
use crate::error::{ArchiveError, ArchiveResult, ErrorView};
use crate::file_ops;

verus! {

/// Where the hand-out of `count` jobs stands.
#[derive(Debug, Clone, Copy, PartialEq, Eq, Structural)]
pub struct OrderedPipeline {
    pub count: usize,
    pub slots: usize,
    /// How many jobs were handed out.
    pub sent: usize,
    /// How many results were taken.
    pub taken: usize,
}

impl OrderedPipeline {
    /// Jobs are handed out in order, one per slot ahead of the results.
    pub open spec fn valid(self) -> bool {
        &&& self.slots <= self.count
        &&& self.count > 0 ==> self.slots > 0
        &&& self.taken <= self.count
        &&& self.sent == if self.taken + self.slots < self.count {
            self.taken + self.slots
        } else {
            self.count as int
        }
    }

    /// The slot of a job.
    pub open spec fn slot_of(self, job: int) -> int {
        job % (self.slots as int)
    }

    /// Begins with one job in each slot: job `k` in slot `k`.
    pub fn start(count: usize, workers: usize) -> (pipeline: OrderedPipeline)
        requires
            workers > 0,
        ensures
            pipeline.valid(),
            pipeline.count == count,
            pipeline.slots == if workers < count {
                workers
            } else {
                count
            },
            pipeline.sent == pipeline.slots,
            pipeline.taken == 0,
    {
        let slots: usize = if workers < count { workers } else { count };
        OrderedPipeline { count, slots, sent: slots, taken: 0 }
    }

    /// The slot whose result is taken next.
    pub fn next_slot(&self) -> (slot: Option<usize>)
        requires
            self.valid(),
        ensures
            match slot {
                Some(slot) => self.taken < self.count && slot == self.slot_of(self.taken as int)
                    && slot < self.slots,
                None => self.taken == self.count,
            },
    {
        if self.taken < self.count {
            Some(self.taken % self.slots)
        } else {
            None
        }
    }

    /// The job that goes to the slot whose result is taken next, where one is
    /// left.
    pub open spec fn refill(self) -> Option<usize> {
        if self.sent < self.count {
            Some(self.sent)
        } else {
            None
        }
    }

    /// The hand-out once the next result was taken and its slot filled again.
    pub open spec fn after_take(self) -> OrderedPipeline {
        OrderedPipeline {
            taken: (self.taken + 1) as usize,
            sent: if self.sent < self.count {
                (self.sent + 1) as usize
            } else {
                self.sent
            },
            ..self
        }
    }

    /// The result of the next slot was taken. The slot gets the job that is
    /// returned, where one is left.
    pub fn take(&mut self) -> (refill: Option<usize>)
        requires
            old(self).valid(),
            old(self).taken < old(self).count,
        ensures
            final(self).valid(),
            *final(self) == old(self).after_take(),
            refill == old(self).refill(),
            refill matches Some(job) ==> old(self).slot_of(job as int) == old(self).slot_of(
                old(self).taken as int,
            ),
    {
        let taken: usize = self.taken;
        self.taken = taken + 1;
        if self.count - taken > self.slots {
            let job: usize = taken + self.slots;
            self.sent = job + 1;
            proof {
                let slots = self.slots as int;
                vstd::arithmetic::div_mod::lemma_mod_add_multiples_vanish(taken as int, slots);
                assert((slots + taken) % slots == taken as int % slots);
            }
            Some(job)
        } else {
            None
        }
    }
}

/// No slot ever holds two jobs: jobs that were handed out and whose results
/// were not taken are in different slots, and there are at most as many as
/// slots.
pub proof fn law_slots_hold_one_job(pipeline: OrderedPipeline, a: int, b: int)
    requires
        pipeline.valid(),
        pipeline.taken <= a < b < pipeline.sent,
    ensures
        pipeline.slot_of(a) != pipeline.slot_of(b),
        pipeline.sent - pipeline.taken <= pipeline.slots,
{
    let slots = pipeline.slots as int;
    if a % slots == b % slots {
        vstd::arithmetic::div_mod::lemma_fundamental_div_mod(a, slots);
        vstd::arithmetic::div_mod::lemma_fundamental_div_mod(b, slots);
        let p = a / slots;
        let q = b / slots;
        assert(slots * q - slots * p == b - a);
        assert(false) by (nonlinear_arith)
            requires
                slots > 0,
                0 < slots * q - slots * p < slots,
        ;
    }
}

/// Once every result was taken, every job was handed out.
pub proof fn law_all_jobs_are_handed_out(pipeline: OrderedPipeline)
    requires
        pipeline.valid(),
        pipeline.taken == pipeline.count,
    ensures
        pipeline.sent == pipeline.count,
{
}

/// No more jobs are under way than there are workers: those that were handed
/// out and whose results were not taken yet.
pub proof fn law_work_in_hand_is_bounded(pipeline: OrderedPipeline)
    requires
        pipeline.valid(),
    ensures
        pipeline.sent - pipeline.taken <= pipeline.slots,
        pipeline.taken < pipeline.count ==> pipeline.taken < pipeline.sent,
{
}

// ---------------------------------------------------------------------------
// A run as a whole
// ---------------------------------------------------------------------------

/// What a run came to: the values that were consumed, in order, and the error
/// that ended it.
#[verifier::ext_equal]
pub struct RunOutcome<V, E> {
    pub consumed: Seq<V>,
    pub error: Option<E>,
}

/// Jobs that are done one after the other from job `next` on: each value is
/// produced, then consumed, and the first error ends it. `consume` is given
/// what was consumed before, and the value.
pub open spec fn one_by_one<V, E>(
    count: int,
    next: int,
    produce: spec_fn(int) -> Result<V, E>,
    consume: spec_fn(Seq<V>, V) -> Result<(), E>,
    consumed: Seq<V>,
) -> RunOutcome<V, E>
    decreases count - next,
{
    if next >= count {
        RunOutcome { consumed, error: None }
    } else {
        match produce(next) {
            Err(error) => RunOutcome { consumed, error: Some(error) },
            Ok(value) => match consume(consumed, value) {
                Err(error) => RunOutcome { consumed: consumed.push(value), error: Some(error) },
                Ok(_) => one_by_one(count, next + 1, produce, consume, consumed.push(value)),
            },
        }
    }
}

/// Jobs that are handed out to slots: the result of the next slot is that of
/// the job that the slot holds. It is consumed, and the slot is filled again.
pub open spec fn run_pipeline<V, E>(
    pipeline: OrderedPipeline,
    held: Seq<int>,
    produce: spec_fn(int) -> Result<V, E>,
    consume: spec_fn(Seq<V>, V) -> Result<(), E>,
    consumed: Seq<V>,
) -> RunOutcome<V, E>
    decreases pipeline.count - pipeline.taken,
{
    if pipeline.taken >= pipeline.count {
        RunOutcome { consumed, error: None }
    } else {
        let slot = pipeline.slot_of(pipeline.taken as int);
        match produce(held[slot]) {
            Err(error) => RunOutcome { consumed, error: Some(error) },
            Ok(value) => match consume(consumed, value) {
                Err(error) => RunOutcome { consumed: consumed.push(value), error: Some(error) },
                Ok(_) => run_pipeline(
                    pipeline.after_take(),
                    match pipeline.refill() {
                        Some(job) => held.update(slot, job as int),
                        None => held,
                    },
                    produce,
                    consume,
                    consumed.push(value),
                ),
            },
        }
    }
}

/// Whether each slot holds the job that was handed out to it last, as long as
/// its result was not taken.
pub open spec fn holds_jobs(pipeline: OrderedPipeline, held: Seq<int>) -> bool {
    &&& held.len() == pipeline.slots
    &&& forall|job: int|
        pipeline.taken <= job < pipeline.sent ==> held[#[trigger] pipeline.slot_of(job)] == job
}

/// The slots of a run hold the jobs that are next.
proof fn lemma_run_goes_on<V, E>(
    pipeline: OrderedPipeline,
    held: Seq<int>,
    produce: spec_fn(int) -> Result<V, E>,
    consume: spec_fn(Seq<V>, V) -> Result<(), E>,
    consumed: Seq<V>,
)
    requires
        pipeline.valid(),
        holds_jobs(pipeline, held),
    ensures
        run_pipeline(pipeline, held, produce, consume, consumed) == one_by_one(
            pipeline.count as int,
            pipeline.taken as int,
            produce,
            consume,
            consumed,
        ),
    decreases pipeline.count - pipeline.taken,
{
    if pipeline.taken < pipeline.count {
        let slots = pipeline.slots as int;
        let taken = pipeline.taken as int;
        let slot = pipeline.slot_of(taken);
        assert(held[pipeline.slot_of(taken)] == taken);
        let next = pipeline.after_take();
        let filled = match pipeline.refill() {
            Some(job) => held.update(slot, job as int),
            None => held,
        };
        assert(0 <= slot < slots);
        assert forall|job: int| next.taken <= job < next.sent implies filled[#[trigger] next.slot_of(
            job,
        )] == job by {
            assert(next.slot_of(job) == pipeline.slot_of(job));
            if job < pipeline.sent {
                assert(held[pipeline.slot_of(job)] == job);
                law_slots_hold_one_job(pipeline, taken, job);
            } else {
                assert(job == taken + slots);
                vstd::arithmetic::div_mod::lemma_mod_add_multiples_vanish(taken, slots);
                assert((slots + taken) % slots == taken % slots);
            }
        }
        match produce(taken) {
            Err(_) => {},
            Ok(value) => {
                if consume(consumed, value) is Ok {
                    lemma_run_goes_on(next, filled, produce, consume, consumed.push(value));
                }
            },
        }
    }
}

/// Handing jobs out to workers comes to the same as doing them one after the
/// other, whatever the jobs produce and whatever becomes of it: every value is
/// consumed once and in order, the first error by the number of the job ends
/// the run, and nothing behind it is consumed.
pub proof fn law_run_equals_one_by_one<V, E>(
    count: usize,
    workers: usize,
    produce: spec_fn(int) -> Result<V, E>,
    consume: spec_fn(Seq<V>, V) -> Result<(), E>,
)
    requires
        workers > 0,
    ensures
        ({
            let slots = if workers < count {
                workers
            } else {
                count
            };
            let start = OrderedPipeline { count, slots, sent: slots, taken: 0 };
            run_pipeline(
                start,
                Seq::new(slots as nat, |k: int| k),
                produce,
                consume,
                Seq::<V>::empty(),
            ) == one_by_one(count as int, 0, produce, consume, Seq::<V>::empty())
        }),
{
    let slots = if workers < count {
        workers
    } else {
        count
    };
    let start = OrderedPipeline { count, slots, sent: slots, taken: 0 };
    let held = Seq::new(slots as nat, |k: int| k);
    assert forall|job: int| start.taken <= job < start.sent implies held[#[trigger] start.slot_of(
        job,
    )] == job by {
        vstd::arithmetic::div_mod::lemma_small_mod(job as nat, slots as nat);
    }
    lemma_run_goes_on(start, held, produce, consume, Seq::<V>::empty());
}

/// The first `k` jobs produce values that are consumed, each behind those of
/// the jobs before it.
pub open spec fn goes_well<V, E>(
    produce: spec_fn(int) -> Result<V, E>,
    consume: spec_fn(Seq<V>, V) -> Result<(), E>,
    k: int,
) -> bool {
    forall|i: int|
        0 <= i < k ==> (#[trigger] produce(i)) is Ok && consume(
            produced(produce, i),
            produce(i)->Ok_0,
        ) is Ok
}

/// The values of the first `k` jobs.
pub open spec fn produced<V, E>(produce: spec_fn(int) -> Result<V, E>, k: int) -> Seq<V> {
    Seq::new(k as nat, |i: int| produce(i)->Ok_0)
}

/// Jobs that are done one after the other consume the values of the jobs
/// before the first that fails, or of all.
pub proof fn law_first_error_ends_the_run<V, E>(
    count: int,
    produce: spec_fn(int) -> Result<V, E>,
    consume: spec_fn(Seq<V>, V) -> Result<(), E>,
    k: int,
)
    requires
        0 <= k <= count,
        goes_well(produce, consume, k),
    ensures
        ({
            let run = one_by_one(count, 0, produce, consume, Seq::<V>::empty());
            &&& k == count ==> run == (RunOutcome::<V, E> {
                consumed: produced(produce, count),
                error: None,
            })
            &&& k < count ==> match produce(k) {
                Err(error) => run == (RunOutcome::<V, E> {
                    consumed: produced(produce, k),
                    error: Some(error),
                }),
                Ok(value) => consume(produced(produce, k), value) matches Err(error) ==> run == (
                RunOutcome::<V, E> {
                    consumed: produced(produce, k).push(value),
                    error: Some(error),
                }),
            }
        }),
{
    lemma_one_by_one_reaches(count, produce, consume, k);
}

/// The run of jobs that are done one after the other reaches job `k`.
proof fn lemma_one_by_one_reaches<V, E>(
    count: int,
    produce: spec_fn(int) -> Result<V, E>,
    consume: spec_fn(Seq<V>, V) -> Result<(), E>,
    k: int,
)
    requires
        0 <= k <= count,
        goes_well(produce, consume, k),
    ensures
        one_by_one(count, 0, produce, consume, Seq::<V>::empty()) == one_by_one(
            count,
            k,
            produce,
            consume,
            produced(produce, k),
        ),
    decreases k,
{
    if k == 0 {
        assert(produced(produce, 0) =~= Seq::<V>::empty());
    } else {
        assert forall|i: int| 0 <= i < k - 1 implies (#[trigger] produce(i)) is Ok && consume(
            produced(produce, i),
            produce(i)->Ok_0,
        ) is Ok by {}
        lemma_one_by_one_reaches(count, produce, consume, k - 1);
        assert(produce(k - 1) is Ok);
        assert(produced(produce, k) =~= produced(produce, k - 1).push(produce(k - 1)->Ok_0));
    }
}

/// What a pipeline comes to: the first failure while results were taken, or
/// that a worker broke down.
pub fn pipeline_outcome(result: ArchiveResult<()>, panicked: bool) -> (outcome: ArchiveResult<()>)
    ensures
        file_ops::result_view(outcome) == if result is Err {
            file_ops::result_view(result)
        } else if panicked {
            Err::<(), ErrorView>(ErrorView::Worker("ZIP compression worker panicked"@))
        } else {
            Ok::<(), ErrorView>(())
        },
{
    match result {
        Err(error) => Err(error),
        Ok(_) => {
            if panicked {
                Err(ArchiveError::Worker("ZIP compression worker panicked".to_owned()))
            } else {
                Ok(())
            }
        },
    }
}

} // verus!
