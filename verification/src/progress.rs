//! Progress snapshots and how often they are shown.

use vstd::prelude::*;
use vstd::string::*;

verus! {

/// What an operation is doing.
#[derive(Debug, Clone, Copy, PartialEq, Eq, Structural)]
pub enum ProgressPhase {
    Opening,
    Listing,
    Extracting,
    Compressing,
    Testing,
    Finished,
}

impl ProgressPhase {
    /// The text shown for the phase.
    pub fn label(self) -> (label: &'static str)
        ensures
            label@ == match self {
                ProgressPhase::Opening => "Opening"@,
                ProgressPhase::Listing => "Reading archive"@,
                ProgressPhase::Extracting => "Extracting"@,
                ProgressPhase::Compressing => "Creating archive"@,
                ProgressPhase::Testing => "Testing archive"@,
                ProgressPhase::Finished => "Finished"@,
            },
    {
        match self {
            ProgressPhase::Opening => "Opening",
            ProgressPhase::Listing => "Reading archive",
            ProgressPhase::Extracting => "Extracting",
            ProgressPhase::Compressing => "Creating archive",
            ProgressPhase::Testing => "Testing archive",
            ProgressPhase::Finished => "Finished",
        }
    }
}

/// How far an operation has come. Times are in nanoseconds.
#[derive(Debug)]
pub struct ProgressSnapshot {
    pub phase: ProgressPhase,
    pub current_file: String,
    pub current_file_bytes_processed: u64,
    pub current_file_total_bytes: Option<u64>,
    pub entries_processed: u64,
    pub total_entries: Option<u64>,
    pub bytes_processed: u64,
    pub total_bytes: Option<u64>,
    pub elapsed: u128,
    pub estimated_remaining: Option<u128>,
    pub estimated_total: Option<u128>,
}

/// A [`ProgressSnapshot`] with its text as a sequence of characters.
#[verifier::ext_equal]
pub struct SnapshotView {
    pub phase: ProgressPhase,
    pub current_file: Seq<char>,
    pub current_file_bytes_processed: u64,
    pub current_file_total_bytes: Option<u64>,
    pub entries_processed: u64,
    pub total_entries: Option<u64>,
    pub bytes_processed: u64,
    pub total_bytes: Option<u64>,
    pub elapsed: u128,
    pub estimated_remaining: Option<u128>,
    pub estimated_total: Option<u128>,
}

impl View for ProgressSnapshot {
    type V = SnapshotView;

    open spec fn view(&self) -> SnapshotView {
        SnapshotView {
            phase: self.phase,
            current_file: self.current_file@,
            current_file_bytes_processed: self.current_file_bytes_processed,
            current_file_total_bytes: self.current_file_total_bytes,
            entries_processed: self.entries_processed,
            total_entries: self.total_entries,
            bytes_processed: self.bytes_processed,
            total_bytes: self.total_bytes,
            elapsed: self.elapsed,
            estimated_remaining: self.estimated_remaining,
            estimated_total: self.estimated_total,
        }
    }
}

/// The snapshot of an operation that has not started.
pub open spec fn fresh_snapshot(phase: ProgressPhase) -> SnapshotView {
    SnapshotView {
        phase,
        current_file: Seq::empty(),
        current_file_bytes_processed: 0,
        current_file_total_bytes: None,
        entries_processed: 0,
        total_entries: None,
        bytes_processed: 0,
        total_bytes: None,
        elapsed: 0,
        estimated_remaining: None,
        estimated_total: None,
    }
}

/// Part of a whole; the part is never the larger.
#[derive(Debug, Clone, Copy, PartialEq, Eq, Structural)]
pub struct Ratio {
    pub part: u64,
    pub whole: u64,
}

/// `part` of `whole`, at most all of it.
pub open spec fn ratio_of(part: u64, whole: u64) -> Ratio {
    Ratio {
        part: if part < whole {
            part
        } else {
            whole
        },
        whole,
    }
}

/// The share of an operation that is done: all of it when it is finished,
/// else that of the bytes, else that of the entries, else nothing.
pub open spec fn overall_ratio(s: SnapshotView) -> Ratio {
    if s.phase == ProgressPhase::Finished {
        Ratio { part: 1, whole: 1 }
    } else if s.total_bytes is Some && s.total_bytes->0 > 0 {
        ratio_of(s.bytes_processed, s.total_bytes->0)
    } else if s.total_entries is Some && s.total_entries->0 > 0 {
        ratio_of(s.entries_processed, s.total_entries->0)
    } else {
        Ratio { part: 0, whole: 1 }
    }
}

/// The share of the current file that is done, where its size is known.
pub open spec fn current_file_ratio(s: SnapshotView) -> Option<Ratio> {
    if s.phase == ProgressPhase::Finished {
        Some(Ratio { part: 1, whole: 1 })
    } else {
        match s.current_file_total_bytes {
            None => None,
            Some(total) => if total == 0 {
                Some(Ratio { part: 1, whole: 1 })
            } else {
                Some(ratio_of(s.current_file_bytes_processed, total))
            },
        }
    }
}

/// [`ratio_of`], executable.
fn clamped_ratio(part: u64, whole: u64) -> (ratio: Ratio)
    ensures
        ratio == ratio_of(part, whole),
{
    if part < whole {
        Ratio { part, whole }
    } else {
        Ratio { part: whole, whole }
    }
}

impl ProgressSnapshot {
    /// The snapshot of an operation that has not started.
    pub fn new(phase: ProgressPhase) -> (snapshot: ProgressSnapshot)
        ensures
            snapshot@ == fresh_snapshot(phase),
    {
        ProgressSnapshot {
            phase,
            current_file: String::new(),
            current_file_bytes_processed: 0,
            current_file_total_bytes: None,
            entries_processed: 0,
            total_entries: None,
            bytes_processed: 0,
            total_bytes: None,
            elapsed: 0,
            estimated_remaining: None,
            estimated_total: None,
        }
    }

    /// A copy of the snapshot.
    pub fn copy(&self) -> (snapshot: ProgressSnapshot)
        ensures
            snapshot@ == self@,
    {
        ProgressSnapshot {
            phase: self.phase,
            current_file: self.current_file.clone(),
            current_file_bytes_processed: self.current_file_bytes_processed,
            current_file_total_bytes: self.current_file_total_bytes,
            entries_processed: self.entries_processed,
            total_entries: self.total_entries,
            bytes_processed: self.bytes_processed,
            total_bytes: self.total_bytes,
            elapsed: self.elapsed,
            estimated_remaining: self.estimated_remaining,
            estimated_total: self.estimated_total,
        }
    }

    /// The share of the operation that is done. A finished operation is
    /// complete even when it had no entries or bytes.
    pub fn fraction(&self) -> (ratio: Ratio)
        ensures
            ratio == overall_ratio(self@),
            ratio.whole > 0,
    {
        if self.phase == ProgressPhase::Finished {
            return Ratio { part: 1, whole: 1 };
        }
        if let Some(total) = self.total_bytes {
            if total > 0 {
                return clamped_ratio(self.bytes_processed, total);
            }
        }
        if let Some(total) = self.total_entries {
            if total > 0 {
                return clamped_ratio(self.entries_processed, total);
            }
        }
        Ratio { part: 0, whole: 1 }
    }

    /// The share of the current file that is done, when its size is known. A
    /// missing total means that an indeterminate bar is shown.
    pub fn current_file_fraction(&self) -> (ratio: Option<Ratio>)
        ensures
            ratio == current_file_ratio(self@),
            ratio is Some ==> ratio->0.whole > 0,
    {
        if self.phase == ProgressPhase::Finished {
            return Some(Ratio { part: 1, whole: 1 });
        }
        match self.current_file_total_bytes {
            None => None,
            Some(total) => {
                if total == 0 {
                    return Some(Ratio { part: 1, whole: 1 });
                }
                Some(clamped_ratio(self.current_file_bytes_processed, total))
            },
        }
    }
}

/// Progress shares lie between nothing and everything.
pub proof fn law_fraction_within_bounds(s: SnapshotView)
    ensures
        0 <= overall_ratio(s).part <= overall_ratio(s).whole,
        overall_ratio(s).whole > 0,
        current_file_ratio(s) matches Some(r) ==> 0 <= r.part <= r.whole && r.whole > 0,
        s.phase == ProgressPhase::Finished ==> overall_ratio(s).part == overall_ratio(s).whole,
{
}

/// What the rounded share that is done says about the time that is left.
#[derive(Debug, Clone, Copy, PartialEq, Eq, Structural)]
pub enum TimeEstimate {
    /// Nothing is done yet.
    Unknown,
    /// The whole operation will take this many nanoseconds.
    Total(u128),
    /// The share is rounded up to everything.
    Complete,
}

/// Limits how often progress is shown. Times are nanoseconds on one clock.
#[derive(Debug)]
pub struct ThrottledProgress {
    pub interval: u128,
    pub started_at: u128,
    pub last_report: Option<u128>,
}

impl ThrottledProgress {
    /// Starts the clock; nothing has been shown.
    pub fn new(interval: u128, now: u128) -> (throttle: ThrottledProgress)
        ensures
            throttle == (ThrottledProgress { interval, started_at: now, last_report: None }),
    {
        ThrottledProgress { interval, started_at: now, last_report: None }
    }

    /// Whether a snapshot is shown at `now`.
    pub open spec fn is_due(self, now: u128, force: bool) -> bool {
        force || match self.last_report {
            None => true,
            Some(previous) => now - previous >= self.interval,
        }
    }

    /// Whether nothing is left to be done: the operation is over, or its whole
    /// counts as done.
    pub open spec fn is_complete(s: SnapshotView, estimate: TimeEstimate) -> bool {
        ||| s.phase == ProgressPhase::Finished
        ||| overall_ratio(s).part >= overall_ratio(s).whole
        ||| estimate == TimeEstimate::Complete
    }

    /// The snapshot with its times filled in. As long as nothing is done, no
    /// time can be told.
    pub open spec fn timed(self, s: SnapshotView, now: u128, estimate: TimeEstimate) -> SnapshotView {
        let elapsed = (now - self.started_at) as u128;
        let timed = SnapshotView { elapsed, ..s };
        if ThrottledProgress::is_complete(s, estimate) {
            SnapshotView {
                estimated_remaining: Some(0),
                estimated_total: Some(elapsed),
                ..timed
            }
        } else if overall_ratio(s).part == 0 {
            timed
        } else {
            match estimate {
                TimeEstimate::Total(total) => SnapshotView {
                    estimated_total: Some(total),
                    estimated_remaining: if total >= elapsed {
                        Some((total - elapsed) as u128)
                    } else {
                        None
                    },
                    ..timed
                },
                _ => timed,
            }
        }
    }

    /// Fills in the times of a snapshot and decides whether it is shown: the
    /// first one is, and later ones once the interval has passed or when
    /// forced. The clock does not run backwards.
    pub fn report(
        &mut self,
        snapshot: ProgressSnapshot,
        now: u128,
        estimate: TimeEstimate,
        force: bool,
    ) -> (shown: Option<ProgressSnapshot>)
        requires
            old(self).started_at <= now,
            old(self).last_report is Some ==> old(self).last_report->0 <= now,
        ensures
            shown is Some == old(self).is_due(now, force),
            shown is Some ==> shown->0@ == old(self).timed(snapshot@, now, estimate),
            *final(self) == (ThrottledProgress {
                last_report: if old(self).is_due(now, force) {
                    Some(now)
                } else {
                    old(self).last_report
                },
                ..*old(self)
            }),
    {
        let mut snapshot = snapshot;
        snapshot.elapsed = now - self.started_at;
        let done: Ratio = snapshot.fraction();
        if snapshot.phase == ProgressPhase::Finished || done.part >= done.whole || estimate
            == TimeEstimate::Complete {
            snapshot.estimated_remaining = Some(0);
            snapshot.estimated_total = Some(snapshot.elapsed);
        } else if done.part > 0 {
            if let TimeEstimate::Total(total) = estimate {
                snapshot.estimated_total = Some(total);
                snapshot.estimated_remaining = if total >= snapshot.elapsed {
                    Some(total - snapshot.elapsed)
                } else {
                    None
                };
            }
        }
        let due = force || match self.last_report {
            None => true,
            Some(previous) => now - previous >= self.interval,
        };
        if due {
            self.last_report = Some(now);
            Some(snapshot)
        } else {
            None
        }
    }
}

/// An operation that is over, or whose whole counts as done, has no time left
/// and took the time that has passed, whatever was estimated.
pub proof fn law_complete_operations_take_no_more_time(
    throttle: ThrottledProgress,
    s: SnapshotView,
    now: u128,
    estimate: TimeEstimate,
)
    requires
        s.phase == ProgressPhase::Finished || overall_ratio(s).part >= overall_ratio(s).whole,
    ensures
        ({
            let timed = throttle.timed(s, now, estimate);
            &&& timed.estimated_remaining == Some(0u128)
            &&& timed.estimated_total == Some(timed.elapsed)
        }),
{
}

/// Only the times of a snapshot change when it is shown.
pub proof fn law_reports_change_only_the_times(
    throttle: ThrottledProgress,
    s: SnapshotView,
    now: u128,
    estimate: TimeEstimate,
)
    requires
        throttle.started_at <= now,
    ensures
        ({
            let timed = throttle.timed(s, now, estimate);
            &&& timed.elapsed == now - throttle.started_at
            &&& timed == (SnapshotView {
                elapsed: timed.elapsed,
                estimated_remaining: timed.estimated_remaining,
                estimated_total: timed.estimated_total,
                ..s
            })
        }),
{
}

/// Two snapshots that are not forced are shown at least the interval apart.
pub proof fn law_reports_keep_their_distance(throttle: ThrottledProgress, shown: u128, now: u128)
    requires
        throttle.last_report == Some(shown),
        throttle.is_due(now, false),
    ensures
        now - shown >= throttle.interval,
{
}

/// The share that is shown is that of the bytes, where their number is known,
/// else that of the entries, and nothing where neither is known. It is full
/// once the operation is over.
pub proof fn law_fraction_is_the_share_done(s: SnapshotView)
    ensures
        s.phase == ProgressPhase::Finished ==> overall_ratio(s).part == overall_ratio(s).whole,
        s.phase != ProgressPhase::Finished && s.total_bytes is Some && 0 < s.total_bytes->0
            && s.bytes_processed <= s.total_bytes->0 ==> overall_ratio(s) == (Ratio {
            part: s.bytes_processed,
            whole: s.total_bytes->0,
        }),
        s.phase != ProgressPhase::Finished && s.total_bytes is Some && 0 < s.total_bytes->0
            && s.bytes_processed > s.total_bytes->0 ==> overall_ratio(s).part == overall_ratio(
            s,
        ).whole,
        s.phase != ProgressPhase::Finished && (s.total_bytes is None || s.total_bytes->0 == 0)
            && s.total_entries is Some && 0 < s.total_entries->0 && s.entries_processed
            <= s.total_entries->0 ==> overall_ratio(s) == (Ratio {
            part: s.entries_processed,
            whole: s.total_entries->0,
        }),
        s.phase != ProgressPhase::Finished && (s.total_bytes is None || s.total_bytes->0 == 0) && (
        s.total_entries is None || s.total_entries->0 == 0) ==> overall_ratio(s).part == 0,
        s.phase != ProgressPhase::Finished ==> (current_file_ratio(s) is None
            <==> s.current_file_total_bytes is None),
        s.phase != ProgressPhase::Finished && s.current_file_total_bytes is Some && 0
            < s.current_file_total_bytes->0 && s.current_file_bytes_processed
            <= s.current_file_total_bytes->0 ==> current_file_ratio(s) == Some(
            Ratio { part: s.current_file_bytes_processed, whole: s.current_file_total_bytes->0 },
        ),
{
}

/// The first report is shown at once, a forced one always, and any other once
/// the interval has passed.
pub proof fn law_reports_are_due(throttle: ThrottledProgress, now: u128)
    ensures
        throttle.is_due(now, true),
        throttle.last_report is None ==> throttle.is_due(now, false),
        throttle.last_report is Some ==> (throttle.is_due(now, false) <==> now
            - throttle.last_report->0 >= throttle.interval),
{
}

/// An estimate tells the whole time and what is left of it, as long as it is
/// not passed already; before anything is done there is none.
pub proof fn law_estimates_tell_what_is_left(
    throttle: ThrottledProgress,
    s: SnapshotView,
    now: u128,
    total: u128,
)
    requires
        throttle.started_at <= now,
        s.phase != ProgressPhase::Finished,
        overall_ratio(s).part < overall_ratio(s).whole,
    ensures
        overall_ratio(s).part > 0 ==> throttle.timed(
            s,
            now,
            TimeEstimate::Total(total),
        ).estimated_total == Some(total),
        overall_ratio(s).part > 0 && total >= now - throttle.started_at ==> {
            let left = throttle.timed(s, now, TimeEstimate::Total(total)).estimated_remaining;
            left is Some && left->0 + (now - throttle.started_at) == total
        },
        overall_ratio(s).part > 0 && total < now - throttle.started_at ==> throttle.timed(
            s,
            now,
            TimeEstimate::Total(total),
        ).estimated_remaining is None,
        overall_ratio(s).part == 0 ==> throttle.timed(
            s,
            now,
            TimeEstimate::Total(total),
        ).estimated_remaining == s.estimated_remaining,
{
}

} // verus!
