//! The progress that the taskbar button shows.

use vstd::prelude::*;

use crate::progress::Ratio;

verus! {

/// How the taskbar button looks.
#[derive(Debug, Clone, Copy, PartialEq, Eq, Structural)]
pub enum TaskbarState {
    NoProgress,
    Indeterminate,
    Normal,
    Paused,
}

/// What is set on the taskbar button: the steps done, where they are counted,
/// and then how it looks.
#[derive(Debug, Clone, Copy, PartialEq, Eq, Structural)]
pub struct TaskbarUpdate {
    pub completed: Option<u64>,
    pub state: TaskbarState,
}

/// The number of steps of a full bar.
pub const TOTAL: u64 = 10_000;

/// The whole steps in a share of the work; a share is at most all of it.
pub open spec fn steps(ratio: Ratio) -> int
    recommends
        ratio.whole > 0,
{
    if ratio.part < ratio.whole {
        ratio.part * TOTAL / ratio.whole as int
    } else {
        TOTAL as int
    }
}

/// A bar that runs without an end.
pub fn show_indeterminate() -> (update: TaskbarUpdate)
    ensures
        update == (TaskbarUpdate { completed: None, state: TaskbarState::Indeterminate }),
{
    TaskbarUpdate { completed: None, state: TaskbarState::Indeterminate }
}

/// A bar that shows a share of the work, in whole steps.
pub fn show_fraction(fraction: Ratio) -> (update: TaskbarUpdate)
    requires
        fraction.whole > 0,
    ensures
        update.completed is Some,
        update.completed->0 == steps(fraction),
        update.state == TaskbarState::Normal,
{
    let completed: u64 = if fraction.part < fraction.whole {
        let part: u128 = fraction.part as u128 * 10_000;
        let whole: u128 = fraction.whole as u128;
        let done: u128 = part / whole;
        assert(part / whole < 10_000) by (nonlinear_arith)
            requires
                part < 10_000 * whole,
                whole > 0,
        ;
        done as u64
    } else {
        TOTAL
    };
    TaskbarUpdate { completed: Some(completed), state: TaskbarState::Normal }
}

/// A bar that is held, shown while an operation is given up.
pub fn pause() -> (update: TaskbarUpdate)
    ensures
        update == (TaskbarUpdate { completed: None, state: TaskbarState::Paused }),
{
    TaskbarUpdate { completed: None, state: TaskbarState::Paused }
}

/// No bar.
pub fn clear() -> (update: TaskbarUpdate)
    ensures
        update == (TaskbarUpdate { completed: None, state: TaskbarState::NoProgress }),
{
    TaskbarUpdate { completed: None, state: TaskbarState::NoProgress }
}

/// Whether the system's taskbar object has been made.
#[derive(Debug, Clone, Copy, PartialEq, Eq, Structural)]
pub struct TaskbarList {
    pub made: bool,
}

/// The taskbar object after a use, where `making` says whether it could be
/// made when it was missing.
pub open spec fn used(list: TaskbarList, making: bool) -> TaskbarList {
    TaskbarList { made: list.made || making }
}

impl TaskbarList {
    /// No object yet.
    pub fn new() -> (list: TaskbarList)
        ensures
            list == (TaskbarList { made: false }),
    {
        TaskbarList { made: false }
    }

    /// Whether the object must be made before it is used.
    pub fn is_missing(&self) -> (missing: bool)
        ensures
            missing == !self.made,
    {
        !self.made
    }

    /// Uses the object, which is made first when it is missing; `making` says
    /// whether that worked. Returns whether an update can be sent.
    pub fn use_list(&mut self, making: bool) -> (usable: bool)
        ensures
            *final(self) == used(*old(self), making),
            usable == final(self).made,
    {
        if !self.made && making {
            self.made = true;
        }
        self.made
    }
}

/// A failure to make the taskbar object is not remembered: the next use tries
/// again, and an object that was made stays.
pub proof fn law_failed_creation_is_retried(list: TaskbarList, making: bool)
    ensures
        !used(TaskbarList { made: false }, false).made,
        used(used(TaskbarList { made: false }, false), true).made,
        list.made ==> used(list, making).made,
{
}

/// The steps shown grow with the work done and reach the end with it.
pub proof fn law_steps_grow(less: u64, more: u64, whole: u64)
    requires
        less <= more,
        whole > 0,
    ensures
        0 <= steps(Ratio { part: less, whole }) <= steps(Ratio { part: more, whole }) <= TOTAL,
        steps(Ratio { part: whole, whole }) == TOTAL,
{
    assert(less as int * 10_000 / whole as int <= more as int * 10_000 / whole as int)
        by (nonlinear_arith)
        requires
            less <= more,
            whole > 0,
    ;
    assert(0 <= less as int * 10_000 / whole as int) by (nonlinear_arith)
        requires
            whole > 0,
    ;
    if less < whole {
        assert(less as int * 10_000 / whole as int <= 10_000) by (nonlinear_arith)
            requires
                less < whole,
                whole > 0,
        ;
    }
    if more < whole {
        assert(more as int * 10_000 / whole as int <= 10_000) by (nonlinear_arith)
            requires
                more < whole,
                whole > 0,
        ;
    }
}

/// The bar shows the share that is done, in ten thousandths, rounded down.
pub proof fn law_steps_show_the_share(part: u64, whole: u64)
    requires
        whole > 0,
        part <= whole,
    ensures
        steps(Ratio { part, whole }) * whole <= part * 10_000 < (steps(Ratio { part, whole }) + 1)
            * whole,
{
    let w = whole as int;
    let p = part as int;
    let q = (p * 10_000) / w;
    assert(q * w <= p * 10_000 < (q + 1) * w) by (nonlinear_arith)
        requires
            w > 0,
            q == (p * 10_000) / w,
    ;
    if p == w {
        assert(q == 10_000) by (nonlinear_arith)
            requires
                w > 0,
                q == (w * 10_000) / w,
        ;
    }
    assert(steps(Ratio { part, whole }) == q);
}

} // verus!
