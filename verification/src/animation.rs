//! Opening and closing animation of the overview.

use vstd::prelude::*;

verus! {

pub const DEFAULT_DURATION_MS: u32 = 250;

#[derive(Debug, Clone, Copy, PartialEq, Eq, Structural)]
pub enum Phase {
    Opening,
    Closing,
    Idle,
}

impl Default for Phase {
    fn default() -> (r: Self)
        ensures
            r == Phase::Idle,
    {
        Phase::Idle
    }
}

} // verus!

verus! {

/// Nanoseconds in one millisecond.
pub const NANOS_PER_MILLI: u64 = 1_000_000;

/// State of the overview's animation.
///
/// Time is read at the edge of the library: every operation that needs the
/// current time takes a reading `now_ns` of a monotonic clock in nanoseconds.
/// The progress is kept exactly, as the fraction
/// `progress_num / progress_den` of the animation's duration.
#[derive(Debug, Clone, Copy)]
pub struct AnimationState {
    phase: Phase,
    progress_num: u64,
    progress_den: u64,
    start_ns: u64,
    duration_ns: u64,
}

/// The animation's duration in nanoseconds for a requested length in
/// milliseconds, where 0 asks for the default length.
pub open spec fn duration_for_ms(ms: u32) -> int {
    (if ms == 0 { DEFAULT_DURATION_MS } else { ms }) * NANOS_PER_MILLI
}

impl AnimationState {
    /// Well-formedness: the duration is positive, the progress is a
    /// fraction between 0 and 1, and an idle animation is complete.
    pub closed spec fn wf(&self) -> bool {
        &&& self.duration_ns > 0
        &&& self.progress_den > 0
        &&& self.progress_num <= self.progress_den
        &&& self.phase == Phase::Idle ==> self.progress_num == self.progress_den
    }

    /// Current phase.
    pub closed spec fn spec_phase(&self) -> Phase {
        self.phase
    }

    /// Numerator of the progress fraction.
    pub closed spec fn spec_progress_num(&self) -> int {
        self.progress_num as int
    }

    /// Denominator of the progress fraction.
    pub closed spec fn spec_progress_den(&self) -> int {
        self.progress_den as int
    }

    /// The progress is complete: the fraction equals 1.
    pub open spec fn spec_complete(&self) -> bool {
        self.spec_progress_num() == self.spec_progress_den()
    }

    /// Duration of the animation in nanoseconds.
    pub closed spec fn spec_duration_ns(&self) -> int {
        self.duration_ns as int
    }

    /// Clock reading at which the current phase started.
    pub closed spec fn spec_start_ns(&self) -> int {
        self.start_ns as int
    }

    /// Idle, with complete progress and the default duration.
    pub fn new() -> (r: Self)
        ensures
            r.wf(),
            r.spec_phase() == Phase::Idle,
            r.spec_complete(),
            r.spec_duration_ns() == duration_for_ms(0),
            r.spec_start_ns() == 0,
    {
        AnimationState {
            phase: Phase::Idle,
            progress_num: 1,
            progress_den: 1,
            start_ns: 0,
            duration_ns: DEFAULT_DURATION_MS as u64 * NANOS_PER_MILLI,
        }
    }

    /// Sets the duration; 0 selects the default duration.
    pub fn set_duration_ms(&mut self, ms: u32)
        requires
            old(self).wf(),
        ensures
            final(self).wf(),
            final(self).spec_duration_ns() == duration_for_ms(ms),
            final(self).spec_phase() == old(self).spec_phase(),
            final(self).spec_progress_num() == old(self).spec_progress_num(),
            final(self).spec_progress_den() == old(self).spec_progress_den(),
            final(self).spec_start_ns() == old(self).spec_start_ns(),
    {
        let ms = if ms == 0 { DEFAULT_DURATION_MS } else { ms };
        self.duration_ns = ms as u64 * NANOS_PER_MILLI;
    }

    /// Starts opening at clock reading `now_ns`, with progress 0.
    pub fn start_opening(&mut self, now_ns: u64)
        requires
            old(self).wf(),
        ensures
            final(self).wf(),
            final(self).spec_phase() == Phase::Opening,
            final(self).spec_progress_num() == 0,
            final(self).spec_start_ns() == now_ns,
            final(self).spec_duration_ns() == old(self).spec_duration_ns(),
    {
        self.phase = Phase::Opening;
        self.progress_num = 0;
        self.progress_den = 1;
        self.start_ns = now_ns;
    }

    /// Starts closing at clock reading `now_ns`, with progress 0.
    pub fn start_closing(&mut self, now_ns: u64)
        requires
            old(self).wf(),
        ensures
            final(self).wf(),
            final(self).spec_phase() == Phase::Closing,
            final(self).spec_progress_num() == 0,
            final(self).spec_start_ns() == now_ns,
            final(self).spec_duration_ns() == old(self).spec_duration_ns(),
    {
        self.phase = Phase::Closing;
        self.progress_num = 0;
        self.progress_den = 1;
        self.start_ns = now_ns;
    }

    /// Advances the animation to clock reading `now_ns`. Returns true while
    /// still animating.
    ///
    /// When idle nothing changes and the result is false. Otherwise the
    /// progress becomes the elapsed time (never negative) over the duration,
    /// capped at 1, and the result says whether it is below 1.
    pub fn tick(&mut self, now_ns: u64) -> (animating: bool)
        requires
            old(self).wf(),
        ensures
            final(self).wf(),
            final(self).spec_phase() == old(self).spec_phase(),
            final(self).spec_duration_ns() == old(self).spec_duration_ns(),
            final(self).spec_start_ns() == old(self).spec_start_ns(),
            old(self).spec_phase() == Phase::Idle ==> {
                &&& !animating
                &&& final(self).spec_progress_num() == old(self).spec_progress_num()
                &&& final(self).spec_progress_den() == old(self).spec_progress_den()
            },
            old(self).spec_phase() != Phase::Idle ==> ({
                let elapsed = if now_ns >= old(self).spec_start_ns() {
                    now_ns - old(self).spec_start_ns()
                } else {
                    0
                };
                &&& final(self).spec_progress_den() == old(self).spec_duration_ns()
                &&& final(self).spec_progress_num() == (if elapsed < old(self).spec_duration_ns() {
                    elapsed
                } else {
                    old(self).spec_duration_ns()
                })
                &&& animating == (elapsed < old(self).spec_duration_ns())
            }),
            animating == !final(self).spec_complete(),
    {
        if self.phase == Phase::Idle {
            return false;
        }
        let elapsed = now_ns.saturating_sub(self.start_ns);
        let num = if elapsed < self.duration_ns { elapsed } else { self.duration_ns };
        self.progress_num = num;
        self.progress_den = self.duration_ns;
        self.progress_num < self.progress_den
    }

    /// The progress as the fraction `(numerator, denominator)`, between 0 and 1.
    pub fn progress_fraction(&self) -> (r: (u64, u64))
        requires
            self.wf(),
        ensures
            r.0 == self.spec_progress_num(),
            r.1 == self.spec_progress_den(),
            r.1 > 0,
            r.0 <= r.1,
    {
        (self.progress_num, self.progress_den)
    }

    pub fn phase(&self) -> (r: Phase)
        ensures
            r == self.spec_phase(),
    {
        self.phase
    }

    pub fn is_idle(&self) -> (r: bool)
        ensures
            r == (self.spec_phase() == Phase::Idle),
    {
        self.phase == Phase::Idle
    }

    pub fn is_closing(&self) -> (r: bool)
        ensures
            r == (self.spec_phase() == Phase::Closing),
    {
        self.phase == Phase::Closing
    }
}

impl Default for AnimationState {
    fn default() -> (r: Self)
        ensures
            r.wf(),
            r.spec_phase() == Phase::Idle,
            r.spec_complete(),
            r.spec_duration_ns() == duration_for_ms(0),
    {
        AnimationState::new()
    }
}

} // verus!
