//! The pieces a track is made of that need no arithmetic of their own.

use std::time::Duration;
use vstd::prelude::*;

verus! {

/// Defines how an animation segment's timeline is constrained.
#[derive(Copy, Clone, Debug, PartialEq, Eq, Structural)]
pub enum ConstraintMode {
    /// Accelerates or decelerates internal time so the segment's full trajectory
    /// fits exactly within the target duration.
    Fit,
    /// Truncates evaluation at the target duration, freezing execution and
    /// immediately returning the resting equilibrium value.
    Clamp,
}

/// An inert identity segment that holds a static value for a specified
/// duration. Used for choreography pauses, holds, and initial delays.
#[derive(Clone, Debug)]
pub struct HoldSegment<T> {
    pub value: T,
    pub duration: Duration,
}

impl<T> HoldSegment<T> {
    /// A segment that holds `value` for `duration`.
    pub fn new(value: T, duration: Duration) -> (segment: Self)
        ensures
            segment.value == value,
            segment.duration == duration,
    {
        Self { value, duration }
    }
}

impl<T: Clone> HoldSegment<T> {
    /// How long the hold lasts on its track's timeline.
    pub fn duration(&self) -> (d: Duration)
        ensures
            d == self.duration,
    {
        self.duration
    }

    /// The value at any time into the hold: the held value.
    pub fn evaluate(&self, _t: Duration) -> (v: T)
        ensures
            vstd::pervasive::cloned(self.value, v),
    {
        self.value.clone()
    }

    /// What the hold reports as its velocity at any time: the held value, as
    /// for every sample of a hold.
    pub fn velocity(&self, _t: Duration) -> (v: T)
        ensures
            vstd::pervasive::cloned(self.value, v),
    {
        self.value.clone()
    }

    /// The value the hold ends on: the held value.
    pub fn end_value(&self) -> (v: T)
        ensures
            vstd::pervasive::cloned(self.value, v),
    {
        self.value.clone()
    }
}

} // verus!
