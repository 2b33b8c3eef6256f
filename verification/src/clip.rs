use vstd::prelude::*;
use crate::error::EngineError;
use crate::scene::Object;
use crate::track::AnimatedTransform;

verus! {

/// A bound object and animated transform, active over the half-open
/// interval `[start, end)` (milliseconds) of the timeline.
#[derive(Debug)]
pub struct Clip {
    pub start: u32,
    pub end: u32,
    pub object: Object,
    pub transform: AnimatedTransform,
}

/// Whether a clip is visible at time `t`: its interval is half-open.
pub open spec fn clip_active(c: Clip, t: u32) -> bool {
    c.start <= t < c.end
}

impl Clip {
    /// Build a clip, validating its bounds against the timeline
    /// duration: `0 <= start < end <= duration` must hold and the
    /// duration must be positive.
    pub fn new(
        start: u32,
        end: u32,
        object: Object,
        transform: AnimatedTransform,
        duration: u32,
    ) -> (r: Result<Clip, EngineError>)
        ensures
            duration == 0 ==> r is Err && r.unwrap_err() == EngineError::NonPositiveDuration,
            duration > 0 && !(start < end && end <= duration) ==> r is Err && r.unwrap_err()
                == EngineError::InvalidClipBounds,
            duration > 0 && start < end && end <= duration ==> r is Ok && r.unwrap().start == start
                && r.unwrap().end == end && r.unwrap().object == object && r.unwrap().transform
                == transform,
    {
        if duration == 0 {
            return Err(EngineError::NonPositiveDuration);
        }
        if !(start < end && end <= duration) {
            return Err(EngineError::InvalidClipBounds);
        }
        Ok(Clip { start, end, object, transform })
    }

    /// True iff `start <= t < end`.
    pub fn is_active(&self, t: u32) -> (r: bool)
        ensures
            r == clip_active(*self, t),
    {
        t >= self.start && t < self.end
    }

    /// Re-check this clip's bounds against a timeline duration.
    pub fn validate_against(&self, duration: u32) -> (r: Result<(), EngineError>)
        ensures
            duration == 0 ==> r is Err && r.unwrap_err() == EngineError::NonPositiveDuration,
            duration > 0 && !(self.start < self.end && self.end <= duration) ==> r is Err
                && r.unwrap_err() == EngineError::InvalidClipBounds,
            duration > 0 && self.start < self.end && self.end <= duration ==> r is Ok,
    {
        if duration == 0 {
            return Err(EngineError::NonPositiveDuration);
        }
        if !(self.start < self.end && self.end <= duration) {
            return Err(EngineError::InvalidClipBounds);
        }
        Ok(())
    }
}

} // verus!
