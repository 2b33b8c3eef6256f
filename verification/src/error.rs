use vstd::prelude::*;

verus! {

/// A typed failure reported synchronously to the immediate caller.
///
/// Construction errors are detected eagerly when a value is built and never
/// deferred; the only query error is sampling outside the timeline range.
#[derive(Clone, Copy, Debug, PartialEq, Eq, Structural)]
pub enum EngineError {
    /// A duration was zero where a positive one is required.
    NonPositiveDuration,
    /// A frame rate of zero was given.
    NonPositiveFps,
    /// Clip bounds must satisfy start < end <= duration.
    InvalidClipBounds,
    /// A track needs at least one keyframe.
    EmptyTrack,
    /// Keyframe times must be strictly increasing.
    NonMonotonicTrack,
    /// Video clip bounds must satisfy start < end.
    InvalidVideoBounds,
    /// A trim end of zero was given.
    NonPositiveTrimEnd,
    /// The trim end must lie after the trim start.
    TrimOrder,
    /// The trimmed source window is shorter than the output window.
    TrimTooShort,
    /// A sample time outside the closed range from zero to the duration.
    SampleOutOfRange,
    /// Probe output carried no usable width.
    MissingWidth,
    /// Probe output carried no usable height.
    MissingHeight,
    /// Probe output carried no usable frame rate.
    MissingFps,
}

impl EngineError {
    /// A human-readable description of the failure.
    pub fn message(&self) -> (r: String)
        ensures
            r@.len() > 0,
    {
        let s = match self {
            EngineError::NonPositiveDuration => "duration must be > 0",
            EngineError::NonPositiveFps => "fps must be > 0",
            EngineError::InvalidClipBounds => "clip bounds must satisfy 0 <= start < end <= duration",
            EngineError::EmptyTrack => "track needs at least one keyframe",
            EngineError::NonMonotonicTrack => "keyframe times must be strictly increasing",
            EngineError::InvalidVideoBounds => "clip bounds must satisfy 0 <= start < end",
            EngineError::NonPositiveTrimEnd => "trim_end must be > 0",
            EngineError::TrimOrder => "trim_end must be > trim_start",
            EngineError::TrimTooShort => "trim range shorter than clip duration",
            EngineError::SampleOutOfRange => "sample time must be within 0..=duration",
            EngineError::MissingWidth => "probe output missing width",
            EngineError::MissingHeight => "probe output missing height",
            EngineError::MissingFps => "probe output missing fps",
        };
        proof {
            reveal_strlit("duration must be > 0");
            reveal_strlit("fps must be > 0");
            reveal_strlit("clip bounds must satisfy 0 <= start < end <= duration");
            reveal_strlit("track needs at least one keyframe");
            reveal_strlit("keyframe times must be strictly increasing");
            reveal_strlit("clip bounds must satisfy 0 <= start < end");
            reveal_strlit("trim_end must be > 0");
            reveal_strlit("trim_end must be > trim_start");
            reveal_strlit("trim range shorter than clip duration");
            reveal_strlit("sample time must be within 0..=duration");
            reveal_strlit("probe output missing width");
            reveal_strlit("probe output missing height");
            reveal_strlit("probe output missing fps");
        }
        String::from_str(s)
    }
}

} // verus!
