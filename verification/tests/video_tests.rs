use script_2_script::{resolve_segments, EngineError, VideoClip, VideoSegment};

fn clip(start: u32, end: u32, ts: Option<u32>, te: Option<u32>) -> VideoClip {
    VideoClip::new(String::from("clip.mp4"), start, end, ts, te).unwrap()
}

#[test]
fn video_clip_rejects_bad_bounds() {
    let r = VideoClip::new(String::from("a.mp4"), 5000, 5000, None, None);
    assert_eq!(r.unwrap_err(), EngineError::InvalidVideoBounds);
    let r = VideoClip::new(String::from("a.mp4"), 6000, 5000, None, None);
    assert_eq!(r.unwrap_err(), EngineError::InvalidVideoBounds);
}

#[test]
fn video_clip_rejects_zero_trim_end() {
    let r = VideoClip::new(String::from("a.mp4"), 0, 5000, None, Some(0));
    assert_eq!(r.unwrap_err(), EngineError::NonPositiveTrimEnd);
}

#[test]
fn video_clip_rejects_reversed_trim() {
    let r = VideoClip::new(String::from("a.mp4"), 0, 1000, Some(5000), Some(4000));
    assert_eq!(r.unwrap_err(), EngineError::TrimOrder);
}

#[test]
fn video_clip_rejects_short_trim_window() {
    // The trimmed source window must be at least as long as the output
    // window.
    let r = VideoClip::new(String::from("a.mp4"), 0, 5000, Some(1000), Some(4000));
    assert_eq!(r.unwrap_err(), EngineError::TrimTooShort);
}

#[test]
fn video_clip_duration() {
    let c = clip(2000, 7500, None, None);
    assert_eq!(c.duration(), 5500);
}

#[test]
fn last_declared_clip_wins_overlap() {
    // Clip A covers output [0s, 6s) of source [1s, 9s); clip B covers
    // [4s, 10s) of source [0s, 8s) and is declared after A. B wins the
    // whole overlapped region: [0s,4s) plays A at offset 1s, and
    // [4s,10s) plays B at offset 0.
    let a = clip(0, 6000, Some(1000), Some(9000));
    let b = clip(4000, 10000, Some(0), Some(8000));
    let segs = resolve_segments(&vec![a, b]);
    assert_eq!(
        segs,
        vec![
            VideoSegment {
                clip_index: 0,
                timeline_start: 0,
                timeline_end: 4000,
                source_start: 1000,
            },
            VideoSegment {
                clip_index: 1,
                timeline_start: 4000,
                timeline_end: 10000,
                source_start: 0,
            },
        ]
    );
}

#[test]
fn uncovered_spans_become_gaps_not_errors() {
    let a = clip(0, 2000, None, None);
    let b = clip(5000, 6000, None, None);
    let segs = resolve_segments(&vec![a, b]);
    assert_eq!(segs.len(), 2);
    assert_eq!(segs[0].timeline_end, 2000);
    assert_eq!(segs[1].timeline_start, 5000);
}

#[test]
fn fully_overridden_clip_disappears() {
    let a = clip(2000, 4000, None, None);
    let b = clip(0, 10000, None, None);
    let segs = resolve_segments(&vec![a, b]);
    assert_eq!(
        segs,
        vec![VideoSegment {
            clip_index: 1,
            timeline_start: 0,
            timeline_end: 10000,
            source_start: 0,
        }]
    );
}

#[test]
fn source_offset_tracks_span_position() {
    // An untrimmed clip's source offset is the span's offset into the
    // clip's own window.
    let a = clip(1000, 3000, None, None);
    let b = clip(2000, 2500, None, None);
    let segs = resolve_segments(&vec![a, b]);
    assert_eq!(
        segs,
        vec![
            VideoSegment {
                clip_index: 0,
                timeline_start: 1000,
                timeline_end: 2000,
                source_start: 0,
            },
            VideoSegment {
                clip_index: 1,
                timeline_start: 2000,
                timeline_end: 2500,
                source_start: 0,
            },
            VideoSegment {
                clip_index: 0,
                timeline_start: 2500,
                timeline_end: 3000,
                source_start: 1500,
            },
        ]
    );
}

#[test]
fn empty_clip_list_resolves_to_no_segments() {
    let segs = resolve_segments(&Vec::new());
    assert!(segs.is_empty());
}

#[test]
fn resolve_is_deterministic() {
    let a = clip(0, 6000, Some(1000), Some(9000));
    let b = clip(4000, 10000, Some(0), Some(8000));
    let clips = vec![a, b];
    assert_eq!(resolve_segments(&clips), resolve_segments(&clips));
}
