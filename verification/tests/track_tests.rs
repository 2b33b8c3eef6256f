use script_2_script::{
    evaluate_keyframes, AnimatedTransform, Easing, EngineError, Keyframe, Track, Transform, Vec2,
    EASE_ONE, UNIT,
};

#[test]
fn easing_endpoints_exact() {
    for e in [Easing::Linear, Easing::EaseInOutQuad, Easing::EaseOutCubic] {
        assert_eq!(e.apply(0), 0);
        assert_eq!(e.apply(EASE_ONE), EASE_ONE);
    }
}

#[test]
fn easing_linear_is_identity() {
    assert_eq!(Easing::Linear.apply(123456), 123456);
    assert_eq!(Easing::Linear.apply(500000), 500000);
}

#[test]
fn easing_quad_exact_values() {
    // 2 * 0.25^2 = 0.125 below the midpoint.
    assert_eq!(Easing::EaseInOutQuad.apply(250000), 125000);
    // 1 - (-2 * 0.75 + 2)^2 / 2 = 0.875 above the midpoint.
    assert_eq!(Easing::EaseInOutQuad.apply(750000), 875000);
    assert_eq!(Easing::EaseInOutQuad.apply(500000), 500000);
}

#[test]
fn easing_cubic_exact_value() {
    // 1 - (1 - 0.5)^3 = 0.875.
    assert_eq!(Easing::EaseOutCubic.apply(500000), 875000);
}

#[test]
fn easing_monotonic_samples() {
    for e in [Easing::Linear, Easing::EaseInOutQuad, Easing::EaseOutCubic] {
        let mut prev = 0u32;
        let mut p = 0u32;
        while p <= EASE_ONE {
            let v = e.apply(p);
            assert!(v >= prev);
            prev = v;
            p += 50000;
        }
    }
}

#[test]
fn track_rejects_empty_keyframes() {
    let r = Track::<i32>::new(Vec::new());
    assert_eq!(r.unwrap_err(), EngineError::EmptyTrack);
}

#[test]
fn track_rejects_equal_times() {
    let keys = vec![
        Keyframe::new(5000, 1i32, Easing::Linear),
        Keyframe::new(5000, 2i32, Easing::Linear),
    ];
    let r = Track::new(keys);
    assert_eq!(r.unwrap_err(), EngineError::NonMonotonicTrack);
}

#[test]
fn track_rejects_decreasing_times() {
    let keys = vec![
        Keyframe::new(5000, 1i32, Easing::Linear),
        Keyframe::new(3000, 2i32, Easing::Linear),
    ];
    let r = Track::new(keys);
    assert_eq!(r.unwrap_err(), EngineError::NonMonotonicTrack);
}

#[test]
fn track_endpoints_evaluate_exactly() {
    // A track with two or more increasing keyframes returns the first
    // value exactly at the first time and the last value exactly at the
    // last time.
    let keys = vec![
        Keyframe::new(1000, 10i32, Easing::Linear),
        Keyframe::new(2000, 50i32, Easing::EaseInOutQuad),
        Keyframe::new(4000, -30i32, Easing::EaseOutCubic),
    ];
    let track = Track::new(keys).unwrap();
    assert_eq!(track.evaluate(1000), 10);
    assert_eq!(track.evaluate(4000), -30);
}

#[test]
fn track_clamps_outside_range() {
    let keys = vec![
        Keyframe::new(1000, 10i32, Easing::Linear),
        Keyframe::new(4000, -30i32, Easing::Linear),
    ];
    let track = Track::new(keys).unwrap();
    assert_eq!(track.evaluate(0), 10);
    assert_eq!(track.evaluate(999), 10);
    assert_eq!(track.evaluate(4001), -30);
    assert_eq!(track.evaluate(u32::MAX), -30);
}

#[test]
fn track_linear_interpolation_exact() {
    let keys = vec![
        Keyframe::new(0, 0i32, Easing::Linear),
        Keyframe::new(1000, 1000i32, Easing::Linear),
    ];
    let track = Track::new(keys).unwrap();
    assert_eq!(track.evaluate(500), 500);
    assert_eq!(track.evaluate(250), 250);
}

#[test]
fn track_uses_target_keyframe_easing() {
    // The easing applied inside a span is the one carried by the later
    // keyframe of the bracketing pair.
    let keys = vec![
        Keyframe::new(0, 0i32, Easing::Linear),
        Keyframe::new(1000, 1000i32, Easing::EaseInOutQuad),
    ];
    let track = Track::new(keys).unwrap();
    // progress 0.25 eases to 0.125.
    assert_eq!(track.evaluate(250), 125);
}

#[test]
fn single_keyframe_track_is_constant() {
    // A single-keyframe track returns its value for every time,
    // including both endpoints of the surrounding range.
    let track = Track::from_constant(42i32);
    assert_eq!(track.evaluate(0), 42);
    assert_eq!(track.evaluate(1), 42);
    assert_eq!(track.evaluate(5000), 42);
    assert_eq!(track.evaluate(u32::MAX), 42);
}

#[test]
fn equal_time_keyframes_snap_to_later_value() {
    // Two keyframes sharing one time never divide by zero; evaluation
    // at that time snaps to the later value.
    let keys = vec![
        Keyframe::new(5000, 1i32, Easing::Linear),
        Keyframe::new(5000, 2i32, Easing::EaseOutCubic),
    ];
    assert_eq!(evaluate_keyframes(&keys, 5000), 2);
    assert_eq!(evaluate_keyframes(&keys, 4999), 1);
    assert_eq!(evaluate_keyframes(&keys, 6000), 2);
}

#[test]
fn vec2_track_interpolates_componentwise() {
    let keys = vec![
        Keyframe::new(0, Vec2 { x: 0, y: 100 }, Easing::Linear),
        Keyframe::new(1000, Vec2 { x: 1000, y: -100 }, Easing::Linear),
    ];
    let track = Track::new(keys).unwrap();
    let mid = track.evaluate(500);
    assert_eq!(mid, Vec2 { x: 500, y: 0 });
}

#[test]
fn animated_transform_constant_holds_everywhere() {
    let t = Transform {
        pos: Vec2 { x: 7, y: -7 },
        scale: Vec2 { x: 2 * UNIT, y: UNIT },
        rotation: 90000,
        opacity: 500,
    };
    let at = AnimatedTransform::constant(t);
    assert_eq!(at.evaluate(0), t);
    assert_eq!(at.evaluate(12345), t);
}

#[test]
fn animated_transform_default_is_identity() {
    let at = AnimatedTransform::default();
    let t = at.evaluate(777);
    assert_eq!(t.pos, Vec2 { x: 0, y: 0 });
    assert_eq!(t.scale, Vec2 { x: UNIT, y: UNIT });
    assert_eq!(t.rotation, 0);
    assert_eq!(t.opacity, UNIT);
}

#[test]
fn animated_transform_tracks_are_independent() {
    let at = AnimatedTransform {
        position: Track::new(vec![
            Keyframe::new(0, Vec2 { x: 0, y: 0 }, Easing::Linear),
            Keyframe::new(4000, Vec2 { x: 4000, y: 0 }, Easing::Linear),
        ])
        .unwrap(),
        scale: Track::from_constant(Vec2 { x: UNIT, y: UNIT }),
        rotation: Track::from_constant(0),
        opacity: Track::new(vec![
            Keyframe::new(0, 0, Easing::Linear),
            Keyframe::new(1000, UNIT, Easing::Linear),
        ])
        .unwrap(),
    };
    let t = at.evaluate(2000);
    assert_eq!(t.pos, Vec2 { x: 2000, y: 0 });
    assert_eq!(t.opacity, UNIT);
    assert_eq!(t.scale, Vec2 { x: UNIT, y: UNIT });
}
