use script_2_script::{
    AnimatedTransform, Clip, Color, Easing, EngineError, Keyframe, Layer, Object, Shape, Timeline,
    Track, Transform, Vec2,
};

fn shape_clip(start: u32, end: u32, duration: u32) -> Clip {
    Clip::new(
        start,
        end,
        Object::Shape(Shape::Circle { radius: 80000, color: Color::rgb(1, 2, 3) }),
        AnimatedTransform::constant(Transform::default()),
        duration,
    )
    .unwrap()
}

#[test]
fn clip_rejects_zero_duration() {
    let r = Clip::new(
        0,
        1000,
        Object::Shape(Shape::Circle { radius: 1, color: Color::rgb(0, 0, 0) }),
        AnimatedTransform::default(),
        0,
    );
    assert_eq!(r.unwrap_err(), EngineError::NonPositiveDuration);
}

#[test]
fn clip_rejects_bad_bounds() {
    let r = Clip::new(
        2000,
        1000,
        Object::Shape(Shape::Circle { radius: 1, color: Color::rgb(0, 0, 0) }),
        AnimatedTransform::default(),
        5000,
    );
    assert_eq!(r.unwrap_err(), EngineError::InvalidClipBounds);
    let r = Clip::new(
        0,
        6000,
        Object::Shape(Shape::Circle { radius: 1, color: Color::rgb(0, 0, 0) }),
        AnimatedTransform::default(),
        5000,
    );
    assert_eq!(r.unwrap_err(), EngineError::InvalidClipBounds);
}

#[test]
fn clip_is_active_on_half_open_interval() {
    // is_active(t) holds iff start <= t < end.
    let clip = shape_clip(1000, 3000, 10000);
    assert!(!clip.is_active(999));
    assert!(clip.is_active(1000));
    assert!(clip.is_active(2999));
    assert!(!clip.is_active(3000));
}

#[test]
fn clip_validate_against_checks_bounds() {
    let clip = shape_clip(1000, 3000, 10000);
    assert!(clip.validate_against(10000).is_ok());
    assert!(clip.validate_against(3000).is_ok());
    assert_eq!(clip.validate_against(2999).unwrap_err(), EngineError::InvalidClipBounds);
    assert_eq!(clip.validate_against(0).unwrap_err(), EngineError::NonPositiveDuration);
}

#[test]
fn timeline_rejects_bad_parameters() {
    assert_eq!(Timeline::new(0, 30).unwrap_err(), EngineError::NonPositiveDuration);
    assert_eq!(Timeline::new(1000, 0).unwrap_err(), EngineError::NonPositiveFps);
}

#[test]
fn timeline_total_frames() {
    let tl = Timeline::new(10000, 30).unwrap();
    assert_eq!(tl.total_frames(), 300);
    let tl = Timeline::new(1500, 30).unwrap();
    assert_eq!(tl.total_frames(), 45);
}

#[test]
fn sample_rejects_time_past_duration() {
    let tl = Timeline::new(10000, 30).unwrap();
    assert_eq!(tl.sample(10001).unwrap_err(), EngineError::SampleOutOfRange);
    assert!(tl.sample(10000).is_ok());
    assert!(tl.sample(0).is_ok());
}

#[test]
fn layer_ordering_is_stable_by_priority_then_declaration() {
    // Layers L0(z=None), L1(z=5), L2(z=None) added in that order draw
    // as [L0, L2, L1].
    let mut tl = Timeline::new(10000, 30).unwrap();
    tl.add_layer(Layer::new(String::from("L0")));
    tl.add_layer(Layer::new(String::from("L1")).with_z_override(5));
    tl.add_layer(Layer::new(String::from("L2")));
    let scene = tl.sample(0).unwrap();
    let names: Vec<&str> = scene.layers.iter().map(|l| l.name.as_str()).collect();
    assert_eq!(names, vec!["L0", "L2", "L1"]);
}

#[test]
fn layer_ordering_ties_resolve_by_declaration() {
    let mut tl = Timeline::new(10000, 30).unwrap();
    tl.add_layer(Layer::new(String::from("A")).with_z_override(7));
    tl.add_layer(Layer::new(String::from("B")).with_z_override(7));
    tl.add_layer(Layer::new(String::from("C")).with_z_override(-1));
    let scene = tl.sample(0).unwrap();
    let names: Vec<&str> = scene.layers.iter().map(|l| l.name.as_str()).collect();
    assert_eq!(names, vec!["C", "A", "B"]);
}

#[test]
fn sample_includes_exactly_active_clips() {
    // sample(t) includes exactly the clips with start <= t < end across
    // all layers; inactive clips are absent, not hidden.
    let mut tl = Timeline::new(10000, 30).unwrap();
    let mut layer = Layer::new(String::from("only"));
    layer.add_clip(shape_clip(0, 2000, 10000));
    layer.add_clip(shape_clip(1000, 5000, 10000));
    layer.add_clip(shape_clip(4000, 10000, 10000));
    tl.add_layer(layer);

    let scene = tl.sample(1500).unwrap();
    assert_eq!(scene.layers.len(), 1);
    assert_eq!(scene.layers[0].clips.len(), 2);

    let scene = tl.sample(3000).unwrap();
    assert_eq!(scene.layers[0].clips.len(), 1);

    let scene = tl.sample(4500).unwrap();
    assert_eq!(scene.layers[0].clips.len(), 2);

    let scene = tl.sample(2000).unwrap();
    // The first clip's interval is half-open, so it is gone at its end.
    assert_eq!(scene.layers[0].clips.len(), 1);
}

#[test]
fn sample_is_idempotent() {
    // Two samples of an unchanged timeline are bit-identical.
    let mut tl = Timeline::new(10000, 30).unwrap();
    let mut layer = Layer::new(String::from("anim"));
    let at = AnimatedTransform {
        position: Track::new(vec![
            Keyframe::new(0, Vec2 { x: 0, y: 0 }, Easing::Linear),
            Keyframe::new(
                4000,
                Vec2 { x: 800, y: 0 },
                Easing::EaseInOutQuad,
            ),
        ])
        .unwrap(),
        scale: Track::from_constant(Vec2 { x: 1000, y: 1000 }),
        rotation: Track::from_constant(0),
        opacity: Track::from_constant(1000),
    };
    layer.add_clip(
        Clip::new(
            0,
            8000,
            Object::Shape(Shape::Rect { width: 10, height: 20, color: Color::rgb(9, 9, 9) }),
            at,
            10000,
        )
        .unwrap(),
    );
    tl.add_layer(layer);
    let s1 = tl.sample(1234).unwrap();
    let s2 = tl.sample(1234).unwrap();
    assert_eq!(s1, s2);
}

#[test]
fn sample_evaluates_animated_transform_at_time() {
    let mut tl = Timeline::new(10000, 30).unwrap();
    let mut layer = Layer::new(String::from("anim"));
    let at = AnimatedTransform {
        position: Track::new(vec![
            Keyframe::new(0, Vec2 { x: 0, y: 0 }, Easing::Linear),
            Keyframe::new(
                4000,
                Vec2 { x: 4000, y: 400 },
                Easing::Linear,
            ),
        ])
        .unwrap(),
        scale: Track::from_constant(Vec2 { x: 1000, y: 1000 }),
        rotation: Track::from_constant(0),
        opacity: Track::from_constant(1000),
    };
    layer.add_clip(
        Clip::new(
            0,
            8000,
            Object::Shape(Shape::Rect { width: 10, height: 20, color: Color::rgb(9, 9, 9) }),
            at,
            10000,
        )
        .unwrap(),
    );
    tl.add_layer(layer);
    let scene = tl.sample(2000).unwrap();
    let got = scene.layers[0].clips[0].transform;
    assert_eq!(got.pos, Vec2 { x: 2000, y: 200 });
    assert_eq!(got.opacity, 1000);
}

#[test]
fn sample_keeps_clip_declaration_order_within_layer() {
    let mut tl = Timeline::new(10000, 30).unwrap();
    let mut layer = Layer::new(String::from("stacked"));
    let mk = |r: i32| {
        Clip::new(
            0,
            10000,
            Object::Shape(Shape::Circle { radius: r, color: Color::rgb(0, 0, 0) }),
            AnimatedTransform::constant(Transform::default()),
            10000,
        )
        .unwrap()
    };
    layer.add_clip(mk(1));
    layer.add_clip(mk(2));
    layer.add_clip(mk(3));
    tl.add_layer(layer);
    let scene = tl.sample(0).unwrap();
    let radii: Vec<i32> = scene.layers[0]
        .clips
        .iter()
        .map(|c| match c.object {
            Object::Shape(Shape::Circle { radius, .. }) => radius,
            _ => -1,
        })
        .collect();
    assert_eq!(radii, vec![1, 2, 3]);
}

#[test]
fn error_messages_match_reported_failures() {
    assert_eq!(EngineError::NonPositiveDuration.message(), "duration must be > 0");
    assert_eq!(EngineError::NonPositiveFps.message(), "fps must be > 0");
    assert_eq!(
        EngineError::InvalidClipBounds.message(),
        "clip bounds must satisfy 0 <= start < end <= duration"
    );
    assert_eq!(
        EngineError::SampleOutOfRange.message(),
        "sample time must be within 0..=duration"
    );
}

#[test]
fn layer_builders_carry_fields() {
    let mut layer = Layer::new(String::from("base")).with_z_override(-3);
    assert_eq!(layer.name, "base");
    assert_eq!(layer.z_override, Some(-3));
    assert!(layer.clips.is_empty());
    layer.add_clip(shape_clip(0, 1000, 10000));
    assert_eq!(layer.clips.len(), 1);
}

#[test]
fn keyframe_new_carries_fields() {
    let k = Keyframe::new(1500, 7i32, Easing::EaseOutCubic);
    assert_eq!(k.time, 1500);
    assert_eq!(k.value, 7);
    assert_eq!(k.easing, Easing::EaseOutCubic);
}

#[test]
fn color_constructors() {
    let c = Color::rgb(1, 2, 3);
    assert_eq!((c.r, c.g, c.b, c.a), (1, 2, 3, 255));
    let c = Color::rgba(4, 5, 6, 7);
    assert_eq!((c.r, c.g, c.b, c.a), (4, 5, 6, 7));
}

#[test]
fn video_error_messages() {
    assert_eq!(
        EngineError::InvalidVideoBounds.message(),
        "clip bounds must satisfy 0 <= start < end"
    );
    assert_eq!(EngineError::TrimOrder.message(), "trim_end must be > trim_start");
    assert_eq!(EngineError::TrimTooShort.message(), "trim range shorter than clip duration");
    assert_eq!(EngineError::NonPositiveTrimEnd.message(), "trim_end must be > 0");
    assert_eq!(EngineError::EmptyTrack.message(), "track needs at least one keyframe");
    assert_eq!(
        EngineError::NonMonotonicTrack.message(),
        "keyframe times must be strictly increasing"
    );
}
