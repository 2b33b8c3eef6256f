use script_2_script::{build_mix_plan, MusicTrack, SfxCopy, SfxEvent};

fn music() -> MusicTrack {
    MusicTrack {
        path: String::from("assets/background.mp3"),
        start: 0,
        end: 20000,
        looped: true,
        volume: 250,
    }
}

fn event(path: &str, time: u32, volume: u32) -> SfxEvent {
    SfxEvent { path: String::from(path), time, volume }
}

#[test]
fn background_only_plan_has_no_streams() {
    // An empty event list degenerates to the trimmed background stream
    // alone.
    let plan = build_mix_plan(&music(), &Vec::new(), 20000);
    assert_eq!(plan.base.path, "assets/background.mp3");
    assert!(plan.base.looped);
    assert_eq!(plan.base.volume, 250);
    assert_eq!(plan.base.duration, 20000);
    assert!(plan.streams.is_empty());
    assert!(!plan.high_event_count);
}

#[test]
fn same_path_events_join_one_stream() {
    // Background gain 0.25 looped over [0s, 20s); two SFX events at
    // t=2.5s on the same path become two 2500ms-delayed copies summed
    // into one secondary stream beside the background stream.
    let sfx = vec![event("assets/border.ogg", 2500, 700), event("assets/border.ogg", 2500, 700)];
    let plan = build_mix_plan(&music(), &sfx, 20000);
    assert_eq!(plan.base.volume, 250);
    assert!(plan.base.looped);
    assert_eq!(plan.streams.len(), 1);
    assert_eq!(plan.streams[0].path, "assets/border.ogg");
    assert_eq!(
        plan.streams[0].copies,
        vec![SfxCopy { delay_ms: 2500, volume: 700 }, SfxCopy { delay_ms: 2500, volume: 700 }]
    );
}

#[test]
fn distinct_paths_get_distinct_streams_in_first_seen_order() {
    let sfx = vec![
        event("b.ogg", 100, 500),
        event("a.ogg", 200, 600),
        event("b.ogg", 300, 700),
        event("c.ogg", 400, 800),
    ];
    let plan = build_mix_plan(&music(), &sfx, 20000);
    let paths: Vec<&str> = plan.streams.iter().map(|s| s.path.as_str()).collect();
    assert_eq!(paths, vec!["b.ogg", "a.ogg", "c.ogg"]);
    assert_eq!(
        plan.streams[0].copies,
        vec![SfxCopy { delay_ms: 100, volume: 500 }, SfxCopy { delay_ms: 300, volume: 700 }]
    );
    assert_eq!(plan.streams[1].copies, vec![SfxCopy { delay_ms: 200, volume: 600 }]);
    assert_eq!(plan.streams[2].copies, vec![SfxCopy { delay_ms: 400, volume: 800 }]);
}

#[test]
fn many_events_warn_but_are_kept() {
    let mut sfx = Vec::new();
    let mut i = 0u32;
    while i < 101 {
        sfx.push(event("tick.ogg", i * 10, 900));
        i += 1;
    }
    let plan = build_mix_plan(&music(), &sfx, 20000);
    assert!(plan.high_event_count);
    assert_eq!(plan.streams.len(), 1);
    assert_eq!(plan.streams[0].copies.len(), 101);

    let mut sfx100 = sfx;
    sfx100.pop();
    let plan = build_mix_plan(&music(), &sfx100, 20000);
    assert!(!plan.high_event_count);
}

#[test]
fn plan_is_deterministic() {
    let sfx = vec![event("b.ogg", 100, 500), event("a.ogg", 200, 600)];
    let p1 = build_mix_plan(&music(), &sfx, 20000);
    let p2 = build_mix_plan(&music(), &sfx, 20000);
    assert_eq!(p1, p2);
}
