use script_2_script::{
    frame_byte_len, needs_normalize, normalized_name, parse_metadata, parse_rate, parse_u32,
    split_lines, temp_video_name, Config, EngineError, VideoMetadata,
};

#[test]
fn parse_u32_plain_digits() {
    assert_eq!(parse_u32("0"), Some(0));
    assert_eq!(parse_u32("1920"), Some(1920));
    assert_eq!(parse_u32("4294967295"), Some(u32::MAX));
}

#[test]
fn parse_u32_accepts_one_leading_plus() {
    assert_eq!(parse_u32("+123"), Some(123));
    assert_eq!(parse_u32("+0"), Some(0));
    assert_eq!(parse_u32("+"), None);
    assert_eq!(parse_u32("++3"), None);
}

#[test]
fn parse_u32_rejects_junk_and_overflow() {
    assert_eq!(parse_u32(""), None);
    assert_eq!(parse_u32("12a"), None);
    assert_eq!(parse_u32("-3"), None);
    assert_eq!(parse_u32("4294967296"), None);
    assert_eq!(parse_u32("99999999999999999999"), None);
}

#[test]
fn parse_rate_fraction() {
    assert_eq!(parse_rate("30000/1001"), Some((30000, 1001)));
    assert_eq!(parse_rate("30/1"), Some((30, 1)));
}

#[test]
fn parse_rate_zero_denominator_is_rejected() {
    assert_eq!(parse_rate("30/0"), None);
}

#[test]
fn parse_rate_integer_and_decimal() {
    assert_eq!(parse_rate("30"), Some((30, 1)));
    assert_eq!(parse_rate("+30"), Some((30, 1)));
    assert_eq!(parse_rate("29.97"), Some((2997, 100)));
    assert_eq!(parse_rate("23.976"), Some((23976, 1000)));
    assert_eq!(parse_rate(".5"), Some((5, 10)));
    assert_eq!(parse_rate("5."), Some((5, 1)));
}

#[test]
fn parse_rate_fraction_of_decimals() {
    // Either half of a fraction may itself be a decimal numeral.
    assert_eq!(parse_rate("30.5/2"), Some((305, 20)));
    assert_eq!(parse_rate("60/2.5"), Some((600, 25)));
    assert_eq!(parse_rate("30/0.0"), None);
}

#[test]
fn parse_rate_rejects_malformed() {
    assert_eq!(parse_rate(""), None);
    assert_eq!(parse_rate("abc"), None);
    assert_eq!(parse_rate("."), None);
    assert_eq!(parse_rate("1e3"), None);
    assert_eq!(parse_rate("-30"), None);
    assert_eq!(parse_rate("1/2/3"), None);
}

#[test]
fn split_lines_matches_line_endings() {
    let lines = split_lines("a\nb\r\nc");
    assert_eq!(lines, vec!["a", "b", "c"]);
    let lines = split_lines("a\n\nb\n");
    assert_eq!(lines, vec!["a", "", "b"]);
    let lines = split_lines("");
    assert!(lines.is_empty());
}

#[test]
fn parse_metadata_reads_all_fields() {
    let text = "width=1920\nheight=1080\nr_frame_rate=30000/1001\n";
    assert_eq!(
        parse_metadata(text).unwrap(),
        VideoMetadata { width: 1920, height: 1080, fps_num: 30000, fps_den: 1001 }
    );
}

#[test]
fn parse_metadata_handles_crlf() {
    let text = "width=800\r\nheight=600\r\nr_frame_rate=30/1\r\n";
    assert_eq!(
        parse_metadata(text).unwrap(),
        VideoMetadata { width: 800, height: 600, fps_num: 30, fps_den: 1 }
    );
}

#[test]
fn parse_metadata_reports_first_missing_field() {
    assert_eq!(
        parse_metadata("height=600\nr_frame_rate=30/1\n").unwrap_err(),
        EngineError::MissingWidth
    );
    assert_eq!(
        parse_metadata("width=800\nr_frame_rate=30/1\n").unwrap_err(),
        EngineError::MissingHeight
    );
    assert_eq!(parse_metadata("width=800\nheight=600\n").unwrap_err(), EngineError::MissingFps);
}

#[test]
fn parse_metadata_unparsable_value_counts_as_missing() {
    assert_eq!(parse_metadata("width=abc\nheight=600\n").unwrap_err(), EngineError::MissingWidth);
}

#[test]
fn parse_metadata_later_line_wins() {
    let text = "width=100\nwidth=200\nheight=600\nr_frame_rate=30\n";
    assert_eq!(parse_metadata(text).unwrap().width, 200);
}

#[test]
fn needs_normalize_exact_match_passes() {
    let meta = VideoMetadata { width: 800, height: 600, fps_num: 30, fps_den: 1 };
    assert!(!needs_normalize(&meta, 800, 600, 30));
    assert!(needs_normalize(&meta, 801, 600, 30));
    assert!(needs_normalize(&meta, 800, 601, 30));
    assert!(needs_normalize(&meta, 800, 600, 31));
}

#[test]
fn needs_normalize_tolerates_near_frame_rates() {
    // 29.995 is within a hundredth of 30; 29.97 is not.
    let close = VideoMetadata { width: 800, height: 600, fps_num: 5999, fps_den: 200 };
    assert!(!needs_normalize(&close, 800, 600, 30));
    let ntsc = VideoMetadata { width: 800, height: 600, fps_num: 30000, fps_den: 1001 };
    assert!(needs_normalize(&ntsc, 800, 600, 30));
}

#[test]
fn normalized_name_uses_file_stem() {
    assert_eq!(normalized_name("assets/clip_a.mp4"), "clip_a_normalized.mp4");
    assert_eq!(normalized_name("clip.mp4"), "clip_normalized.mp4");
    assert_eq!(normalized_name("video"), "video_normalized.mp4");
    assert_eq!(normalized_name("a/b/c.d.e"), "c.d_normalized.mp4");
    assert_eq!(normalized_name(".bashrc"), ".bashrc_normalized.mp4");
    assert_eq!(normalized_name(""), "clip_normalized.mp4");
}

#[test]
fn normalized_name_ignores_trailing_separators() {
    // A trailing separator or dot component does not hide the name.
    assert_eq!(normalized_name("x/"), "x_normalized.mp4");
    assert_eq!(normalized_name("a/b.mp4//"), "b_normalized.mp4");
    assert_eq!(normalized_name("a/."), "a_normalized.mp4");
}

#[test]
fn normalized_name_falls_back_without_a_stem() {
    // A lone dot, a parent component, a bare root and an empty path
    // have no file stem.
    assert_eq!(normalized_name("."), "clip_normalized.mp4");
    assert_eq!(normalized_name("a/.."), "clip_normalized.mp4");
    assert_eq!(normalized_name("/"), "clip_normalized.mp4");
    assert_eq!(normalized_name(".."), "clip_normalized.mp4");
}

#[test]
fn frame_byte_len_is_four_bytes_per_pixel() {
    assert_eq!(frame_byte_len(800, 600), 1_920_000);
    assert_eq!(frame_byte_len(1, 1), 4);
}

#[test]
fn config_total_frames_and_paths() {
    let c = Config {
        width: 800,
        height: 600,
        fps: 30,
        duration_secs: 60,
        output_dir: String::from("out"),
        output_name: String::from("movie.mp4"),
        enable_audio: true,
        preview_realtime: false,
        background_music_path: String::from("bg.mp3"),
        bounce_sound_path: String::from("hit.ogg"),
    };
    assert_eq!(c.total_frames(), 1800);
    assert_eq!(c.output_path(), "out/movie.mp4");
}

#[test]
fn config_output_path_joins_like_a_path() {
    let mut c = Config {
        width: 800,
        height: 600,
        fps: 30,
        duration_secs: 60,
        output_dir: String::from("out/"),
        output_name: String::from("movie.mp4"),
        enable_audio: false,
        preview_realtime: false,
        background_music_path: String::new(),
        bounce_sound_path: String::new(),
    };
    // A directory already ending in a separator gets no second one.
    assert_eq!(c.output_path(), "out/movie.mp4");
    // An absolute name stands alone.
    c.output_name = String::from("/tmp/movie.mp4");
    assert_eq!(c.output_path(), "/tmp/movie.mp4");
    // An empty directory adds nothing.
    c.output_dir = String::new();
    c.output_name = String::from("movie.mp4");
    assert_eq!(c.output_path(), "movie.mp4");
}

#[test]
fn config_total_frames_saturates() {
    let c = Config {
        width: 1,
        height: 1,
        fps: u32::MAX,
        duration_secs: 2,
        output_dir: String::new(),
        output_name: String::new(),
        enable_audio: false,
        preview_realtime: false,
        background_music_path: String::new(),
        bounce_sound_path: String::new(),
    };
    assert_eq!(c.total_frames(), u32::MAX);
}

#[test]
fn config_validate_assets_reports_missing() {
    let mut c = Config {
        width: 800,
        height: 600,
        fps: 30,
        duration_secs: 60,
        output_dir: String::from("out"),
        output_name: String::from("movie.mp4"),
        enable_audio: true,
        preview_realtime: false,
        background_music_path: String::from("bg.mp3"),
        bounce_sound_path: String::from("hit.ogg"),
    };
    let w = c.validate_assets(true, true);
    assert!(w.is_empty());
    let w = c.validate_assets(false, true);
    assert_eq!(w, vec![String::from("missing background music: bg.mp3")]);
    let w = c.validate_assets(false, false);
    assert_eq!(
        w,
        vec![
            String::from("missing background music: bg.mp3"),
            String::from("missing bounce sound: hit.ogg"),
        ]
    );
    c.enable_audio = false;
    let w = c.validate_assets(false, false);
    assert!(w.is_empty());
}

#[test]
fn config_default_carries_timestamped_name() {
    let c = Config::default();
    assert_eq!(c.width, 800);
    assert_eq!(c.height, 600);
    assert_eq!(c.fps, 30);
    assert_eq!(c.duration_secs, 60);
    assert!(c.enable_audio);
    assert!(c.output_name.starts_with("render_"));
    assert!(c.output_name.ends_with(".mp4"));
    assert_eq!(c.output_dir, "output");
}

#[test]
fn temp_video_name_keeps_stem_and_extension() {
    assert_eq!(temp_video_name("output/render.mp4"), "render.video.mp4");
    assert_eq!(temp_video_name("movie"), "movie.video");
    assert_eq!(temp_video_name("a/b/c.d.e"), "c.d.video.e");
    assert_eq!(temp_video_name(""), "render.video");
    assert_eq!(temp_video_name("a/.config"), ".config.video");
}
