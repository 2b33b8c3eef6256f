//! A motion-graphics composition engine: time-indexed layers of drawable
//! objects, video source windows and audio events are resolved, for any
//! instant, into one deterministic answer — the visible object list with
//! interpolated transforms, the single video segment that should play, and
//! the delay/gain plan for every audio source.
//!
//! All times are integer milliseconds; animatable values are fixed-point
//! integers (thousandths of a unit), so every temporal decision is exact
//! and reproducible.

use vstd::prelude::*;

mod audio;
mod clip;
mod config;
mod easing;
mod error;
mod layer;
mod probe;
mod scene;
mod text;
mod timeline;
mod track;
mod transform;
mod video;

pub use audio::{
    add_event, build_mix_plan, sfx_streams, streams_model, streams_upto, BaseStream, MixPlan,
    MusicTrack, SfxCopy, SfxEvent, SfxStream,
};
pub use clip::{clip_active, Clip};
pub use config::{asset_warnings, join_model, warnings_model, Config};
pub use easing::{ease_spec, Easing, EASE_ONE};
pub use error::EngineError;
pub use layer::Layer;
pub use probe::{
    all_digits, digits_val, find_char, is_digit, lines_model, name_extension, name_stem,
    needs_normalize, needs_normalize_model, normalized_name, normalized_name_model,
    parse_decimal_model, parse_digits_model, parse_metadata, parse_metadata_model, parse_rate,
    parse_rate_model, parse_u32, parse_u32_model, path_file_name, pow10, rfind_char, scan_meta,
    split_lines, split_lines_from, stem_model, strip_cr, strip_plus, strip_trailing_seps,
    temp_video_name, temp_video_name_model, VideoMetadata,
};
pub use scene::{obj_eq, ImageObject, Object, Shape};
pub use text::{
    family_model, flush_model, flush_run, is_space, markdown_runs, newline_pieces,
    opt_source_model, parse_markdown_from, push_run, push_run_model, resolve_model, runs_model,
    source_model, split_newlines, split_newlines_from, split_tokens, split_tokens_from,
    strs_model, text_object_model, token_pieces, FontFamily, FontSource, StyleFlags, StyledText,
    TextObject, TextRun,
};
pub use timeline::{
    active_indices, eff_z, insert_ordered, layer_before, layer_order, layer_order_upto,
    lemma_active_indices, lemma_layer_before_total, lemma_layer_order_props,
    lemma_sample_deterministic, ord_ints, sampled_clips_match, sampled_layer_eq,
    sampled_layer_matches, scene_eq, scene_matches, SampledClip, SampledLayer, SampledScene,
    Timeline,
};
pub use track::{eval_keys, evaluate_keyframes, transform_at, AnimatedTransform, Keyframe, Track};
pub use transform::{Color, Lerp, Transform, Vec2, UNIT};
pub use video::{
    boundaries, boundaries_upto, covers, insert_boundary, lemma_boundaries_sorted,
    lemma_no_gaps, lemma_segments_ordered, lemma_winner_props, merge_push, resolve_segments, resolved_segments,
    segments_upto, trim_base, winner, VideoClip, VideoSegment,
};

verus! {

/// Number of bytes in one RGBA8 frame of the given pixel dimensions.
pub fn frame_byte_len(width: u32, height: u32) -> (r: u64)
    requires
        width * height * 4 <= u64::MAX,
    ensures
        r == width * height * 4,
{
    (width as u64) * (height as u64) * 4
}

} // verus!
