//! The on/off switches and the video path among the visual parameters.
//! The numeric parameters are tuned and drawn by the player itself.

use vstd::prelude::*;

verus! {

/// Switches of the visual parameters.
#[derive(Debug, Clone)]
pub struct ParamFlags {
    /// Note pass draw order: `true` = earlier notes drawn on top.
    pub note_earlier_on_top: bool,
    /// Within a single slide, draw the trail tiles in reverse order.
    pub slide_tile_reverse: bool,
    /// Within one note, draw its sub-slides in reverse order.
    pub slide_sub_reverse: bool,
    /// Draw a guide texture under each tap.
    pub tap_guide: bool,
    /// Draw a black dot at each note's judgment point.
    pub judge_dot: bool,
    /// Hide the note layer.
    pub hide_notes: bool,
    /// Hide the sensor-zone layer.
    pub hide_zones: bool,
    /// Playback speed also scales the visuals.
    pub speed_scales_visuals: bool,
    /// Draw a background video behind the pad.
    pub bg_video: bool,
    /// Video file path; empty means the bundled `bg.mp4`.
    pub bg_video_path: String,
    /// Loop the video when it reaches the end.
    pub bg_video_loop: bool,
}

impl Default for ParamFlags {
    /// The shipped defaults: tap guide, judge dot and video looping on,
    /// everything else off, no video path.
    fn default() -> (p: ParamFlags)
        ensures
            !p.note_earlier_on_top,
            !p.slide_tile_reverse,
            !p.slide_sub_reverse,
            p.tap_guide,
            p.judge_dot,
            !p.hide_notes,
            !p.hide_zones,
            !p.speed_scales_visuals,
            !p.bg_video,
            p.bg_video_path@ == Seq::<char>::empty(),
            p.bg_video_loop,
    {
        ParamFlags {
            note_earlier_on_top: false,
            slide_tile_reverse: false,
            slide_sub_reverse: false,
            tap_guide: true,
            judge_dot: true,
            hide_notes: false,
            hide_zones: false,
            speed_scales_visuals: false,
            bg_video: false,
            bg_video_path: String::new(),
            bg_video_loop: true,
        }
    }
}

/// Note pass draw order: `true` = earlier notes on top.
pub fn note_earlier_on_top(p: &ParamFlags) -> (b: bool)
    ensures
        b == p.note_earlier_on_top,
{
    p.note_earlier_on_top
}

/// Within one slide, draw the trail tiles reversed.
pub fn slide_tile_reverse(p: &ParamFlags) -> (b: bool)
    ensures
        b == p.slide_tile_reverse,
{
    p.slide_tile_reverse
}

/// Within one note, draw its sub-slides reversed.
pub fn slide_sub_reverse(p: &ParamFlags) -> (b: bool)
    ensures
        b == p.slide_sub_reverse,
{
    p.slide_sub_reverse
}

/// Whether the background video is enabled.
pub fn bg_video(p: &ParamFlags) -> (b: bool)
    ensures
        b == p.bg_video,
{
    p.bg_video
}

/// Whether the background video should loop.
pub fn bg_video_loop(p: &ParamFlags) -> (b: bool)
    ensures
        b == p.bg_video_loop,
{
    p.bg_video_loop
}

/// Whether the note layer is hidden.
pub fn hide_notes(p: &ParamFlags) -> (b: bool)
    ensures
        b == p.hide_notes,
{
    p.hide_notes
}

/// Whether the sensor-zone layer is hidden.
pub fn hide_zones(p: &ParamFlags) -> (b: bool)
    ensures
        b == p.hide_zones,
{
    p.hide_zones
}

/// Whether playback speed also scales the note visuals.
pub fn speed_scales_visuals(p: &ParamFlags) -> (b: bool)
    ensures
        b == p.speed_scales_visuals,
{
    p.speed_scales_visuals
}

/// Whether the tap guide texture is enabled.
pub fn tap_guide(p: &ParamFlags) -> (b: bool)
    ensures
        b == p.tap_guide,
{
    p.tap_guide
}

/// Whether the judgment-point black dot is enabled.
pub fn judge_dot(p: &ParamFlags) -> (b: bool)
    ensures
        b == p.judge_dot,
{
    p.judge_dot
}

/// Explicit background-video path (empty = the bundled `bg.mp4`).
pub fn bg_video_path(p: &ParamFlags) -> (s: String)
    ensures
        s@ == p.bg_video_path@,
{
    p.bg_video_path.clone()
}

} // verus!
