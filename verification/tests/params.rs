use lambda_dx::params::{
    bg_video, bg_video_loop, bg_video_path, hide_notes, hide_zones, judge_dot, note_earlier_on_top,
    slide_sub_reverse, slide_tile_reverse, speed_scales_visuals, tap_guide, ParamFlags,
};

#[test]
fn default_switches() {
    let p = ParamFlags::default();
    assert!(!note_earlier_on_top(&p));
    assert!(!slide_tile_reverse(&p));
    assert!(!slide_sub_reverse(&p));
    assert!(tap_guide(&p));
    assert!(judge_dot(&p));
    assert!(!hide_notes(&p));
    assert!(!hide_zones(&p));
    assert!(!speed_scales_visuals(&p));
    assert!(!bg_video(&p));
    assert!(bg_video_loop(&p));
    assert_eq!(bg_video_path(&p), "");
}

#[test]
fn switches_read_back() {
    let mut p = ParamFlags::default();
    p.hide_notes = true;
    p.bg_video_path = "clip.mp4".to_string();
    assert!(hide_notes(&p));
    assert_eq!(bg_video_path(&p), "clip.mp4");
}
