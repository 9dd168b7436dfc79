use lambda_dx::model::{PadZone, SlideShape};
use lambda_dx::pad::{
    ad_idx_to_zone, ad_perm_idx, b_perm_idx, color, merge_judge_segments, sort_cw, svg_id_to_zone, wrap,
    SlideJudgeSegment,
};

#[test]
fn drawing_ids() {
    assert_eq!(svg_id_to_zone("A1"), Some((1, "A1")));
    assert_eq!(svg_id_to_zone("B8"), Some((16, "B8")));
    assert_eq!(svg_id_to_zone("C1"), Some((17, "C")));
    assert_eq!(svg_id_to_zone("C"), Some((17, "C")));
    assert_eq!(svg_id_to_zone("D3"), Some((20, "D3")));
    assert_eq!(svg_id_to_zone("E1"), Some((26, "E1")));
    assert_eq!(svg_id_to_zone("E1-8"), Some((33, "E8")));
    assert_eq!(svg_id_to_zone("E8"), None);
    assert_eq!(svg_id_to_zone("touch"), None);
}

#[test]
fn rings() {
    assert_eq!(wrap(0), 8);
    assert_eq!(wrap(9), 1);
    assert_eq!(wrap(-7), 1);
    assert_eq!(b_perm_idx(PadZone::from_id(12)), Some(3));
    assert_eq!(b_perm_idx(PadZone::from_id(3)), None);
    assert_eq!(ad_perm_idx(PadZone::from_id(1)), Some(1));
    assert_eq!(ad_perm_idx(PadZone::from_id(18)), Some(0));
    assert_eq!(ad_perm_idx(PadZone::from_id(25)), Some(14));
    assert_eq!(ad_perm_idx(PadZone::from_id(17)), None);
    assert_eq!(ad_idx_to_zone(15).id, 8);
    assert_eq!(ad_idx_to_zone(16).id, 18);
    assert_eq!(ad_idx_to_zone(-1).id, 8);
    for id in (1..=8).chain(18..=25) {
        let i = ad_perm_idx(PadZone::from_id(id)).unwrap();
        assert_eq!(ad_idx_to_zone(i).id, id);
    }
    assert!(!sort_cw(0, 2, 8));
    assert!(sort_cw(2, 0, 8));
    assert!(sort_cw(0, 4, 8));
}

#[test]
fn colours() {
    assert_eq!(color(SlideShape::Q), "#ff5555");
    assert_eq!(color(SlideShape::Wifi), "#888888");
}

#[test]
fn adjacent_bars_in_one_zone_form_one_judge_segment() {
    let a1 = Some(PadZone::from_id(1));
    let segs = merge_judge_segments(&vec![a1, a1, a1, a1]);
    assert_eq!(segs.len(), 1);
    assert_eq!(segs[0].zone, PadZone::from_id(1));
    assert_eq!(segs[0].start_bar, 0);
    assert_eq!(segs[0].end_bar, 4);
}

#[test]
fn bars_outside_zones_split_runs() {
    let a1 = Some(PadZone::from_id(1));
    let a2 = Some(PadZone::from_id(2));
    let segs = merge_judge_segments(&vec![None, a1, a1, a2, None, a2, a1]);
    assert_eq!(
        segs,
        vec![
            SlideJudgeSegment { zone: PadZone::from_id(1), start_bar: 1, end_bar: 3 },
            SlideJudgeSegment { zone: PadZone::from_id(2), start_bar: 3, end_bar: 4 },
            SlideJudgeSegment { zone: PadZone::from_id(2), start_bar: 5, end_bar: 6 },
            SlideJudgeSegment { zone: PadZone::from_id(1), start_bar: 6, end_bar: 7 },
        ]
    );
    assert!(merge_judge_segments(&vec![None, None]).is_empty());
}

#[test]
fn lane_moves_wrap_in_groups() {
    assert_eq!(lambda_dx::pad::wrap_lane(8, 1), 1);
    assert_eq!(lambda_dx::pad::wrap_lane(1, -1), 8);
    assert_eq!(lambda_dx::pad::wrap_lane(10, -1), 17);
    assert_eq!(lambda_dx::pad::wrap_lane(25, 3), 20);
    assert_eq!(lambda_dx::pad::wrap_lane(33, 16), 33);
    assert_eq!(lambda_dx::pad::wrap_lane(9, 5), 9);
    assert_eq!(lambda_dx::pad::wrap_lane(3, -19), 8);
}
