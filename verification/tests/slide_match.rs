use lambda_dx::model::{SlidePoint, SlideShape};
use lambda_dx::slide_match::match_slide_shape;

fn sp(zone: u8) -> SlidePoint {
    SlidePoint::at(zone)
}

#[test]
fn line_two_points() {
    assert_eq!(match_slide_shape(1, &[sp(5)]), Some(SlideShape::Line));
    assert_eq!(match_slide_shape(3, &[sp(7)]), Some(SlideShape::Line));
}

#[test]
fn vshape_three_points() {
    assert_eq!(match_slide_shape(1, &[sp(3), sp(5)]), Some(SlideShape::VShape));
    assert_eq!(match_slide_shape(2, &[sp(4), sp(6)]), Some(SlideShape::VShape));
}

#[test]
fn dedup_collapses_repeats() {
    assert_eq!(match_slide_shape(1, &[sp(1), sp(5)]), Some(SlideShape::Line));
    assert_eq!(match_slide_shape(1, &[sp(3), sp(3), sp(5)]), Some(SlideShape::VShape));
}

#[test]
fn four_or_more_points_unclassified() {
    assert_eq!(match_slide_shape(1, &[sp(3), sp(5), sp(7)]), None);
    assert_eq!(match_slide_shape(2, &[sp(4), sp(6), sp(8)]), None);
}

#[test]
fn touch_zone_unclassified() {
    assert_eq!(match_slide_shape(1, &[sp(17), sp(5)]), None);
    assert_eq!(match_slide_shape(9, &[sp(5)]), None);
}

#[test]
fn degenerate_paths_unclassified() {
    assert_eq!(match_slide_shape(1, &[]), None);
    assert_eq!(match_slide_shape(1, &[sp(1)]), None);
    assert_eq!(match_slide_shape(1, &[sp(1), sp(5)]), Some(SlideShape::Line));
}

#[test]
fn returning_to_the_start_is_not_a_v() {
    assert_eq!(match_slide_shape(1, &[sp(3), sp(1)]), None);
    assert_eq!(match_slide_shape(1, &[sp(1), sp(1), sp(1)]), None);
}
