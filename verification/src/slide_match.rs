//! Slide trajectory template matching.
//!
//! Given a recorded slide's start lane and visited zone sequence, classify it
//! into one of the canonical [`SlideShape`] templates. Only `Line` (2-point)
//! and `VShape` (3-point) are detected; longer paths stay unclassified and are
//! kept as a free-form trajectory. Only A-zones (1..=8) are considered.

use vstd::prelude::*;

use crate::model::{SlidePoint, SlideShape};

verus! {

/// The visited zone sequence: `start_lane`, then each point's zone, with a
/// zone dropped when it repeats the one before it.
pub open spec fn visited(start_lane: u8, pts: Seq<SlidePoint>) -> Seq<u8>
    decreases pts.len(),
{
    if pts.len() == 0 {
        seq![start_lane]
    } else {
        let v = visited(start_lane, pts.drop_last());
        let z = pts.last().zone.id;
        if v.last() == z {
            v
        } else {
            v.push(z)
        }
    }
}

pub open spec fn is_a_zone_spec(z: u8) -> bool {
    1 <= z && z <= 8
}

/// The template a visited sequence matches, if any.
pub open spec fn shape_of_visited(v: Seq<u8>) -> Option<SlideShape> {
    if !(forall|i: int| 0 <= i < v.len() ==> is_a_zone_spec(#[trigger] v[i])) {
        None
    } else if v.len() == 2 && v[0] != v[1] {
        Some(SlideShape::Line)
    } else if v.len() == 3 && v[0] != v[1] && v[1] != v[2] && v[0] != v[2] {
        Some(SlideShape::VShape)
    } else {
        None
    }
}

/// Consecutive entries of `v` differ.
pub open spec fn no_adjacent_repeats(v: Seq<u8>) -> bool {
    forall|i: int| 0 <= i < v.len() - 1 ==> #[trigger] v[i] != v[i + 1]
}

/// The visited sequence starts at the start lane and never repeats a zone
/// twice in a row.
pub proof fn lemma_visited_shape(start_lane: u8, pts: Seq<SlidePoint>)
    ensures
        visited(start_lane, pts).len() >= 1,
        visited(start_lane, pts)[0] == start_lane,
        visited(start_lane, pts).len() <= pts.len() + 1,
        no_adjacent_repeats(visited(start_lane, pts)),
    decreases pts.len(),
{
    if pts.len() > 0 {
        lemma_visited_shape(start_lane, pts.drop_last());
        let v = visited(start_lane, pts.drop_last());
        let z = pts.last().zone.id;
        if v.last() != z {
            let w = v.push(z);
            assert forall|i: int| 0 <= i < w.len() - 1 implies #[trigger] w[i] != w[i + 1] by {
                if i < v.len() - 1 {
                    assert(w[i] == v[i] && w[i + 1] == v[i + 1]);
                }
            }
        }
    }
}

/// Every point's zone is in the visited sequence, and so is the start lane.
proof fn lemma_visited_has_points(start_lane: u8, pts: Seq<SlidePoint>)
    ensures
        visited(start_lane, pts).contains(start_lane),
        forall|i: int| 0 <= i < pts.len() ==> visited(start_lane, pts).contains(#[trigger] pts[i].zone.id),
    decreases pts.len(),
{
    lemma_visited_shape(start_lane, pts);
    assert(visited(start_lane, pts)[0] == start_lane);
    if pts.len() > 0 {
        let q = pts.drop_last();
        lemma_visited_has_points(start_lane, q);
        let v = visited(start_lane, q);
        let z = pts.last().zone.id;
        let w = visited(start_lane, pts);
        lemma_visited_shape(start_lane, q);
        assert forall|i: int| 0 <= i < pts.len() implies w.contains(#[trigger] pts[i].zone.id) by {
            if i < pts.len() - 1 {
                assert(q[i] == pts[i]);
                let k = choose|k: int| 0 <= k < v.len() && v[k] == q[i].zone.id;
                if v.last() != z {
                    assert(w[k] == v[k]);
                }
            } else {
                if v.last() == z {
                    assert(v[v.len() - 1] == z);
                } else {
                    assert(w[w.len() - 1] == z);
                }
            }
        }
    }
}

/// A recorded slide gets a shape only when it stays on the outer ring: its
/// start lane and every point's zone lie in 1..=8. A point in a touch zone
/// leaves it unclassified.
pub proof fn lemma_matched_slides_stay_on_ring(start_lane: u8, pts: Seq<SlidePoint>)
    ensures
        shape_of_visited(visited(start_lane, pts)) is Some ==> 1 <= start_lane <= 8 && forall|i: int|
            0 <= i < pts.len() ==> 1 <= #[trigger] pts[i].zone.id <= 8,
        (exists|i: int| 0 <= i < pts.len() && !(1 <= #[trigger] pts[i].zone.id <= 8)) ==> shape_of_visited(
            visited(start_lane, pts),
        ) is None,
{
    lemma_visited_has_points(start_lane, pts);
    let v = visited(start_lane, pts);
    if shape_of_visited(v) is Some {
        assert forall|x: u8| v.contains(x) implies 1 <= x <= 8 by {
            let k = choose|k: int| 0 <= k < v.len() && v[k] == x;
            assert(is_a_zone_spec(v[k]));
        }
        assert forall|i: int| 0 <= i < pts.len() implies 1 <= #[trigger] pts[i].zone.id <= 8 by {
            assert(v.contains(pts[i].zone.id));
        }
    }
}

/// A recorded slide classified as a line moves from its start lane to one
/// other ring zone and stays there: every point's zone is the start lane or
/// that zone, and the last point is on it.
pub proof fn lemma_line_slides(start_lane: u8, pts: Seq<SlidePoint>)
    ensures
        shape_of_visited(visited(start_lane, pts)) == Some(SlideShape::Line) ==> pts.len() >= 1 && pts.last().zone.id
            != start_lane && forall|i: int|
            0 <= i < pts.len() ==> (#[trigger] pts[i].zone.id == start_lane || pts[i].zone.id == pts.last().zone.id),
{
    lemma_visited_shape(start_lane, pts);
    lemma_visited_has_points(start_lane, pts);
    let v = visited(start_lane, pts);
    if shape_of_visited(v) == Some(SlideShape::Line) {
        assert(v.len() == 2);
        if pts.len() == 0 {
            assert(v.len() == 1);
        } else {
            lemma_visited_last(start_lane, pts);
            assert forall|i: int| 0 <= i < pts.len() implies (#[trigger] pts[i].zone.id == start_lane || pts[i].zone.id
                == pts.last().zone.id) by {
                assert(v.contains(pts[i].zone.id));
                let k = choose|k: int| 0 <= k < v.len() && v[k] == pts[i].zone.id;
            }
        }
    }
}

/// The visited sequence ends at the last point's zone.
proof fn lemma_visited_last(start_lane: u8, pts: Seq<SlidePoint>)
    requires
        pts.len() >= 1,
    ensures
        visited(start_lane, pts).last() == pts.last().zone.id,
{
    let v = visited(start_lane, pts.drop_last());
    lemma_visited_shape(start_lane, pts.drop_last());
}

/// Build the deduplicated visited zone sequence.
fn build_visited(start_lane: u8, slide_points: &[SlidePoint]) -> (v: Vec<u8>)
    ensures
        v@ == visited(start_lane, slide_points@),
{
    let mut v: Vec<u8> = Vec::new();
    v.push(start_lane);
    let mut i: usize = 0;
    assert(slide_points@.take(0) =~= Seq::<SlidePoint>::empty());
    while i < slide_points.len()
        invariant
            i <= slide_points@.len(),
            v@ == visited(start_lane, slide_points@.take(i as int)),
        decreases slide_points.len() - i,
    {
        proof {
            lemma_visited_shape(start_lane, slide_points@.take(i as int));
        }
        let zid = slide_points[i].zone.to_id();
        let last = v[v.len() - 1];
        assert(slide_points@.take(i + 1).drop_last() =~= slide_points@.take(i as int));
        if last != zid {
            v.push(zid);
        }
        i = i + 1;
    }
    assert(slide_points@.take(slide_points@.len() as int) =~= slide_points@);
    v
}

/// Whether a zone is in the A-ring (outer pad zones 1..=8).
fn is_a_zone(z: u8) -> (b: bool)
    ensures
        b == is_a_zone_spec(z),
{
    1 <= z && z <= 8
}

/// Match a recorded slide to a canonical shape template.
///
/// Returns `Some(shape)` if the visited sequence matches a known template, or
/// `None` if no match is found (the caller keeps the free-form trajectory).
pub fn match_slide_shape(start_lane: u8, slide_points: &[SlidePoint]) -> (r: Option<SlideShape>)
    ensures
        r == shape_of_visited(visited(start_lane, slide_points@)),
{
    let seen = build_visited(start_lane, slide_points);
    let mut i: usize = 0;
    while i < seen.len()
        invariant
            i <= seen@.len(),
            seen@ == visited(start_lane, slide_points@),
            forall|k: int| 0 <= k < i ==> is_a_zone_spec(#[trigger] seen@[k]),
        decreases seen.len() - i,
    {
        if !is_a_zone(seen[i]) {
            assert(!is_a_zone_spec(seen@[i as int]));
            return None;
        }
        i = i + 1;
    }
    if seen.len() == 2 && seen[0] != seen[1] {
        Some(SlideShape::Line)
    } else if seen.len() == 3 && seen[0] != seen[1] && seen[1] != seen[2]
        && seen[0] != seen[2] {
        Some(SlideShape::VShape)
    } else {
        None
    }
}

} // verus!
