//! Bridge between the in-memory [`ChartDoc`] model and Simai maidata charts:
//! slide pattern and zone mappings, chart selection, and the conversions in
//! both directions.

use vstd::prelude::*;

use crate::model::{
    BpmChange, ChartDoc, Note, NoteType, NoteView, PadZone, SegmentView, Slide, SlidePoint,
    SlideSegment, SlideShape, SlideView, notes_view, slides_view, sort_by_measure, sort_by_time,
    sort_bpms_by_measure, sort_notes_by_time, QUANTA_PER_MEASURE,
};

verus! {

/// A Simai slide pattern.
#[derive(Debug, Clone, Copy, PartialEq, Eq, Structural)]
pub enum SlidePattern {
    Line,
    Caret,
    Left,
    Right,
    LowerV,
    BigV,
    S,
    Z,
    P,
    Q,
    PP,
    QQ,
    Wifi,
}

/// The Simai notation of each pattern.
pub open spec fn pattern_text(p: SlidePattern) -> Seq<char> {
    match p {
        SlidePattern::Line => "-"@,
        SlidePattern::Caret => "^"@,
        SlidePattern::Left => "<"@,
        SlidePattern::Right => ">"@,
        SlidePattern::LowerV => "v"@,
        SlidePattern::BigV => "V"@,
        SlidePattern::S => "s"@,
        SlidePattern::Z => "z"@,
        SlidePattern::P => "p"@,
        SlidePattern::Q => "q"@,
        SlidePattern::PP => "pp"@,
        SlidePattern::QQ => "qq"@,
        SlidePattern::Wifi => "w"@,
    }
}

impl SlidePattern {
    /// The pattern's Simai notation.
    pub fn as_str(&self) -> (r: &'static str)
        ensures
            r@ == pattern_text(*self),
    {
        match self {
            SlidePattern::Line => "-",
            SlidePattern::Caret => "^",
            SlidePattern::Left => "<",
            SlidePattern::Right => ">",
            SlidePattern::LowerV => "v",
            SlidePattern::BigV => "V",
            SlidePattern::S => "s",
            SlidePattern::Z => "z",
            SlidePattern::P => "p",
            SlidePattern::Q => "q",
            SlidePattern::PP => "pp",
            SlidePattern::QQ => "qq",
            SlidePattern::Wifi => "w",
        }
    }
}

/// Renderer shape of each Simai pattern.
pub open spec fn pattern_shape(p: SlidePattern) -> SlideShape {
    match p {
        SlidePattern::Line => SlideShape::Line,
        SlidePattern::Caret => SlideShape::Caret,
        SlidePattern::Left => SlideShape::Left,
        SlidePattern::Right => SlideShape::Right,
        SlidePattern::LowerV => SlideShape::VShape,
        SlidePattern::BigV => SlideShape::BigV,
        SlidePattern::S => SlideShape::S,
        SlidePattern::Z => SlideShape::Z,
        SlidePattern::P => SlideShape::P,
        SlidePattern::Q => SlideShape::Q,
        SlidePattern::PP => SlideShape::PP,
        SlidePattern::QQ => SlideShape::QQ,
        SlidePattern::Wifi => SlideShape::Wifi,
    }
}

/// Simai pattern of each renderer shape; no shape is a straight line.
pub open spec fn shape_pattern(s: Option<SlideShape>) -> SlidePattern {
    match s {
        Some(SlideShape::Caret) => SlidePattern::Caret,
        Some(SlideShape::Left) => SlidePattern::Left,
        Some(SlideShape::Right) => SlidePattern::Right,
        Some(SlideShape::VShape) => SlidePattern::LowerV,
        Some(SlideShape::BigV) => SlidePattern::BigV,
        Some(SlideShape::P) => SlidePattern::P,
        Some(SlideShape::Q) => SlidePattern::Q,
        Some(SlideShape::S) => SlidePattern::S,
        Some(SlideShape::Z) => SlidePattern::Z,
        Some(SlideShape::PP) => SlidePattern::PP,
        Some(SlideShape::QQ) => SlidePattern::QQ,
        Some(SlideShape::Wifi) => SlidePattern::Wifi,
        Some(SlideShape::Line) => SlidePattern::Line,
        None => SlidePattern::Line,
    }
}

/// Map a Simai slide pattern into the renderer's [`SlideShape`].
pub fn simai_pattern_to_shape(p: SlidePattern) -> (s: SlideShape)
    ensures
        s == pattern_shape(p),
{
    match p {
        SlidePattern::Line => SlideShape::Line,
        SlidePattern::Caret => SlideShape::Caret,
        SlidePattern::Left => SlideShape::Left,
        SlidePattern::Right => SlideShape::Right,
        SlidePattern::LowerV => SlideShape::VShape,
        SlidePattern::BigV => SlideShape::BigV,
        SlidePattern::S => SlideShape::S,
        SlidePattern::Z => SlideShape::Z,
        SlidePattern::P => SlideShape::P,
        SlidePattern::Q => SlideShape::Q,
        SlidePattern::PP => SlideShape::PP,
        SlidePattern::QQ => SlideShape::QQ,
        SlidePattern::Wifi => SlideShape::Wifi,
    }
}

/// Map a renderer shape back to its Simai pattern (`None` = straight line).
pub fn shape_to_simai_pattern(shape: Option<SlideShape>) -> (p: SlidePattern)
    ensures
        p == shape_pattern(shape),
{
    match shape {
        Some(SlideShape::Caret) => SlidePattern::Caret,
        Some(SlideShape::Left) => SlidePattern::Left,
        Some(SlideShape::Right) => SlidePattern::Right,
        Some(SlideShape::VShape) => SlidePattern::LowerV,
        Some(SlideShape::BigV) => SlidePattern::BigV,
        Some(SlideShape::P) => SlidePattern::P,
        Some(SlideShape::Q) => SlidePattern::Q,
        Some(SlideShape::S) => SlidePattern::S,
        Some(SlideShape::Z) => SlidePattern::Z,
        Some(SlideShape::PP) => SlidePattern::PP,
        Some(SlideShape::QQ) => SlidePattern::QQ,
        Some(SlideShape::Wifi) => SlidePattern::Wifi,
        Some(SlideShape::Line) | None => SlidePattern::Line,
    }
}

/// Patterns and shapes correspond one to one: mapping a shape to its pattern
/// and back gives the shape, and mapping a pattern to its shape and back gives
/// the pattern.
pub proof fn lemma_shape_pattern_round_trip(s: SlideShape, p: SlidePattern)
    ensures
        pattern_shape(shape_pattern(Some(s))) == s,
        shape_pattern(Some(pattern_shape(p))) == p,
{
}

/// The zones of a list of waypoints.
pub open spec fn point_zones(pts: Seq<SlidePoint>) -> Seq<u8> {
    pts.map_values(|p: SlidePoint| p.zone.id)
}

/// Every waypoint sits at its zone with no offset.
pub open spec fn offsets_zero(pts: Seq<SlidePoint>) -> bool {
    forall|i: int| 0 <= i < pts.len() ==> (#[trigger] pts[i]).beat_offset == 0
}

/// Waypoint zones of one slide arc (the start excluded): 0-based buttons
/// become 1-based A-zones; `BigV` goes through its reflect button, `LowerV`
/// through the centre (zone 17).
pub open spec fn pattern_zones(end: u8, pattern: SlidePattern, reflect: Option<u8>) -> Seq<u8> {
    let e = (end + 1) as u8;
    match pattern {
        SlidePattern::BigV => match reflect {
            Some(r) => seq![(r + 1) as u8, e],
            None => seq![e],
        },
        SlidePattern::LowerV => seq![17u8, e],
        _ => seq![e],
    }
}

fn point(z: u8) -> (p: SlidePoint)
    ensures
        p.zone.id == z,
        p.beat_offset == 0,
{
    SlidePoint { zone: PadZone::from_id(z), beat_offset: 0 }
}

/// Convert a Simai slide arc to its waypoint zones (excluding the start).
/// `start`, `end` and `reflect` are 0-based A-buttons.
///
/// Zone numbering: A1-A8 = 1-8 (outer ring), B1-B8 = 9-16 (inner ring),
/// C = 17 (center).
pub fn simai_pattern_to_points(
    start: u8,
    end: u8,
    pattern: SlidePattern,
    reflect: Option<u8>,
) -> (pts: Vec<SlidePoint>)
    requires
        start < 255,
        end < 255,
        pattern == SlidePattern::BigV ==> (reflect matches Some(r) ==> r < 255),
    ensures
        point_zones(pts@) == pattern_zones(end, pattern, reflect),
        offsets_zero(pts@),
{
    let _s = start + 1;
    let e = end + 1;
    let mut pts: Vec<SlidePoint> = Vec::new();
    match pattern {
        SlidePattern::BigV => {
            if let Some(r) = reflect {
                pts.push(point(r + 1));
            }
            pts.push(point(e));
        },
        SlidePattern::LowerV => {
            pts.push(point(17));
            pts.push(point(e));
        },
        _ => {
            pts.push(point(e));
        },
    }
    assert(point_zones(pts@) =~= pattern_zones(end, pattern, reflect));
    pts
}

/// A-zone (1-8) to the B-zone (9-16) beside it.
pub fn a_to_b(a: u8) -> (b: u8)
    requires
        a <= 247,
    ensures
        b == a + 8,
{
    a + 8
}

/// One clockwise step around the outer ring.
pub open spec fn cw_next(c: int) -> int {
    if c == 8 { 1 } else { c + 1 }
}

/// One counter-clockwise step around the outer ring.
pub open spec fn ccw_next(c: int) -> int {
    if c == 1 { 8 } else { c - 1 }
}

/// The zones met walking clockwise from `cur` (excluded) for at most `fuel`
/// steps, stopping after `end`.
pub open spec fn cw_walk(cur: int, end: int, fuel: nat) -> Seq<int>
    decreases fuel,
{
    if fuel == 0 {
        Seq::empty()
    } else {
        let n = cw_next(cur);
        if n == end {
            seq![n]
        } else {
            seq![n] + cw_walk(n, end, (fuel - 1) as nat)
        }
    }
}

/// The zones met walking counter-clockwise, as [`cw_walk`].
pub open spec fn ccw_walk(cur: int, end: int, fuel: nat) -> Seq<int>
    decreases fuel,
{
    if fuel == 0 {
        Seq::empty()
    } else {
        let n = ccw_next(cur);
        if n == end {
            seq![n]
        } else {
            seq![n] + ccw_walk(n, end, (fuel - 1) as nat)
        }
    }
}

/// Bytes as integers.
pub open spec fn bytes_view(v: Seq<u8>) -> Seq<int> {
    v.map_values(|x: u8| x as int)
}

pub open spec fn all_fit_u8(s: Seq<int>) -> bool {
    forall|i: int| 0 <= i < s.len() ==> 0 <= #[trigger] s[i] <= 255
}

/// Clockwise traversal around the outer ring from `start` to `end` (both
/// 1-based), excluding start, including end; at most eight steps.
pub fn ring_cw(start: u8, end: u8) -> (pts: Vec<u8>)
    requires
        all_fit_u8(cw_walk(start as int, end as int, 8)),
    ensures
        bytes_view(pts@) == cw_walk(start as int, end as int, 8),
{
    let mut pts: Vec<u8> = Vec::new();
    let mut cur = start;
    let mut k: usize = 0;
    while k < 8
        invariant
            k <= 8,
            all_fit_u8(cw_walk(start as int, end as int, 8)),
            bytes_view(pts@) + cw_walk(cur as int, end as int, (8 - k) as nat) == cw_walk(
                start as int,
                end as int,
                8,
            ),
        decreases 8 - k,
    {
        let ghost rest = cw_walk(cur as int, end as int, (8 - k) as nat);
        let ghost whole = cw_walk(start as int, end as int, 8);
        assert(rest[0] == cw_next(cur as int));
        assert(whole[pts@.len() as int] == rest[0]);
        assert(0 <= whole[pts@.len() as int] <= 255);
        cur = if cur == 8 { 1 } else { cur + 1 };
        pts.push(cur);
        k = k + 1;
        assert(bytes_view(pts@) =~= bytes_view(pts@.drop_last()).push(cur as int));
        if cur == end {
            assert(rest =~= seq![cur as int]);
            assert(bytes_view(pts@) =~= whole);
            return pts;
        }
        assert(rest =~= seq![cur as int] + cw_walk(cur as int, end as int, (8 - k) as nat));
        assert(bytes_view(pts@) + cw_walk(cur as int, end as int, (8 - k) as nat) =~= whole);
    }
    assert(bytes_view(pts@) =~= cw_walk(start as int, end as int, 8));
    pts
}

/// Counter-clockwise traversal around the outer ring, as [`ring_cw`].
pub fn ring_ccw(start: u8, end: u8) -> (pts: Vec<u8>)
    requires
        all_fit_u8(ccw_walk(start as int, end as int, 8)),
    ensures
        bytes_view(pts@) == ccw_walk(start as int, end as int, 8),
{
    let mut pts: Vec<u8> = Vec::new();
    let mut cur = start;
    let mut k: usize = 0;
    while k < 8
        invariant
            k <= 8,
            all_fit_u8(ccw_walk(start as int, end as int, 8)),
            bytes_view(pts@) + ccw_walk(cur as int, end as int, (8 - k) as nat) == ccw_walk(
                start as int,
                end as int,
                8,
            ),
        decreases 8 - k,
    {
        let ghost rest = ccw_walk(cur as int, end as int, (8 - k) as nat);
        let ghost whole = ccw_walk(start as int, end as int, 8);
        assert(rest[0] == ccw_next(cur as int));
        assert(whole[pts@.len() as int] == rest[0]);
        assert(0 <= whole[pts@.len() as int] <= 255);
        cur = if cur == 1 { 8 } else { cur - 1 };
        pts.push(cur);
        k = k + 1;
        assert(bytes_view(pts@) =~= bytes_view(pts@.drop_last()).push(cur as int));
        if cur == end {
            assert(rest =~= seq![cur as int]);
            assert(bytes_view(pts@) =~= whole);
            return pts;
        }
        assert(rest =~= seq![cur as int] + ccw_walk(cur as int, end as int, (8 - k) as nat));
        assert(bytes_view(pts@) + ccw_walk(cur as int, end as int, (8 - k) as nat) =~= whole);
    }
    assert(bytes_view(pts@) =~= ccw_walk(start as int, end as int, 8));
    pts
}

/// The `fuel` zones met walking clockwise from `cur` (excluded).
pub open spec fn cw_full(cur: int, fuel: nat) -> Seq<int>
    decreases fuel,
{
    if fuel == 0 {
        Seq::empty()
    } else {
        seq![cw_next(cur)] + cw_full(cw_next(cur), (fuel - 1) as nat)
    }
}

/// The `fuel` zones met walking counter-clockwise from `cur` (excluded).
pub open spec fn ccw_full(cur: int, fuel: nat) -> Seq<int>
    decreases fuel,
{
    if fuel == 0 {
        Seq::empty()
    } else {
        seq![ccw_next(cur)] + ccw_full(ccw_next(cur), (fuel - 1) as nat)
    }
}

proof fn lemma_full_len(cur: int, fuel: nat)
    ensures
        cw_full(cur, fuel).len() == fuel,
        ccw_full(cur, fuel).len() == fuel,
    decreases fuel,
{
    if fuel > 0 {
        lemma_full_len(cw_next(cur), (fuel - 1) as nat);
        lemma_full_len(ccw_next(cur), (fuel - 1) as nat);
    }
}

/// Full clockwise circle: eight positions starting after `start`.
pub fn ring_cw_full(start: u8) -> (pts: Vec<u8>)
    requires
        all_fit_u8(cw_full(start as int, 8)),
    ensures
        bytes_view(pts@) == cw_full(start as int, 8),
{
    let mut pts: Vec<u8> = Vec::new();
    let mut cur = start;
    let mut k: usize = 0;
    proof {
        lemma_full_len(start as int, 8);
    }
    while k < 8
        invariant
            k <= 8,
            pts@.len() == k,
            all_fit_u8(cw_full(start as int, 8)),
            cw_full(start as int, 8).len() == 8,
            bytes_view(pts@) + cw_full(cur as int, (8 - k) as nat) == cw_full(start as int, 8),
        decreases 8 - k,
    {
        let ghost rest = cw_full(cur as int, (8 - k) as nat);
        let ghost whole = cw_full(start as int, 8);
        assert(whole[k as int] == rest[0]);
        assert(0 <= whole[k as int] <= 255);
        cur = if cur == 8 { 1 } else { cur + 1 };
        pts.push(cur);
        k = k + 1;
        assert(bytes_view(pts@) =~= bytes_view(pts@.drop_last()).push(cur as int));
        assert(bytes_view(pts@) + cw_full(cur as int, (8 - k) as nat) =~= whole);
    }
    assert(bytes_view(pts@) =~= cw_full(start as int, 8));
    pts
}

/// Full counter-clockwise circle.
pub fn ring_ccw_full(start: u8) -> (pts: Vec<u8>)
    requires
        all_fit_u8(ccw_full(start as int, 8)),
    ensures
        bytes_view(pts@) == ccw_full(start as int, 8),
{
    let mut pts: Vec<u8> = Vec::new();
    let mut cur = start;
    let mut k: usize = 0;
    proof {
        lemma_full_len(start as int, 8);
    }
    while k < 8
        invariant
            k <= 8,
            pts@.len() == k,
            all_fit_u8(ccw_full(start as int, 8)),
            ccw_full(start as int, 8).len() == 8,
            bytes_view(pts@) + ccw_full(cur as int, (8 - k) as nat) == ccw_full(start as int, 8),
        decreases 8 - k,
    {
        let ghost rest = ccw_full(cur as int, (8 - k) as nat);
        let ghost whole = ccw_full(start as int, 8);
        assert(whole[k as int] == rest[0]);
        assert(0 <= whole[k as int] <= 255);
        cur = if cur == 1 { 8 } else { cur - 1 };
        pts.push(cur);
        k = k + 1;
        assert(bytes_view(pts@) =~= bytes_view(pts@.drop_last()).push(cur as int));
        assert(bytes_view(pts@) + ccw_full(cur as int, (8 - k) as nat) =~= whole);
    }
    assert(bytes_view(pts@) =~= ccw_full(start as int, 8));
    pts
}

/// The A-zone (1..=8) that `v` lands on, going round the ring.
pub open spec fn wrap8_spec(v: int) -> int {
    (v - 1) % 8 + 1
}

/// Wrap a signed integer into the 1..=8 range (A-zone ring).
pub fn wrap8(v: i32) -> (r: u8)
    requires
        v > i32::MIN,
    ensures
        r == wrap8_spec(v as int),
        1 <= r <= 8,
{
    let e = match (v - 1).checked_rem_euclid(8) {
        Some(m) => m,
        None => 0,
    };
    (e + 1) as u8
}

/// Waypoints of an S (`reverse == false`) or Z (`reverse == true`) curve:
/// out along the inner ring, through the centre, back in towards `e`.
pub open spec fn s_curve_spec(s: u8, e: u8, reverse: bool) -> Seq<int> {
    let d = cw_walk(s as int, e as int, 8).len() as int;
    let half = (d + 1) / 2;
    let back = if half <= d - half { half } else { d - half };
    let mid1 = if !reverse { wrap8_spec(s + half) } else { wrap8_spec(s - half) };
    let mid2 = if !reverse { wrap8_spec(e - back) } else { wrap8_spec(e + back) };
    seq![mid1 + 8, 17, mid2 + 8, e as int]
}

/// Generate waypoint zones for an S or Z curve.
pub fn s_curve_waypoints(s: u8, e: u8, reverse: bool) -> (v: Vec<u8>)
    requires
        all_fit_u8(cw_walk(s as int, e as int, 8)),
    ensures
        bytes_view(v@) == s_curve_spec(s, e, reverse),
{
    let walk = ring_cw(s, e);
    assert(walk@.len() <= 8) by {
        lemma_cw_walk_len(s as int, e as int, 8);
    }
    let cw_dist = walk.len() as i32;
    let half = (cw_dist + 1) / 2;
    let si = s as i32;
    let ei = e as i32;
    let back = if half <= cw_dist - half { half } else { cw_dist - half };
    let (mid1, mid2) = if !reverse {
        (wrap8(si + half), wrap8(ei - back))
    } else {
        (wrap8(si - half), wrap8(ei + back))
    };
    let mut v: Vec<u8> = Vec::new();
    v.push(a_to_b(mid1));
    v.push(17);
    v.push(a_to_b(mid2));
    v.push(e);
    assert(bytes_view(v@) =~= s_curve_spec(s, e, reverse));
    v
}

proof fn lemma_cw_walk_len(cur: int, end: int, fuel: nat)
    ensures
        cw_walk(cur, end, fuel).len() <= fuel,
    decreases fuel,
{
    if fuel > 0 {
        lemma_cw_walk_len(cw_next(cur), end, (fuel - 1) as nat);
    }
}

// ---------------------------------------------------------------------------
// Touch sensors
// ---------------------------------------------------------------------------

/// Lane of a touch sensor given by region letter and 0-based position.
pub open spec fn touch_lane_spec(region: char, position: u8) -> Option<u8> {
    let p = (position % 8) as int;
    if region == 'A' {
        Some((p + 1) as u8)
    } else if region == 'B' {
        Some((p + 9) as u8)
    } else if region == 'C' {
        Some(17)
    } else if region == 'D' {
        Some((p + 18) as u8)
    } else if region == 'E' {
        Some((p + 26) as u8)
    } else {
        None
    }
}

/// Touch sensor (region, 0-based position) to its lane.
pub fn touch_to_lane(region: char, position: u8) -> (r: Option<u8>)
    ensures
        r == touch_lane_spec(region, position),
{
    match region {
        'A' => Some((position % 8) + 1),
        'B' => Some((position % 8) + 9),
        'C' => Some(17),
        'D' => Some((position % 8) + 18),
        'E' => Some((position % 8) + 26),
        _ => None,
    }
}

/// Touch sensor (region, 0-based position) of a lane; lanes outside 1..=33
/// fall back to A1.
pub open spec fn lane_touch_spec(lane: u8) -> (char, u8) {
    if 1 <= lane <= 8 {
        ('A', (lane - 1) as u8)
    } else if 9 <= lane <= 16 {
        ('B', (lane - 9) as u8)
    } else if lane == 17 {
        ('C', 0)
    } else if 18 <= lane <= 25 {
        ('D', (lane - 18) as u8)
    } else if 26 <= lane <= 33 {
        ('E', (lane - 26) as u8)
    } else {
        ('A', 0)
    }
}

pub fn lane_to_touch(lane: u8) -> (r: (char, u8))
    ensures
        r == lane_touch_spec(lane),
{
    if 1 <= lane && lane <= 8 {
        ('A', lane - 1)
    } else if 9 <= lane && lane <= 16 {
        ('B', lane - 9)
    } else if lane == 17 {
        ('C', 0)
    } else if 18 <= lane && lane <= 25 {
        ('D', lane - 18)
    } else if 26 <= lane && lane <= 33 {
        ('E', lane - 26)
    } else {
        ('A', 0)
    }
}

/// Writing a lane as a touch sensor and reading it back gives the lane, for
/// every lane of the pad (1..=33).
pub proof fn lemma_touch_lane_round_trip(lane: u8)
    requires
        1 <= lane <= 33,
    ensures
        touch_lane_spec(lane_touch_spec(lane).0, lane_touch_spec(lane).1) == Some(lane),
{
}

// ---------------------------------------------------------------------------
// Sensor areas and slots of the judgement core
// ---------------------------------------------------------------------------

/// One of the eight outer button slots.
#[derive(Debug, Clone, Copy, PartialEq, Eq, Structural)]
pub enum OuterSlot {
    S1,
    S2,
    S3,
    S4,
    S5,
    S6,
    S7,
    S8,
}

/// One of the 33 touch sensor areas.
#[derive(Debug, Clone, Copy, PartialEq, Eq, Structural)]
pub enum SensorArea {
    A1, A2, A3, A4, A5, A6, A7, A8,
    B1, B2, B3, B4, B5, B6, B7, B8,
    C,
    D1, D2, D3, D4, D5, D6, D7, D8,
    E1, E2, E3, E4, E5, E6, E7, E8,
}

/// Slide body kinds of a parsed slide.
#[derive(Debug, Clone, Copy, PartialEq, Eq, Structural)]
pub enum SlideBodyKind {
    Line,
    CircleRight,
    CircleLeft,
    CircleUp,
    V,
    Pp,
    Qq,
    P,
    Q,
    S,
    Z,
    Turn,
    Wifi,
}

/// 1-based number of a slot.
pub open spec fn slot_number(slot: OuterSlot) -> u8 {
    match slot {
        OuterSlot::S1 => 1,
        OuterSlot::S2 => 2,
        OuterSlot::S3 => 3,
        OuterSlot::S4 => 4,
        OuterSlot::S5 => 5,
        OuterSlot::S6 => 6,
        OuterSlot::S7 => 7,
        OuterSlot::S8 => 8,
    }
}

/// Region letter and 1-based index of a sensor area.
pub open spec fn area_parts(a: SensorArea) -> (char, u8) {
    match a {
        SensorArea::A1 => ('A', 1), SensorArea::A2 => ('A', 2), SensorArea::A3 => ('A', 3),
        SensorArea::A4 => ('A', 4), SensorArea::A5 => ('A', 5), SensorArea::A6 => ('A', 6),
        SensorArea::A7 => ('A', 7), SensorArea::A8 => ('A', 8),
        SensorArea::B1 => ('B', 1), SensorArea::B2 => ('B', 2), SensorArea::B3 => ('B', 3),
        SensorArea::B4 => ('B', 4), SensorArea::B5 => ('B', 5), SensorArea::B6 => ('B', 6),
        SensorArea::B7 => ('B', 7), SensorArea::B8 => ('B', 8),
        SensorArea::C => ('C', 1),
        SensorArea::D1 => ('D', 1), SensorArea::D2 => ('D', 2), SensorArea::D3 => ('D', 3),
        SensorArea::D4 => ('D', 4), SensorArea::D5 => ('D', 5), SensorArea::D6 => ('D', 6),
        SensorArea::D7 => ('D', 7), SensorArea::D8 => ('D', 8),
        SensorArea::E1 => ('E', 1), SensorArea::E2 => ('E', 2), SensorArea::E3 => ('E', 3),
        SensorArea::E4 => ('E', 4), SensorArea::E5 => ('E', 5), SensorArea::E6 => ('E', 6),
        SensorArea::E7 => ('E', 7), SensorArea::E8 => ('E', 8),
    }
}

/// Lane (pad zone id) of a sensor area: A = 1-8, B = 9-16, C = 17,
/// D = 18-25, E = 26-33.
pub open spec fn area_lane(a: SensorArea) -> u8 {
    let (region, k) = area_parts(a);
    if region == 'A' {
        k
    } else if region == 'B' {
        (8 + k) as u8
    } else if region == 'C' {
        17
    } else if region == 'D' {
        (17 + k) as u8
    } else {
        (25 + k) as u8
    }
}

/// Lane of a button slot.
pub fn slot_to_lane(slot: OuterSlot) -> (lane: u8)
    ensures
        lane == slot_number(slot),
{
    match slot {
        OuterSlot::S1 => 1,
        OuterSlot::S2 => 2,
        OuterSlot::S3 => 3,
        OuterSlot::S4 => 4,
        OuterSlot::S5 => 5,
        OuterSlot::S6 => 6,
        OuterSlot::S7 => 7,
        OuterSlot::S8 => 8,
    }
}

/// Lane of a sensor area.
pub fn sensor_to_lane(area: SensorArea) -> (lane: u8)
    ensures
        lane == area_lane(area),
        1 <= lane <= 33,
{
    match area {
        SensorArea::A1 => 1,
        SensorArea::A2 => 2,
        SensorArea::A3 => 3,
        SensorArea::A4 => 4,
        SensorArea::A5 => 5,
        SensorArea::A6 => 6,
        SensorArea::A7 => 7,
        SensorArea::A8 => 8,
        SensorArea::B1 => 9,
        SensorArea::B2 => 10,
        SensorArea::B3 => 11,
        SensorArea::B4 => 12,
        SensorArea::B5 => 13,
        SensorArea::B6 => 14,
        SensorArea::B7 => 15,
        SensorArea::B8 => 16,
        SensorArea::C => 17,
        SensorArea::D1 => 18,
        SensorArea::D2 => 19,
        SensorArea::D3 => 20,
        SensorArea::D4 => 21,
        SensorArea::D5 => 22,
        SensorArea::D6 => 23,
        SensorArea::D7 => 24,
        SensorArea::D8 => 25,
        SensorArea::E1 => 26,
        SensorArea::E2 => 27,
        SensorArea::E3 => 28,
        SensorArea::E4 => 29,
        SensorArea::E5 => 30,
        SensorArea::E6 => 31,
        SensorArea::E7 => 32,
        SensorArea::E8 => 33,
    }
}

/// 0-based outer button index (0..=7) of a sensor area's position on its ring.
pub fn sensor_to_outer_index(area: SensorArea) -> (i: u8)
    ensures
        i == (area_lane(area) - 1) % 8,
        i < 8,
{
    sensor_to_lane(area).saturating_sub(1) % 8
}

/// Simai pattern of a parsed slide body.
pub open spec fn body_pattern(kind: SlideBodyKind) -> SlidePattern {
    match kind {
        SlideBodyKind::Line => SlidePattern::Line,
        SlideBodyKind::CircleRight => SlidePattern::Right,
        SlideBodyKind::CircleLeft => SlidePattern::Left,
        SlideBodyKind::CircleUp => SlidePattern::Caret,
        SlideBodyKind::V => SlidePattern::LowerV,
        SlideBodyKind::Pp => SlidePattern::PP,
        SlideBodyKind::Qq => SlidePattern::QQ,
        SlideBodyKind::P => SlidePattern::P,
        SlideBodyKind::Q => SlidePattern::Q,
        SlideBodyKind::S => SlidePattern::S,
        SlideBodyKind::Z => SlidePattern::Z,
        SlideBodyKind::Turn => SlidePattern::BigV,
        SlideBodyKind::Wifi => SlidePattern::Wifi,
    }
}

pub fn slide_body_to_pattern(kind: SlideBodyKind) -> (p: SlidePattern)
    ensures
        p == body_pattern(kind),
{
    match kind {
        SlideBodyKind::Line => SlidePattern::Line,
        SlideBodyKind::CircleRight => SlidePattern::Right,
        SlideBodyKind::CircleLeft => SlidePattern::Left,
        SlideBodyKind::CircleUp => SlidePattern::Caret,
        SlideBodyKind::V => SlidePattern::LowerV,
        SlideBodyKind::Pp => SlidePattern::PP,
        SlideBodyKind::Qq => SlidePattern::QQ,
        SlideBodyKind::P => SlidePattern::P,
        SlideBodyKind::Q => SlidePattern::Q,
        SlideBodyKind::S => SlidePattern::S,
        SlideBodyKind::Z => SlidePattern::Z,
        SlideBodyKind::Turn => SlidePattern::BigV,
        SlideBodyKind::Wifi => SlidePattern::Wifi,
    }
}

// ---------------------------------------------------------------------------
// Divisors
// ---------------------------------------------------------------------------

pub open spec fn gcd_spec(a: nat, b: nat) -> nat
    decreases b,
{
    if b == 0 {
        a
    } else {
        gcd_spec(b, a % b)
    }
}

pub fn gcd_u32(a: u32, b: u32) -> (g: u32)
    ensures
        g == gcd_spec(a as nat, b as nat),
    decreases b,
{
    if b == 0 {
        a
    } else {
        gcd_u32(b, a % b)
    }
}

pub open spec fn divides(d: nat, n: nat) -> bool {
    exists|k: nat| n == #[trigger] (k * d)
}

/// The greatest common divisor divides both numbers.
pub proof fn lemma_gcd_divides(a: nat, b: nat)
    ensures
        divides(gcd_spec(a, b), a),
        divides(gcd_spec(a, b), b),
    decreases b,
{
    if b == 0 {
        assert(a == 1 * a);
        assert(0 == 0 * a);
    } else {
        lemma_gcd_divides(b, a % b);
        let g = gcd_spec(b, a % b);
        let k1 = choose|k: nat| b == #[trigger] (k * g);
        let k2 = choose|k: nat| a % b == #[trigger] (k * g);
        let q = a / b;
        assert(a == q * b + a % b) by (nonlinear_arith)
            requires
                b > 0,
                q == a / b,
        {
        }
        let k = q * k1 + k2;
        assert(a == k * g) by (nonlinear_arith)
            requires
                a == q * b + a % b,
                b == k1 * g,
                a % b == k2 * g,
                k == q * k1 + k2,
        {
        }
    }
}

pub open spec fn lcm_spec(a: nat, b: nat) -> nat {
    if a == 0 || b == 0 {
        0
    } else {
        a / gcd_spec(a, b) * b
    }
}

pub proof fn lemma_gcd_pos(a: nat, b: nat)
    requires
        a > 0 || b > 0,
    ensures
        gcd_spec(a, b) > 0,
    decreases b,
{
    if b > 0 {
        if a % b == 0 {
            assert(gcd_spec(b, 0) == b);
        } else {
            lemma_gcd_pos(b, a % b);
        }
    }
}

pub fn lcm_u32(a: u32, b: u32) -> (l: u32)
    requires
        lcm_spec(a as nat, b as nat) <= u32::MAX,
    ensures
        l == lcm_spec(a as nat, b as nat),
{
    if a == 0 || b == 0 {
        0
    } else {
        let g = gcd_u32(a, b);
        proof {
            lemma_gcd_pos(a as nat, b as nat);
        }
        let q = a / g;
        assert((q as nat) * (b as nat) == lcm_spec(a as nat, b as nat));
        q * b
    }
}

/// The least common multiple is a multiple of both numbers.
pub proof fn lemma_lcm_multiple(a: nat, b: nat)
    ensures
        divides(a, lcm_spec(a, b)),
        divides(b, lcm_spec(a, b)),
{
    if a == 0 || b == 0 {
        assert(0 == 0 * a);
        assert(0 == 0 * b);
    } else {
        lemma_gcd_divides(a, b);
        lemma_gcd_pos(a, b);
        let g = gcd_spec(a, b);
        let ka = choose|k: nat| a == #[trigger] (k * g);
        let kb = choose|k: nat| b == #[trigger] (k * g);
        assert(a / g == ka) by (nonlinear_arith)
            requires
                a == ka * g,
                g > 0,
        {
        }
        let l = a / g * b;
        assert(l == ka * b);
        assert(l == kb * a) by (nonlinear_arith)
            requires
                l == ka * b,
                a == ka * g,
                b == kb * g,
        {
        }
    }
}

// ---------------------------------------------------------------------------
// Parsed Simai charts
// ---------------------------------------------------------------------------

/// One chained arc after a slide's first arc: pattern, 0-based end button,
/// reflect button (for `V`), and whether it starts a new slide from the same
/// head (`*` in Simai).
pub type ChainArc = (SlidePattern, u8, Option<u8>, bool);

/// A parsed Simai note. Positions and lengths are in measure quanta,
/// `hi_speed` in 1/100000 units; buttons and positions are 0-based.
#[derive(Debug, Clone)]
pub enum SimaiNote {
    Tap {
        measure: i64,
        button: u8,
        is_break: bool,
        is_ex: bool,
        is_star: bool,
        hi_speed: i64,
    },
    Hold {
        measure: i64,
        button: u8,
        duration: i64,
        is_ex: bool,
        hi_speed: i64,
    },
    Slide {
        measure: i64,
        start: u8,
        end: u8,
        pattern: SlidePattern,
        reflect: Option<u8>,
        duration: i64,
        delay: i64,
        /// The wait was written out (`[wait##travel]`), even when it is zero.
        delay_explicit: bool,
        is_break: bool,
        is_ex: bool,
        is_tapless: bool,
        chain: Vec<ChainArc>,
        hi_speed: i64,
    },
    TouchTap {
        measure: i64,
        region: char,
        position: u8,
        is_firework: bool,
        hi_speed: i64,
    },
    TouchHold {
        measure: i64,
        region: char,
        position: u8,
        duration: i64,
        is_firework: bool,
        hi_speed: i64,
    },
}

/// The content of a [`SimaiNote`], with the chain of a slide as a sequence.
pub enum SimaiNoteView {
    Tap { measure: i64, button: u8, is_break: bool, is_ex: bool, is_star: bool, hi_speed: i64 },
    Hold { measure: i64, button: u8, duration: i64, is_ex: bool, hi_speed: i64 },
    Slide {
        measure: i64,
        start: u8,
        end: u8,
        pattern: SlidePattern,
        reflect: Option<u8>,
        duration: i64,
        delay: i64,
        delay_explicit: bool,
        is_break: bool,
        is_ex: bool,
        is_tapless: bool,
        chain: Seq<ChainArc>,
        hi_speed: i64,
    },
    TouchTap { measure: i64, region: char, position: u8, is_firework: bool, hi_speed: i64 },
    TouchHold {
        measure: i64,
        region: char,
        position: u8,
        duration: i64,
        is_firework: bool,
        hi_speed: i64,
    },
}

impl View for SimaiNote {
    type V = SimaiNoteView;

    open spec fn view(&self) -> SimaiNoteView {
        match *self {
            SimaiNote::Tap { measure, button, is_break, is_ex, is_star, hi_speed } => SimaiNoteView::Tap {
                measure,
                button,
                is_break,
                is_ex,
                is_star,
                hi_speed,
            },
            SimaiNote::Hold { measure, button, duration, is_ex, hi_speed } => SimaiNoteView::Hold {
                measure,
                button,
                duration,
                is_ex,
                hi_speed,
            },
            SimaiNote::Slide {
                measure,
                start,
                end,
                pattern,
                reflect,
                duration,
                delay,
                delay_explicit,
                is_break,
                is_ex,
                is_tapless,
                chain,
                hi_speed,
            } => SimaiNoteView::Slide {
                measure,
                start,
                end,
                pattern,
                reflect,
                duration,
                delay,
                delay_explicit,
                is_break,
                is_ex,
                is_tapless,
                chain: chain@,
                hi_speed,
            },
            SimaiNote::TouchTap { measure, region, position, is_firework, hi_speed } => SimaiNoteView::TouchTap {
                measure,
                region,
                position,
                is_firework,
                hi_speed,
            },
            SimaiNote::TouchHold { measure, region, position, duration, is_firework, hi_speed } => SimaiNoteView::TouchHold {
                measure,
                region,
                position,
                duration,
                is_firework,
                hi_speed,
            },
        }
    }
}

pub open spec fn simai_notes_view(v: Seq<SimaiNote>) -> Seq<SimaiNoteView> {
    v.map_values(|n: SimaiNote| n@)
}

pub open spec fn note_measure(n: SimaiNote) -> i64 {
    match n {
        SimaiNote::Tap { measure, .. } => measure,
        SimaiNote::Hold { measure, .. } => measure,
        SimaiNote::Slide { measure, .. } => measure,
        SimaiNote::TouchTap { measure, .. } => measure,
        SimaiNote::TouchHold { measure, .. } => measure,
    }
}

impl SimaiNote {
    pub fn measure(&self) -> (m: i64)
        ensures
            m == note_measure(*self),
    {
        match self {
            SimaiNote::Tap { measure, .. } => *measure,
            SimaiNote::Hold { measure, .. } => *measure,
            SimaiNote::Slide { measure, .. } => *measure,
            SimaiNote::TouchTap { measure, .. } => *measure,
            SimaiNote::TouchHold { measure, .. } => *measure,
        }
    }
}

/// The notes and tempo changes of one difficulty.
#[derive(Debug, Clone)]
pub struct SimaiChart {
    pub notes: Vec<SimaiNote>,
    pub bpms: Vec<BpmChange>,
}

/// A whole maidata file: header fields, level labels and charts.
#[derive(Debug, Clone)]
pub struct SimaiFile {
    pub title: String,
    pub artist: String,
    /// `&first=` offset in 1/100000 seconds.
    pub first: i64,
    pub levels: Vec<(u32, String)>,
    pub charts: Vec<(u32, SimaiChart)>,
    /// `&wholebpm=` in 1/100000 beats per minute.
    pub wholebpm: Option<i64>,
    pub source_text: String,
}

impl SimaiFile {
    pub fn source_text(&self) -> (r: &String)
        ensures
            r == &self.source_text,
    {
        &self.source_text
    }

    /// Number of difficulties: the parsed charts, or the level labels when
    /// no chart was parsed.
    pub fn chart_count(&self) -> (n: usize)
        ensures
            n == if self.charts@.len() == 0 { self.levels@.len() } else { self.charts@.len() },
    {
        if self.charts.len() == 0 {
            self.levels.len()
        } else {
            self.charts.len()
        }
    }
}

/// The arc can be converted without a button number overflowing.
pub open spec fn arc_ok(pattern: SlidePattern, end: u8, reflect: Option<u8>) -> bool {
    &&& end < 255
    &&& pattern == SlidePattern::BigV ==> (reflect matches Some(r) ==> r < 255)
}

pub open spec fn chain_ok(chain: Seq<ChainArc>) -> bool {
    forall|k: int| 0 <= k < chain.len() ==> arc_ok(#[trigger] chain[k].0, chain[k].1, chain[k].2)
}

/// No 0-based button of the note is 255 (a 1-based lane must fit in a byte).
pub open spec fn note_ok(n: SimaiNote) -> bool {
    match n {
        SimaiNote::Tap { button, .. } => button < 255,
        SimaiNote::Hold { button, .. } => button < 255,
        SimaiNote::Slide { start, end, pattern, reflect, chain, .. } => start < 255 && arc_ok(
            pattern,
            end,
            reflect,
        ) && chain_ok(chain@),
        _ => true,
    }
}

pub open spec fn chart_ok(notes: Seq<SimaiNote>) -> bool {
    forall|i: int| 0 <= i < notes.len() ==> note_ok(#[trigger] notes[i])
}

// ---------------------------------------------------------------------------
// Building slides
// ---------------------------------------------------------------------------

pub open spec fn zone_points(zones: Seq<u8>) -> Seq<SlidePoint> {
    zones.map_values(|z: u8| SlidePoint { zone: PadZone { id: z }, beat_offset: 0 })
}

/// The segment for one arc.
pub open spec fn arc_segment(end: u8, pattern: SlidePattern, reflect: Option<u8>) -> SegmentView {
    SegmentView { points: zone_points(pattern_zones(end, pattern, reflect)), shape: pattern_shape(pattern) }
}

/// Slides already closed, segments of the open slide, after reading `chain`.
pub open spec fn chain_fold(first: SegmentView, chain: Seq<ChainArc>, total: i64, delay: i64, brk: bool) -> (
    Seq<SlideView>,
    Seq<SegmentView>,
)
    decreases chain.len(),
{
    if chain.len() == 0 {
        (Seq::empty(), seq![first])
    } else {
        let (done, cur) = chain_fold(first, chain.drop_last(), total, delay, brk);
        let a = chain.last();
        let seg = arc_segment(a.1, a.0, a.2);
        if a.3 {
            (done.push(SlideView { segments: cur, slide_duration: total, slide_start_delay: delay, slide_is_break: brk }), seq![seg])
        } else {
            (done, cur.push(seg))
        }
    }
}

/// The slides of a slide note: one per `*`-separated group of arcs, each with
/// the given total span, wait and break flag.
pub open spec fn chain_slides(
    end: u8,
    pattern: SlidePattern,
    reflect: Option<u8>,
    chain: Seq<ChainArc>,
    total: i64,
    delay: i64,
    brk: bool,
) -> Seq<SlideView> {
    let (done, cur) = chain_fold(arc_segment(end, pattern, reflect), chain, total, delay, brk);
    if cur.len() > 0 {
        done.push(SlideView { segments: cur, slide_duration: total, slide_start_delay: delay, slide_is_break: brk })
    } else {
        done
    }
}

fn arc_points(start: u8, end: u8, pattern: SlidePattern, reflect: Option<u8>) -> (seg: SlideSegment)
    requires
        start < 255,
        arc_ok(pattern, end, reflect),
    ensures
        seg@ == arc_segment(end, pattern, reflect),
{
    let points = simai_pattern_to_points(start, end, pattern, reflect);
    assert(points@ =~= zone_points(pattern_zones(end, pattern, reflect))) by {
        assert forall|k: int| 0 <= k < points@.len() implies points@[k] == zone_points(
            pattern_zones(end, pattern, reflect),
        )[k] by {
            assert(point_zones(points@)[k] == points@[k].zone.id);
        }
    }
    SlideSegment { points, shape: simai_pattern_to_shape(pattern) }
}

/// Build the slides of a slide note from its first arc and its chain.
pub fn build_chain_slides(
    start: u8,
    end: u8,
    pattern: SlidePattern,
    reflect: Option<u8>,
    chain: &Vec<ChainArc>,
    total: i64,
    delay: i64,
    brk: bool,
) -> (r: Vec<Slide>)
    requires
        start < 255,
        arc_ok(pattern, end, reflect),
        chain_ok(chain@),
    ensures
        slides_view(r@) == chain_slides(end, pattern, reflect, chain@, total, delay, brk),
{
    let ghost first = arc_segment(end, pattern, reflect);
    let mut slides: Vec<Slide> = Vec::new();
    let mut cur: Vec<SlideSegment> = Vec::new();
    cur.push(arc_points(start, end, pattern, reflect));
    let mut prev_end = end;
    let mut i: usize = 0;
    assert(crate::model::segments_view(cur@) =~= seq![first]);
    assert(chain@.subrange(0, 0) =~= Seq::<ChainArc>::empty());
    while i < chain.len()
        invariant
            i <= chain@.len(),
            chain_ok(chain@),
            prev_end < 255,
            (slides_view(slides@), crate::model::segments_view(cur@)) == chain_fold(
                first,
                chain@.subrange(0, i as int),
                total,
                delay,
                brk,
            ),
        decreases chain.len() - i,
    {
        let (cp, ce, cr, is_new) = chain[i];
        assert(chain@.subrange(0, i + 1).drop_last() =~= chain@.subrange(0, i as int));
        assert(chain@.subrange(0, i + 1).last() == chain@[i as int]);
        assert(arc_ok(chain@[i as int].0, chain@[i as int].1, chain@[i as int].2));
        let seg = arc_points(prev_end, ce, cp, cr);
        if is_new {
            let segs = cur;
            let ghost sv = crate::model::segments_view(segs@);
            slides.push(Slide { segments: segs, slide_duration: total, slide_start_delay: delay, slide_is_break: brk });
            assert(slides_view(slides@) =~= slides_view(slides@.drop_last()).push(slides@.last()@));
            cur = Vec::new();
            cur.push(seg);
            assert(crate::model::segments_view(cur@) =~= seq![seg@]);
        } else {
            cur.push(seg);
            assert(crate::model::segments_view(cur@) =~= crate::model::segments_view(cur@.drop_last()).push(seg@));
        }
        prev_end = ce;
        i = i + 1;
    }
    assert(chain@.subrange(0, chain@.len() as int) =~= chain@);
    if cur.len() > 0 {
        slides.push(Slide { segments: cur, slide_duration: total, slide_start_delay: delay, slide_is_break: brk });
        assert(slides_view(slides@) =~= slides_view(slides@.drop_last()).push(slides@.last()@));
    }
    slides
}

// ---------------------------------------------------------------------------
// Simai chart to ChartDoc
// ---------------------------------------------------------------------------

/// Another note of `ns` shares note `i`'s position.
pub open spec fn shares_position(ns: Seq<SimaiNote>, i: int) -> bool {
    exists|j: int| 0 <= j < ns.len() && j != i && note_measure(ns[j]) == note_measure(ns[i])
}

pub open spec fn is_slide_head(n: SimaiNote, m: i64, b: u8) -> bool {
    match n {
        SimaiNote::Slide { measure, start, .. } => measure == m && start == b,
        _ => false,
    }
}

pub open spec fn is_star_tap(n: SimaiNote, m: i64, b: u8) -> bool {
    match n {
        SimaiNote::Tap { measure, button, is_star, .. } => is_star && measure == m && button == b,
        _ => false,
    }
}

/// A slide starts at button `b` at position `m`.
pub open spec fn has_slide_head(ns: Seq<SimaiNote>, m: i64, b: u8) -> bool {
    exists|j: int| 0 <= j < ns.len() && is_slide_head(#[trigger] ns[j], m, b)
}

/// Break and ex flags of the first star tap at button `b`, position `m`.
pub open spec fn star_tap_flags(ns: Seq<SimaiNote>, m: i64, b: u8) -> (bool, bool)
    decreases ns.len(),
{
    if ns.len() == 0 {
        (false, false)
    } else if is_star_tap(ns[0], m, b) {
        match ns[0] {
            SimaiNote::Tap { is_break, is_ex, .. } => (is_break, is_ex),
            _ => (false, false),
        }
    } else {
        star_tap_flags(ns.drop_first(), m, b)
    }
}

pub open spec fn max0(x: i64) -> i64 {
    if x > 0 { x } else { 0 }
}

pub open spec fn lane_of(button: u8) -> u8 {
    (button + 1) as u8
}

/// The chart note made of note `i`, if any. A star tap that only heads a
/// slide at the same position is dropped (the slide draws its own star and
/// takes the tap's break/ex flags); touch notes outside A-E are dropped.
pub open spec fn simai_note_at(ns: Seq<SimaiNote>, i: int) -> Option<NoteView> {
    let each = shares_position(ns, i);
    match ns[i] {
        SimaiNote::Tap { measure, button, is_break, is_ex, is_star, hi_speed } => {
            if is_star && has_slide_head(ns, measure, button) {
                None
            } else {
                Some(NoteView {
                    is_each: each,
                    is_break,
                    is_ex,
                    is_star,
                    hi_speed,
                    ..crate::model::plain_note(measure, lane_of(button), NoteType::Tap)
                })
            }
        },
        SimaiNote::Hold { measure, button, duration, is_ex, hi_speed } => Some(NoteView {
            hold_duration: max0(duration),
            is_each: each,
            is_ex,
            hi_speed,
            ..crate::model::plain_note(measure, lane_of(button), NoteType::Hold)
        }),
        SimaiNote::Slide {
            measure,
            start,
            end,
            pattern,
            reflect,
            duration,
            delay,
            is_break,
            is_tapless,
            chain,
            hi_speed,
            ..
        } => {
            let flags = star_tap_flags(ns, measure, start);
            Some(NoteView {
                is_each: each,
                is_break: flags.0,
                is_ex: flags.1,
                is_tapless,
                hi_speed,
                slide: chain_slides(
                    end,
                    pattern,
                    reflect,
                    chain@,
                    max0((duration + delay) as i64),
                    max0(delay),
                    is_break,
                ),
                ..crate::model::plain_note(measure, lane_of(start), NoteType::Slide)
            })
        },
        SimaiNote::TouchTap { measure, region, position, hi_speed, .. } => match touch_lane_spec(
            region,
            position,
        ) {
            Some(lane) => Some(NoteView {
                is_each: each,
                hi_speed,
                ..crate::model::plain_note(measure, lane, NoteType::Touch)
            }),
            None => None,
        },
        SimaiNote::TouchHold { measure, region, position, duration, hi_speed, .. } => match touch_lane_spec(
            region,
            position,
        ) {
            Some(lane) => Some(NoteView {
                hold_duration: max0(duration),
                is_each: each,
                hi_speed,
                ..crate::model::plain_note(measure, lane, NoteType::Hold)
            }),
            None => None,
        },
    }
}

/// The chart notes made of the first `k` Simai notes, in order.
pub open spec fn simai_notes_upto(ns: Seq<SimaiNote>, k: int) -> Seq<NoteView>
    decreases k,
{
    if k <= 0 {
        Seq::empty()
    } else {
        let prev = simai_notes_upto(ns, k - 1);
        match simai_note_at(ns, k - 1) {
            Some(n) => prev.push(n),
            None => prev,
        }
    }
}

/// The chart note made of Simai note `k` is among the notes made of the
/// first `m` Simai notes, for `k < m`.
proof fn lemma_simai_notes_upto_keeps(ns: Seq<SimaiNote>, k: int, m: int)
    requires
        0 <= k < m <= ns.len(),
        simai_note_at(ns, k) is Some,
    ensures
        simai_notes_upto(ns, m).contains(simai_note_at(ns, k)->0),
    decreases m,
{
    let x = simai_note_at(ns, k)->0;
    let prev = simai_notes_upto(ns, m - 1);
    if k == m - 1 {
        assert(simai_notes_upto(ns, m) == prev.push(x));
        assert(simai_notes_upto(ns, m)[prev.len() as int] == x);
    } else {
        lemma_simai_notes_upto_keeps(ns, k, m - 1);
        let w = choose|w: int| 0 <= w < prev.len() && prev[w] == x;
        match simai_note_at(ns, m - 1) {
            Some(n) => {
                assert(prev.push(n)[w] == x);
            },
            None => {},
        }
    }
}

/// Every Simai hold is imported as a hold at its position, on the lane after
/// its button, with its length (none when negative), its ex flag and its
/// speed.
pub proof fn lemma_imported_holds_keep_flags(
    ns: Seq<SimaiNote>,
    k: int,
    measure: i64,
    button: u8,
    duration: i64,
    is_ex: bool,
    hi_speed: i64,
)
    requires
        0 <= k < ns.len(),
        ns[k] == (SimaiNote::Hold { measure, button, duration, is_ex, hi_speed }),
        button < 255,
    ensures
        exists|j: int|
            0 <= j < sort_by_time(simai_notes_upto(ns, ns.len() as int)).len() && (#[trigger] sort_by_time(
                simai_notes_upto(ns, ns.len() as int),
            )[j]).note_type == NoteType::Hold && sort_by_time(simai_notes_upto(ns, ns.len() as int))[j].time
                == measure && sort_by_time(simai_notes_upto(ns, ns.len() as int))[j].lane == button + 1
                && sort_by_time(simai_notes_upto(ns, ns.len() as int))[j].hold_duration == (if duration > 0 {
                duration
            } else {
                0
            }) && sort_by_time(simai_notes_upto(ns, ns.len() as int))[j].is_ex == is_ex && sort_by_time(
                simai_notes_upto(ns, ns.len() as int),
            )[j].hi_speed == hi_speed,
{
    lemma_simai_notes_upto_keeps(ns, k, ns.len() as int);
    let x = simai_note_at(ns, k)->0;
    crate::model::lemma_sort_by_time_keeps(simai_notes_upto(ns, ns.len() as int), x);
    let s = sort_by_time(simai_notes_upto(ns, ns.len() as int));
    let j = choose|j: int| 0 <= j < s.len() && s[j] == x;
    assert(s[j] == x);
}

/// Every Simai tap that does not only head a slide (it is no star, or no
/// slide leaves its button at its position) is imported as a tap at its
/// position, on the lane after its button, with its break, ex and star flags
/// and its speed.
pub proof fn lemma_imported_taps_keep_flags(
    ns: Seq<SimaiNote>,
    k: int,
    measure: i64,
    button: u8,
    is_break: bool,
    is_ex: bool,
    is_star: bool,
    hi_speed: i64,
)
    requires
        0 <= k < ns.len(),
        ns[k] == (SimaiNote::Tap { measure, button, is_break, is_ex, is_star, hi_speed }),
        button < 255,
        is_star ==> forall|i: int|
            0 <= i < ns.len() ==> !(#[trigger] ns[i] matches SimaiNote::Slide { measure: m, start, .. } && m == measure
                && start == button),
    ensures
        exists|j: int|
            0 <= j < sort_by_time(simai_notes_upto(ns, ns.len() as int)).len() && (#[trigger] sort_by_time(
                simai_notes_upto(ns, ns.len() as int),
            )[j]).note_type == NoteType::Tap && sort_by_time(simai_notes_upto(ns, ns.len() as int))[j].time
                == measure && sort_by_time(simai_notes_upto(ns, ns.len() as int))[j].lane == button + 1
                && sort_by_time(simai_notes_upto(ns, ns.len() as int))[j].is_break == is_break && sort_by_time(
                simai_notes_upto(ns, ns.len() as int),
            )[j].is_ex == is_ex && sort_by_time(simai_notes_upto(ns, ns.len() as int))[j].is_star == is_star
                && sort_by_time(simai_notes_upto(ns, ns.len() as int))[j].hi_speed == hi_speed,
{
    if is_star && has_slide_head(ns, measure, button) {
        let i = choose|i: int| 0 <= i < ns.len() && is_slide_head(#[trigger] ns[i], measure, button);
        assert(!(ns[i] matches SimaiNote::Slide { measure: m, start, .. } && m == measure && start == button));
    }
    lemma_simai_notes_upto_keeps(ns, k, ns.len() as int);
    let x = simai_note_at(ns, k)->0;
    crate::model::lemma_sort_by_time_keeps(simai_notes_upto(ns, ns.len() as int), x);
    let s = sort_by_time(simai_notes_upto(ns, ns.len() as int));
    let j = choose|j: int| 0 <= j < s.len() && s[j] == x;
    assert(s[j] == x);
}

/// Every Simai slide is imported as a slide note at its position, on the
/// lane after its start button, tapless when the slide is, with its speed.
pub proof fn lemma_imported_slides_keep_flags(ns: Seq<SimaiNote>, k: int)
    requires
        0 <= k < ns.len(),
        ns[k] is Slide,
        ns[k]->Slide_start < 255,
    ensures
        exists|j: int|
            0 <= j < sort_by_time(simai_notes_upto(ns, ns.len() as int)).len() && (#[trigger] sort_by_time(
                simai_notes_upto(ns, ns.len() as int),
            )[j]).note_type == NoteType::Slide && sort_by_time(simai_notes_upto(ns, ns.len() as int))[j].time
                == ns[k]->Slide_measure && sort_by_time(simai_notes_upto(ns, ns.len() as int))[j].lane
                == ns[k]->Slide_start + 1 && sort_by_time(simai_notes_upto(ns, ns.len() as int))[j].is_tapless
                == ns[k]->Slide_is_tapless && sort_by_time(simai_notes_upto(ns, ns.len() as int))[j].hi_speed
                == ns[k]->Slide_hi_speed,
{
    lemma_simai_notes_upto_keeps(ns, k, ns.len() as int);
    let x = simai_note_at(ns, k)->0;
    crate::model::lemma_sort_by_time_keeps(simai_notes_upto(ns, ns.len() as int), x);
    let s = sort_by_time(simai_notes_upto(ns, ns.len() as int));
    let j = choose|j: int| 0 <= j < s.len() && s[j] == x;
    assert(s[j] == x);
}

/// Tempo changes in position order, with a change at measure 1 (`fallback`)
/// added in front when none starts there.
pub open spec fn initial_bpms(bpms: Seq<BpmChange>, fallback: i64) -> Seq<BpmChange> {
    let s = sort_by_measure(bpms);
    if s.len() == 0 || s[0].measure > 100010 {
        seq![BpmChange { measure: QUANTA_PER_MEASURE, bpm: fallback }] + s
    } else {
        s
    }
}

/// 120 beats per minute, in 1/100000 units.
pub const DEFAULT_BPM: i64 = 12000000;

/// The chart's first tempo, or 120.
pub open spec fn first_bpm(bpms: Seq<BpmChange>) -> i64 {
    if bpms.len() > 0 { bpms[0].bpm } else { DEFAULT_BPM }
}

/// Slide spans fit in `i64`.
pub open spec fn spans_fit(ns: Seq<SimaiNote>) -> bool {
    forall|i: int| 0 <= i < ns.len() ==> match #[trigger] ns[i] {
        SimaiNote::Slide { duration, delay, .. } => i64::MIN <= duration + delay <= i64::MAX,
        _ => true,
    }
}

fn shares_position_exec(ns: &Vec<SimaiNote>, i: usize) -> (b: bool)
    requires
        i < ns@.len(),
    ensures
        b == shares_position(ns@, i as int),
{
    let m = ns[i].measure();
    let mut j: usize = 0;
    while j < ns.len()
        invariant
            j <= ns@.len(),
            i < ns@.len(),
            m == note_measure(ns@[i as int]),
            forall|k: int| 0 <= k < j && k != i ==> note_measure(ns@[k]) != m,
        decreases ns.len() - j,
    {
        if j != i && ns[j].measure() == m {
            return true;
        }
        j = j + 1;
    }
    false
}

fn has_slide_head_exec(ns: &Vec<SimaiNote>, m: i64, b: u8) -> (r: bool)
    ensures
        r == has_slide_head(ns@, m, b),
{
    let mut j: usize = 0;
    while j < ns.len()
        invariant
            j <= ns@.len(),
            forall|k: int| 0 <= k < j ==> !is_slide_head(#[trigger] ns@[k], m, b),
        decreases ns.len() - j,
    {
        let hit = match &ns[j] {
            SimaiNote::Slide { measure, start, .. } => *measure == m && *start == b,
            _ => false,
        };
        if hit {
            assert(is_slide_head(ns@[j as int], m, b));
            return true;
        }
        j = j + 1;
    }
    false
}

fn star_tap_flags_exec(ns: &Vec<SimaiNote>, m: i64, b: u8) -> (r: (bool, bool))
    ensures
        r == star_tap_flags(ns@, m, b),
{
    let mut j: usize = 0;
    assert(ns@.skip(0) =~= ns@);
    while j < ns.len()
        invariant
            j <= ns@.len(),
            star_tap_flags(ns@, m, b) == star_tap_flags(ns@.skip(j as int), m, b),
        decreases ns.len() - j,
    {
        assert(ns@.skip(j as int)[0] == ns@[j as int]);
        match &ns[j] {
            SimaiNote::Tap { measure, button, is_break, is_ex, is_star, .. } => {
                if *is_star && *measure == m && *button == b {
                    return (*is_break, *is_ex);
                }
            },
            _ => {},
        }
        assert(ns@.skip(j as int).drop_first() =~= ns@.skip(j + 1));
        j = j + 1;
    }
    (false, false)
}

/// Convert a parsed Simai chart to a [`ChartDoc`]: notes in time order, tempo
/// changes in position order starting at measure 1, each-groups marked for
/// notes that share a position. Positions are taken as they are, on the
/// chart's grid of quanta; they are not snapped to a coarser editing grid.
pub fn simai_chart_to_chart_doc(chart: &SimaiChart) -> (doc: ChartDoc)
    requires
        chart_ok(chart.notes@),
        spans_fit(chart.notes@),
    ensures
        doc.version@ == "0.3.0-measure"@,
        doc.title@ == Seq::<char>::empty(),
        doc.artist@ == Seq::<char>::empty(),
        doc.simai_level == 0,
        doc.bpm == first_bpm(chart.bpms@),
        doc.bpms@ == initial_bpms(chart.bpms@, first_bpm(chart.bpms@)),
        doc.audio_offset == 0,
        notes_view(doc.notes@) == sort_by_time(
            simai_notes_upto(chart.notes@, chart.notes@.len() as int),
        ),
{
    let bpm0 = if chart.bpms.len() > 0 { chart.bpms[0].bpm } else { DEFAULT_BPM };
    let bpms = ensure_initial_bpm(&chart.bpms, bpm0);
    let ns = &chart.notes;
    let mut notes: Vec<Note> = Vec::new();
    let mut i: usize = 0;
    while i < ns.len()
        invariant
            i <= ns@.len(),
            chart_ok(ns@),
            spans_fit(ns@),
            notes_view(notes@) == simai_notes_upto(ns@, i as int),
        decreases ns.len() - i,
    {
        let each = shares_position_exec(ns, i);
        assert(note_ok(ns@[i as int]));
        let ghost want = simai_note_at(ns@, i as int);
        let ghost before = notes@;
        match &ns[i] {
            SimaiNote::Tap { measure, button, is_break, is_ex, is_star, hi_speed } => {
                let skip = *is_star && has_slide_head_exec(ns, *measure, *button);
                if !skip {
                    let mut n = Note::new(*measure, *button + 1, NoteType::Tap);
                    n.is_each = each;
                    n.is_break = *is_break;
                    n.is_ex = *is_ex;
                    n.is_star = *is_star;
                    n.hi_speed = *hi_speed;
                    assert(!(*is_star && has_slide_head(ns@, *measure, *button)));
                    assert(n@.slide =~= want.unwrap().slide);
                    notes.push(n);
                }
            },
            SimaiNote::Hold { measure, button, duration, is_ex, hi_speed } => {
                let mut n = Note::new(*measure, *button + 1, NoteType::Hold);
                n.hold_duration = if *duration > 0 { *duration } else { 0 };
                n.is_each = each;
                n.is_ex = *is_ex;
                n.hi_speed = *hi_speed;
                assert(want is Some);
                assert(n@.slide =~= want.unwrap().slide);
                assert(n@ == want.unwrap());
                notes.push(n);
            },
            SimaiNote::Slide {
                measure,
                start,
                end,
                pattern,
                reflect,
                duration,
                delay,
                is_break,
                is_tapless,
                chain,
                hi_speed,
                ..
            } => {
                let sum = *duration + *delay;
                let total = if sum > 0 { sum } else { 0 };
                let wait = if *delay > 0 { *delay } else { 0 };
                let slides = build_chain_slides(*start, *end, *pattern, *reflect, chain, total, wait, *is_break);
                let (sb, se) = star_tap_flags_exec(ns, *measure, *start);
                let mut n = Note::new(*measure, *start + 1, NoteType::Slide);
                n.is_each = each;
                n.is_break = sb;
                n.is_ex = se;
                n.is_tapless = *is_tapless;
                n.hi_speed = *hi_speed;
                n.slide = slides;
                assert(want is Some);
                assert(n@.slide =~= want.unwrap().slide);
                assert(n@ == want.unwrap());
                notes.push(n);
            },
            SimaiNote::TouchTap { measure, region, position, hi_speed, .. } => {
                if let Some(lane) = touch_to_lane(*region, *position) {
                    let mut n = Note::new(*measure, lane, NoteType::Touch);
                    n.is_each = each;
                    n.hi_speed = *hi_speed;
                    assert(n@.slide =~= want.unwrap().slide);
                    notes.push(n);
                }
            },
            SimaiNote::TouchHold { measure, region, position, duration, hi_speed, .. } => {
                if let Some(lane) = touch_to_lane(*region, *position) {
                    let mut n = Note::new(*measure, lane, NoteType::Hold);
                    n.hold_duration = if *duration > 0 { *duration } else { 0 };
                    n.is_each = each;
                    n.hi_speed = *hi_speed;
                    assert(n@.slide =~= want.unwrap().slide);
                    notes.push(n);
                }
            },
        }
        proof {
            match want {
                Some(v) => {
                    assert(notes@ == before.push(notes@.last()));
                    assert(notes@.last()@ == v);
                    assert(notes_view(notes@) =~= notes_view(before).push(v));
                },
                None => {
                    assert(notes@ == before);
                },
            }
        }
        i = i + 1;
    }
    let sorted = sort_notes_by_time(notes);
    ChartDoc {
        version: String::from_str("0.3.0-measure"),
        title: String::new(),
        artist: String::new(),
        simai_level: 0,
        bpm: bpm0,
        bpms,
        audio_offset: 0,
        notes: sorted,
    }
}

/// Tempo changes in position order, starting with one at measure 1.
fn ensure_initial_bpm(bpms: &Vec<BpmChange>, fallback: i64) -> (out: Vec<BpmChange>)
    ensures
        out@ == initial_bpms(bpms@, fallback),
{
    let mut out = sort_bpms_by_measure(bpms);
    if out.len() == 0 || out[0].measure > 100010 {
        out.insert(0, BpmChange { measure: QUANTA_PER_MEASURE, bpm: fallback });
        assert(out@ =~= seq![BpmChange { measure: QUANTA_PER_MEASURE, bpm: fallback }] + sort_by_measure(bpms@));
    }
    out
}

// ---------------------------------------------------------------------------
// Choosing a level, each groups
// ---------------------------------------------------------------------------

/// The level keys of a file: its level labels' and its charts'.
pub open spec fn file_levels(file: SimaiFile) -> Set<u32> {
    Set::new(
        |l: u32|
            (exists|i: int| 0 <= i < file.levels@.len() && #[trigger] file.levels@[i].0 == l) || (exists|i: int|
                0 <= i < file.charts@.len() && #[trigger] file.charts@[i].0 == l),
    )
}

/// The message when a file has no level.
pub open spec fn no_charts_message() -> Seq<char> {
    "Simai file contains no &inote_N= charts"@
}

/// Which level of a file to load: `prefer` when the file has it, else the
/// highest level. An error when the file has no level at all.
pub fn select_chart_level(file: &SimaiFile, prefer: Option<u32>) -> (r: Result<u32, String>)
    ensures
        file_levels(*file).len() == 0 <==> r is Err,
        r matches Err(e) ==> e@ == no_charts_message(),
        r matches Ok(l) ==> file_levels(*file).contains(l),
        r matches Ok(l) ==> (prefer is Some && file_levels(*file).contains(prefer->0) ==> l == prefer->0),
        r matches Ok(l) ==> (!(prefer is Some && file_levels(*file).contains(prefer->0)) ==> forall|m: u32|
            #[trigger] file_levels(*file).contains(m) ==> m <= l),
{
    let ghost levels = file_levels(*file);
    let mut found = false;
    let mut best: u32 = 0;
    let mut has_prefer = false;
    let mut i: usize = 0;
    while i < file.levels.len()
        invariant
            i <= file.levels@.len(),
            levels == file_levels(*file),
            found <==> i > 0,
            found ==> levels.contains(best),
            forall|k: int| 0 <= k < i ==> #[trigger] file.levels@[k].0 <= best,
            has_prefer <==> (prefer is Some && exists|k: int| 0 <= k < i && #[trigger] file.levels@[k].0 == prefer->0),
        decreases file.levels.len() - i,
    {
        let l = file.levels[i].0;
        if !found || l > best {
            best = l;
        }
        found = true;
        if let Some(p) = prefer {
            if l == p {
                has_prefer = true;
            }
        }
        assert(levels.contains(l));
        i = i + 1;
    }
    let mut j: usize = 0;
    while j < file.charts.len()
        invariant
            j <= file.charts@.len(),
            levels == file_levels(*file),
            found <==> (file.levels@.len() > 0 || j > 0),
            found ==> levels.contains(best),
            forall|k: int| 0 <= k < file.levels@.len() ==> #[trigger] file.levels@[k].0 <= best,
            forall|k: int| 0 <= k < j ==> #[trigger] file.charts@[k].0 <= best,
            has_prefer <==> (prefer is Some && ((exists|k: int|
                0 <= k < file.levels@.len() && #[trigger] file.levels@[k].0 == prefer->0) || (exists|k: int|
                0 <= k < j && #[trigger] file.charts@[k].0 == prefer->0))),
        decreases file.charts.len() - j,
    {
        let l = file.charts[j].0;
        if !found || l > best {
            best = l;
        }
        found = true;
        if let Some(p) = prefer {
            if l == p {
                has_prefer = true;
            }
        }
        assert(levels.contains(l));
        j = j + 1;
    }
    if !found {
        assert(levels =~= Set::<u32>::empty());
        return Err(String::from_str("Simai file contains no &inote_N= charts"));
    }
    assert(levels.len() > 0) by {
        assert(levels.contains(best));
        assert(levels.finite()) by {
            let f = file.levels@.map_values(|x: (u32, String)| x.0).to_set() + file.charts@.map_values(
                |x: (u32, SimaiChart)| x.0,
            ).to_set();
            assert forall|l: u32| levels.contains(l) implies f.contains(l) by {
                if exists|i: int| 0 <= i < file.levels@.len() && #[trigger] file.levels@[i].0 == l {
                    let i = choose|i: int| 0 <= i < file.levels@.len() && #[trigger] file.levels@[i].0 == l;
                    assert(file.levels@.map_values(|x: (u32, String)| x.0)[i] == l);
                } else {
                    let i = choose|i: int| 0 <= i < file.charts@.len() && #[trigger] file.charts@[i].0 == l;
                    assert(file.charts@.map_values(|x: (u32, SimaiChart)| x.0)[i] == l);
                }
            }
            vstd::set_lib::lemma_len_subset(levels, f);
        }
        vstd::set_lib::lemma_set_empty_equivalency_len(levels);
    }
    if has_prefer {
        Ok(prefer.unwrap())
    } else {
        Ok(best)
    }
}

/// `is_each` marks notes that share their position with another note.
pub open spec fn with_shared_positions(s: Seq<NoteView>) -> Seq<NoteView> {
    Seq::new(
        s.len(),
        |i: int|
            NoteView {
                is_each: exists|j: int| 0 <= j < s.len() && j != i && (#[trigger] s[j]).time == s[i].time,
                ..s[i]
            },
    )
}

/// How many of the first `k` notes of `s` sit at position `t`.
pub open spec fn time_count(s: Seq<NoteView>, t: i64, k: int) -> nat
    decreases k,
{
    if k <= 0 {
        0
    } else {
        time_count(s, t, k - 1) + if s[k - 1].time == t {
            1nat
        } else {
            0nat
        }
    }
}

proof fn lemma_time_count_positive(s: Seq<NoteView>, t: i64, k: int)
    requires
        0 <= k <= s.len(),
    ensures
        time_count(s, t, k) > 0 <==> exists|j: int| 0 <= j < k && (#[trigger] s[j]).time == t,
    decreases k,
{
    if k > 0 {
        lemma_time_count_positive(s, t, k - 1);
        if s[k - 1].time == t {
            assert(s[k - 1].time == t);
        }
    }
}

/// A note at position `t` shares it with another note exactly when at
/// least two notes sit there.
proof fn lemma_time_count_shared(s: Seq<NoteView>, i: int, k: int)
    requires
        0 <= i < k <= s.len(),
    ensures
        time_count(s, s[i].time, k) >= 2 <==> exists|j: int| 0 <= j < k && j != i && (#[trigger] s[j]).time == s[i].time,
    decreases k,
{
    let t = s[i].time;
    if k - 1 == i {
        lemma_time_count_positive(s, t, k - 1);
        if exists|j: int| 0 <= j < k && j != i && (#[trigger] s[j]).time == t {
            let j = choose|j: int| 0 <= j < k && j != i && (#[trigger] s[j]).time == t;
            assert(j < k - 1);
        }
    } else {
        lemma_time_count_shared(s, i, k - 1);
        if s[k - 1].time == t {
            lemma_time_count_positive(s, t, k - 1);
            assert(s[i].time == t);
        }
    }
}

/// Mark notes that share their position with another note as "each": the
/// notes are counted per position in a hash map first.
pub fn tag_each_notes(notes: &mut Vec<Note>)
    ensures
        notes_view(final(notes)@) == with_shared_positions(notes_view(old(notes)@)),
{
    broadcast use vstd::std_specs::hash::group_hash_axioms;
    let ghost s = notes_view(notes@);
    let n = notes.len();
    // Per position: how many notes sit there, counting up to 2.
    let mut counts: std::collections::HashMap<i64, u32> = std::collections::HashMap::new();
    let mut i: usize = 0;
    while i < n
        invariant
            n == notes@.len(),
            i <= n,
            s == notes_view(notes@),
            forall|t: i64| #[trigger] counts@.contains_key(t) <==> time_count(s, t, i as int) > 0,
            forall|t: i64| #[trigger] counts@.contains_key(t) ==> counts@[t] == if time_count(s, t, i as int) >= 2 {
                2
            } else {
                time_count(s, t, i as int)
            },
        decreases n - i,
    {
        let t = notes[i].time;
        assert(t == s[i as int].time);
        let c: u32 = match counts.get(&t) {
            Some(c) => *c,
            None => 0,
        };
        assert(c == if time_count(s, t, i as int) >= 2 { 2 } else { time_count(s, t, i as int) });
        let next: u32 = if c >= 2 { 2 } else { c + 1 };
        counts.insert(t, next);
        i = i + 1;
    }
    let mut i: usize = 0;
    while i < n
        invariant
            n == notes@.len(),
            n == s.len(),
            i <= n,
            forall|t: i64| #[trigger] counts@.contains_key(t) <==> time_count(s, t, n as int) > 0,
            forall|t: i64| #[trigger] counts@.contains_key(t) ==> counts@[t] == if time_count(s, t, n as int) >= 2 {
                2
            } else {
                time_count(s, t, n as int)
            },
            forall|k: int| 0 <= k < i ==> (#[trigger] notes@[k])@ == with_shared_positions(s)[k],
            forall|k: int| i <= k < n ==> (#[trigger] notes@[k])@ == s[k],
        decreases n - i,
    {
        let t = notes[i].time;
        assert(t == s[i as int].time);
        let shared = match counts.get(&t) {
            Some(c) => *c > 1,
            None => false,
        };
        proof {
            lemma_time_count_positive(s, t, n as int);
            assert(s[i as int].time == t);
            lemma_time_count_shared(s, i as int, n as int);
        }
        notes[i].is_each = shared;
        assert(notes@[i as int]@ == with_shared_positions(s)[i as int]);
        i = i + 1;
    }
    assert(notes_view(notes@) =~= with_shared_positions(s));
}

} // verus!
