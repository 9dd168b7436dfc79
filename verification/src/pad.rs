//! Pad geometry that is pure numbering: sensor ids of the pad drawing, ring
//! orders used by the slide paths, slide colours, and how a sampled slide
//! trail splits into judge segments.

use vstd::prelude::*;

use crate::model::{PadZone, SlideShape};

verus! {

/// `a` spells the text `lit`.
pub fn text_is(a: &str, lit: &str) -> (b: bool)
    ensures
        b == (a@ == lit@),
{
    let x = a.to_owned();
    let y = lit.to_owned();
    x == y
}

// ---------------------------------------------------------------------------
// Sensor ids of the pad drawing
// ---------------------------------------------------------------------------

/// Zone number and canonical name of an element id of the pad drawing.
/// The right wing is written `E1`, `E1-2` .. `E1-8` in the drawing.
pub open spec fn svg_zone(id: Seq<char>) -> Option<(u8, Seq<char>)> {
    if id == "A1"@ { Some((1u8, "A1"@)) }
    else if id == "A2"@ { Some((2u8, "A2"@)) }
    else if id == "A3"@ { Some((3u8, "A3"@)) }
    else if id == "A4"@ { Some((4u8, "A4"@)) }
    else if id == "A5"@ { Some((5u8, "A5"@)) }
    else if id == "A6"@ { Some((6u8, "A6"@)) }
    else if id == "A7"@ { Some((7u8, "A7"@)) }
    else if id == "A8"@ { Some((8u8, "A8"@)) }
    else if id == "B1"@ { Some((9u8, "B1"@)) }
    else if id == "B2"@ { Some((10u8, "B2"@)) }
    else if id == "B3"@ { Some((11u8, "B3"@)) }
    else if id == "B4"@ { Some((12u8, "B4"@)) }
    else if id == "B5"@ { Some((13u8, "B5"@)) }
    else if id == "B6"@ { Some((14u8, "B6"@)) }
    else if id == "B7"@ { Some((15u8, "B7"@)) }
    else if id == "B8"@ { Some((16u8, "B8"@)) }
    else if id == "C"@ || id == "C1"@ { Some((17u8, "C"@)) }
    else if id == "D1"@ { Some((18u8, "D1"@)) }
    else if id == "D2"@ { Some((19u8, "D2"@)) }
    else if id == "D3"@ { Some((20u8, "D3"@)) }
    else if id == "D4"@ { Some((21u8, "D4"@)) }
    else if id == "D5"@ { Some((22u8, "D5"@)) }
    else if id == "D6"@ { Some((23u8, "D6"@)) }
    else if id == "D7"@ { Some((24u8, "D7"@)) }
    else if id == "D8"@ { Some((25u8, "D8"@)) }
    else if id == "E1"@ { Some((26u8, "E1"@)) }
    else if id == "E1-2"@ { Some((27u8, "E2"@)) }
    else if id == "E1-3"@ { Some((28u8, "E3"@)) }
    else if id == "E1-4"@ { Some((29u8, "E4"@)) }
    else if id == "E1-5"@ { Some((30u8, "E5"@)) }
    else if id == "E1-6"@ { Some((31u8, "E6"@)) }
    else if id == "E1-7"@ { Some((32u8, "E7"@)) }
    else if id == "E1-8"@ { Some((33u8, "E8"@)) }
    else { None }
}

fn named(z: u8, name: &'static str) -> (r: Option<(u8, &'static str)>)
    ensures
        r matches Some(p) && p.0 == z && p.1@ == name@,
{
    Some((z, name))
}

/// Zone number and canonical name of an element id of the pad drawing.
pub fn svg_id_to_zone(id: &str) -> (r: Option<(u8, &'static str)>)
    ensures
        match svg_zone(id@) {
            Some(z) => r matches Some(p) && p.0 == z.0 && p.1@ == z.1,
            None => r is None,
        },
{
    proof {
        reveal_strlit("A1"); reveal_strlit("A2"); reveal_strlit("A3"); reveal_strlit("A4");
        reveal_strlit("A5"); reveal_strlit("A6"); reveal_strlit("A7"); reveal_strlit("A8");
        reveal_strlit("B1"); reveal_strlit("B2"); reveal_strlit("B3"); reveal_strlit("B4");
        reveal_strlit("B5"); reveal_strlit("B6"); reveal_strlit("B7"); reveal_strlit("B8");
        reveal_strlit("C"); reveal_strlit("C1");
        reveal_strlit("D1"); reveal_strlit("D2"); reveal_strlit("D3"); reveal_strlit("D4");
        reveal_strlit("D5"); reveal_strlit("D6"); reveal_strlit("D7"); reveal_strlit("D8");
        reveal_strlit("E1"); reveal_strlit("E1-2"); reveal_strlit("E1-3"); reveal_strlit("E1-4");
        reveal_strlit("E1-5"); reveal_strlit("E1-6"); reveal_strlit("E1-7"); reveal_strlit("E1-8");
        reveal_strlit("E2"); reveal_strlit("E3"); reveal_strlit("E4"); reveal_strlit("E5");
        reveal_strlit("E6"); reveal_strlit("E7"); reveal_strlit("E8");
    }
    if text_is(id, "A1") { named(1, "A1") }
    else if text_is(id, "A2") { named(2, "A2") }
    else if text_is(id, "A3") { named(3, "A3") }
    else if text_is(id, "A4") { named(4, "A4") }
    else if text_is(id, "A5") { named(5, "A5") }
    else if text_is(id, "A6") { named(6, "A6") }
    else if text_is(id, "A7") { named(7, "A7") }
    else if text_is(id, "A8") { named(8, "A8") }
    else if text_is(id, "B1") { named(9, "B1") }
    else if text_is(id, "B2") { named(10, "B2") }
    else if text_is(id, "B3") { named(11, "B3") }
    else if text_is(id, "B4") { named(12, "B4") }
    else if text_is(id, "B5") { named(13, "B5") }
    else if text_is(id, "B6") { named(14, "B6") }
    else if text_is(id, "B7") { named(15, "B7") }
    else if text_is(id, "B8") { named(16, "B8") }
    else if text_is(id, "C") || text_is(id, "C1") { named(17, "C") }
    else if text_is(id, "D1") { named(18, "D1") }
    else if text_is(id, "D2") { named(19, "D2") }
    else if text_is(id, "D3") { named(20, "D3") }
    else if text_is(id, "D4") { named(21, "D4") }
    else if text_is(id, "D5") { named(22, "D5") }
    else if text_is(id, "D6") { named(23, "D6") }
    else if text_is(id, "D7") { named(24, "D7") }
    else if text_is(id, "D8") { named(25, "D8") }
    else if text_is(id, "E1") { named(26, "E1") }
    else if text_is(id, "E1-2") { named(27, "E2") }
    else if text_is(id, "E1-3") { named(28, "E3") }
    else if text_is(id, "E1-4") { named(29, "E4") }
    else if text_is(id, "E1-5") { named(30, "E5") }
    else if text_is(id, "E1-6") { named(31, "E6") }
    else if text_is(id, "E1-7") { named(32, "E7") }
    else if text_is(id, "E1-8") { named(33, "E8") }
    else { None }
}

// ---------------------------------------------------------------------------
// Ring orders
// ---------------------------------------------------------------------------

/// `x` wrapped into 1..=8 (the A ring).
pub open spec fn wrap_spec(x: int) -> int {
    (x - 1) % 8 + 1
}

/// Wrap a signed ring index into 1..=8.
pub fn wrap(x: i32) -> (r: u8)
    ensures
        r == wrap_spec(x as int),
        1 <= r <= 8,
{
    let m = (x as i64 - 1) % 8;
    let m = if m < 0 { m + 8 } else { m };
    (m + 1) as u8
}

/// Index of a B zone (9..=16) around the inner ring.
pub fn b_perm_idx(zone: PadZone) -> (r: Option<i32>)
    ensures
        r == (if 9 <= zone.id <= 16 { Some((zone.id - 9) as i32) } else { None::<i32> }),
{
    let zid = zone.to_id();
    if 9 <= zid && zid <= 16 {
        Some((zid - 9) as i32)
    } else {
        None
    }
}

/// Index of a zone on the edge ring D1-A1-D2-A2-...-D8-A8 (16 places).
pub open spec fn ad_index(id: u8) -> Option<i32> {
    if 1 <= id <= 8 {
        Some(((id - 1) * 2 + 1) as i32)
    } else if 18 <= id <= 25 {
        Some(((id - 18) * 2) as i32)
    } else {
        None
    }
}

/// Zone at a place of the edge ring, the index taken modulo 16.
pub open spec fn ad_zone(idx: int) -> u8 {
    let i = idx % 16;
    if i % 2 == 0 {
        (18 + i / 2) as u8
    } else {
        ((i - 1) / 2 + 1) as u8
    }
}

/// Index of an A or D zone on the edge ring.
pub fn ad_perm_idx(zone: PadZone) -> (r: Option<i32>)
    ensures
        r == ad_index(zone.id),
{
    let zid = zone.to_id();
    if 1 <= zid && zid <= 8 {
        Some(((zid - 1) as i32) * 2 + 1)
    } else if 18 <= zid && zid <= 25 {
        Some(((zid - 18) as i32) * 2)
    } else {
        None
    }
}

/// Zone at a place of the edge ring (any index, taken modulo 16).
pub fn ad_idx_to_zone(idx: i32) -> (z: PadZone)
    ensures
        z.id == ad_zone(idx as int),
{
    let i = (idx as i64) % 16;
    let i = if i < 0 { i + 16 } else { i };
    if i % 2 == 0 {
        PadZone::from_id(18u8 + (i / 2) as u8)
    } else {
        PadZone::from_id(((i - 1) / 2 + 1) as u8)
    }
}

/// Walking the edge ring from a zone's index leads back to the zone, for
/// every A and D zone.
pub proof fn lemma_ad_ring_round_trip(id: u8)
    requires
        1 <= id <= 8 || 18 <= id <= 25,
    ensures
        ad_index(id) matches Some(i) && ad_zone(i as int) == id,
        ad_index(id) matches Some(i) && 0 <= i < 16,
{
}

/// Remainder of `x / n` as Rust computes it: the sign of `x`, the size of
/// `|x| % |n|`.
pub open spec fn rust_rem(x: int, n: int) -> int {
    let m = if n < 0 { -n } else { n };
    if x >= 0 { x % m } else { -((-x) % m) }
}

/// Whether going from `a` to `b` on a ring of `n` places turns clockwise:
/// `false` when the clockwise distance is strictly shorter.
pub fn sort_cw(a: i32, b: i32, n: i32) -> (r: bool)
    requires
        n != 0,
        i32::MIN < b - a + n <= i32::MAX,
        i32::MIN < a - b + n <= i32::MAX,
    ensures
        r == !(rust_rem(b - a + n, n as int) < rust_rem(a - b + n, n as int)),
{
    let cw = rem_i64(b as i64 - a as i64 + n as i64, n as i64);
    let ccw = rem_i64(a as i64 - b as i64 + n as i64, n as i64);
    if cw < ccw { false } else { true }
}

fn rem_i64(x: i64, n: i64) -> (r: i64)
    requires
        n != 0,
        -0x1_0000_0000 < x < 0x1_0000_0000,
        -0x1_0000_0000 < n < 0x1_0000_0000,
    ensures
        r == rust_rem(x as int, n as int),
{
    let m = if n < 0 { -n } else { n };
    if x >= 0 { x % m } else { -((-x) % m) }
}

/// Colour of a slide shape in exported drawings.
pub open spec fn shape_color(shape: SlideShape) -> Seq<char> {
    match shape {
        SlideShape::Q => "#ff5555"@,
        SlideShape::QQ => "#ff9955"@,
        SlideShape::P => "#ffe45e"@,
        SlideShape::PP => "#b6ff5e"@,
        SlideShape::Left => "#5eff8b"@,
        SlideShape::Right => "#5ef0ff"@,
        SlideShape::Caret => "#5ea8ff"@,
        SlideShape::Z => "#b55eff"@,
        SlideShape::S => "#ff5edb"@,
        SlideShape::VShape => "#ff5ea8"@,
        SlideShape::BigV => "#ffffff"@,
        SlideShape::Line => "#9a9aa2"@,
        SlideShape::Wifi => "#888888"@,
    }
}

/// Colour of a slide shape in exported drawings.
pub fn color(shape: SlideShape) -> (c: &'static str)
    ensures
        c@ == shape_color(shape),
{
    match shape {
        SlideShape::Q => "#ff5555",
        SlideShape::QQ => "#ff9955",
        SlideShape::P => "#ffe45e",
        SlideShape::PP => "#b6ff5e",
        SlideShape::Left => "#5eff8b",
        SlideShape::Right => "#5ef0ff",
        SlideShape::Caret => "#5ea8ff",
        SlideShape::Z => "#b55eff",
        SlideShape::S => "#ff5edb",
        SlideShape::VShape => "#ff5ea8",
        SlideShape::BigV => "#ffffff",
        SlideShape::Line => "#9a9aa2",
        SlideShape::Wifi => "#888888",
    }
}

// ---------------------------------------------------------------------------
// Judge segments of a slide trail
// ---------------------------------------------------------------------------

/// A consecutive run of trail bars that belongs to one sensor area: bars
/// `start_bar..end_bar`.
#[derive(Debug, Clone, Copy, PartialEq, Eq, Structural)]
pub struct SlideJudgeSegment {
    pub zone: PadZone,
    pub start_bar: usize,
    pub end_bar: usize,
}

/// Segments closed and the open run (zone, first bar) after reading the
/// first `k` bars' zones.
pub open spec fn judge_fold(zones: Seq<Option<PadZone>>, k: int) -> (Seq<SlideJudgeSegment>, Option<(PadZone, usize)>)
    decreases k,
{
    if k <= 0 {
        (Seq::empty(), None)
    } else {
        let (done, cur) = judge_fold(zones, k - 1);
        let i = (k - 1) as usize;
        match zones[k - 1] {
            None => match cur {
                Some((cz, st)) => (done.push(SlideJudgeSegment { zone: cz, start_bar: st, end_bar: i }), None),
                None => (done, None),
            },
            Some(z) => match cur {
                Some((cz, st)) => if cz == z {
                    (done, cur)
                } else {
                    (done.push(SlideJudgeSegment { zone: cz, start_bar: st, end_bar: i }), Some((z, i)))
                },
                None => (done, Some((z, i))),
            },
        }
    }
}

/// The judge segments of a trail whose bars lie in the given zones (`None`
/// for a bar outside every playable area).
pub open spec fn judge_segments(zones: Seq<Option<PadZone>>) -> Seq<SlideJudgeSegment> {
    let (done, cur) = judge_fold(zones, zones.len() as int);
    match cur {
        Some((z, st)) => done.push(SlideJudgeSegment { zone: z, start_bar: st, end_bar: zones.len() as usize }),
        None => done,
    }
}

/// Merge consecutive bars that occupy the same sensor area into judge
/// segments; bars outside every area end a run and belong to none.
pub fn merge_judge_segments(zones: &Vec<Option<PadZone>>) -> (r: Vec<SlideJudgeSegment>)
    ensures
        r@ == judge_segments(zones@),
{
    let mut done: Vec<SlideJudgeSegment> = Vec::new();
    let mut cur: Option<(PadZone, usize)> = None;
    let mut i: usize = 0;
    while i < zones.len()
        invariant
            i <= zones@.len(),
            (done@, cur) == judge_fold(zones@, i as int),
        decreases zones.len() - i,
    {
        match zones[i] {
            None => {
                if let Some((cz, st)) = cur {
                    done.push(SlideJudgeSegment { zone: cz, start_bar: st, end_bar: i });
                }
                cur = None;
            },
            Some(z) => {
                match cur {
                    Some((cz, st)) => {
                        if cz != z {
                            done.push(SlideJudgeSegment { zone: cz, start_bar: st, end_bar: i });
                            cur = Some((z, i));
                        }
                    },
                    None => {
                        cur = Some((z, i));
                    },
                }
            },
        }
        i = i + 1;
    }
    if let Some((z, st)) = cur {
        done.push(SlideJudgeSegment { zone: z, start_bar: st, end_bar: zones.len() });
    }
    done
}

/// Bars `s..e` all lie in zone `z`, and the run cannot grow to the left.
pub open spec fn run_of(zones: Seq<Option<PadZone>>, z: PadZone, s: int, e: int) -> bool {
    &&& 0 <= s < e <= zones.len()
    &&& forall|j: int| s <= j < e ==> zones[j] == Some(z)
    &&& s == 0 || zones[s - 1] != Some(z)
}

/// A segment is a maximal run of bars in its zone.
pub open spec fn maximal_run(zones: Seq<Option<PadZone>>, g: SlideJudgeSegment) -> bool {
    &&& run_of(zones, g.zone, g.start_bar as int, g.end_bar as int)
    &&& g.end_bar == zones.len() || zones[g.end_bar as int] != Some(g.zone)
}

pub open spec fn fold_ok(zones: Seq<Option<PadZone>>, k: int, done: Seq<SlideJudgeSegment>, cur: Option<(PadZone, usize)>) -> bool {
    &&& forall|a: int| 0 <= a < done.len() ==> maximal_run(zones, #[trigger] done[a]) && done[a].end_bar < k
    &&& forall|a: int, b: int| 0 <= a < b < done.len() ==> (#[trigger] done[a]).end_bar <= (#[trigger] done[b]).start_bar
    &&& match cur {
        Some((z, st)) => run_of(zones, z, st as int, k) && (done.len() > 0 ==> done.last().end_bar <= st),
        None => k == 0 || zones[k - 1] is None,
    }
    &&& forall|j: int| 0 <= j < k && zones[j] is Some ==> (exists|a: int|
        0 <= a < done.len() && (#[trigger] done[a]).start_bar <= j < done[a].end_bar) || (cur matches Some(
        c,
    ) && c.1 <= j)
}

proof fn lemma_judge_fold(zones: Seq<Option<PadZone>>, k: int)
    requires
        0 <= k <= zones.len(),
        zones.len() <= usize::MAX,
    ensures
        fold_ok(zones, k, judge_fold(zones, k).0, judge_fold(zones, k).1),
    decreases k,
{
    if k > 0 {
        lemma_judge_fold(zones, k - 1);
        let (done, cur) = judge_fold(zones, k - 1);
        let (done2, cur2) = judge_fold(zones, k);
        let i = k - 1;
        assert forall|j: int| 0 <= j < k && zones[j] is Some implies (exists|a: int|
            0 <= a < done2.len() && (#[trigger] done2[a]).start_bar <= j < done2[a].end_bar) || (cur2 matches Some(
            c,
        ) && c.1 <= j) by {
            if j < i {
                if exists|a: int| 0 <= a < done.len() && (#[trigger] done[a]).start_bar <= j < done[a].end_bar {
                    let a = choose|a: int| 0 <= a < done.len() && (#[trigger] done[a]).start_bar <= j < done[a].end_bar;
                    assert(done2[a] == done[a]);
                } else {
                    let c = cur.unwrap();
                    if done2.len() > done.len() {
                        assert(done2[done.len() as int].start_bar == c.1);
                    }
                }
            } else if cur2 is None {
                let c = cur.unwrap();
                assert(done2[done.len() as int].start_bar == c.1);
            }
        }
    }
}

/// The judge segments are the maximal runs of bars in one zone, in bar
/// order, and every bar that lies in a zone belongs to one of them.
pub proof fn lemma_judge_segments_are_runs(zones: Seq<Option<PadZone>>)
    requires
        zones.len() <= usize::MAX,
    ensures
        forall|a: int| 0 <= a < judge_segments(zones).len() ==> maximal_run(zones, #[trigger] judge_segments(zones)[a]),
        forall|a: int, b: int|
            0 <= a < b < judge_segments(zones).len() ==> (#[trigger] judge_segments(zones)[a]).end_bar
                <= (#[trigger] judge_segments(zones)[b]).start_bar,
        forall|j: int|
            0 <= j < zones.len() && zones[j] is Some ==> exists|a: int|
                0 <= a < judge_segments(zones).len() && (#[trigger] judge_segments(zones)[a]).start_bar <= j
                    < judge_segments(zones)[a].end_bar,
{
    let n = zones.len() as int;
    lemma_judge_fold(zones, n);
    let (done, cur) = judge_fold(zones, n);
    let segs = judge_segments(zones);
    assert forall|j: int| 0 <= j < zones.len() && zones[j] is Some implies exists|a: int|
        0 <= a < segs.len() && (#[trigger] segs[a]).start_bar <= j < segs[a].end_bar by {
        if exists|a: int| 0 <= a < done.len() && (#[trigger] done[a]).start_bar <= j < done[a].end_bar {
            let a = choose|a: int| 0 <= a < done.len() && (#[trigger] done[a]).start_bar <= j < done[a].end_bar;
            assert(segs[a] == done[a]);
        } else {
            assert(segs[done.len() as int].start_bar <= j);
        }
    }
}

// ---------------------------------------------------------------------------
// Moving a lane within its group
// ---------------------------------------------------------------------------

/// First lane of the group of eight that `lane` belongs to for lane moves
/// (groups start at 1, 10, 18 and 26); none for any other lane.
pub open spec fn lane_group(lane: u8) -> Option<int> {
    if 1 <= lane <= 8 {
        Some(1)
    } else if 10 <= lane <= 17 {
        Some(10)
    } else if 18 <= lane <= 25 {
        Some(18)
    } else if 26 <= lane <= 33 {
        Some(26)
    } else {
        None
    }
}

/// `lane` moved by `delta` places round its group of eight; other lanes
/// stay.
pub open spec fn wrap_lane_spec(lane: u8, delta: int) -> int {
    match lane_group(lane) {
        Some(base) => (lane - base + delta) % 8 + base,
        None => lane as int,
    }
}

/// Move a lane by `delta` places, wrapping round within its group of eight.
pub fn wrap_lane(lane: u8, delta: i32) -> (r: u8)
    ensures
        r == wrap_lane_spec(lane, delta as int),
{
    let base: i64 = if 1 <= lane && lane <= 8 {
        1
    } else if 10 <= lane && lane <= 17 {
        10
    } else if 18 <= lane && lane <= 25 {
        18
    } else if 26 <= lane && lane <= 33 {
        26
    } else {
        return lane;
    };
    let m = (lane as i64 - base + delta as i64) % 8;
    let m = if m < 0 { m + 8 } else { m };
    (m + base) as u8
}

} // verus!
