//! From the in-memory [`ChartDoc`] back to a Simai chart.

use vstd::prelude::*;

use crate::model::{
    BpmChange, ChartDoc, NoteType, NoteView, SegmentView, SlideShape, SlideView, insert_by_time, notes_view,
    sort_by_time, QUANTA_PER_MEASURE,
};
use crate::simai_io::{
    SimaiFile, arc_segment, chain_fold, chain_slides, lane_to_touch, lane_touch_spec, max0, shape_pattern,
    shape_to_simai_pattern, ChainArc, SimaiChart, SimaiNote, SimaiNoteView, SlidePattern,
    simai_notes_upto, simai_notes_view, DEFAULT_BPM,
};

verus! {

/// Shortest travel of an exported slide: 1/20 measure (quanta).
pub const MIN_SLIDE_TRAVEL: i64 = 5000;

/// Flight speed 1x in 1/100000 units.
pub const UNIT_SPEED: i64 = 100000;

pub open spec fn nonneg(x: i64) -> i64 {
    if x > 0 { x } else { 0 }
}

/// Editor notes leave the speed at 0, which is exported as 1x.
pub open spec fn export_speed(hi_speed: i64) -> i64 {
    if hi_speed > 0 { hi_speed } else { UNIT_SPEED }
}

/// A 1-based zone to a 0-based button, saturating at 0.
pub open spec fn zero_based(id: u8) -> u8 {
    if id > 0 { (id - 1) as u8 } else { 0 }
}

/// Pattern, end and reflect buttons of a slide's first segment. A `V` with
/// two or more waypoints reflects at the first and ends at the second;
/// otherwise the arc ends at its last waypoint (button 0 when it has none).
pub open spec fn first_arc(segs: Seq<SegmentView>) -> (SlidePattern, u8, Option<u8>) {
    let shape = if segs.len() > 0 { segs[0].shape } else { SlideShape::Line };
    let pts = if segs.len() > 0 { segs[0].points } else { Seq::empty() };
    let p = shape_pattern(Some(shape));
    if p == SlidePattern::BigV && pts.len() >= 2 {
        (p, zero_based(pts[1].zone.id), Some(zero_based(pts[0].zone.id)))
    } else if pts.len() >= 1 {
        (p, zero_based(pts.last().zone.id), None)
    } else {
        (p, 0, None)
    }
}

/// A chained arc of a later segment: it ends at its last waypoint; a `V`
/// reflects at its first.
pub open spec fn chain_arc(seg: SegmentView) -> ChainArc {
    let cp = shape_pattern(Some(seg.shape));
    let ce = if seg.points.len() > 0 { zero_based(seg.points.last().zone.id) } else { 0 };
    let cr = if cp == SlidePattern::BigV && seg.points.len() > 0 {
        Some(zero_based(seg.points[0].zone.id))
    } else {
        None
    };
    (cp, ce, cr, false)
}

pub open spec fn chain_of(segs: Seq<SegmentView>) -> Seq<ChainArc> {
    if segs.len() > 0 {
        segs.skip(1).map_values(|seg: SegmentView| chain_arc(seg))
    } else {
        Seq::empty()
    }
}

/// The Simai slide of one slide track. The travel is the span minus the
/// wait, and at least [`MIN_SLIDE_TRAVEL`].
pub open spec fn slide_export(measure: i64, start: u8, tapless: bool, speed: i64, sl: SlideView) -> SimaiNoteView {
    let arc = first_arc(sl.segments);
    let delay = nonneg(sl.slide_start_delay);
    let total = nonneg(sl.slide_duration);
    let travel = if total - delay > MIN_SLIDE_TRAVEL { (total - delay) as i64 } else { MIN_SLIDE_TRAVEL };
    SimaiNoteView::Slide {
        measure,
        start,
        end: arc.1,
        pattern: arc.0,
        reflect: arc.2,
        duration: travel,
        delay,
        delay_explicit: true,
        is_break: sl.slide_is_break,
        is_ex: false,
        is_tapless: tapless,
        chain: chain_of(sl.segments),
        hi_speed: speed,
    }
}

/// A star tap on button `b` near position `m` (within 10 quanta) is in `out`.
pub open spec fn star_tap_emitted(out: Seq<SimaiNoteView>, m: i64, b: u8) -> bool {
    exists|j: int|
        0 <= j < out.len() && (#[trigger] out[j] matches SimaiNoteView::Tap { measure, button, is_star, .. }
            && is_star && button == b && -10 < measure - m < 10)
}

pub open spec fn is_ring_lane(lane: u8) -> bool {
    1 <= lane <= 8
}

/// `out` followed by the Simai notes of chart note `n`.
///
/// A tap or hold on the outer ring stays one; elsewhere it becomes a touch
/// note. A slide on the outer ring adds a star tap for its head (once per
/// position and button) and one Simai slide per track; other slides are
/// dropped.
pub open spec fn note_export(out: Seq<SimaiNoteView>, n: NoteView) -> Seq<SimaiNoteView> {
    let m = n.time;
    let hs = export_speed(n.hi_speed);
    let touch = lane_touch_spec(n.lane);
    let b = zero_based(n.lane);
    match n.note_type {
        NoteType::Tap => if is_ring_lane(n.lane) {
            out.push(
                SimaiNoteView::Tap {
                    measure: m,
                    button: b,
                    is_break: n.is_break,
                    is_ex: n.is_ex,
                    is_star: n.is_star,
                    hi_speed: hs,
                },
            )
        } else {
            out.push(
                SimaiNoteView::TouchTap {
                    measure: m,
                    region: touch.0,
                    position: touch.1,
                    is_firework: false,
                    hi_speed: hs,
                },
            )
        },
        NoteType::Touch => out.push(
            SimaiNoteView::TouchTap {
                measure: m,
                region: touch.0,
                position: touch.1,
                is_firework: false,
                hi_speed: hs,
            },
        ),
        NoteType::Hold => if is_ring_lane(n.lane) {
            out.push(
                SimaiNoteView::Hold {
                    measure: m,
                    button: b,
                    duration: nonneg(n.hold_duration),
                    is_ex: n.is_ex,
                    hi_speed: hs,
                },
            )
        } else {
            out.push(
                SimaiNoteView::TouchHold {
                    measure: m,
                    region: touch.0,
                    position: touch.1,
                    duration: nonneg(n.hold_duration),
                    is_firework: false,
                    hi_speed: hs,
                },
            )
        },
        NoteType::Slide => if !is_ring_lane(n.lane) {
            out
        } else {
            let head = if star_tap_emitted(out, m, b) {
                out
            } else {
                out.push(
                    SimaiNoteView::Tap {
                        measure: m,
                        button: b,
                        is_break: n.is_break,
                        is_ex: n.is_ex,
                        is_star: true,
                        hi_speed: hs,
                    },
                )
            };
            head + n.slide.map_values(|sl: SlideView| slide_export(m, b, n.is_tapless, hs, sl))
        },
    }
}

/// The Simai notes of the first `k` chart notes.
pub open spec fn export_upto(ns: Seq<NoteView>, k: int) -> Seq<SimaiNoteView>
    decreases k,
{
    if k <= 0 {
        Seq::empty()
    } else {
        note_export(export_upto(ns, k - 1), ns[k - 1])
    }
}

/// The tempo list of an exported chart: the chart's own, or its tempo (120
/// when not positive) from measure 1 when it has none.
pub open spec fn export_bpms(bpms: Seq<BpmChange>, bpm: i64) -> Seq<BpmChange> {
    if bpms.len() == 0 {
        seq![BpmChange { measure: QUANTA_PER_MEASURE, bpm: if bpm > 0 { bpm } else { DEFAULT_BPM } }]
    } else {
        bpms
    }
}

fn star_tap_emitted_exec(out: &Vec<SimaiNote>, m: i64, b: u8) -> (r: bool)
    ensures
        r == star_tap_emitted(simai_notes_view(out@), m, b),
{
    let ghost s = simai_notes_view(out@);
    let mut j: usize = 0;
    while j < out.len()
        invariant
            j <= out@.len(),
            s == simai_notes_view(out@),
            forall|k: int|
                0 <= k < j ==> !(#[trigger] s[k] matches SimaiNoteView::Tap { measure, button, is_star, .. }
                    && is_star && button == b && -10 < measure - m < 10),
        decreases out.len() - j,
    {
        assert(s[j as int] == out@[j as int]@);
        match &out[j] {
            SimaiNote::Tap { measure, button, is_star, .. } => {
                let d = *measure as i128 - m as i128;
                if *is_star && *button == b && -10 < d && d < 10 {
                    return true;
                }
            },
            _ => {},
        }
        j = j + 1;
    }
    false
}

fn zero_based_exec(id: u8) -> (r: u8)
    ensures
        r == zero_based(id),
{
    if id > 0 {
        id - 1
    } else {
        0
    }
}

fn export_slide(measure: i64, start: u8, tapless: bool, speed: i64, sl: &crate::model::Slide) -> (r: SimaiNote)
    ensures
        r@ == slide_export(measure, start, tapless, speed, sl@),
{
    let segs = &sl.segments;
    let ghost sv = crate::model::segments_view(segs@);
    let shape = if segs.len() > 0 { segs[0].shape } else { SlideShape::Line };
    let pattern = shape_to_simai_pattern(Some(shape));
    let (end, reflect) = if segs.len() > 0 {
        let pts = &segs[0].points;
        if pattern == SlidePattern::BigV && pts.len() >= 2 {
            (zero_based_exec(pts[1].zone.id), Some(zero_based_exec(pts[0].zone.id)))
        } else if pts.len() >= 1 {
            (zero_based_exec(pts[pts.len() - 1].zone.id), None)
        } else {
            (0u8, None)
        }
    } else {
        (0u8, None)
    };
    let mut chain: Vec<ChainArc> = Vec::new();
    let mut i: usize = 1;
    while i < segs.len()
        invariant
            1 <= i <= segs@.len() || segs@.len() == 0,
            sv == crate::model::segments_view(segs@),
            segs@.len() > 0 ==> chain@ == sv.skip(1).subrange(0, i - 1).map_values(
                |seg: SegmentView| chain_arc(seg),
            ),
            segs@.len() == 0 ==> chain@.len() == 0,
        decreases segs.len() - i,
    {
        let seg = &segs[i];
        let cp = shape_to_simai_pattern(Some(seg.shape));
        let pts = &seg.points;
        let ce = if pts.len() > 0 { zero_based_exec(pts[pts.len() - 1].zone.id) } else { 0 };
        let cr = if cp == SlidePattern::BigV && pts.len() > 0 {
            Some(zero_based_exec(pts[0].zone.id))
        } else {
            None
        };
        assert(sv.skip(1)[i - 1] == seg@);
        chain.push((cp, ce, cr, false));
        i = i + 1;
        assert(chain@ =~= sv.skip(1).subrange(0, i - 1).map_values(|seg: SegmentView| chain_arc(seg)));
    }
    if segs.len() > 0 {
        assert(sv.skip(1).subrange(0, sv.len() - 1) =~= sv.skip(1));
    }
    assert(chain@ =~= chain_of(sv));
    let delay = if sl.slide_start_delay > 0 { sl.slide_start_delay } else { 0 };
    let total = if sl.slide_duration > 0 { sl.slide_duration } else { 0 };
    let travel = if total - delay > MIN_SLIDE_TRAVEL { total - delay } else { MIN_SLIDE_TRAVEL };
    SimaiNote::Slide {
        measure,
        start,
        end,
        pattern,
        reflect,
        duration: travel,
        delay,
        delay_explicit: true,
        is_break: sl.slide_is_break,
        is_ex: false,
        is_tapless: tapless,
        chain,
        hi_speed: speed,
    }
}

/// Convert a chart to a Simai chart: its notes in order (see
/// [`note_export`]) and its tempo list (see [`export_bpms`]). Positions and
/// lengths are written as they are, on the chart's grid of quanta; they are
/// not snapped to a coarser editing grid first.
pub fn chart_doc_to_simai_chart(doc: &ChartDoc) -> (chart: SimaiChart)
    ensures
        simai_notes_view(chart.notes@) == export_upto(notes_view(doc.notes@), doc.notes@.len() as int),
        chart.bpms@ == export_bpms(doc.bpms@, doc.bpm),
{
    let bpms: Vec<BpmChange> = if doc.bpms.len() == 0 {
        let bpm0 = if doc.bpm > 0 { doc.bpm } else { DEFAULT_BPM };
        let mut v: Vec<BpmChange> = Vec::new();
        v.push(BpmChange { measure: QUANTA_PER_MEASURE, bpm: bpm0 });
        assert(v@ =~= export_bpms(doc.bpms@, doc.bpm));
        v
    } else {
        crate::model::copy_bpm_changes(&doc.bpms)
    };
    let ghost ns = notes_view(doc.notes@);
    let mut out: Vec<SimaiNote> = Vec::new();
    let mut i: usize = 0;
    while i < doc.notes.len()
        invariant
            i <= doc.notes@.len(),
            ns == notes_view(doc.notes@),
            simai_notes_view(out@) == export_upto(ns, i as int),
        decreases doc.notes.len() - i,
    {
        let n = &doc.notes[i];
        assert(ns[i as int] == n@);
        let ghost before = simai_notes_view(out@);
        let m = n.time;
        let hs = if n.hi_speed > 0 { n.hi_speed } else { UNIT_SPEED };
        let b = zero_based_exec(n.lane);
        let ring = 1 <= n.lane && n.lane <= 8;
        match n.note_type {
            NoteType::Tap => {
                if ring {
                    out.push(
                        SimaiNote::Tap {
                            measure: m,
                            button: b,
                            is_break: n.is_break,
                            is_ex: n.is_ex,
                            is_star: n.is_star,
                            hi_speed: hs,
                        },
                    );
                } else {
                    let (region, position) = lane_to_touch(n.lane);
                    out.push(SimaiNote::TouchTap { measure: m, region, position, is_firework: false, hi_speed: hs });
                }
                assert(simai_notes_view(out@) =~= before.push(out@.last()@));
            },
            NoteType::Touch => {
                let (region, position) = lane_to_touch(n.lane);
                out.push(SimaiNote::TouchTap { measure: m, region, position, is_firework: false, hi_speed: hs });
                assert(simai_notes_view(out@) =~= before.push(out@.last()@));
            },
            NoteType::Hold => {
                let dur = if n.hold_duration > 0 { n.hold_duration } else { 0 };
                if ring {
                    out.push(SimaiNote::Hold { measure: m, button: b, duration: dur, is_ex: n.is_ex, hi_speed: hs });
                } else {
                    let (region, position) = lane_to_touch(n.lane);
                    out.push(
                        SimaiNote::TouchHold {
                            measure: m,
                            region,
                            position,
                            duration: dur,
                            is_firework: false,
                            hi_speed: hs,
                        },
                    );
                }
                assert(simai_notes_view(out@) =~= before.push(out@.last()@));
            },
            NoteType::Slide => {
                if ring {
                    if !star_tap_emitted_exec(&out, m, b) {
                        out.push(
                            SimaiNote::Tap {
                                measure: m,
                                button: b,
                                is_break: n.is_break,
                                is_ex: n.is_ex,
                                is_star: true,
                                hi_speed: hs,
                            },
                        );
                        assert(simai_notes_view(out@) =~= before.push(out@.last()@));
                    }
                    let ghost head = simai_notes_view(out@);
                    let ghost tracks = crate::model::slides_view(n.slide@);
                    let mut j: usize = 0;
                    while j < n.slide.len()
                        invariant
                            j <= n.slide@.len(),
                            tracks == crate::model::slides_view(n.slide@),
                            simai_notes_view(out@) == head + tracks.subrange(0, j as int).map_values(
                                |sl: SlideView| slide_export(m, b, n.is_tapless, hs, sl),
                            ),
                        decreases n.slide.len() - j,
                    {
                        let x = export_slide(m, b, n.is_tapless, hs, &n.slide[j]);
                        let ghost prev = simai_notes_view(out@);
                        out.push(x);
                        assert(simai_notes_view(out@) =~= prev.push(x@));
                        j = j + 1;
                        assert(simai_notes_view(out@) =~= head + tracks.subrange(0, j as int).map_values(
                            |sl: SlideView| slide_export(m, b, n.is_tapless, hs, sl),
                        ));
                    }
                    assert(tracks.subrange(0, tracks.len() as int) =~= tracks);
                }
            },
        }
        i = i + 1;
    }
    SimaiChart { notes: out, bpms }
}

// ---------------------------------------------------------------------------
// Exporting and importing back
// ---------------------------------------------------------------------------

/// A segment as the importer builds it from an arc: waypoints at offset 0,
/// a `V` through its reflect zone, a `v` through the centre (zone 17), any
/// other shape straight to its end.
pub open spec fn canonical_segment(seg: SegmentView) -> bool {
    &&& forall|k: int| 0 <= k < seg.points.len() ==> (#[trigger] seg.points[k]).beat_offset == 0
    &&& match seg.shape {
        SlideShape::BigV => seg.points.len() == 2,
        SlideShape::VShape => seg.points.len() == 2 && seg.points[0].zone.id == 17,
        _ => seg.points.len() == 1,
    }
    &&& forall|k: int| 0 <= k < seg.points.len() ==> (#[trigger] seg.points[k]).zone.id >= 1
}

pub open spec fn arc_segments(chain: Seq<ChainArc>) -> Seq<SegmentView> {
    chain.map_values(|a: ChainArc| arc_segment(a.1, a.0, a.2))
}

proof fn lemma_plain_chain(first: SegmentView, chain: Seq<ChainArc>, total: i64, delay: i64, brk: bool)
    requires
        forall|k: int| 0 <= k < chain.len() ==> !(#[trigger] chain[k]).3,
    ensures
        chain_fold(first, chain, total, delay, brk) == (
            Seq::<SlideView>::empty(),
            seq![first] + arc_segments(chain),
        ),
    decreases chain.len(),
{
    if chain.len() > 0 {
        lemma_plain_chain(first, chain.drop_last(), total, delay, brk);
        assert(!chain[chain.len() - 1].3);
        assert(seq![first] + arc_segments(chain) =~= (seq![first] + arc_segments(chain.drop_last())).push(
            arc_segment(chain.last().1, chain.last().0, chain.last().2),
        ));
    }
}

proof fn lemma_canonical_arc(seg: SegmentView)
    requires
        canonical_segment(seg),
    ensures
        arc_segment(chain_arc(seg).1, chain_arc(seg).0, chain_arc(seg).2) == seg,
{
    let a = chain_arc(seg);
    crate::simai_io::lemma_shape_pattern_round_trip(seg.shape, a.0);
    assert(arc_segment(a.1, a.0, a.2).points =~= seg.points);
}

/// The span of an exported slide track: its wait, then its travel, which is
/// the track's span minus the wait and at least [`MIN_SLIDE_TRAVEL`].
pub open spec fn exported_span(sl: SlideView) -> int {
    let delay = nonneg(sl.slide_start_delay);
    let total = nonneg(sl.slide_duration);
    let travel = if total - delay > MIN_SLIDE_TRAVEL { total - delay } else { MIN_SLIDE_TRAVEL as int };
    travel + delay
}

/// Exporting a slide track to a Simai slide and importing that slide gives
/// the track back with its segments (when each is shaped as the importer
/// builds segments), wait and break flag, and its span as exported (see
/// [`exported_span`]), as long as the wait is not negative.
pub proof fn lemma_slide_round_trip(measure: i64, start: u8, tapless: bool, speed: i64, sl: SlideView)
    requires
        sl.segments.len() >= 1,
        forall|k: int| 0 <= k < sl.segments.len() ==> canonical_segment(#[trigger] sl.segments[k]),
        0 <= sl.slide_start_delay <= i64::MAX - MIN_SLIDE_TRAVEL,
    ensures
        slide_export(measure, start, tapless, speed, sl) matches SimaiNoteView::Slide {
            end,
            pattern,
            reflect,
            duration,
            delay,
            is_break,
            chain,
            ..
        } && chain_slides(end, pattern, reflect, chain, max0((duration + delay) as i64), max0(delay), is_break)
            == seq![SlideView { slide_duration: exported_span(sl) as i64, ..sl }],
{
    let v = slide_export(measure, start, tapless, speed, sl);
    let segs = sl.segments;
    let chain = chain_of(segs);
    let first = segs[0];
    assert(canonical_segment(first));
    let arc = first_arc(segs);
    assert(arc == (chain_arc(first).0, chain_arc(first).1, chain_arc(first).2));
    lemma_canonical_arc(first);
    assert forall|k: int| 0 <= k < chain.len() implies !(#[trigger] chain[k]).3 by {}
    let span = exported_span(sl) as i64;
    lemma_plain_chain(first, chain, span, sl.slide_start_delay, sl.slide_is_break);
    let mapped = arc_segments(chain);
    assert forall|k: int| 0 <= k < chain.len() implies #[trigger] mapped[k] == segs[k + 1] by {
        assert(canonical_segment(segs[k + 1]));
        lemma_canonical_arc(segs[k + 1]);
    }
    assert(seq![first] + mapped =~= segs);
}

/// Exporting a chart whose only note is a slide on the outer ring, with one
/// track, and importing the export gives one note back: a slide at the same
/// position and lane, with the same break, ex and tapless flags, and its
/// track as [`lemma_slide_round_trip`] says. `ns` is the exported chart.
pub proof fn lemma_chart_slide_round_trip(n: NoteView, ns: Seq<SimaiNote>)
    requires
        n.note_type == NoteType::Slide,
        1 <= n.lane <= 8,
        n.slide.len() == 1,
        n.slide[0].segments.len() >= 1,
        forall|k: int| 0 <= k < n.slide[0].segments.len() ==> canonical_segment(#[trigger] n.slide[0].segments[k]),
        0 <= n.slide[0].slide_start_delay <= i64::MAX - MIN_SLIDE_TRAVEL,
        simai_notes_view(ns) == export_upto(seq![n], 1),
    ensures
        ({
            let back = sort_by_time(simai_notes_upto(ns, ns.len() as int));
            &&& back.len() == 1
            &&& back[0].note_type == NoteType::Slide
            &&& back[0].time == n.time
            &&& back[0].lane == n.lane
            &&& back[0].is_break == n.is_break
            &&& back[0].is_ex == n.is_ex
            &&& back[0].is_tapless == n.is_tapless
            &&& back[0].slide == seq![SlideView { slide_duration: exported_span(n.slide[0]) as i64, ..n.slide[0] }]
        }),
{
    let sl = n.slide[0];
    let m = n.time;
    let b = zero_based(n.lane);
    let hs = export_speed(n.hi_speed);
    let out = export_upto(seq![n], 1);
    assert(export_upto(seq![n], 0) =~= Seq::<SimaiNoteView>::empty());
    assert(!star_tap_emitted(Seq::<SimaiNoteView>::empty(), m, b));
    let tap = SimaiNoteView::Tap { measure: m, button: b, is_break: n.is_break, is_ex: n.is_ex, is_star: true, hi_speed: hs };
    let sv = slide_export(m, b, n.is_tapless, hs, sl);
    assert(n.slide.map_values(|t: SlideView| slide_export(m, b, n.is_tapless, hs, t)) =~= seq![sv]);
    assert(out =~= seq![tap, sv]);
    assert(ns.len() == 2);
    assert(ns[0]@ == tap);
    assert(ns[1]@ == sv);
    lemma_slide_round_trip(m, b, n.is_tapless, hs, sl);
    assert(crate::simai_io::is_slide_head(ns[1], m, b));
    assert(crate::simai_io::has_slide_head(ns, m, b));
    assert(crate::simai_io::simai_note_at(ns, 0) is None);
    assert(crate::simai_io::is_star_tap(ns[0], m, b));
    assert(crate::simai_io::star_tap_flags(ns, m, b) == (n.is_break, n.is_ex));
    let up = simai_notes_upto(ns, 2);
    assert(simai_notes_upto(ns, 0) =~= Seq::<NoteView>::empty());
    assert(simai_notes_upto(ns, 1) =~= Seq::<NoteView>::empty());
    assert(up.len() == 1);
    let x = up[0];
    assert(sort_by_time(up) == insert_by_time(sort_by_time(up.drop_last()), up.last()));
    assert(up.drop_last() =~= Seq::<NoteView>::empty());
    assert(sort_by_time(up) =~= seq![x]);
}

/// Exporting a note only adds to what came before.
proof fn lemma_note_export_extends(out: Seq<SimaiNoteView>, n: NoteView)
    ensures
        out.len() <= note_export(out, n).len(),
        forall|i: int| 0 <= i < out.len() ==> #[trigger] note_export(out, n)[i] == out[i],
{
    let r = note_export(out, n);
    if n.note_type == NoteType::Slide && is_ring_lane(n.lane) {
        let m = n.time;
        let b = zero_based(n.lane);
        let hs = export_speed(n.hi_speed);
        let head = if star_tap_emitted(out, m, b) {
            out
        } else {
            out.push(
                SimaiNoteView::Tap { measure: m, button: b, is_break: n.is_break, is_ex: n.is_ex, is_star: true, hi_speed: hs },
            )
        };
        let tail = n.slide.map_values(|sl: SlideView| slide_export(m, b, n.is_tapless, hs, sl));
        assert(r == head + tail);
        assert forall|i: int| 0 <= i < out.len() implies #[trigger] r[i] == out[i] by {
            assert(r[i] == head[i]);
        }
    }
}

/// The notes exported from the first `k` chart notes stay first in the
/// export of the first `m`.
proof fn lemma_export_upto_extends(ns: Seq<NoteView>, k: int, m: int)
    requires
        0 <= k <= m,
    ensures
        export_upto(ns, k).len() <= export_upto(ns, m).len(),
        forall|i: int| 0 <= i < export_upto(ns, k).len() ==> #[trigger] export_upto(ns, m)[i] == export_upto(ns, k)[i],
    decreases m - k,
{
    if k < m {
        lemma_export_upto_extends(ns, k, m - 1);
        lemma_note_export_extends(export_upto(ns, m - 1), ns[m - 1]);
    }
}

/// Every tap of the chart on the outer ring (lanes 1-8) is exported as a
/// Simai tap at its position, on its 0-based button, with its break, ex and
/// star flags and its speed (1x when it has none).
pub proof fn lemma_exported_taps_keep_flags(ns: Seq<NoteView>, k: int)
    requires
        0 <= k < ns.len(),
        ns[k].note_type == NoteType::Tap,
        1 <= ns[k].lane <= 8,
    ensures
        exists|j: int|
            0 <= j < export_upto(ns, ns.len() as int).len() && #[trigger] export_upto(ns, ns.len() as int)[j]
                == (SimaiNoteView::Tap {
                measure: ns[k].time,
                button: (ns[k].lane - 1) as u8,
                is_break: ns[k].is_break,
                is_ex: ns[k].is_ex,
                is_star: ns[k].is_star,
                hi_speed: if ns[k].hi_speed > 0 { ns[k].hi_speed } else { 100000 },
            }),
{
    let before = export_upto(ns, k);
    let after = export_upto(ns, k + 1);
    assert(after == note_export(before, ns[k]));
    let j = before.len() as int;
    lemma_export_upto_extends(ns, k + 1, ns.len() as int);
    assert(export_upto(ns, ns.len() as int)[j] == after[j]);
}

/// Every hold of the chart on the outer ring (lanes 1-8) is exported as a
/// Simai hold at its position, on its 0-based button, with its length (none
/// when negative), its ex flag and its speed (1x when it has none).
pub proof fn lemma_exported_holds_keep_flags(ns: Seq<NoteView>, k: int)
    requires
        0 <= k < ns.len(),
        ns[k].note_type == NoteType::Hold,
        1 <= ns[k].lane <= 8,
    ensures
        exists|j: int|
            0 <= j < export_upto(ns, ns.len() as int).len() && #[trigger] export_upto(ns, ns.len() as int)[j]
                == (SimaiNoteView::Hold {
                measure: ns[k].time,
                button: (ns[k].lane - 1) as u8,
                duration: if ns[k].hold_duration > 0 { ns[k].hold_duration } else { 0 },
                is_ex: ns[k].is_ex,
                hi_speed: if ns[k].hi_speed > 0 { ns[k].hi_speed } else { 100000 },
            }),
{
    let before = export_upto(ns, k);
    let after = export_upto(ns, k + 1);
    assert(after == note_export(before, ns[k]));
    let j = before.len() as int;
    lemma_export_upto_extends(ns, k + 1, ns.len() as int);
    assert(export_upto(ns, ns.len() as int)[j] == after[j]);
}

/// Every track of a slide note on the outer ring (lanes 1-8) is exported as
/// a Simai slide at the note's position, from its 0-based button, tapless
/// when the note is, with the track's break flag and wait (none when
/// negative).
pub proof fn lemma_exported_slides_keep_flags(ns: Seq<NoteView>, k: int, t: int)
    requires
        0 <= k < ns.len(),
        ns[k].note_type == NoteType::Slide,
        1 <= ns[k].lane <= 8,
        0 <= t < ns[k].slide.len(),
    ensures
        exists|j: int|
            0 <= j < export_upto(ns, ns.len() as int).len() && (#[trigger] export_upto(ns, ns.len() as int)[j] matches SimaiNoteView::Slide {
                measure,
                start,
                is_tapless,
                is_break,
                delay,
                ..
            } && measure == ns[k].time && start == ns[k].lane - 1 && is_tapless == ns[k].is_tapless && is_break
                == ns[k].slide[t].slide_is_break && delay == (if ns[k].slide[t].slide_start_delay > 0 {
                ns[k].slide[t].slide_start_delay
            } else {
                0
            })),
{
    let n = ns[k];
    let before = export_upto(ns, k);
    let after = export_upto(ns, k + 1);
    assert(after == note_export(before, n));
    let m = n.time;
    let b = zero_based(n.lane);
    let hs = export_speed(n.hi_speed);
    let head = if star_tap_emitted(before, m, b) {
        before
    } else {
        before.push(SimaiNoteView::Tap { measure: m, button: b, is_break: n.is_break, is_ex: n.is_ex, is_star: true, hi_speed: hs })
    };
    let tail = n.slide.map_values(|sl: SlideView| slide_export(m, b, n.is_tapless, hs, sl));
    assert(after == head + tail);
    let j = head.len() + t;
    assert(after[j] == tail[t]);
    lemma_export_upto_extends(ns, k + 1, ns.len() as int);
    assert(export_upto(ns, ns.len() as int)[j] == after[j]);
}

/// Level given to an exported chart that has none.
pub const DEFAULT_EXPORT_LEVEL: u32 = 6;

/// The level an exported chart is filed under: its own, or
/// [`DEFAULT_EXPORT_LEVEL`] when it has none.
pub open spec fn export_level(simai_level: u32) -> u32 {
    if simai_level > 0 { simai_level } else { DEFAULT_EXPORT_LEVEL }
}

/// A Simai file holding the chart as its only difficulty: filed under its
/// level (see [`export_level`]) with the label `?`, its offset as `&first`,
/// its tempo as `&wholebpm`. The source text is left empty for the text
/// writer to fill.
pub fn chart_doc_to_simai_file(doc: &ChartDoc) -> (file: SimaiFile)
    ensures
        file.title@ == doc.title@,
        file.artist@ == doc.artist@,
        file.first == doc.audio_offset,
        file.levels@.len() == 1,
        file.levels@[0].0 == export_level(doc.simai_level),
        file.levels@[0].1@ == "?"@,
        file.charts@.len() == 1,
        file.charts@[0].0 == export_level(doc.simai_level),
        simai_notes_view(file.charts@[0].1.notes@) == export_upto(notes_view(doc.notes@), doc.notes@.len() as int),
        file.charts@[0].1.bpms@ == export_bpms(doc.bpms@, doc.bpm),
        file.wholebpm == Some(doc.bpm),
        file.source_text@ == Seq::<char>::empty(),
{
    let chart = chart_doc_to_simai_chart(doc);
    let lv = if doc.simai_level > 0 { doc.simai_level } else { DEFAULT_EXPORT_LEVEL };
    let mut levels: Vec<(u32, String)> = Vec::new();
    levels.push((lv, String::from_str("?")));
    let mut charts: Vec<(u32, SimaiChart)> = Vec::new();
    charts.push((lv, chart));
    SimaiFile {
        title: doc.title.clone(),
        artist: doc.artist.clone(),
        first: doc.audio_offset,
        levels,
        charts,
        wholebpm: Some(doc.bpm),
        source_text: String::new(),
    }
}

} // verus!
