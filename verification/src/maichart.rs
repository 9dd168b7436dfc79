//! Loader for the "maichart" `chart.json` format used by `.maichart/<song>`
//! folders (a serialized simai AST).
//!
//! Positions and durations use a mixed-radix `TimePoint { split, beat }`:
//!
//! * an **absolute position** is `measure = 1 + beat / split` (so `{4,0}` is the
//!   first beat, `{8,43}` is measure `1 + 43/8`);
//! * a **duration** is `beat / split` **measures** (same unit as position, just
//!   without the +1): a simai length `[divider:multiplier]` means
//!   `multiplier / divider` whole notes, and one whole note is one measure.
//!
//! Slide shapes come from a single-character `fragment.type`:
//! `-` line, `<` left, `>` right, `p`/`q` P/Q, `s`/`z` S/Z, `v` V, `w` wifi.

use vstd::prelude::*;

use crate::beat_format::round_div;
use crate::model::{
    BpmChange, ChartDoc, Note, NoteType, NoteView, PadZone, SegmentView, Slide, SlidePoint,
    SlideSegment, SlideShape, SlideView, notes_view, plain_note, segments_view, slides_view,
    sort_by_measure, sort_by_time, sort_bpms_by_measure, sort_notes_by_time, QUANTA_PER_MEASURE,
};
use crate::simai_io::DEFAULT_BPM;

verus! {

/// Asset path (relative to `assets/`) of the bundled default chart.
pub const DEFAULT_ASSET: &'static str = "charts/jack_ripper/chart.json";

/// Mixed-radix position or duration: `beat` units of size `1/split`.
#[derive(Debug, Clone, Copy, PartialEq, Eq, Structural)]
pub struct TimePoint {
    pub split: i32,
    pub beat: i32,
}

/// A tempo keyframe; `bpm` in 1/100000 beats per minute.
#[derive(Debug, Clone, Copy, PartialEq, Eq, Structural)]
pub struct BpmKeyframe {
    pub time: TimePoint,
    pub bpm: i64,
}

#[derive(Debug, Clone)]
pub struct KeyframeList {
    pub keyframes: Vec<BpmKeyframe>,
}

#[derive(Debug, Clone, Copy)]
pub struct MaiTap {
    pub hit_time: TimePoint,
    pub button: i32,
    pub is_break: bool,
    pub is_ex: bool,
    pub to_star: bool,
}

#[derive(Debug, Clone, Copy)]
pub struct MaiHold {
    pub hit_time: TimePoint,
    pub button: i32,
    pub hold_time: TimePoint,
    pub is_break: bool,
    pub is_ex: bool,
    pub to_star: bool,
}

#[derive(Debug, Clone, Copy)]
pub struct MaiTouch {
    pub hit_time: TimePoint,
    pub button: i32,
    pub is_break: bool,
    pub is_ex: bool,
}

#[derive(Debug, Clone, Copy)]
pub struct MaiTouchHold {
    pub hit_time: TimePoint,
    pub button: i32,
    pub hold_time: TimePoint,
    pub is_break: bool,
    pub is_ex: bool,
}

#[derive(Debug, Clone)]
pub struct MaiSlideFragment {
    pub kind: String,
    pub middle_button: i32,
    pub end_button: i32,
}

#[derive(Debug, Clone)]
pub struct MaiSlidePart {
    pub prepare_time: TimePoint,
    pub move_time: TimePoint,
    pub is_wifi: bool,
    pub fragments: Vec<MaiSlideFragment>,
}

#[derive(Debug, Clone)]
pub struct MaiSlide {
    pub hit_time: TimePoint,
    pub button: i32,
    pub parts: Vec<MaiSlidePart>,
    pub is_break: bool,
    pub is_ex: bool,
    pub to_star: bool,
    /// "Hidden head": the slide has no tap star (tapless).
    pub hind_head: bool,
}

#[derive(Debug, Clone)]
pub struct MaiDifficulty {
    pub difficulty: i32,
    /// Level number: the integer part of the `level` text ("14.1" is 14).
    pub level: u32,
    pub bpm_list: KeyframeList,
    pub taps: Vec<MaiTap>,
    pub holds: Vec<MaiHold>,
    pub touches: Vec<MaiTouch>,
    pub touch_holds: Vec<MaiTouchHold>,
    pub slides: Vec<MaiSlide>,
}

#[derive(Debug, Clone)]
pub struct MaiChart {
    pub song_name: String,
    pub composer: String,
    /// Audio offset in 1/100000 seconds.
    pub offset: i64,
    pub notes: Vec<MaiDifficulty>,
}

// ---------------------------------------------------------------------------
// Time points
// ---------------------------------------------------------------------------

/// Position in quanta of `{split, beat}`: `1 + beat / split` measures (see
/// [`measure_ratio`]) on the chart's grid of `QUANTA_PER_MEASURE` steps per
/// measure, the fractional part rounded to the nearest step.
pub open spec fn position_quanta(tp: TimePoint) -> int {
    if tp.split <= 0 {
        QUANTA_PER_MEASURE as int
    } else {
        QUANTA_PER_MEASURE + round_div(tp.beat * QUANTA_PER_MEASURE, tp.split as int)
    }
}

/// Length in quanta of `{split, beat}`: `beat / split` measures (see
/// [`duration_ratio`]) rounded to the nearest step of the chart's grid.
pub open spec fn length_quanta(tp: TimePoint) -> int {
    if tp.split <= 0 {
        0
    } else {
        round_div(tp.beat * QUANTA_PER_MEASURE, tp.split as int)
    }
}

fn ratio_quanta(beat: i32, split: i32) -> (r: i64)
    requires
        split > 0,
    ensures
        r == round_div(beat * QUANTA_PER_MEASURE, split as int),
        -0x8000_0000 * 100000 <= r <= 0x8000_0000 * 100000,
{
    let n = beat as i64 * QUANTA_PER_MEASURE;
    let d = split as i64;
    let r = if n >= 0 {
        (2 * n + d) / (2 * d)
    } else {
        -((-2 * n + d) / (2 * d))
    };
    proof {
        crate::beat_format::lemma_round_div_close(n as int, d as int);
        assert(-0x8000_0000 * 100000 <= r <= 0x8000_0000 * 100000) by (nonlinear_arith)
            requires
                2 * crate::beat_format::abs(d * r - n) <= d,
                d >= 1,
                -0x8000_0000 * 100000 <= n <= 0x8000_0000 * 100000,
        {
            if r > 0x8000_0000 * 100000 {
                assert(d * r - n >= d * (0x8000_0000 * 100000 + 1) - 0x8000_0000 * 100000);
            }
            if r < -0x8000_0000 * 100000 {
                assert(n - d * r >= d * (0x8000_0000 * 100000 + 1) - 0x8000_0000 * 100000);
            }
        }
    }
    r
}

/// `1 + beat / split` measures as a fraction `(num, den)` with `den > 0`; a
/// split that is not positive means measure 1.
pub open spec fn measure_ratio(tp: TimePoint) -> (int, int) {
    if tp.split <= 0 {
        (1, 1)
    } else {
        (tp.split + tp.beat, tp.split as int)
    }
}

/// `beat / split` measures as a fraction `(num, den)` with `den > 0`; a
/// split that is not positive means no length.
pub open spec fn duration_ratio(tp: TimePoint) -> (int, int) {
    if tp.split <= 0 {
        (0, 1)
    } else {
        (tp.beat as int, tp.split as int)
    }
}

/// Absolute position from a `{split, beat}` point, exactly: `1 + beat/split`
/// measures as the fraction `(split + beat, split)`.
pub fn measure_of(tp: TimePoint) -> (r: (i64, i64))
    ensures
        r.0 == measure_ratio(tp).0,
        r.1 == measure_ratio(tp).1,
{
    if tp.split <= 0 {
        (1, 1)
    } else {
        (tp.split as i64 + tp.beat as i64, tp.split as i64)
    }
}

/// Duration in measures from a `{split, beat}` duration, exactly: the
/// fraction `(beat, split)`.
pub fn duration_of(tp: TimePoint) -> (r: (i64, i64))
    ensures
        r.0 == duration_ratio(tp).0,
        r.1 == duration_ratio(tp).1,
{
    if tp.split <= 0 {
        (0, 1)
    } else {
        (tp.beat as i64, tp.split as i64)
    }
}

/// The grid position and length of a `{split, beat}` point are the grid
/// steps nearest to its exact position and length: within half a step.
pub proof fn lemma_grid_is_nearest(tp: TimePoint)
    ensures
        2 * crate::beat_format::abs(position_quanta(tp) * measure_ratio(tp).1 - QUANTA_PER_MEASURE * measure_ratio(tp).0)
            <= measure_ratio(tp).1,
        2 * crate::beat_format::abs(length_quanta(tp) * duration_ratio(tp).1 - QUANTA_PER_MEASURE * duration_ratio(tp).0)
            <= duration_ratio(tp).1,
{
    if tp.split > 0 {
        let d = tp.split as int;
        let n = tp.beat * QUANTA_PER_MEASURE;
        let r = round_div(n, d);
        crate::beat_format::lemma_round_div_close(n, d);
        assert((QUANTA_PER_MEASURE + r) * d - QUANTA_PER_MEASURE * (d + tp.beat) == d * r - n) by (nonlinear_arith)
            requires
                n == tp.beat * QUANTA_PER_MEASURE,
        {
        }
        assert(r * d - QUANTA_PER_MEASURE * tp.beat == d * r - n) by (nonlinear_arith)
            requires
                n == tp.beat * QUANTA_PER_MEASURE,
        {
        }
    }
}

/// The position of a `{split, beat}` point on the chart's grid (see
/// [`position_quanta`]).
pub fn quanta_position(tp: TimePoint) -> (q: i64)
    ensures
        q == position_quanta(tp),
{
    if tp.split <= 0 {
        return QUANTA_PER_MEASURE;
    }
    QUANTA_PER_MEASURE + ratio_quanta(tp.beat, tp.split)
}

/// The length of a `{split, beat}` duration on the chart's grid (see
/// [`length_quanta`]).
pub fn quanta_length(tp: TimePoint) -> (q: i64)
    ensures
        q == length_quanta(tp),
{
    if tp.split <= 0 {
        return 0;
    }
    ratio_quanta(tp.beat, tp.split)
}

// ---------------------------------------------------------------------------
// Lanes and shapes
// ---------------------------------------------------------------------------

pub open spec fn ring_lane_spec(button: i32) -> Option<u8> {
    if 1 <= button <= 8 { Some(button as u8) } else { None }
}

pub open spec fn sensor_lane_spec(button: i32) -> Option<u8> {
    if 1 <= button <= 8 { Some((button + 8) as u8) } else { None }
}

/// A-ring button 1-8 to lane 1-8. Anything else is unsupported here.
fn ring_lane(button: i32) -> (r: Option<u8>)
    ensures
        r == ring_lane_spec(button),
{
    if 1 <= button && button <= 8 {
        Some(button as u8)
    } else {
        None
    }
}

/// Touch sensor 1-8 to B ring lanes 9-16.
fn sensor_lane(button: i32) -> (r: Option<u8>)
    ensures
        r == sensor_lane_spec(button),
{
    if 1 <= button && button <= 8 {
        Some((button + 8) as u8)
    } else {
        None
    }
}

/// Shape of a fragment type; a wifi part is always wifi, unknown types are
/// straight lines.
pub open spec fn fragment_shape(kind: Seq<char>, is_wifi: bool) -> SlideShape {
    if is_wifi {
        SlideShape::Wifi
    } else if kind == "-"@ || kind == ""@ {
        SlideShape::Line
    } else if kind == "^"@ {
        SlideShape::Caret
    } else if kind == "<"@ {
        SlideShape::Left
    } else if kind == ">"@ {
        SlideShape::Right
    } else if kind == "v"@ || kind == "V"@ {
        SlideShape::VShape
    } else if kind == "s"@ {
        SlideShape::S
    } else if kind == "z"@ {
        SlideShape::Z
    } else if kind == "p"@ {
        SlideShape::P
    } else if kind == "q"@ {
        SlideShape::Q
    } else if kind == "pp"@ {
        SlideShape::PP
    } else if kind == "qq"@ {
        SlideShape::QQ
    } else if kind == "w"@ {
        SlideShape::Wifi
    } else {
        SlideShape::Line
    }
}

fn is_text(a: &String, lit: &str) -> (b: bool)
    ensures
        b == (a@ == lit@),
{
    let l = String::from_str(lit);
    *a == l
}

/// Map a fragment type to a [`SlideShape`].
pub fn shape_of(kind: &String, is_wifi: bool) -> (s: SlideShape)
    ensures
        s == fragment_shape(kind@, is_wifi),
{
    if is_wifi {
        SlideShape::Wifi
    } else if is_text(kind, "-") || is_text(kind, "") {
        SlideShape::Line
    } else if is_text(kind, "^") {
        SlideShape::Caret
    } else if is_text(kind, "<") {
        SlideShape::Left
    } else if is_text(kind, ">") {
        SlideShape::Right
    } else if is_text(kind, "v") || is_text(kind, "V") {
        SlideShape::VShape
    } else if is_text(kind, "s") {
        SlideShape::S
    } else if is_text(kind, "z") {
        SlideShape::Z
    } else if is_text(kind, "p") {
        SlideShape::P
    } else if is_text(kind, "q") {
        SlideShape::Q
    } else if is_text(kind, "pp") {
        SlideShape::PP
    } else if is_text(kind, "qq") {
        SlideShape::QQ
    } else if is_text(kind, "w") {
        SlideShape::Wifi
    } else {
        SlideShape::Line
    }
}

// ---------------------------------------------------------------------------
// Double stars, each groups and ids
// ---------------------------------------------------------------------------

pub open spec fn is_slide(n: NoteView) -> bool {
    n.note_type == NoteType::Slide
}

/// Another slide of `s` starts at note `i`'s position and lane.
pub open spec fn shares_head(s: Seq<NoteView>, i: int) -> bool {
    exists|j: int|
        0 <= j < s.len() && j != i && is_slide(#[trigger] s[j]) && s[j].time == s[i].time
            && s[j].lane == s[i].lane
}

/// Every slide's `is_star` tells whether another slide shares its head;
/// other notes are unchanged.
pub open spec fn with_double_stars(s: Seq<NoteView>) -> Seq<NoteView> {
    Seq::new(
        s.len(),
        |i: int|
            if is_slide(s[i]) {
                NoteView { is_star: shares_head(s, i), ..s[i] }
            } else {
                s[i]
            },
    )
}

fn shares_head_exec(notes: &Vec<Note>, i: usize) -> (b: bool)
    requires
        i < notes@.len(),
    ensures
        b == shares_head(notes_view(notes@), i as int),
{
    let ghost s = notes_view(notes@);
    let mut j: usize = 0;
    while j < notes.len()
        invariant
            j <= notes@.len(),
            i < notes@.len(),
            s == notes_view(notes@),
            forall|k: int|
                0 <= k < j && k != i ==> !(is_slide(#[trigger] s[k]) && s[k].time == s[i as int].time
                    && s[k].lane == s[i as int].lane),
        decreases notes.len() - j,
    {
        if j != i && notes[j].note_type == NoteType::Slide && notes[j].time == notes[i].time
            && notes[j].lane == notes[i].lane {
            assert(is_slide(s[j as int]));
            return true;
        }
        j = j + 1;
    }
    false
}

/// Mark "double star" slide heads.
///
/// A star head is *double* when two or more slides start from the same
/// position and lane (e.g. simai `1-3/1-5`). The renderer selects the
/// double-star skins via `note.is_star`, so single slides stay `false`.
pub fn mark_double_stars(notes: &mut Vec<Note>)
    ensures
        notes_view(final(notes)@) == with_double_stars(notes_view(old(notes)@)),
{
    let ghost s = notes_view(notes@);
    let n = notes.len();
    let mut flags: Vec<bool> = Vec::new();
    let mut i: usize = 0;
    while i < n
        invariant
            n == notes@.len(),
            i <= n,
            s == notes_view(notes@),
            flags@.len() == i,
            forall|k: int| 0 <= k < i ==> flags@[k] == shares_head(s, k),
        decreases n - i,
    {
        flags.push(shares_head_exec(notes, i));
        i = i + 1;
    }
    let mut i: usize = 0;
    while i < n
        invariant
            n == notes@.len(),
            n == s.len(),
            i <= n,
            flags@.len() == n,
            forall|k: int| 0 <= k < n ==> flags@[k] == shares_head(s, k),
            forall|k: int| 0 <= k < i ==> (#[trigger] notes@[k])@ == with_double_stars(s)[k],
            forall|k: int| i <= k < n ==> (#[trigger] notes@[k])@ == s[k],
        decreases n - i,
    {
        if notes[i].note_type == NoteType::Slide {
            notes[i].is_star = flags[i];
        }
        assert(notes@[i as int]@ == with_double_stars(s)[i as int]);
        i = i + 1;
    }
    assert(notes_view(notes@) =~= with_double_stars(s));
}

/// Two positions are close enough to sound together.
pub open spec fn together(a: i64, b: i64) -> bool {
    -200 < a - b < 200
}

/// Another note of `s` sounds with note `i`; with `same_kind`, only a note
/// that is a slide exactly when note `i` is one counts.
pub open spec fn each_with(s: Seq<NoteView>, i: int, same_kind: bool) -> bool {
    exists|j: int|
        0 <= j < s.len() && j != i && together((#[trigger] s[j]).time, s[i].time) && (same_kind
            ==> is_slide(s[j]) == is_slide(s[i]))
}

/// `is_each` marks notes that sound with another note of their own kind
/// (slide or not); `is_each_head` marks notes that sound with any other note.
pub open spec fn with_each(s: Seq<NoteView>) -> Seq<NoteView> {
    Seq::new(
        s.len(),
        |i: int| NoteView { is_each: each_with(s, i, true), is_each_head: each_with(s, i, false), ..s[i] },
    )
}

fn each_with_exec(notes: &Vec<Note>, i: usize, same_kind: bool) -> (b: bool)
    requires
        i < notes@.len(),
    ensures
        b == each_with(notes_view(notes@), i as int, same_kind),
{
    let ghost s = notes_view(notes@);
    let m = notes[i].time;
    let slide_i = notes[i].note_type == NoteType::Slide;
    let mut j: usize = 0;
    while j < notes.len()
        invariant
            j <= notes@.len(),
            i < notes@.len(),
            s == notes_view(notes@),
            m == s[i as int].time,
            slide_i == is_slide(s[i as int]),
            forall|k: int|
                0 <= k < j && k != i ==> !(together((#[trigger] s[k]).time, m) && (same_kind
                    ==> is_slide(s[k]) == slide_i)),
        decreases notes.len() - j,
    {
        let t = notes[j].time;
        let kind_ok = !same_kind || (notes[j].note_type == NoteType::Slide) == slide_i;
        let d = t as i128 - m as i128;
        if j != i && -200 < d && d < 200 && kind_ok {
            assert(together(s[j as int].time, m));
            return true;
        }
        j = j + 1;
    }
    false
}

/// Mark notes that share a hit time with another note (simai "each"). The
/// `is_each` flag selects the `*_each` skins, so a lone note stays `false`.
///
/// Slides' trails only pair with other slides (`is_each`), while a slide's
/// head star uses `is_each_head`, which follows the tap rule (any note at
/// the same time).
pub fn recompute_each(notes: &mut Vec<Note>)
    ensures
        notes_view(final(notes)@) == with_each(notes_view(old(notes)@)),
{
    let ghost s = notes_view(notes@);
    let n = notes.len();
    let mut each: Vec<bool> = Vec::new();
    let mut head: Vec<bool> = Vec::new();
    let mut i: usize = 0;
    while i < n
        invariant
            n == notes@.len(),
            i <= n,
            s == notes_view(notes@),
            each@.len() == i,
            head@.len() == i,
            forall|k: int| 0 <= k < i ==> each@[k] == each_with(s, k, true),
            forall|k: int| 0 <= k < i ==> head@[k] == each_with(s, k, false),
        decreases n - i,
    {
        each.push(each_with_exec(notes, i, true));
        head.push(each_with_exec(notes, i, false));
        i = i + 1;
    }
    let mut i: usize = 0;
    while i < n
        invariant
            n == notes@.len(),
            n == s.len(),
            i <= n,
            each@.len() == n,
            head@.len() == n,
            forall|k: int| 0 <= k < n ==> each@[k] == each_with(s, k, true),
            forall|k: int| 0 <= k < n ==> head@[k] == each_with(s, k, false),
            forall|k: int| 0 <= k < i ==> (#[trigger] notes@[k])@ == with_each(s)[k],
            forall|k: int| i <= k < n ==> (#[trigger] notes@[k])@ == s[k],
        decreases n - i,
    {
        notes[i].is_each = each[i];
        notes[i].is_each_head = head[i];
        assert(notes@[i as int]@ == with_each(s)[i as int]);
        i = i + 1;
    }
    assert(notes_view(notes@) =~= with_each(s));
}

/// The largest id of `s` (0 when empty).
pub open spec fn max_id(s: Seq<NoteView>) -> u64
    decreases s.len(),
{
    if s.len() == 0 {
        0
    } else {
        let m = max_id(s.drop_last());
        if s.last().id > m {
            s.last().id
        } else {
            m
        }
    }
}

/// Note `i` of `s` needs a new id: its id is 0, or an earlier note has it.
pub open spec fn needs_id(s: Seq<NoteView>, i: int) -> bool {
    s[i].id == 0 || exists|j: int| 0 <= j < i && #[trigger] s[j].id == s[i].id
}

/// Number of notes that need a new id among the first `i` notes of `s`.
pub open spec fn fresh_ids_before(s: Seq<NoteView>, i: int) -> nat
    decreases i,
{
    if i <= 0 {
        0
    } else {
        fresh_ids_before(s, i - 1) + if needs_id(s, i - 1) {
            1nat
        } else {
            0nat
        }
    }
}

/// Notes with id 0, and notes whose id an earlier note has already, get the
/// ids after the largest one, in order; other notes keep theirs.
pub open spec fn with_ids(s: Seq<NoteView>) -> Seq<NoteView> {
    Seq::new(
        s.len(),
        |i: int|
            if needs_id(s, i) {
                NoteView { id: (max_id(s) + 1 + fresh_ids_before(s, i)) as u64, ..s[i] }
            } else {
                s[i]
            },
    )
}

/// The new ids fit in a `u64`.
pub open spec fn ids_fit(s: Seq<NoteView>) -> bool {
    max_id(s) + 1 + fresh_ids_before(s, s.len() as int) <= u64::MAX
}

proof fn lemma_max_id_bounds(s: Seq<NoteView>)
    ensures
        forall|k: int| 0 <= k < s.len() ==> (#[trigger] s[k]).id <= max_id(s),
    decreases s.len(),
{
    if s.len() > 0 {
        lemma_max_id_bounds(s.drop_last());
        assert forall|k: int| 0 <= k < s.len() implies (#[trigger] s[k]).id <= max_id(s) by {
            if k < s.len() - 1 {
                assert(s.drop_last()[k] == s[k]);
            }
        }
    }
}

proof fn lemma_fresh_ids_monotone(s: Seq<NoteView>, i: int, j: int)
    requires
        0 <= i <= j,
    ensures
        fresh_ids_before(s, i) <= fresh_ids_before(s, j),
        i < j && 0 <= i < s.len() && needs_id(s, i) ==> fresh_ids_before(s, i) < fresh_ids_before(s, j),
    decreases j - i,
{
    if i < j {
        lemma_fresh_ids_monotone(s, i, j - 1);
        if i == j - 1 {
        } else {
            lemma_fresh_ids_monotone(s, i + 1, j - 1);
        }
    }
}

/// After ids are handed out, every id is non-zero, all ids are distinct, and
/// a non-zero id that no earlier note has is kept.
pub proof fn lemma_ids_unique(s: Seq<NoteView>)
    requires
        ids_fit(s),
    ensures
        with_ids(s).len() == s.len(),
        forall|i: int| 0 <= i < s.len() ==> (#[trigger] with_ids(s)[i]).id != 0,
        forall|i: int| 0 <= i < s.len() && !needs_id(s, i) ==> (#[trigger] with_ids(s)[i]).id == s[i].id,
        forall|i: int, j: int| 0 <= i < j < s.len() ==> #[trigger] with_ids(s)[i].id != #[trigger] with_ids(s)[j].id,
{
    let t = with_ids(s);
    lemma_max_id_bounds(s);
    assert forall|i: int| 0 <= i < s.len() implies (#[trigger] t[i]).id != 0 && (needs_id(s, i)
        ==> t[i].id == max_id(s) + 1 + fresh_ids_before(s, i)) by {
        lemma_fresh_ids_monotone(s, i, s.len() as int);
    }
    assert forall|i: int, j: int| 0 <= i < j < s.len() implies #[trigger] t[i].id != #[trigger] t[j].id by {
        assert(s[i].id <= max_id(s));
        assert(s[j].id <= max_id(s));
        if needs_id(s, i) && needs_id(s, j) {
            lemma_fresh_ids_monotone(s, i, j);
        }
        if !needs_id(s, i) && !needs_id(s, j) {
            assert(s[i].id != s[j].id);
        }
    }
}

/// Give every note a unique, non-zero id.
///
/// Simai-converted notes all default to id 0; autoplay hides judged notes by
/// id, so without unique ids a single judgment would hide every note. A note
/// with id 0, or with an id that an earlier note has, gets the next id after
/// the largest one; other notes keep theirs.
pub fn assign_note_ids(notes: &mut Vec<Note>)
    requires
        ids_fit(notes_view(old(notes)@)),
    ensures
        notes_view(final(notes)@) == with_ids(notes_view(old(notes)@)),
{
    let ghost s = notes_view(notes@);
    let n = notes.len();
    let mut m: u64 = 0;
    let mut ids: Vec<u64> = Vec::new();
    let mut i: usize = 0;
    while i < n
        invariant
            n == notes@.len(),
            s == notes_view(notes@),
            i <= n,
            m == max_id(s.subrange(0, i as int)),
            ids@.len() == i,
            forall|k: int| 0 <= k < i ==> ids@[k] == #[trigger] s[k].id,
        decreases n - i,
    {
        assert(s.subrange(0, i + 1).drop_last() =~= s.subrange(0, i as int));
        if notes[i].id > m {
            m = notes[i].id;
        }
        ids.push(notes[i].id);
        i = i + 1;
    }
    assert(s.subrange(0, n as int) =~= s);
    let mut next: u64 = m + 1;
    let mut i: usize = 0;
    while i < n
        invariant
            n == notes@.len(),
            n == s.len(),
            ids@.len() == n,
            forall|k: int| 0 <= k < n ==> ids@[k] == #[trigger] s[k].id,
            i <= n,
            ids_fit(s),
            next == max_id(s) + 1 + fresh_ids_before(s, i as int),
            forall|k: int| 0 <= k < i ==> (#[trigger] notes@[k])@ == with_ids(s)[k],
            forall|k: int| i <= k < n ==> (#[trigger] notes@[k])@ == s[k],
        decreases n - i,
    {
        proof {
            lemma_fresh_ids_monotone(s, i + 1, n as int);
        }
        let mut seen = false;
        let mut j: usize = 0;
        while j < i
            invariant
                i < n,
                ids@.len() == n,
                j <= i,
                seen == exists|k: int| 0 <= k < j && #[trigger] s[k].id == s[i as int].id,
                forall|k: int| 0 <= k < n ==> ids@[k] == #[trigger] s[k].id,
            decreases i - j,
        {
            if ids[j] == ids[i] {
                seen = true;
            }
            proof {
                assert(ids@[j as int] == s[j as int].id);
                assert(ids@[i as int] == s[i as int].id);
            }
            j = j + 1;
        }
        assert(seen || ids@[i as int] == 0 <==> needs_id(s, i as int));
        if ids[i] == 0 || seen {
            notes[i].id = next;
            next = next + 1;
        }
        assert(notes@[i as int]@ == with_ids(s)[i as int]);
        i = i + 1;
    }
    assert(notes_view(notes@) =~= with_ids(s));
}

// ---------------------------------------------------------------------------
// Difficulty, tempo and slides
// ---------------------------------------------------------------------------

/// Some difficulty of `ds` has the number `want`.
pub open spec fn wanted(ds: Seq<MaiDifficulty>, want: Option<i32>) -> bool {
    want is Some && exists|k: int| 0 <= k < ds.len() && #[trigger] ds[k].difficulty == want->0
}

/// `r` is the difficulty to load from `ds`: the first one whose number is
/// `want`, else the first of the hardest (largest number).
pub open spec fn is_selected(ds: Seq<MaiDifficulty>, want: Option<i32>, r: int) -> bool {
    &&& 0 <= r < ds.len()
    &&& wanted(ds, want) ==> ds[r].difficulty == want->0 && forall|k: int|
        0 <= k < r ==> #[trigger] ds[k].difficulty != want->0
    &&& !wanted(ds, want) ==> (forall|k: int|
        0 <= k < ds.len() ==> #[trigger] ds[k].difficulty <= ds[r].difficulty) && (forall|k: int|
        0 <= k < r ==> #[trigger] ds[k].difficulty < ds[r].difficulty)
}

/// At most one difficulty is the one to load.
pub proof fn lemma_selection_unique(ds: Seq<MaiDifficulty>, want: Option<i32>, r1: int, r2: int)
    requires
        is_selected(ds, want, r1),
        is_selected(ds, want, r2),
    ensures
        r1 == r2,
{
    if r1 < r2 {
        assert(ds[r1].difficulty != want->0 || !wanted(ds, want));
        assert(ds[r1].difficulty < ds[r2].difficulty || wanted(ds, want));
    } else if r2 < r1 {
        assert(ds[r2].difficulty != want->0 || !wanted(ds, want));
        assert(ds[r2].difficulty < ds[r1].difficulty || wanted(ds, want));
    }
}

/// Choose which difficulty to load: the first one whose number is `want`,
/// else the first of the hardest (largest number); 0 when there is none.
pub fn select_difficulty(notes: &Vec<MaiDifficulty>, want: Option<i32>) -> (r: usize)
    ensures
        notes@.len() == 0 ==> r == 0,
        notes@.len() > 0 ==> is_selected(notes@, want, r as int),
{
    if notes.len() == 0 {
        return 0;
    }
    if let Some(w) = want {
        let mut i: usize = 0;
        while i < notes.len()
            invariant
                i <= notes@.len(),
                want == Some(w),
                forall|k: int| 0 <= k < i ==> #[trigger] notes@[k].difficulty != w,
            decreases notes.len() - i,
        {
            if notes[i].difficulty == w {
                assert(wanted(notes@, want));
                return i;
            }
            i = i + 1;
        }
        assert(!wanted(notes@, want));
    }
    let mut best: usize = 0;
    let mut i: usize = 1;
    while i < notes.len()
        invariant
            1 <= i <= notes@.len(),
            best < i,
            forall|k: int| 0 <= k < i ==> #[trigger] notes@[k].difficulty <= notes@[best as int].difficulty,
            forall|k: int| 0 <= k < best ==> #[trigger] notes@[k].difficulty < notes@[best as int].difficulty,
        decreases notes.len() - i,
    {
        if notes[i].difficulty > notes[best].difficulty {
            best = i;
        }
        i = i + 1;
    }
    best
}

/// The tempo change of a keyframe.
pub open spec fn keyframe_change(k: BpmKeyframe) -> BpmChange {
    BpmChange { measure: position_quanta(k.time) as i64, bpm: k.bpm }
}

/// The tempo changes of a difficulty in position order, or 120 from measure
/// 1 when it has none.
pub open spec fn chart_bpms(ks: Seq<BpmKeyframe>) -> Seq<BpmChange> {
    let s = sort_by_measure(ks.map_values(|k: BpmKeyframe| keyframe_change(k)));
    if s.len() == 0 {
        seq![BpmChange { measure: QUANTA_PER_MEASURE, bpm: DEFAULT_BPM }]
    } else {
        s
    }
}

/// Build the tempo change list, sorted by position.
fn build_bpms(diff: &MaiDifficulty) -> (r: Vec<BpmChange>)
    ensures
        r@ == chart_bpms(diff.bpm_list.keyframes@),
        r@.len() > 0,
{
    let ks = &diff.bpm_list.keyframes;
    let mut raw: Vec<BpmChange> = Vec::new();
    let mut i: usize = 0;
    while i < ks.len()
        invariant
            i <= ks@.len(),
            raw@ == ks@.subrange(0, i as int).map_values(|k: BpmKeyframe| keyframe_change(k)),
        decreases ks.len() - i,
    {
        let k = ks[i];
        raw.push(BpmChange { measure: quanta_position(k.time), bpm: k.bpm });
        i = i + 1;
        assert(raw@ =~= ks@.subrange(0, i as int).map_values(|k: BpmKeyframe| keyframe_change(k)));
    }
    assert(ks@.subrange(0, ks@.len() as int) =~= ks@);
    let mut bpms = sort_bpms_by_measure(&raw);
    if bpms.len() == 0 {
        bpms.push(BpmChange { measure: QUANTA_PER_MEASURE, bpm: DEFAULT_BPM });
        assert(bpms@ =~= seq![BpmChange { measure: QUANTA_PER_MEASURE, bpm: DEFAULT_BPM }]);
    }
    bpms
}

/// Waypoint zones of a fragment: its middle button, then its end button,
/// each only when it is an A-button (1-8).
pub open spec fn fragment_zones(f: MaiSlideFragment) -> Seq<u8> {
    (if 1 <= f.middle_button <= 8 {
        seq![f.middle_button as u8]
    } else {
        Seq::empty()
    }) + (if 1 <= f.end_button <= 8 {
        seq![f.end_button as u8]
    } else {
        Seq::empty()
    })
}

/// The segments of a slide part: one per fragment that has a waypoint.
pub open spec fn part_segments(frags: Seq<MaiSlideFragment>, is_wifi: bool) -> Seq<SegmentView>
    decreases frags.len(),
{
    if frags.len() == 0 {
        Seq::empty()
    } else {
        let prev = part_segments(frags.drop_last(), is_wifi);
        let f = frags.last();
        if fragment_zones(f).len() > 0 {
            prev.push(
                SegmentView {
                    points: crate::simai_io::zone_points(fragment_zones(f)),
                    shape: fragment_shape(f.kind@, is_wifi),
                },
            )
        } else {
            prev
        }
    }
}

pub open spec fn clamp0(x: int) -> int {
    if x > 0 { x } else { 0 }
}

/// The slides of a slide note: one per part that has a segment. The span
/// runs from the head to the tail (wait plus travel); both are at least 0.
pub open spec fn part_slides(parts: Seq<MaiSlidePart>, brk: bool) -> Seq<SlideView>
    decreases parts.len(),
{
    if parts.len() == 0 {
        Seq::empty()
    } else {
        let prev = part_slides(parts.drop_last(), brk);
        let p = parts.last();
        let segs = part_segments(p.fragments@, p.is_wifi);
        if segs.len() > 0 {
            let delay = length_quanta(p.prepare_time);
            let travel = length_quanta(p.move_time);
            prev.push(
                SlideView {
                    segments: segs,
                    slide_duration: clamp0(delay + travel) as i64,
                    slide_start_delay: clamp0(delay) as i64,
                    slide_is_break: brk,
                },
            )
        } else {
            prev
        }
    }
}

fn fragment_segments(frags: &Vec<MaiSlideFragment>, is_wifi: bool) -> (r: Vec<SlideSegment>)
    ensures
        segments_view(r@) == part_segments(frags@, is_wifi),
{
    let mut segs: Vec<SlideSegment> = Vec::new();
    let mut i: usize = 0;
    while i < frags.len()
        invariant
            i <= frags@.len(),
            segments_view(segs@) == part_segments(frags@.subrange(0, i as int), is_wifi),
        decreases frags.len() - i,
    {
        let f = &frags[i];
        assert(frags@.subrange(0, i + 1).drop_last() =~= frags@.subrange(0, i as int));
        assert(frags@.subrange(0, i + 1).last() == frags@[i as int]);
        let shape = shape_of(&f.kind, is_wifi);
        let mut points: Vec<SlidePoint> = Vec::new();
        if f.middle_button >= 1 && f.middle_button <= 8 {
            points.push(SlidePoint::at(f.middle_button as u8));
        }
        if f.end_button >= 1 && f.end_button <= 8 {
            points.push(SlidePoint::at(f.end_button as u8));
        }
        assert(points@ =~= crate::simai_io::zone_points(fragment_zones(*f)));
        if points.len() > 0 {
            let ghost before = segs@;
            segs.push(SlideSegment { points, shape });
            assert(segments_view(segs@) =~= segments_view(before).push(segs@.last()@));
        }
        i = i + 1;
    }
    assert(frags@.subrange(0, frags@.len() as int) =~= frags@);
    segs
}

/// Build the slides of a slide note. One part becomes one slide; each
/// fragment inside a part becomes a chained segment.
fn build_slides(s: &MaiSlide, note_is_break: bool) -> (r: Vec<Slide>)
    ensures
        slides_view(r@) == part_slides(s.parts@, note_is_break),
{
    let parts = &s.parts;
    let mut out: Vec<Slide> = Vec::new();
    let mut i: usize = 0;
    while i < parts.len()
        invariant
            i <= parts@.len(),
            slides_view(out@) == part_slides(parts@.subrange(0, i as int), note_is_break),
        decreases parts.len() - i,
    {
        let part = &parts[i];
        assert(parts@.subrange(0, i + 1).drop_last() =~= parts@.subrange(0, i as int));
        assert(parts@.subrange(0, i + 1).last() == parts@[i as int]);
        let delay = quanta_length(part.prepare_time);
        let travel = quanta_length(part.move_time);
        let segments = fragment_segments(&part.fragments, part.is_wifi);
        if segments.len() > 0 {
            let total = delay + travel;
            let ghost before = out@;
            out.push(
                Slide {
                    segments,
                    slide_duration: if total > 0 { total } else { 0 },
                    slide_start_delay: if delay > 0 { delay } else { 0 },
                    slide_is_break: note_is_break,
                },
            );
            assert(slides_view(out@) =~= slides_view(before).push(out@.last()@));
        }
        i = i + 1;
    }
    assert(parts@.subrange(0, parts@.len() as int) =~= parts@);
    out
}

// ---------------------------------------------------------------------------
// Conversion
// ---------------------------------------------------------------------------

/// The notes made of the items of `s` that `f` maps to a note, in order.
pub open spec fn collect_notes<A>(s: Seq<A>, f: spec_fn(A) -> Option<NoteView>) -> Seq<NoteView>
    decreases s.len(),
{
    if s.len() == 0 {
        Seq::empty()
    } else {
        let prev = collect_notes(s.drop_last(), f);
        match f(s.last()) {
            Some(n) => prev.push(n),
            None => prev,
        }
    }
}

pub open spec fn tap_note(t: MaiTap) -> Option<NoteView> {
    match ring_lane_spec(t.button) {
        Some(lane) => Some(
            NoteView {
                is_break: t.is_break,
                is_ex: t.is_ex,
                is_star: t.to_star,
                ..plain_note(position_quanta(t.hit_time) as i64, lane, NoteType::Tap)
            },
        ),
        None => None,
    }
}

pub open spec fn hold_note(h: MaiHold) -> Option<NoteView> {
    match ring_lane_spec(h.button) {
        Some(lane) => Some(
            NoteView {
                hold_duration: length_quanta(h.hold_time) as i64,
                is_break: h.is_break,
                is_ex: h.is_ex,
                is_star: h.to_star,
                ..plain_note(position_quanta(h.hit_time) as i64, lane, NoteType::Hold)
            },
        ),
        None => None,
    }
}

/// A slide note; its `is_star` (double star) is decided later.
pub open spec fn slide_note(s: MaiSlide) -> Option<NoteView> {
    match ring_lane_spec(s.button) {
        Some(lane) => Some(
            NoteView {
                is_break: s.is_break,
                is_ex: s.is_ex,
                is_tapless: s.hind_head,
                slide: part_slides(s.parts@, s.is_break),
                ..plain_note(position_quanta(s.hit_time) as i64, lane, NoteType::Slide)
            },
        ),
        None => None,
    }
}

pub open spec fn touch_note(t: MaiTouch) -> Option<NoteView> {
    match sensor_lane_spec(t.button) {
        Some(lane) => Some(
            NoteView {
                is_break: t.is_break,
                is_ex: t.is_ex,
                ..plain_note(position_quanta(t.hit_time) as i64, lane, NoteType::Touch)
            },
        ),
        None => None,
    }
}

pub open spec fn touch_hold_note(h: MaiTouchHold) -> Option<NoteView> {
    match sensor_lane_spec(h.button) {
        Some(lane) => Some(
            NoteView {
                hold_duration: length_quanta(h.hold_time) as i64,
                is_break: h.is_break,
                is_ex: h.is_ex,
                ..plain_note(position_quanta(h.hit_time) as i64, lane, NoteType::Hold)
            },
        ),
        None => None,
    }
}

pub open spec fn tap_notes(s: Seq<MaiTap>) -> Seq<NoteView> {
    collect_notes(s, |t: MaiTap| tap_note(t))
}

pub open spec fn hold_notes(s: Seq<MaiHold>) -> Seq<NoteView> {
    collect_notes(s, |h: MaiHold| hold_note(h))
}

pub open spec fn slide_notes(s: Seq<MaiSlide>) -> Seq<NoteView> {
    collect_notes(s, |x: MaiSlide| slide_note(x))
}

pub open spec fn touch_notes(s: Seq<MaiTouch>) -> Seq<NoteView> {
    collect_notes(s, |t: MaiTouch| touch_note(t))
}

pub open spec fn touch_hold_notes(s: Seq<MaiTouchHold>) -> Seq<NoteView> {
    collect_notes(s, |h: MaiTouchHold| touch_hold_note(h))
}

/// The notes of a difficulty in file order: taps, holds, slides, touches,
/// touch holds; buttons outside 1-8 are skipped.
pub open spec fn difficulty_notes(d: MaiDifficulty) -> Seq<NoteView> {
    tap_notes(d.taps@) + hold_notes(d.holds@) + slide_notes(d.slides@) + touch_notes(d.touches@)
        + touch_hold_notes(d.touch_holds@)
}

/// The chart notes of a difficulty: in time order, with double stars and
/// each groups marked.
pub open spec fn chart_notes(d: MaiDifficulty) -> Seq<NoteView> {
    with_each(with_double_stars(sort_by_time(difficulty_notes(d))))
}

fn push_taps(notes: &mut Vec<Note>, taps: &Vec<MaiTap>)
    ensures
        notes_view(final(notes)@) == notes_view(old(notes)@) + tap_notes(taps@),
{
    let ghost base = notes_view(notes@);
    let mut i: usize = 0;
    while i < taps.len()
        invariant
            i <= taps@.len(),
            notes_view(notes@) == base + tap_notes(taps@.subrange(0, i as int)),
        decreases taps.len() - i,
    {
        let t = taps[i];
        assert(taps@.subrange(0, i + 1).drop_last() =~= taps@.subrange(0, i as int));
        assert(taps@.subrange(0, i + 1).last() == t);
        let ghost before = notes_view(notes@);
        if let Some(lane) = ring_lane(t.button) {
            let mut n = Note::new(quanta_position(t.hit_time), lane, NoteType::Tap);
            n.is_break = t.is_break;
            n.is_ex = t.is_ex;
            n.is_star = t.to_star;
            assert(n@.slide =~= tap_note(t).unwrap().slide);
            notes.push(n);
            assert(notes_view(notes@) =~= before.push(n@));
        }
        i = i + 1;
        assert(notes_view(notes@) =~= base + tap_notes(taps@.subrange(0, i as int)));
    }
    assert(taps@.subrange(0, taps@.len() as int) =~= taps@);
}

fn push_holds(notes: &mut Vec<Note>, holds: &Vec<MaiHold>)
    ensures
        notes_view(final(notes)@) == notes_view(old(notes)@) + hold_notes(holds@),
{
    let ghost base = notes_view(notes@);
    let mut i: usize = 0;
    while i < holds.len()
        invariant
            i <= holds@.len(),
            notes_view(notes@) == base + hold_notes(holds@.subrange(0, i as int)),
        decreases holds.len() - i,
    {
        let h = holds[i];
        assert(holds@.subrange(0, i + 1).drop_last() =~= holds@.subrange(0, i as int));
        assert(holds@.subrange(0, i + 1).last() == h);
        let ghost before = notes_view(notes@);
        if let Some(lane) = ring_lane(h.button) {
            let mut n = Note::new(quanta_position(h.hit_time), lane, NoteType::Hold);
            n.hold_duration = quanta_length(h.hold_time);
            n.is_break = h.is_break;
            n.is_ex = h.is_ex;
            n.is_star = h.to_star;
            assert(n@.slide =~= hold_note(h).unwrap().slide);
            notes.push(n);
            assert(notes_view(notes@) =~= before.push(n@));
        }
        i = i + 1;
        assert(notes_view(notes@) =~= base + hold_notes(holds@.subrange(0, i as int)));
    }
    assert(holds@.subrange(0, holds@.len() as int) =~= holds@);
}

fn push_slides(notes: &mut Vec<Note>, slides: &Vec<MaiSlide>)
    ensures
        notes_view(final(notes)@) == notes_view(old(notes)@) + slide_notes(slides@),
{
    let ghost base = notes_view(notes@);
    let mut i: usize = 0;
    while i < slides.len()
        invariant
            i <= slides@.len(),
            notes_view(notes@) == base + slide_notes(slides@.subrange(0, i as int)),
        decreases slides.len() - i,
    {
        let s = &slides[i];
        assert(slides@.subrange(0, i + 1).drop_last() =~= slides@.subrange(0, i as int));
        assert(slides@.subrange(0, i + 1).last() == *s);
        let ghost before = notes_view(notes@);
        if let Some(lane) = ring_lane(s.button) {
            let mut n = Note::new(quanta_position(s.hit_time), lane, NoteType::Slide);
            n.is_break = s.is_break;
            n.is_ex = s.is_ex;
            n.is_tapless = s.hind_head;
            n.slide = build_slides(s, s.is_break);
            notes.push(n);
            assert(notes_view(notes@) =~= before.push(n@));
        }
        i = i + 1;
        assert(notes_view(notes@) =~= base + slide_notes(slides@.subrange(0, i as int)));
    }
    assert(slides@.subrange(0, slides@.len() as int) =~= slides@);
}

fn push_touches(notes: &mut Vec<Note>, touches: &Vec<MaiTouch>)
    ensures
        notes_view(final(notes)@) == notes_view(old(notes)@) + touch_notes(touches@),
{
    let ghost base = notes_view(notes@);
    let mut i: usize = 0;
    while i < touches.len()
        invariant
            i <= touches@.len(),
            notes_view(notes@) == base + touch_notes(touches@.subrange(0, i as int)),
        decreases touches.len() - i,
    {
        let t = touches[i];
        assert(touches@.subrange(0, i + 1).drop_last() =~= touches@.subrange(0, i as int));
        assert(touches@.subrange(0, i + 1).last() == t);
        let ghost before = notes_view(notes@);
        if let Some(lane) = sensor_lane(t.button) {
            let mut n = Note::new(quanta_position(t.hit_time), lane, NoteType::Touch);
            n.is_break = t.is_break;
            n.is_ex = t.is_ex;
            assert(n@.slide =~= touch_note(t).unwrap().slide);
            notes.push(n);
            assert(notes_view(notes@) =~= before.push(n@));
        }
        i = i + 1;
        assert(notes_view(notes@) =~= base + touch_notes(touches@.subrange(0, i as int)));
    }
    assert(touches@.subrange(0, touches@.len() as int) =~= touches@);
}

fn push_touch_holds(notes: &mut Vec<Note>, holds: &Vec<MaiTouchHold>)
    ensures
        notes_view(final(notes)@) == notes_view(old(notes)@) + touch_hold_notes(holds@),
{
    let ghost base = notes_view(notes@);
    let mut i: usize = 0;
    while i < holds.len()
        invariant
            i <= holds@.len(),
            notes_view(notes@) == base + touch_hold_notes(holds@.subrange(0, i as int)),
        decreases holds.len() - i,
    {
        let h = holds[i];
        assert(holds@.subrange(0, i + 1).drop_last() =~= holds@.subrange(0, i as int));
        assert(holds@.subrange(0, i + 1).last() == h);
        let ghost before = notes_view(notes@);
        if let Some(lane) = sensor_lane(h.button) {
            let mut n = Note::new(quanta_position(h.hit_time), lane, NoteType::Hold);
            n.hold_duration = quanta_length(h.hold_time);
            n.is_break = h.is_break;
            n.is_ex = h.is_ex;
            assert(n@.slide =~= touch_hold_note(h).unwrap().slide);
            notes.push(n);
            assert(notes_view(notes@) =~= before.push(n@));
        }
        i = i + 1;
        assert(notes_view(notes@) =~= base + touch_hold_notes(holds@.subrange(0, i as int)));
    }
    assert(holds@.subrange(0, holds@.len() as int) =~= holds@);
}

/// `doc` is the chart made of difficulty `d` of a maichart file with the
/// given song name, composer and offset.
pub open spec fn converted(
    doc: ChartDoc,
    song_name: Seq<char>,
    composer: Seq<char>,
    offset: i64,
    d: MaiDifficulty,
) -> bool {
    &&& doc.version@ == "maichart-1"@
    &&& doc.title@ == song_name
    &&& doc.artist@ == composer
    &&& doc.simai_level == d.level
    &&& doc.bpms@ == chart_bpms(d.bpm_list.keyframes@)
    &&& doc.bpm == chart_bpms(d.bpm_list.keyframes@)[0].bpm
    &&& doc.audio_offset == offset
    &&& notes_view(doc.notes@) == chart_notes(d)
}

/// Build the chart of the selected difficulty (see [`select_difficulty`]).
pub fn convert(mai: MaiChart, want: Option<i32>) -> (doc: ChartDoc)
    requires
        mai.notes@.len() > 0,
    ensures
        exists|r: int|
            #[trigger] is_selected(mai.notes@, want, r) && converted(
                doc,
                mai.song_name@,
                mai.composer@,
                mai.offset,
                mai.notes@[r],
            ),
{
    let ghost all = mai.notes@;
    let MaiChart { song_name, composer, offset, notes: diffs } = mai;
    let idx = select_difficulty(&diffs, want);
    let diff = &diffs[idx];
    let bpms = build_bpms(diff);
    let bpm = bpms[0].bpm;
    let mut notes: Vec<Note> = Vec::new();
    push_taps(&mut notes, &diff.taps);
    push_holds(&mut notes, &diff.holds);
    push_slides(&mut notes, &diff.slides);
    push_touches(&mut notes, &diff.touches);
    push_touch_holds(&mut notes, &diff.touch_holds);
    assert(notes_view(notes@) =~= difficulty_notes(*diff));
    let mut notes = sort_notes_by_time(notes);
    mark_double_stars(&mut notes);
    recompute_each(&mut notes);
    let doc = ChartDoc {
        version: String::from_str("maichart-1"),
        title: song_name,
        artist: composer,
        simai_level: diff.level,
        bpm,
        bpms,
        audio_offset: offset,
        notes,
    };
    assert(is_selected(all, want, idx as int));
    doc
}

/// Marking double stars and each groups changes no position: a loaded
/// chart lists its notes in time order, one for each note of the
/// difficulty.
pub proof fn lemma_chart_notes_in_time_order(d: MaiDifficulty)
    ensures
        crate::model::time_sorted(chart_notes(d)),
        chart_notes(d).len() == difficulty_notes(d).len(),
{
    let s = sort_by_time(difficulty_notes(d));
    crate::model::lemma_sort_by_time(difficulty_notes(d));
    lemma_marks_keep_times(s);
}

/// Marking double stars and each groups keeps every note's position.
pub proof fn lemma_marks_keep_times(s: Seq<NoteView>)
    ensures
        with_each(with_double_stars(s)).len() == s.len(),
        forall|i: int| 0 <= i < s.len() ==> (#[trigger] with_each(with_double_stars(s))[i]).time == s[i].time,
        crate::model::time_sorted(s) ==> crate::model::time_sorted(with_each(with_double_stars(s))),
{
    let t = with_each(with_double_stars(s));
    assert forall|i: int| 0 <= i < s.len() implies (#[trigger] t[i]).time == s[i].time by {
        assert(with_double_stars(s)[i].time == s[i].time);
    }
    if crate::model::time_sorted(s) {
        assert forall|i: int, j: int| 0 <= i < j < t.len() implies t[i].time <= t[j].time by {
            assert(t[i].time == s[i].time);
            assert(t[j].time == s[j].time);
        }
    }
}

/// Marking double stars and each groups a second time changes nothing.
pub proof fn lemma_marks_idempotent(s: Seq<NoteView>)
    ensures
        with_double_stars(with_double_stars(s)) == with_double_stars(s),
        with_each(with_each(s)) == with_each(s),
{
    let d = with_double_stars(s);
    assert forall|i: int| 0 <= i < s.len() implies shares_head(d, i) == shares_head(s, i) by {
        if shares_head(s, i) {
            let j = choose|j: int|
                0 <= j < s.len() && j != i && is_slide(#[trigger] s[j]) && s[j].time == s[i].time
                    && s[j].lane == s[i].lane;
            assert(is_slide(d[j]));
        }
        if shares_head(d, i) {
            let j = choose|j: int|
                0 <= j < d.len() && j != i && is_slide(#[trigger] d[j]) && d[j].time == d[i].time
                    && d[j].lane == d[i].lane;
            assert(is_slide(s[j]));
        }
    }
    assert(with_double_stars(d) =~= d);
    let e = with_each(s);
    assert forall|i: int, k: bool| 0 <= i < s.len() implies each_with(e, i, k) == each_with(s, i, k) by {
        if each_with(s, i, k) {
            let j = choose|j: int|
                0 <= j < s.len() && j != i && together((#[trigger] s[j]).time, s[i].time) && (k ==> is_slide(s[j])
                    == is_slide(s[i]));
            assert(together(e[j].time, e[i].time));
        }
        if each_with(e, i, k) {
            let j = choose|j: int|
                0 <= j < e.len() && j != i && together((#[trigger] e[j]).time, e[i].time) && (k ==> is_slide(e[j])
                    == is_slide(e[i]));
            assert(together(s[j].time, s[i].time));
        }
    }
    assert(with_each(e) =~= e);
}

/// Handing out ids a second time changes nothing.
pub proof fn lemma_ids_idempotent(s: Seq<NoteView>)
    requires
        ids_fit(s),
    ensures
        ids_fit(with_ids(s)),
        with_ids(with_ids(s)) == with_ids(s),
{
    lemma_ids_unique(s);
    let t = with_ids(s);
    assert forall|i: int| 0 <= i < t.len() implies !needs_id(t, i) by {
        if exists|j: int| 0 <= j < i && #[trigger] t[j].id == t[i].id {
            let j = choose|j: int| 0 <= j < i && #[trigger] t[j].id == t[i].id;
            assert(t[j].id != t[i].id);
        }
    }
    lemma_no_fresh_ids(t, t.len() as int);
    lemma_max_id_bounds(s);
    let bound = max_id(s) + fresh_ids_before(s, s.len() as int);
    assert forall|i: int| 0 <= i < t.len() implies (#[trigger] t[i]).id <= bound by {
        if needs_id(s, i) {
            lemma_fresh_ids_monotone(s, i, s.len() as int);
        }
    }
    lemma_max_id_at_most(t, bound);
    assert(with_ids(t) =~= t);
}

proof fn lemma_max_id_at_most(t: Seq<NoteView>, bound: int)
    requires
        0 <= bound,
        forall|i: int| 0 <= i < t.len() ==> (#[trigger] t[i]).id <= bound,
    ensures
        max_id(t) <= bound,
    decreases t.len(),
{
    if t.len() > 0 {
        assert forall|i: int| 0 <= i < t.drop_last().len() implies (#[trigger] t.drop_last()[i]).id <= bound by {
            assert(t.drop_last()[i] == t[i]);
        }
        lemma_max_id_at_most(t.drop_last(), bound);
    }
}

proof fn lemma_no_fresh_ids(t: Seq<NoteView>, k: int)
    requires
        0 <= k <= t.len(),
        forall|i: int| 0 <= i < t.len() ==> !needs_id(t, i),
    ensures
        fresh_ids_before(t, k) == 0,
    decreases k,
{
    if k > 0 {
        lemma_no_fresh_ids(t, k - 1);
    }
}

proof fn lemma_collect_keeps<A>(s: Seq<A>, f: spec_fn(A) -> Option<NoteView>, k: int)
    requires
        0 <= k < s.len(),
        f(s[k]) is Some,
    ensures
        collect_notes(s, f).contains(f(s[k])->0),
    decreases s.len(),
{
    let prev = collect_notes(s.drop_last(), f);
    if k == s.len() - 1 {
        let c = collect_notes(s, f);
        assert(c == prev.push(f(s[k])->0));
        assert(c[c.len() - 1] == f(s[k])->0);
    } else {
        assert(s.drop_last()[k] == s[k]);
        lemma_collect_keeps(s.drop_last(), f, k);
        let x = f(s[k])->0;
        let w = choose|w: int| 0 <= w < prev.len() && prev[w] == x;
        match f(s.last()) {
            Some(n) => {
                assert(prev.push(n)[w] == x);
            },
            None => {},
        }
    }
}

/// A note of the difficulty's notes stands in the chart with the same fields,
/// but for its each marks and, for a slide, its star mark.
proof fn lemma_chart_keeps(d: MaiDifficulty, x: NoteView)
    requires
        difficulty_notes(d).contains(x),
    ensures
        exists|j: int|
            0 <= j < chart_notes(d).len() && (#[trigger] chart_notes(d)[j]).note_type == x.note_type
                && chart_notes(d)[j].time == x.time && chart_notes(d)[j].lane == x.lane
                && chart_notes(d)[j].hold_duration == x.hold_duration && chart_notes(d)[j].is_break == x.is_break
                && chart_notes(d)[j].is_ex == x.is_ex && (x.note_type != NoteType::Slide ==> chart_notes(d)[j].is_star
                == x.is_star) && chart_notes(d)[j].is_tapless == x.is_tapless && chart_notes(d)[j].slide == x.slide,
{
    crate::model::lemma_sort_by_time_keeps(difficulty_notes(d), x);
    let s = sort_by_time(difficulty_notes(d));
    let j = choose|j: int| 0 <= j < s.len() && s[j] == x;
    assert(chart_notes(d)[j].note_type == x.note_type);
}

/// Every tap of a difficulty on a ring button (1-8) becomes a tap of the
/// loaded chart at the tap's position, on the lane of its button, with the
/// tap's break, ex and star flags.
pub proof fn lemma_loaded_taps_keep_flags(d: MaiDifficulty, k: int)
    requires
        0 <= k < d.taps@.len(),
        1 <= d.taps@[k].button <= 8,
    ensures
        exists|j: int|
            0 <= j < chart_notes(d).len() && (#[trigger] chart_notes(d)[j]).note_type == NoteType::Tap
                && chart_notes(d)[j].time == position_quanta(d.taps@[k].hit_time)
                && chart_notes(d)[j].lane == d.taps@[k].button && chart_notes(d)[j].is_break == d.taps@[k].is_break
                && chart_notes(d)[j].is_ex == d.taps@[k].is_ex && chart_notes(d)[j].is_star == d.taps@[k].to_star,
{
    let f = |t: MaiTap| tap_note(t);
    lemma_collect_keeps(d.taps@, f, k);
    let x = f(d.taps@[k])->0;
    let all = difficulty_notes(d);
    let w = choose|w: int| 0 <= w < tap_notes(d.taps@).len() && tap_notes(d.taps@)[w] == x;
    assert(all[w] == x);
    lemma_chart_keeps(d, x);
}

/// Every hold of a difficulty on a ring button (1-8) becomes a hold of the
/// loaded chart at the hold's position, on the lane of its button, with the
/// hold's length and its break and ex flags.
pub proof fn lemma_loaded_holds_keep_flags(d: MaiDifficulty, k: int)
    requires
        0 <= k < d.holds@.len(),
        1 <= d.holds@[k].button <= 8,
    ensures
        exists|j: int|
            0 <= j < chart_notes(d).len() && (#[trigger] chart_notes(d)[j]).note_type == NoteType::Hold
                && chart_notes(d)[j].time == position_quanta(d.holds@[k].hit_time)
                && chart_notes(d)[j].lane == d.holds@[k].button
                && chart_notes(d)[j].hold_duration == length_quanta(d.holds@[k].hold_time)
                && chart_notes(d)[j].is_break == d.holds@[k].is_break && chart_notes(d)[j].is_ex == d.holds@[k].is_ex,
{
    let f = |h: MaiHold| hold_note(h);
    lemma_collect_keeps(d.holds@, f, k);
    let x = f(d.holds@[k])->0;
    let all = difficulty_notes(d);
    let tn = tap_notes(d.taps@);
    let w = choose|w: int| 0 <= w < hold_notes(d.holds@).len() && hold_notes(d.holds@)[w] == x;
    assert(all[tn.len() + w] == x);
    lemma_chart_keeps(d, x);
}

/// Every slide of a difficulty on a ring button (1-8) becomes a slide of the
/// loaded chart at the slide's position, on the lane of its button, with the
/// slide's break and ex flags, tapless when its head is hidden.
pub proof fn lemma_loaded_slides_keep_flags(d: MaiDifficulty, k: int)
    requires
        0 <= k < d.slides@.len(),
        1 <= d.slides@[k].button <= 8,
    ensures
        exists|j: int|
            0 <= j < chart_notes(d).len() && (#[trigger] chart_notes(d)[j]).note_type == NoteType::Slide
                && chart_notes(d)[j].time == position_quanta(d.slides@[k].hit_time)
                && chart_notes(d)[j].lane == d.slides@[k].button
                && chart_notes(d)[j].is_break == d.slides@[k].is_break && chart_notes(d)[j].is_ex == d.slides@[k].is_ex
                && chart_notes(d)[j].is_tapless == d.slides@[k].hind_head,
{
    let f = |x: MaiSlide| slide_note(x);
    lemma_collect_keeps(d.slides@, f, k);
    let x = f(d.slides@[k])->0;
    let all = difficulty_notes(d);
    let before = tap_notes(d.taps@) + hold_notes(d.holds@);
    let w = choose|w: int| 0 <= w < slide_notes(d.slides@).len() && slide_notes(d.slides@)[w] == x;
    assert(all[before.len() + w] == x);
    lemma_chart_keeps(d, x);
}

/// Every touch of a difficulty on a sensor button (1-8) becomes a touch of
/// the loaded chart at its position, on lane button + 8, with its break and
/// ex flags.
pub proof fn lemma_loaded_touches_keep_flags(d: MaiDifficulty, k: int)
    requires
        0 <= k < d.touches@.len(),
        1 <= d.touches@[k].button <= 8,
    ensures
        exists|j: int|
            0 <= j < chart_notes(d).len() && (#[trigger] chart_notes(d)[j]).note_type == NoteType::Touch
                && chart_notes(d)[j].time == position_quanta(d.touches@[k].hit_time)
                && chart_notes(d)[j].lane == d.touches@[k].button + 8
                && chart_notes(d)[j].is_break == d.touches@[k].is_break && chart_notes(d)[j].is_ex
                == d.touches@[k].is_ex,
{
    let f = |x: MaiTouch| touch_note(x);
    lemma_collect_keeps(d.touches@, f, k);
    let x = f(d.touches@[k])->0;
    let all = difficulty_notes(d);
    let before = tap_notes(d.taps@) + hold_notes(d.holds@) + slide_notes(d.slides@);
    let w = choose|w: int| 0 <= w < touch_notes(d.touches@).len() && touch_notes(d.touches@)[w] == x;
    assert(all[before.len() + w] == x);
    lemma_chart_keeps(d, x);
}

/// Every touch hold of a difficulty on a sensor button (1-8) becomes a hold
/// of the loaded chart at its position, on lane button + 8, with its length
/// and its break and ex flags.
pub proof fn lemma_loaded_touch_holds_keep_flags(d: MaiDifficulty, k: int)
    requires
        0 <= k < d.touch_holds@.len(),
        1 <= d.touch_holds@[k].button <= 8,
    ensures
        exists|j: int|
            0 <= j < chart_notes(d).len() && (#[trigger] chart_notes(d)[j]).note_type == NoteType::Hold
                && chart_notes(d)[j].time == position_quanta(d.touch_holds@[k].hit_time)
                && chart_notes(d)[j].lane == d.touch_holds@[k].button + 8
                && chart_notes(d)[j].hold_duration == length_quanta(d.touch_holds@[k].hold_time)
                && chart_notes(d)[j].is_break == d.touch_holds@[k].is_break && chart_notes(d)[j].is_ex
                == d.touch_holds@[k].is_ex,
{
    let f = |x: MaiTouchHold| touch_hold_note(x);
    lemma_collect_keeps(d.touch_holds@, f, k);
    let x = f(d.touch_holds@[k])->0;
    let all = difficulty_notes(d);
    let before = tap_notes(d.taps@) + hold_notes(d.holds@) + slide_notes(d.slides@) + touch_notes(d.touches@);
    let w = choose|w: int| 0 <= w < touch_hold_notes(d.touch_holds@).len() && touch_hold_notes(d.touch_holds@)[w] == x;
    assert(all[before.len() + w] == x);
    lemma_chart_keeps(d, x);
}

} // verus!
