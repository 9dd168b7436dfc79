//! The chart data model shared by every loader and exporter.

use vstd::prelude::*;
use vstd::string::StrSliceExecFns;

verus! {

/// Number of quanta in one measure. Positions are measure numbers
/// (1-based: measure `1` is the first beat) expressed in quanta.
pub const QUANTA_PER_MEASURE: i64 = 100000;

/// One of the 33 touch-sensitive pad zones.
///
/// A1-A8 are ids 1-8 (outer ring), B1-B8 are 9-16 (inner ring), C is 17,
/// D1-D8 are 18-25 and E1-E8 are 26-33.
#[derive(Clone, Copy, Debug, PartialEq, Eq, Structural)]
pub struct PadZone {
    pub id: u8,
}

impl PadZone {
    pub fn from_id(id: u8) -> (z: PadZone)
        ensures
            z.id == id,
    {
        PadZone { id }
    }

    pub fn to_id(&self) -> (id: u8)
        ensures
            id == self.id,
    {
        self.id
    }
}

/// Canonical slide shapes understood by the renderer.
#[derive(Clone, Copy, Debug, PartialEq, Eq, Structural)]
pub enum SlideShape {
    Line,
    VShape,
    Caret,
    Left,
    Right,
    BigV,
    S,
    Z,
    P,
    Q,
    PP,
    QQ,
    Wifi,
}

/// Kind of a chart note.
#[derive(Clone, Copy, Debug, PartialEq, Eq, Structural)]
pub enum NoteType {
    Tap,
    Hold,
    Slide,
    Touch,
}

/// One waypoint zone of a slide arc.
#[derive(Clone, Copy, Debug, PartialEq, Eq, Structural)]
pub struct SlidePoint {
    pub zone: PadZone,
    /// Offset from the slide start, in quanta.
    pub beat_offset: i64,
}

impl SlidePoint {
    /// A waypoint at zone `id` with no offset.
    pub fn at(id: u8) -> (p: SlidePoint)
        ensures
            p.zone.id == id,
            p.beat_offset == 0,
    {
        SlidePoint { zone: PadZone { id }, beat_offset: 0 }
    }
}

/// A chained arc of a slide: its waypoints (the start is implied) and shape.
#[derive(Clone, Debug)]
pub struct SlideSegment {
    pub points: Vec<SlidePoint>,
    pub shape: SlideShape,
}

/// One slide track of a slide note.
#[derive(Clone, Debug)]
pub struct Slide {
    pub segments: Vec<SlideSegment>,
    /// Total span from the head to the tail, in quanta (includes the wait).
    pub slide_duration: i64,
    /// Wait before the star starts moving, in quanta.
    pub slide_start_delay: i64,
    pub slide_is_break: bool,
}

/// A chart note.
#[derive(Clone, Debug)]
pub struct Note {
    pub id: u64,
    /// Hit position in quanta (measure `1` = `QUANTA_PER_MEASURE`).
    pub time: i64,
    /// Zone number, 1-based (see [`PadZone`]).
    pub lane: u8,
    pub note_type: NoteType,
    /// Hold length in quanta.
    pub hold_duration: i64,
    pub is_each: bool,
    pub is_each_head: bool,
    pub is_break: bool,
    pub is_ex: bool,
    pub is_star: bool,
    pub is_tapless: bool,
    /// Flight speed multiplier in 1/100000 units (`0` = default).
    pub hi_speed: i64,
    pub slide: Vec<Slide>,
}

impl Note {
    /// A plain note: every flag off, no hold, no slide.
    pub fn new(time: i64, lane: u8, note_type: NoteType) -> (n: Note)
        ensures
            n.id == 0,
            n.time == time,
            n.lane == lane,
            n.note_type == note_type,
            n.hold_duration == 0,
            !n.is_each && !n.is_each_head && !n.is_break && !n.is_ex,
            !n.is_star && !n.is_tapless,
            n.hi_speed == 0,
            n.slide@.len() == 0,
    {
        Note {
            id: 0,
            time,
            lane,
            note_type,
            hold_duration: 0,
            is_each: false,
            is_each_head: false,
            is_break: false,
            is_ex: false,
            is_star: false,
            is_tapless: false,
            hi_speed: 0,
            slide: Vec::new(),
        }
    }
}

/// A tempo change at a position (quanta); `bpm` is in 1/100000 beats per minute.
#[derive(Clone, Copy, Debug, PartialEq, Eq, Structural)]
pub struct BpmChange {
    pub measure: i64,
    pub bpm: i64,
}

/// A whole chart.
#[derive(Clone, Debug)]
pub struct ChartDoc {
    pub version: String,
    pub title: String,
    pub artist: String,
    pub simai_level: u32,
    /// Initial tempo in 1/100000 beats per minute.
    pub bpm: i64,
    pub bpms: Vec<BpmChange>,
    /// Audio offset in 1/100000 seconds.
    pub audio_offset: i64,
    pub notes: Vec<Note>,
}

// ---------------------------------------------------------------------------
// Views
// ---------------------------------------------------------------------------

/// The content of a [`SlideSegment`].
pub struct SegmentView {
    pub points: Seq<SlidePoint>,
    pub shape: SlideShape,
}

impl View for SlideSegment {
    type V = SegmentView;

    open spec fn view(&self) -> SegmentView {
        SegmentView { points: self.points@, shape: self.shape }
    }
}

/// The content of a [`Slide`].
pub struct SlideView {
    pub segments: Seq<SegmentView>,
    pub slide_duration: i64,
    pub slide_start_delay: i64,
    pub slide_is_break: bool,
}

pub open spec fn segments_view(v: Seq<SlideSegment>) -> Seq<SegmentView> {
    v.map_values(|s: SlideSegment| s@)
}

impl View for Slide {
    type V = SlideView;

    open spec fn view(&self) -> SlideView {
        SlideView {
            segments: segments_view(self.segments@),
            slide_duration: self.slide_duration,
            slide_start_delay: self.slide_start_delay,
            slide_is_break: self.slide_is_break,
        }
    }
}

pub open spec fn slides_view(v: Seq<Slide>) -> Seq<SlideView> {
    v.map_values(|s: Slide| s@)
}

/// The content of a [`Note`].
pub struct NoteView {
    pub id: u64,
    pub time: i64,
    pub lane: u8,
    pub note_type: NoteType,
    pub hold_duration: i64,
    pub is_each: bool,
    pub is_each_head: bool,
    pub is_break: bool,
    pub is_ex: bool,
    pub is_star: bool,
    pub is_tapless: bool,
    pub hi_speed: i64,
    pub slide: Seq<SlideView>,
}

impl View for Note {
    type V = NoteView;

    open spec fn view(&self) -> NoteView {
        NoteView {
            id: self.id,
            time: self.time,
            lane: self.lane,
            note_type: self.note_type,
            hold_duration: self.hold_duration,
            is_each: self.is_each,
            is_each_head: self.is_each_head,
            is_break: self.is_break,
            is_ex: self.is_ex,
            is_star: self.is_star,
            is_tapless: self.is_tapless,
            hi_speed: self.hi_speed,
            slide: slides_view(self.slide@),
        }
    }
}

pub open spec fn notes_view(v: Seq<Note>) -> Seq<NoteView> {
    v.map_values(|n: Note| n@)
}

/// A note with every flag off, no hold and no slide.
pub open spec fn plain_note(time: i64, lane: u8, note_type: NoteType) -> NoteView {
    NoteView {
        id: 0,
        time,
        lane,
        note_type,
        hold_duration: 0,
        is_each: false,
        is_each_head: false,
        is_break: false,
        is_ex: false,
        is_star: false,
        is_tapless: false,
        hi_speed: 0,
        slide: Seq::empty(),
    }
}

// ---------------------------------------------------------------------------
// Ordering notes by time
// ---------------------------------------------------------------------------

/// `x` placed after the last note of `s` that is not later than it.
pub open spec fn insert_by_time(s: Seq<NoteView>, x: NoteView) -> Seq<NoteView>
    decreases s.len(),
{
    if s.len() == 0 {
        seq![x]
    } else if s.last().time <= x.time {
        s.push(x)
    } else {
        insert_by_time(s.drop_last(), x).push(s.last())
    }
}

/// The notes in time order; notes at the same time keep their order.
pub open spec fn sort_by_time(s: Seq<NoteView>) -> Seq<NoteView>
    decreases s.len(),
{
    if s.len() == 0 {
        s
    } else {
        insert_by_time(sort_by_time(s.drop_last()), s.last())
    }
}

pub open spec fn time_sorted(s: Seq<NoteView>) -> bool {
    forall|i: int, j: int| 0 <= i < j < s.len() ==> s[i].time <= s[j].time
}

proof fn lemma_insert_at(s: Seq<NoteView>, x: NoteView, j: int)
    requires
        0 <= j <= s.len(),
        j == 0 || s[j - 1].time <= x.time,
        forall|k: int| j <= k < s.len() ==> s[k].time > x.time,
    ensures
        insert_by_time(s, x) == s.insert(j, x),
    decreases s.len(),
{
    if s.len() == 0 {
        assert(s.insert(j, x) =~= seq![x]);
    } else if s.last().time <= x.time {
        assert(j == s.len());
        assert(s.insert(j, x) =~= s.push(x));
    } else {
        lemma_insert_at(s.drop_last(), x, j);
        assert(s.insert(j, x) =~= s.drop_last().insert(j, x).push(s.last()));
    }
}

proof fn lemma_insert_keeps_sorted(s: Seq<NoteView>, x: NoteView)
    requires
        time_sorted(s),
    ensures
        time_sorted(insert_by_time(s, x)),
        insert_by_time(s, x).to_multiset() == s.to_multiset().insert(x),
        insert_by_time(s, x).len() == s.len() + 1,
    decreases s.len(),
{
    broadcast use vstd::seq_lib::group_to_multiset_ensures;
    if s.len() == 0 {
        assert(seq![x] =~= Seq::<NoteView>::empty().push(x));
    } else if s.last().time <= x.time {
    } else {
        let t = s.drop_last();
        assert(time_sorted(t));
        lemma_insert_keeps_sorted(t, x);
        let r = insert_by_time(t, x);
        assert(s =~= t.push(s.last()));
        assert forall|i: int, j: int| 0 <= i < j < r.push(s.last()).len() implies r.push(
            s.last(),
        )[i].time <= r.push(s.last())[j].time by {
            if j == r.len() {
                // every element of r is either x or an element of t
                assert(r.to_multiset().count(r[i]) > 0);
                if r[i] != x {
                    assert(t.to_multiset().count(r[i]) > 0);
                    let k = choose|k: int| 0 <= k < t.len() && t[k] == r[i];
                    assert(s[k] == t[k]);
                    assert(s[k].time <= s[s.len() - 1].time);
                }
            }
        }
        assert(r.push(s.last()).to_multiset() =~= s.to_multiset().insert(x));
    }
}

/// Ordering by time yields notes in time order, and the same notes.
pub proof fn lemma_sort_by_time(s: Seq<NoteView>)
    ensures
        time_sorted(sort_by_time(s)),
        sort_by_time(s).to_multiset() == s.to_multiset(),
        sort_by_time(s).len() == s.len(),
    decreases s.len(),
{
    broadcast use vstd::seq_lib::group_to_multiset_ensures;
    if s.len() > 0 {
        lemma_sort_by_time(s.drop_last());
        lemma_insert_keeps_sorted(sort_by_time(s.drop_last()), s.last());
        assert(s =~= s.drop_last().push(s.last()));
    }
}

/// Ordering by time keeps every note: a note of `s` is a note of the ordered
/// sequence.
pub proof fn lemma_sort_by_time_keeps(s: Seq<NoteView>, x: NoteView)
    requires
        s.contains(x),
    ensures
        sort_by_time(s).contains(x),
{
    broadcast use vstd::seq_lib::group_to_multiset_ensures;
    lemma_sort_by_time(s);
    assert(s.to_multiset().count(x) > 0);
    assert(sort_by_time(s).to_multiset().count(x) > 0);
}

/// Put the notes in time order; notes at the same time keep their order.
pub fn sort_notes_by_time(notes: Vec<Note>) -> (r: Vec<Note>)
    ensures
        notes_view(r@) == sort_by_time(notes_view(notes@)),
{
    let mut rest = notes;
    let mut out: Vec<Note> = Vec::new();
    let ghost all = notes_view(notes@);
    let ghost n = all.len();
    while rest.len() > 0
        invariant
            n == all.len(),
            rest@.len() <= n,
            notes_view(rest@) == all.subrange(n - rest@.len(), n as int),
            notes_view(out@) == sort_by_time(all.subrange(0, n - rest@.len())),
        decreases rest.len(),
    {
        let ghost done = n - rest@.len();
        let ghost old_rest = rest@;
        let x = rest.remove(0);
        assert(rest@ =~= old_rest.drop_first());
        assert(notes_view(old_rest)[0] == x@);
        assert(notes_view(rest@) =~= notes_view(old_rest).drop_first());
        assert(notes_view(rest@) =~= all.subrange(done + 1, n as int));
        assert(all.subrange(0, done + 1).drop_last() =~= all.subrange(0, done));
        assert(all[done] == x@);
        let mut j = out.len();
        while j > 0 && out[j - 1].time > x.time
            invariant
                j <= out@.len(),
                forall|k: int| j <= k < out@.len() ==> out@[k].time > x.time,
            decreases j,
        {
            j = j - 1;
        }
        proof {
            lemma_insert_at(notes_view(out@), x@, j as int);
        }
        let ghost before = out@;
        out.insert(j, x);
        assert(notes_view(out@) =~= notes_view(before).insert(j as int, x@));
    }
    assert(all.subrange(0, n as int) =~= all);
    out
}

// ---------------------------------------------------------------------------
// Ordering tempo changes by position
// ---------------------------------------------------------------------------

/// `x` placed after the last change of `s` that is not later than it.
pub open spec fn insert_by_measure(s: Seq<BpmChange>, x: BpmChange) -> Seq<BpmChange>
    decreases s.len(),
{
    if s.len() == 0 {
        seq![x]
    } else if s.last().measure <= x.measure {
        s.push(x)
    } else {
        insert_by_measure(s.drop_last(), x).push(s.last())
    }
}

/// The tempo changes in position order; equal positions keep their order.
pub open spec fn sort_by_measure(s: Seq<BpmChange>) -> Seq<BpmChange>
    decreases s.len(),
{
    if s.len() == 0 {
        s
    } else {
        insert_by_measure(sort_by_measure(s.drop_last()), s.last())
    }
}

proof fn lemma_insert_measure_at(s: Seq<BpmChange>, x: BpmChange, j: int)
    requires
        0 <= j <= s.len(),
        j == 0 || s[j - 1].measure <= x.measure,
        forall|k: int| j <= k < s.len() ==> s[k].measure > x.measure,
    ensures
        insert_by_measure(s, x) == s.insert(j, x),
    decreases s.len(),
{
    if s.len() == 0 {
        assert(s.insert(j, x) =~= seq![x]);
    } else if s.last().measure <= x.measure {
        assert(j == s.len());
        assert(s.insert(j, x) =~= s.push(x));
    } else {
        lemma_insert_measure_at(s.drop_last(), x, j);
        assert(s.insert(j, x) =~= s.drop_last().insert(j, x).push(s.last()));
    }
}

proof fn lemma_sort_by_measure_len(s: Seq<BpmChange>)
    ensures
        sort_by_measure(s).len() == s.len(),
    decreases s.len(),
{
    if s.len() > 0 {
        lemma_sort_by_measure_len(s.drop_last());
        lemma_insert_measure_len(sort_by_measure(s.drop_last()), s.last());
    }
}

proof fn lemma_insert_measure_len(s: Seq<BpmChange>, x: BpmChange)
    ensures
        insert_by_measure(s, x).len() == s.len() + 1,
    decreases s.len(),
{
    if s.len() > 0 && s.last().measure > x.measure {
        lemma_insert_measure_len(s.drop_last(), x);
    }
}

/// Put tempo changes in position order; equal positions keep their order.
pub fn sort_bpms_by_measure(bpms: &Vec<BpmChange>) -> (r: Vec<BpmChange>)
    ensures
        r@ == sort_by_measure(bpms@),
        r@.len() == bpms@.len(),
{
    let mut out: Vec<BpmChange> = Vec::new();
    let mut i: usize = 0;
    while i < bpms.len()
        invariant
            i <= bpms@.len(),
            out@ == sort_by_measure(bpms@.subrange(0, i as int)),
        decreases bpms.len() - i,
    {
        let x = bpms[i];
        assert(bpms@.subrange(0, i + 1).drop_last() =~= bpms@.subrange(0, i as int));
        let mut j = out.len();
        while j > 0 && out[j - 1].measure > x.measure
            invariant
                j <= out@.len(),
                forall|k: int| j <= k < out@.len() ==> out@[k].measure > x.measure,
            decreases j,
        {
            j = j - 1;
        }
        proof {
            lemma_insert_measure_at(out@, x, j as int);
        }
        out.insert(j, x);
        i = i + 1;
    }
    assert(bpms@.subrange(0, bpms@.len() as int) =~= bpms@);
    proof {
        lemma_sort_by_measure_len(bpms@);
    }
    out
}

// ---------------------------------------------------------------------------
// Copies
// ---------------------------------------------------------------------------

pub fn copy_points(v: &Vec<SlidePoint>) -> (r: Vec<SlidePoint>)
    ensures
        r@ == v@,
{
    let mut r: Vec<SlidePoint> = Vec::new();
    let mut i: usize = 0;
    while i < v.len()
        invariant
            i <= v@.len(),
            r@ == v@.subrange(0, i as int),
        decreases v.len() - i,
    {
        r.push(v[i]);
        i = i + 1;
        assert(r@ =~= v@.subrange(0, i as int));
    }
    assert(v@.subrange(0, v@.len() as int) =~= v@);
    r
}

pub fn copy_segments(v: &Vec<SlideSegment>) -> (r: Vec<SlideSegment>)
    ensures
        segments_view(r@) == segments_view(v@),
{
    let mut r: Vec<SlideSegment> = Vec::new();
    let mut i: usize = 0;
    while i < v.len()
        invariant
            i <= v@.len(),
            segments_view(r@) == segments_view(v@.subrange(0, i as int)),
        decreases v.len() - i,
    {
        let seg = SlideSegment { points: copy_points(&v[i].points), shape: v[i].shape };
        assert(seg@ == v@[i as int]@);
        let ghost before = r@;
        r.push(seg);
        assert(segments_view(r@) =~= segments_view(before).push(seg@));
        assert(v@.subrange(0, i + 1) =~= v@.subrange(0, i as int).push(v@[i as int]));
        i = i + 1;
        assert(segments_view(r@) =~= segments_view(v@.subrange(0, i as int)));
    }
    assert(v@.subrange(0, v@.len() as int) =~= v@);
    r
}

/// A copy of the slides with the same content.
pub fn copy_slides(v: &Vec<Slide>) -> (r: Vec<Slide>)
    ensures
        slides_view(r@) == slides_view(v@),
{
    let mut r: Vec<Slide> = Vec::new();
    let mut i: usize = 0;
    while i < v.len()
        invariant
            i <= v@.len(),
            slides_view(r@) == slides_view(v@.subrange(0, i as int)),
        decreases v.len() - i,
    {
        let sl = Slide {
            segments: copy_segments(&v[i].segments),
            slide_duration: v[i].slide_duration,
            slide_start_delay: v[i].slide_start_delay,
            slide_is_break: v[i].slide_is_break,
        };
        assert(sl@ == v@[i as int]@);
        let ghost before = r@;
        r.push(sl);
        assert(slides_view(r@) =~= slides_view(before).push(sl@));
        assert(v@.subrange(0, i + 1) =~= v@.subrange(0, i as int).push(v@[i as int]));
        i = i + 1;
        assert(slides_view(r@) =~= slides_view(v@.subrange(0, i as int)));
    }
    assert(v@.subrange(0, v@.len() as int) =~= v@);
    r
}

/// A copy of the tempo changes.
pub fn copy_bpm_changes(v: &Vec<BpmChange>) -> (r: Vec<BpmChange>)
    ensures
        r@ == v@,
{
    let mut r: Vec<BpmChange> = Vec::new();
    let mut i: usize = 0;
    while i < v.len()
        invariant
            i <= v@.len(),
            r@ == v@.subrange(0, i as int),
        decreases v.len() - i,
    {
        r.push(v[i]);
        i = i + 1;
        assert(r@ =~= v@.subrange(0, i as int));
    }
    assert(v@.subrange(0, v@.len() as int) =~= v@);
    r
}

/// `what` after `prefix`.
pub fn prefixed(prefix: &str, what: &String) -> (e: String)
    ensures
        e@ == prefix@ + what@,
{
    let mut e = String::from_str(prefix);
    e.append(what.as_str());
    e
}

/// `needle` occurs in `hay` starting at `i`.
pub open spec fn occurs_at(hay: Seq<char>, needle: Seq<char>, i: int) -> bool {
    0 <= i && i + needle.len() <= hay.len() && hay.subrange(i, i + needle.len()) == needle
}

/// `needle` occurs somewhere in `hay`.
pub open spec fn contains_text_spec(hay: Seq<char>, needle: Seq<char>) -> bool {
    exists|i: int| #[trigger] occurs_at(hay, needle, i)
}

/// Whether `needle` occurs in `hay`.
pub fn contains_text(hay: &str, needle: &str) -> (b: bool)
    ensures
        b == contains_text_spec(hay@, needle@),
{
    let h = hay.unicode_len();
    let n = needle.unicode_len();
    if n > h {
        assert forall|i: int| !#[trigger] occurs_at(hay@, needle@, i) by {}
        return false;
    }
    let mut i: usize = 0;
    while i <= h - n
        invariant
            h == hay@.len(),
            n == needle@.len(),
            n <= h,
            i <= h - n + 1,
            forall|k: int| 0 <= k < i ==> !#[trigger] occurs_at(hay@, needle@, k),
        decreases h - n + 1 - i,
    {
        let mut j: usize = 0;
        let mut same = true;
        while j < n
            invariant
                h == hay@.len(),
                n == needle@.len(),
                i + n <= h,
                j <= n,
                same <==> forall|k: int| 0 <= k < j ==> hay@[i + k] == needle@[k],
            decreases n - j,
        {
            if hay.get_char(i + j) != needle.get_char(j) {
                same = false;
            }
            j = j + 1;
        }
        if same {
            assert(hay@.subrange(i as int, i + n) =~= needle@);
            assert(occurs_at(hay@, needle@, i as int));
            return true;
        }
        assert(!occurs_at(hay@, needle@, i as int)) by {
            let k = choose|k: int| 0 <= k < n && hay@[i + k] != needle@[k];
            if occurs_at(hay@, needle@, i as int) {
                assert(hay@.subrange(i as int, i + n)[k] == hay@[i + k]);
            }
        }
        i = i + 1;
    }
    false
}

} // verus!
