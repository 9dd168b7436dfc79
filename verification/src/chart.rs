//! The built-in demo chart and the audio file picked for a chart folder.

use vstd::prelude::*;

use crate::model::{
    BpmChange, ChartDoc, Note, NoteType, NoteView, SegmentView, Slide, SlidePoint, SlideSegment,
    SlideShape, SlideView, notes_view, plain_note, QUANTA_PER_MEASURE,
};
use crate::simai_io::zone_points;
use crate::text::{eq_ignore_ascii_case, eq_ignore_ascii_case_spec};

verus! {

// ---------------------------------------------------------------------------
// Audio next to a chart
// ---------------------------------------------------------------------------

/// File names tried, in order, for the audio of a chart folder.
pub open spec fn audio_names() -> Seq<Seq<char>> {
    seq!["track.mp3"@, "track.wav"@, "demo.mp3"@, "demo.wav"@]
}

/// Number of audio file names tried.
pub const AUDIO_CANDIDATES: usize = 4;

/// The `i`-th audio file name tried for a chart folder.
pub fn audio_candidate(i: usize) -> (name: &'static str)
    requires
        i < AUDIO_CANDIDATES,
    ensures
        name@ == audio_names()[i as int],
{
    proof {
        reveal_strlit("track.mp3");
        reveal_strlit("track.wav");
        reveal_strlit("demo.mp3");
        reveal_strlit("demo.wav");
    }
    if i == 0 {
        "track.mp3"
    } else if i == 1 {
        "track.wav"
    } else if i == 2 {
        "demo.mp3"
    } else {
        "demo.wav"
    }
}

/// Which audio file to use for a chart folder: none when the path is not a
/// folder, else the first candidate (see [`audio_candidate`]) that is a file
/// there. `present[i]` tells whether candidate `i` is a file.
pub fn find_audio_in_dir(is_dir: bool, present: &Vec<bool>) -> (r: Option<usize>)
    ensures
        !is_dir ==> r is None,
        is_dir ==> match r {
            Some(i) => i < AUDIO_CANDIDATES && i < present@.len() && present@[i as int] && forall|k: int|
                0 <= k < i ==> !#[trigger] present@[k],
            None => forall|k: int| 0 <= k < AUDIO_CANDIDATES && k < present@.len() ==> !#[trigger] present@[k],
        },
{
    if !is_dir {
        return None;
    }
    let mut i: usize = 0;
    while i < AUDIO_CANDIDATES && i < present.len()
        invariant
            is_dir,
            i <= AUDIO_CANDIDATES,
            i <= present@.len(),
            forall|k: int| 0 <= k < i ==> !#[trigger] present@[k],
        decreases AUDIO_CANDIDATES - i,
    {
        if present[i] {
            return Some(i);
        }
        i = i + 1;
    }
    None
}

// ---------------------------------------------------------------------------
// The demo chart
// ---------------------------------------------------------------------------

/// One straight slide through `zones`, spanning `dur` after a `delay` wait.
pub open spec fn demo_slide(zones: Seq<u8>, dur: i64, delay: i64) -> Seq<SlideView> {
    seq![
        SlideView {
            segments: seq![SegmentView { points: zone_points(zones), shape: SlideShape::Line }],
            slide_duration: dur,
            slide_start_delay: delay,
            slide_is_break: false,
        },
    ]
}

pub open spec fn demo_slide_note(time: i64, lane: u8, zones: Seq<u8>, dur: i64, delay: i64, each: bool) -> NoteView {
    NoteView { is_each: each, slide: demo_slide(zones, dur, delay), ..plain_note(time, lane, NoteType::Slide) }
}

/// The notes of the demo chart (positions in quanta: 200000 is measure 2).
pub open spec fn fallback_notes() -> Seq<NoteView> {
    seq![
        plain_note(200000, 1, NoteType::Tap),
        plain_note(225000, 3, NoteType::Tap),
        plain_note(250000, 5, NoteType::Tap),
        plain_note(275000, 8, NoteType::Tap),
        plain_note(300000, 9, NoteType::Touch),
        NoteView { hold_duration: 50000, ..plain_note(350000, 6, NoteType::Hold) },
        demo_slide_note(500000, 1, seq![5u8], 50000, 6250, false),
        demo_slide_note(600000, 3, seq![7u8], 50000, 12500, false),
        demo_slide_note(700000, 1, seq![3u8, 5u8], 75000, 6250, false),
        demo_slide_note(850000, 2, seq![4u8, 6u8, 8u8], 100000, 25000, false),
        demo_slide_note(1000000, 1, seq![5u8], 50000, 12500, true),
        demo_slide_note(1000000, 5, seq![1u8], 50000, 12500, true),
    ]
}

fn mk_slide(pts: Vec<SlidePoint>, dur: i64, delay: i64) -> (r: Vec<Slide>)
    ensures
        crate::model::slides_view(r@) == seq![
            SlideView {
                segments: seq![SegmentView { points: pts@, shape: SlideShape::Line }],
                slide_duration: dur,
                slide_start_delay: delay,
                slide_is_break: false,
            },
        ],
{
    let mut segments: Vec<SlideSegment> = Vec::new();
    segments.push(SlideSegment { points: pts, shape: SlideShape::Line });
    let mut r: Vec<Slide> = Vec::new();
    r.push(Slide { segments, slide_duration: dur, slide_start_delay: delay, slide_is_break: false });
    assert(crate::model::segments_view(r@[0].segments@) =~= seq![r@[0].segments@[0]@]);
    assert(crate::model::slides_view(r@) =~= seq![r@[0]@]);
    r
}

fn demo_note(time: i64, lane: u8, zones: &Vec<u8>, dur: i64, delay: i64, each: bool) -> (n: Note)
    ensures
        n@ == demo_slide_note(time, lane, zones@, dur, delay, each),
{
    let mut pts: Vec<SlidePoint> = Vec::new();
    let mut i: usize = 0;
    while i < zones.len()
        invariant
            i <= zones@.len(),
            pts@ == zone_points(zones@.subrange(0, i as int)),
        decreases zones.len() - i,
    {
        pts.push(SlidePoint::at(zones[i]));
        i = i + 1;
        assert(pts@ =~= zone_points(zones@.subrange(0, i as int)));
    }
    assert(zones@.subrange(0, zones@.len() as int) =~= zones@);
    let mut n = Note::new(time, lane, NoteType::Slide);
    n.is_each = each;
    n.slide = mk_slide(pts, dur, delay);
    n
}

/// Built-in demo chart, used when no chart file parses: 180 beats per
/// minute from measure 1, four taps, a touch, a hold and six slides.
pub fn fallback_chart() -> (doc: ChartDoc)
    ensures
        doc.version@ == "0.3.0-measure"@,
        doc.title@ == "Fallback Demo Chart"@,
        doc.artist@ == Seq::<char>::empty(),
        doc.simai_level == 0,
        doc.bpm == 18000000,
        doc.bpms@ == seq![BpmChange { measure: QUANTA_PER_MEASURE, bpm: 18000000 }],
        doc.audio_offset == 0,
        notes_view(doc.notes@) == fallback_notes(),
{
    let mut notes: Vec<Note> = Vec::new();
    notes.push(Note::new(200000, 1, NoteType::Tap));
    notes.push(Note::new(225000, 3, NoteType::Tap));
    notes.push(Note::new(250000, 5, NoteType::Tap));
    notes.push(Note::new(275000, 8, NoteType::Tap));
    notes.push(Note::new(300000, 9, NoteType::Touch));
    let mut hold = Note::new(350000, 6, NoteType::Hold);
    hold.hold_duration = 50000;
    notes.push(hold);
    let z5 = vec![5u8];
    let z7 = vec![7u8];
    let z35 = vec![3u8, 5u8];
    let z468 = vec![4u8, 6u8, 8u8];
    let z1 = vec![1u8];
    assert(z5@ =~= seq![5u8]);
    assert(z7@ =~= seq![7u8]);
    assert(z35@ =~= seq![3u8, 5u8]);
    assert(z468@ =~= seq![4u8, 6u8, 8u8]);
    assert(z1@ =~= seq![1u8]);
    notes.push(demo_note(500000, 1, &z5, 50000, 6250, false));
    notes.push(demo_note(600000, 3, &z7, 50000, 12500, false));
    notes.push(demo_note(700000, 1, &z35, 75000, 6250, false));
    notes.push(demo_note(850000, 2, &z468, 100000, 25000, false));
    notes.push(demo_note(1000000, 1, &z5, 50000, 12500, true));
    notes.push(demo_note(1000000, 5, &z1, 50000, 12500, true));
    let mut bpms: Vec<BpmChange> = Vec::new();
    bpms.push(BpmChange { measure: QUANTA_PER_MEASURE, bpm: 18000000 });
    assert(bpms@ =~= seq![BpmChange { measure: QUANTA_PER_MEASURE, bpm: 18000000 }]);
    assert forall|k: int| 0 <= k < 6 implies notes@[k]@ == fallback_notes()[k] by {
        assert(notes@[k]@.slide =~= fallback_notes()[k].slide);
    }
    assert forall|k: int| 6 <= k < 12 implies notes@[k]@ == fallback_notes()[k] by {}
    assert(notes_view(notes@) =~= fallback_notes());
    ChartDoc {
        version: String::from_str("0.3.0-measure"),
        title: String::from_str("Fallback Demo Chart"),
        artist: String::new(),
        simai_level: 0,
        bpm: 18000000,
        bpms,
        audio_offset: 0,
        notes,
    }
}

// ---------------------------------------------------------------------------
// Chart files
// ---------------------------------------------------------------------------

/// The chart file read from a chart folder: its `maidata.txt` when there is
/// one, else its `chart.json`.
pub fn chart_file_name(maidata_is_file: bool) -> (name: &'static str)
    ensures
        maidata_is_file ==> name@ == "maidata.txt"@,
        !maidata_is_file ==> name@ == "chart.json"@,
{
    if maidata_is_file {
        "maidata.txt"
    } else {
        "chart.json"
    }
}

/// A chart file is Simai text when it is named `maidata.txt` or ends in
/// `.txt`, in any ASCII letter case.
pub open spec fn is_simai_file_spec(name: Option<Seq<char>>, ext: Option<Seq<char>>) -> bool {
    (name matches Some(n) && eq_ignore_ascii_case_spec(n, "maidata.txt"@)) || (ext matches Some(e)
        && eq_ignore_ascii_case_spec(e, "txt"@))
}

pub open spec fn opt_str(o: Option<&str>) -> Option<Seq<char>> {
    match o {
        Some(s) => Some(s@),
        None => None,
    }
}

/// Whether a chart file with this file name and extension is Simai text.
pub fn is_simai_file(name: Option<&str>, ext: Option<&str>) -> (b: bool)
    ensures
        b == is_simai_file_spec(opt_str(name), opt_str(ext)),
{
    let by_name = match name {
        Some(n) => eq_ignore_ascii_case(n, "maidata.txt"),
        None => false,
    };
    let by_ext = match ext {
        Some(e) => eq_ignore_ascii_case(e, "txt"),
        None => false,
    };
    by_name || by_ext
}

} // verus!
