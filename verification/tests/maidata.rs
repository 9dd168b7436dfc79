//! Each maidata file is given as the parser reads it: positions in quanta
//! (100000 per measure), buttons 0-based.

use lambda_dx::maidata::{convert, difficulty_order, drop_slide_star_taps, select_chart, sensor_lane};
use lambda_dx::model::{BpmChange, Note, NoteType};
use lambda_dx::simai_io::{SimaiChart, SimaiFile, SimaiNote, SlidePattern};

fn tap(measure: i64, button: u8) -> SimaiNote {
    SimaiNote::Tap { measure, button, is_break: false, is_ex: false, is_star: false, hi_speed: 100000 }
}

fn star(measure: i64, button: u8) -> SimaiNote {
    SimaiNote::Tap { measure, button, is_break: false, is_ex: false, is_star: true, hi_speed: 100000 }
}

fn slide(measure: i64, start: u8, end: u8, pattern: SlidePattern, duration: i64, delay: i64, explicit: bool) -> SimaiNote {
    SimaiNote::Slide {
        measure,
        start,
        end,
        pattern,
        reflect: None,
        duration,
        delay,
        delay_explicit: explicit,
        is_break: false,
        is_ex: false,
        is_tapless: false,
        chain: vec![],
        hi_speed: 100000,
    }
}

fn chart(notes: Vec<SimaiNote>) -> SimaiChart {
    SimaiChart { notes, bpms: vec![BpmChange { measure: 100000, bpm: 12000000 }] }
}

fn file(title: &str, artist: &str, levels: Vec<(u32, String)>, charts: Vec<(u32, SimaiChart)>) -> SimaiFile {
    SimaiFile {
        title: title.to_string(),
        artist: artist.to_string(),
        first: 0,
        levels,
        charts,
        wholebpm: None,
        source_text: String::new(),
    }
}

#[test]
fn simultaneous_notes_are_marked_each() {
    // `(120){4}1/2,3`: two taps at the same time (simai "each"); `3` alone is not.
    let f = file("T", "", vec![], vec![(1, chart(vec![tap(100000, 0), tap(100000, 1), tap(125000, 2)]))]);
    let c = convert(f, None, &vec![]);
    let each: Vec<bool> = c.notes.iter().filter(|n| n.note_type == NoteType::Tap).map(|n| n.is_each).collect();
    assert_eq!(each, vec![true, true, false]);
}

#[test]
fn parses_minimal_maidata() {
    // `&lv_2=3`, `(120){4}1,2,1h[4:1],1-5[8:1],E`
    let notes = vec![
        tap(100000, 0),
        tap(125000, 1),
        SimaiNote::Hold { measure: 150000, button: 0, duration: 25000, is_ex: false, hi_speed: 100000 },
        star(175000, 0),
        slide(175000, 0, 4, SlidePattern::Line, 12500, 0, false),
    ];
    let f = file("Demo", "Me", vec![(2, "3".to_string())], vec![(2, chart(notes))]);
    let c = convert(f, None, &vec![3]);
    assert_eq!(c.title, "Demo");
    assert_eq!(c.artist, "Me");
    assert_eq!(c.notes.len(), 4);
    assert!(c.notes.iter().any(|n| n.note_type == NoteType::Hold));
    let slide = c.notes.iter().find(|n| n.note_type == NoteType::Slide).expect("slide");
    assert!(!slide.slide.is_empty());
    // Default one-beat wait + 1/8 measure travel.
    let sl = &slide.slide[0];
    assert_eq!(sl.slide_start_delay, 25000, "delay {}", sl.slide_start_delay);
    assert_eq!(sl.slide_duration, 25000 + 12500);
    assert_eq!(c.simai_level, 3);
}

#[test]
fn explicit_slide_delay_overrides_default() {
    // `1-5[0.2##0.8]` at 120: 0.1 measure wait, 0.4 measure travel.
    let notes = vec![star(100000, 0), slide(100000, 0, 4, SlidePattern::Line, 40000, 10000, true)];
    let c = convert(file("D", "", vec![], vec![(2, chart(notes))]), None, &vec![]);
    let sl = &c.notes.iter().find(|n| n.slide.len() == 1).unwrap().slide[0];
    assert_eq!(sl.slide_start_delay, 10000);
    assert_eq!(sl.slide_duration, 50000);
}

#[test]
fn zero_explicit_delay_is_kept() {
    // `4<6[0##0.24]` = left arc 4->6, no wait, 0.12 measure travel.
    let notes = vec![star(100000, 3), slide(100000, 3, 5, SlidePattern::Left, 12000, 0, true)];
    let c = convert(file("D", "", vec![], vec![(2, chart(notes))]), None, &vec![]);
    let n = c.notes.iter().find(|n| n.note_type == NoteType::Slide).expect("slide");
    assert_eq!(n.lane, 4);
    let sl = &n.slide[0];
    assert_eq!(sl.slide_start_delay, 0, "delay {}", sl.slide_start_delay);
    assert_eq!(sl.slide_duration, 12000, "dur {}", sl.slide_duration);
}

#[test]
fn diff_selects_by_position() {
    let make = || {
        file(
            "D",
            "",
            vec![],
            vec![
                (2, chart(vec![tap(100000, 0)])),
                (5, chart(vec![tap(100000, 0), tap(125000, 1), tap(150000, 2)])),
            ],
        )
    };
    let easy = convert(make(), Some(1), &vec![]);
    let hard = convert(make(), None, &vec![]);
    assert_eq!(easy.notes.len(), 1);
    assert_eq!(hard.notes.len(), 3);
}

#[test]
fn chart_order_and_selection() {
    let charts = vec![(5, chart(vec![])), (2, chart(vec![])), (9, chart(vec![])), (2, chart(vec![]))];
    let order = difficulty_order(&charts);
    assert_eq!(order, vec![1, 3, 0, 2]);
    assert_eq!(select_chart(&order, Some(1)), 1);
    assert_eq!(select_chart(&order, Some(3)), 0);
    assert_eq!(select_chart(&order, Some(99)), 2);
    assert_eq!(select_chart(&order, Some(0)), 2);
    assert_eq!(select_chart(&order, None), 2);
    assert_eq!(select_chart(&vec![], Some(2)), 0);
}

#[test]
fn sensor_lanes() {
    assert_eq!(sensor_lane('A', 0), Some(1));
    assert_eq!(sensor_lane('B', 7), Some(16));
    assert_eq!(sensor_lane('C', 5), Some(17));
    assert_eq!(sensor_lane('D', 2), Some(20));
    assert_eq!(sensor_lane('E', 7), Some(33));
    assert_eq!(sensor_lane('E', 8), None);
    assert_eq!(sensor_lane('F', 0), None);
}

#[test]
fn star_taps_heading_a_slide_are_dropped() {
    let mut st = Note::new(100000, 1, NoteType::Tap);
    st.is_star = true;
    let mut lone = Note::new(200000, 1, NoteType::Tap);
    lone.is_star = true;
    let mut notes = vec![st, Note::new(100000, 1, NoteType::Slide), lone, Note::new(100000, 1, NoteType::Tap)];
    drop_slide_star_taps(&mut notes);
    let kept: Vec<(i64, NoteType, bool)> = notes.iter().map(|n| (n.time, n.note_type, n.is_star)).collect();
    assert_eq!(
        kept,
        vec![(100000, NoteType::Slide, false), (200000, NoteType::Tap, true), (100000, NoteType::Tap, false)]
    );
}

#[test]
fn touch_notes_and_chained_slides() {
    let notes = vec![
        SimaiNote::TouchTap { measure: 100000, region: 'B', position: 2, is_firework: false, hi_speed: 150000 },
        SimaiNote::TouchHold { measure: 120000, region: 'E', position: 9, duration: 5, is_firework: true, hi_speed: 1 },
        SimaiNote::Slide {
            measure: 140000,
            start: 0,
            end: 4,
            pattern: SlidePattern::BigV,
            reflect: Some(2),
            duration: 50000,
            delay: 0,
            delay_explicit: false,
            is_break: true,
            is_ex: false,
            is_tapless: false,
            chain: vec![(SlidePattern::LowerV, 6, None, false), (SlidePattern::Line, 1, None, true)],
            hi_speed: 100000,
        },
    ];
    let c = convert(file("T", "", vec![], vec![(0, chart(notes))]), None, &vec![]);
    assert_eq!(c.version, "simai-1");
    assert_eq!(c.notes.len(), 2, "the touch hold on E9 has no zone");
    assert_eq!(c.notes[0].lane, 11);
    assert_eq!(c.notes[0].hi_speed, 150000);
    let s = &c.notes[1];
    assert_eq!(s.slide.len(), 2);
    let zones: Vec<Vec<u8>> = s.slide[0].segments.iter().map(|g| g.points.iter().map(|p| p.zone.id).collect()).collect();
    assert_eq!(zones, vec![vec![3, 5], vec![17, 7]]);
    assert_eq!(s.slide[1].segments.len(), 1);
    assert_eq!(s.slide[1].segments[0].points[0].zone.id, 2);
    assert_eq!(s.slide[0].slide_duration, 75000);
    assert!(s.slide[1].slide_is_break);
}
