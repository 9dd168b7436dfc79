use lambda_dx::maichart::{
    assign_note_ids, convert, duration_of, mark_double_stars, measure_of, quanta_length, quanta_position, recompute_each,
    select_difficulty, shape_of, BpmKeyframe, KeyframeList, MaiChart, MaiDifficulty, MaiHold,
    MaiSlide, MaiSlideFragment, MaiSlidePart, MaiTap, MaiTouch, MaiTouchHold, TimePoint,
};
use lambda_dx::model::{Note, NoteType, SlideShape};

fn tp(split: i32, beat: i32) -> TimePoint {
    TimePoint { split, beat }
}

fn kind(s: &str) -> String {
    s.to_string()
}

fn value(r: (i64, i64)) -> f64 {
    r.0 as f64 / r.1 as f64
}

#[test]
fn mixed_radix_position_and_duration() {
    // Absolute: {4,0} is the first beat, {8,43} is 1 + 43/8.
    assert!((value(measure_of(tp(4, 0))) - 1.0).abs() < 1e-6);
    assert!((value(measure_of(tp(8, 43))) - (1.0 + 43.0 / 8.0)).abs() < 1e-6);
    // Durations in measures: 5/4, 17/8, 1/2 and one beat.
    assert!((value(duration_of(tp(4, 5))) - 5.0 / 4.0).abs() < 1e-6);
    assert!((value(duration_of(tp(8, 17))) - 17.0 / 8.0).abs() < 1e-6);
    assert!((value(duration_of(tp(2, 1))) - 0.5).abs() < 1e-6);
    assert!((value(duration_of(tp(4, 1))) - 0.25).abs() < 1e-6);
    // A duration is a position without the +1.
    let t = tp(8, 43);
    assert!((value(duration_of(t)) - (value(measure_of(t)) - 1.0)).abs() < 1e-6);
}

#[test]
fn shape_mapping() {
    assert_eq!(shape_of(&kind("-"), false), SlideShape::Line);
    assert_eq!(shape_of(&kind("<"), false), SlideShape::Left);
    assert_eq!(shape_of(&kind(">"), false), SlideShape::Right);
    assert_eq!(shape_of(&kind("q"), false), SlideShape::Q);
    assert_eq!(shape_of(&kind("p"), false), SlideShape::P);
    assert_eq!(shape_of(&kind("s"), false), SlideShape::S);
    assert_eq!(shape_of(&kind("z"), false), SlideShape::Z);
    assert_eq!(shape_of(&kind("v"), false), SlideShape::VShape);
    assert_eq!(shape_of(&kind("anything"), true), SlideShape::Wifi);
}

#[test]
fn shape_mapping_of_other_kinds() {
    assert_eq!(shape_of(&kind(""), false), SlideShape::Line);
    assert_eq!(shape_of(&kind("^"), false), SlideShape::Caret);
    assert_eq!(shape_of(&kind("V"), false), SlideShape::VShape);
    assert_eq!(shape_of(&kind("pp"), false), SlideShape::PP);
    assert_eq!(shape_of(&kind("qq"), false), SlideShape::QQ);
    assert_eq!(shape_of(&kind("w"), false), SlideShape::Wifi);
    assert_eq!(shape_of(&kind("x"), false), SlideShape::Line);
}

#[test]
fn positions_with_no_split() {
    assert_eq!(measure_of(tp(0, 7)), (1, 1));
    assert_eq!(duration_of(tp(-3, 7)), (0, 1));
    assert_eq!(quanta_position(tp(0, 7)), 100000);
    assert_eq!(quanta_length(tp(-3, 7)), 0);
}

#[test]
fn exact_thirds_and_their_grid_steps() {
    // The exact values keep thirds; the chart grid takes the nearest step,
    // halves away from zero.
    assert_eq!(duration_of(tp(3, 1)), (1, 3));
    assert_eq!(measure_of(tp(3, 1)), (4, 3));
    assert_eq!(quanta_length(tp(3, 1)), 33333);
    assert_eq!(quanta_length(tp(3, 2)), 66667);
    assert_eq!(quanta_length(tp(3, -2)), -66667);
    assert_eq!(quanta_position(tp(8, 43)), 637500);
    assert_eq!(quanta_position(tp(8, 413)), 5262500);
    assert_eq!(quanta_length(tp(8, 17)), 212500);
}

fn slide_note(id: u64, time: i64, lane: u8) -> Note {
    let mut n = Note::new(time, lane, NoteType::Slide);
    n.id = id;
    n
}

#[test]
fn shared_head_marks_double_star() {
    let mut notes = vec![slide_note(1, 500000, 1), slide_note(2, 500000, 1), slide_note(3, 500000, 2)];
    mark_double_stars(&mut notes);
    assert!(notes[0].is_star && notes[1].is_star);
    assert!(!notes[2].is_star);
}

#[test]
fn double_star_leaves_other_notes_alone() {
    let mut tap = Note::new(500000, 1, NoteType::Tap);
    tap.is_star = true;
    let mut notes = vec![tap, slide_note(2, 500000, 1)];
    mark_double_stars(&mut notes);
    assert!(notes[0].is_star, "a tap keeps its flag");
    assert!(!notes[1].is_star, "a slide alone at its head is single");
}

fn note(kind: NoteType, time: i64) -> Note {
    Note::new(time, 1, kind)
}

#[test]
fn slide_each_requires_another_slide() {
    // A slide sharing its time with a tap is *not* an each slide; two slides
    // at the same time are.
    let mut notes = vec![
        note(NoteType::Tap, 500000),
        note(NoteType::Slide, 500000),
        note(NoteType::Slide, 600000),
        note(NoteType::Slide, 600000),
    ];
    recompute_each(&mut notes);
    assert!(!notes[0].is_each, "lone tap");
    assert!(!notes[1].is_each, "slide must not inherit the tap's each");
    assert!(notes[2].is_each && notes[3].is_each, "slide/slide each");
}

#[test]
fn slide_each_ignores_coincident_tap() {
    // A lone slide sharing a time with a lone tap: neither is each, but the
    // slide head follows the tap rule and lights up as each.
    let mut notes = vec![note(NoteType::Tap, 500000), note(NoteType::Slide, 500000)];
    recompute_each(&mut notes);
    assert!(!notes[0].is_each);
    assert!(!notes[1].is_each);
    assert!(notes[1].is_each_head, "slide head follows the tap each rule");
}

#[test]
fn each_window_is_two_thousandths_of_a_measure() {
    let mut notes = vec![
        note(NoteType::Tap, 100000),
        note(NoteType::Tap, 100199),
        note(NoteType::Tap, 200000),
        note(NoteType::Tap, 200200),
    ];
    recompute_each(&mut notes);
    assert!(notes[0].is_each && notes[1].is_each);
    assert!(!notes[2].is_each && !notes[3].is_each);
}

#[test]
fn assign_note_ids_makes_zero_ids_unique() {
    let mut notes = vec![
        note(NoteType::Tap, 100000),
        note(NoteType::Tap, 200000),
        note(NoteType::Slide, 300000),
    ];
    assert!(notes.iter().all(|n| n.id == 0));
    assign_note_ids(&mut notes);
    let ids: Vec<u64> = notes.iter().map(|n| n.id).collect();
    assert!(ids.iter().all(|&id| id != 0));
    let mut unique = ids.clone();
    unique.sort_unstable();
    unique.dedup();
    assert_eq!(unique.len(), ids.len());
    // Existing non-zero ids are preserved.
    let mut n = note(NoteType::Tap, 100000);
    n.id = 42;
    let mut notes = vec![n];
    assign_note_ids(&mut notes);
    assert_eq!(notes[0].id, 42);
}

#[test]
fn new_ids_follow_the_largest() {
    let mut a = note(NoteType::Tap, 100000);
    a.id = 7;
    let mut notes = vec![note(NoteType::Tap, 100000), a, note(NoteType::Tap, 100000)];
    assign_note_ids(&mut notes);
    let ids: Vec<u64> = notes.iter().map(|n| n.id).collect();
    assert_eq!(ids, vec![8, 7, 9]);
}

#[test]
fn repeated_ids_get_fresh_ones() {
    let mut notes: Vec<Note> = [5u64, 5, 0, 5, 9]
        .iter()
        .map(|&id| {
            let mut n = note(NoteType::Tap, 100000);
            n.id = id;
            n
        })
        .collect();
    assign_note_ids(&mut notes);
    let ids: Vec<u64> = notes.iter().map(|n| n.id).collect();
    assert_eq!(ids, vec![5, 10, 11, 12, 9]);
}

fn difficulty(number: i32, level: u32, taps: Vec<MaiTap>) -> MaiDifficulty {
    MaiDifficulty {
        difficulty: number,
        level,
        bpm_list: KeyframeList { keyframes: vec![] },
        taps,
        holds: vec![],
        touches: vec![],
        touch_holds: vec![],
        slides: vec![],
    }
}

fn tap(split: i32, beat: i32, button: i32) -> MaiTap {
    MaiTap { hit_time: tp(split, beat), button, is_break: false, is_ex: false, to_star: false }
}

#[test]
fn difficulty_selection() {
    let ds = vec![difficulty(2, 5, vec![]), difficulty(5, 13, vec![]), difficulty(3, 8, vec![]), difficulty(5, 14, vec![])];
    assert_eq!(select_difficulty(&ds, None), 1, "first of the hardest");
    assert_eq!(select_difficulty(&ds, Some(3)), 2);
    assert_eq!(select_difficulty(&ds, Some(5)), 1);
    assert_eq!(select_difficulty(&ds, Some(9)), 1, "unknown number falls back to the hardest");
    assert_eq!(select_difficulty(&vec![], Some(1)), 0);
}

#[test]
fn converts_a_small_chart() {
    let mut hard = difficulty(4, 12, vec![tap(4, 4, 3), tap(4, 0, 1), tap(4, 0, 9)]);
    hard.bpm_list = KeyframeList {
        keyframes: vec![
            BpmKeyframe { time: tp(1, 4), bpm: 15000000 },
            BpmKeyframe { time: tp(4, 0), bpm: 21000000 },
        ],
    };
    hard.holds = vec![MaiHold {
        hit_time: tp(4, 0),
        button: 2,
        hold_time: tp(2, 1),
        is_break: false,
        is_ex: true,
        to_star: false,
    }];
    hard.touches = vec![MaiTouch { hit_time: tp(4, 2), button: 3, is_break: false, is_ex: false }];
    hard.touch_holds = vec![MaiTouchHold {
        hit_time: tp(4, 3),
        button: 8,
        hold_time: tp(4, 1),
        is_break: false,
        is_ex: false,
    }];
    hard.slides = vec![MaiSlide {
        hit_time: tp(4, 1),
        button: 1,
        parts: vec![MaiSlidePart {
            prepare_time: tp(4, 1),
            move_time: tp(8, 3),
            is_wifi: false,
            fragments: vec![
                MaiSlideFragment { kind: kind("-"), middle_button: 0, end_button: 5 },
                MaiSlideFragment { kind: kind("v"), middle_button: 0, end_button: 0 },
            ],
        }],
        is_break: true,
        is_ex: false,
        to_star: false,
        hind_head: true,
    }];
    let easy = difficulty(1, 3, vec![tap(4, 0, 1)]);
    let mai = MaiChart {
        song_name: "Song".to_string(),
        composer: "Someone".to_string(),
        offset: 12345,
        notes: vec![easy, hard],
    };
    let doc = convert(mai, None);
    assert_eq!(doc.version, "maichart-1");
    assert_eq!(doc.title, "Song");
    assert_eq!(doc.artist, "Someone");
    assert_eq!(doc.simai_level, 12);
    assert_eq!(doc.audio_offset, 12345);
    // Tempo changes in position order; the chart tempo is the first.
    assert_eq!(doc.bpms.len(), 2);
    assert_eq!(doc.bpms[0].measure, 100000);
    assert_eq!(doc.bpms[0].bpm, 21000000);
    assert_eq!(doc.bpms[1].measure, 500000);
    assert_eq!(doc.bpm, 21000000);
    // Button 9 is not a ring button and is skipped.
    let kinds: Vec<(i64, u8, NoteType)> = doc.notes.iter().map(|n| (n.time, n.lane, n.note_type)).collect();
    assert_eq!(
        kinds,
        vec![
            (100000, 1, NoteType::Tap),
            (100000, 2, NoteType::Hold),
            (125000, 1, NoteType::Slide),
            (150000, 11, NoteType::Touch),
            (175000, 16, NoteType::Hold),
            (200000, 3, NoteType::Tap),
        ]
    );
    // The tap and the hold at measure 1 sound together.
    assert!(doc.notes[0].is_each && doc.notes[1].is_each);
    assert!(!doc.notes[5].is_each);
    assert_eq!(doc.notes[1].hold_duration, 50000);
    assert!(doc.notes[1].is_ex);
    assert_eq!(doc.notes[4].hold_duration, 25000);
    let slide = &doc.notes[2];
    assert!(slide.is_break && slide.is_tapless && !slide.is_star);
    assert_eq!(slide.slide.len(), 1);
    assert_eq!(slide.slide[0].slide_start_delay, 25000);
    assert_eq!(slide.slide[0].slide_duration, 62500);
    assert!(slide.slide[0].slide_is_break);
    // The second fragment has no waypoint and makes no segment.
    assert_eq!(slide.slide[0].segments.len(), 1);
    assert_eq!(slide.slide[0].segments[0].points.len(), 1);
    assert_eq!(slide.slide[0].segments[0].points[0].zone.id, 5);
}

#[test]
fn explicit_difficulty_and_default_tempo() {
    let mai = MaiChart {
        song_name: "S".to_string(),
        composer: String::new(),
        offset: 0,
        notes: vec![difficulty(1, 3, vec![tap(4, 0, 1)]), difficulty(4, 12, vec![])],
    };
    let doc = convert(mai, Some(1));
    assert_eq!(doc.simai_level, 3);
    assert_eq!(doc.notes.len(), 1);
    assert_eq!(doc.bpms.len(), 1);
    assert_eq!(doc.bpms[0].measure, 100000);
    assert_eq!(doc.bpm, 12000000);
}
