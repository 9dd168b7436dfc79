use lambda_dx::chart::fallback_chart;
use lambda_dx::model::{BpmChange, Note, NoteType, SlidePoint, SlideSegment, SlideShape, Slide};
use lambda_dx::simai_export::chart_doc_to_simai_chart;
use lambda_dx::simai_io::{a_to_b, ring_ccw, ring_ccw_full, ring_cw, ring_cw_full, s_curve_waypoints, wrap8};
use lambda_dx::simai_io::{
    gcd_u32, lane_to_touch, lcm_u32, select_chart_level, shape_to_simai_pattern, simai_chart_to_chart_doc,
    simai_pattern_to_points, simai_pattern_to_shape, tag_each_notes, touch_to_lane, SimaiChart, SimaiFile,
    SimaiNote, SlidePattern,
};

fn file(levels: Vec<u32>, charts: Vec<u32>) -> SimaiFile {
    SimaiFile {
        title: String::new(),
        artist: String::new(),
        first: 0,
        levels: levels.into_iter().map(|l| (l, format!("Lv.{l}"))).collect(),
        charts: charts.into_iter().map(|l| (l, SimaiChart { notes: vec![], bpms: vec![] })).collect(),
        wholebpm: None,
        source_text: String::new(),
    }
}

#[test]
fn level_selection() {
    assert_eq!(select_chart_level(&file(vec![2, 5], vec![]), None), Ok(5));
    assert_eq!(select_chart_level(&file(vec![2, 5], vec![7]), Some(2)), Ok(2));
    assert_eq!(select_chart_level(&file(vec![2, 5], vec![7]), Some(3)), Ok(7));
    assert_eq!(
        select_chart_level(&file(vec![], vec![]), Some(3)),
        Err("Simai file contains no &inote_N= charts".to_string())
    );
}

#[test]
fn patterns_shapes_and_points() {
    for p in [SlidePattern::Line, SlidePattern::BigV, SlidePattern::LowerV, SlidePattern::QQ, SlidePattern::Wifi] {
        assert_eq!(shape_to_simai_pattern(Some(simai_pattern_to_shape(p))), p);
    }
    assert_eq!(shape_to_simai_pattern(None), SlidePattern::Line);
    assert_eq!(SlidePattern::BigV.as_str(), "V");
    let pts: Vec<u8> = simai_pattern_to_points(0, 4, SlidePattern::BigV, Some(2)).iter().map(|p| p.zone.id).collect();
    assert_eq!(pts, vec![3, 5]);
    let pts: Vec<u8> = simai_pattern_to_points(0, 4, SlidePattern::LowerV, None).iter().map(|p| p.zone.id).collect();
    assert_eq!(pts, vec![17, 5]);
}

#[test]
fn touch_lanes_round_trip() {
    for lane in 1..=33u8 {
        let (r, p) = lane_to_touch(lane);
        assert_eq!(touch_to_lane(r, p), Some(lane));
    }
    assert_eq!(lane_to_touch(40), ('A', 0));
    assert_eq!(touch_to_lane('Z', 0), None);
}

#[test]
fn gcd_and_lcm() {
    assert_eq!(gcd_u32(12, 18), 6);
    assert_eq!(gcd_u32(7, 0), 7);
    assert_eq!(lcm_u32(4, 6), 12);
}

#[test]
fn shared_positions_are_each() {
    let mut notes = vec![
        Note::new(100000, 1, NoteType::Tap),
        Note::new(100000, 2, NoteType::Slide),
        Note::new(100001, 3, NoteType::Tap),
    ];
    tag_each_notes(&mut notes);
    assert!(notes[0].is_each && notes[1].is_each && !notes[2].is_each);
}

#[test]
fn simai_chart_import() {
    let chart = SimaiChart {
        notes: vec![
            SimaiNote::Tap { measure: 125000, button: 1, is_break: false, is_ex: false, is_star: false, hi_speed: 100000 },
            SimaiNote::Tap { measure: 100000, button: 0, is_break: true, is_ex: true, is_star: true, hi_speed: 100000 },
            SimaiNote::Slide {
                measure: 100000,
                start: 0,
                end: 4,
                pattern: SlidePattern::Line,
                reflect: None,
                duration: 12500,
                delay: 25000,
                delay_explicit: true,
                is_break: false,
                is_ex: false,
                is_tapless: false,
                chain: vec![],
                hi_speed: 100000,
            },
        ],
        bpms: vec![BpmChange { measure: 300000, bpm: 15000000 }],
    };
    let doc = simai_chart_to_chart_doc(&chart);
    assert_eq!(doc.version, "0.3.0-measure");
    assert_eq!(doc.bpm, 15000000);
    assert_eq!(doc.bpms.len(), 2, "a tempo at measure 1 is added");
    assert_eq!(doc.bpms[0].measure, 100000);
    assert_eq!(doc.notes.len(), 2, "the star tap heading the slide goes");
    assert_eq!(doc.notes[0].note_type, NoteType::Slide);
    assert!(doc.notes[0].is_break && doc.notes[0].is_ex, "the slide takes the star's flags");
    assert_eq!(doc.notes[0].slide[0].slide_duration, 37500);
    assert_eq!(doc.notes[0].slide[0].slide_start_delay, 25000);
    assert_eq!(doc.notes[1].time, 125000);
}

fn slide_track(shape: SlideShape, zones: &[u8], dur: i64, delay: i64) -> Slide {
    Slide {
        segments: vec![SlideSegment { points: zones.iter().map(|&z| SlidePoint::at(z)).collect(), shape }],
        slide_duration: dur,
        slide_start_delay: delay,
        slide_is_break: false,
    }
}

#[test]
fn chart_export() {
    let mut doc = fallback_chart();
    doc.bpms.clear();
    doc.bpm = 0;
    let mut extra = Note::new(1000000, 1, NoteType::Slide);
    extra.slide = vec![slide_track(SlideShape::BigV, &[3, 6], 1000, 0)];
    doc.notes.push(extra);
    let chart = chart_doc_to_simai_chart(&doc);
    assert_eq!(chart.bpms, vec![BpmChange { measure: 100000, bpm: 12000000 }]);
    // 4 taps, a touch, a hold, then a star and a slide for each slide note,
    // with one star for the two slides at measure 10 on lane 1.
    let stars = chart.notes.iter().filter(|n| matches!(n, SimaiNote::Tap { is_star: true, .. })).count();
    assert_eq!(stars, 6);
    assert_eq!(chart.notes.len(), 6 + 6 + 7);
    match &chart.notes[4] {
        SimaiNote::TouchTap { region, position, hi_speed, .. } => {
            assert_eq!((*region, *position, *hi_speed), ('B', 0, 100000));
        },
        other => panic!("expected a touch, got {other:?}"),
    }
    match chart.notes.last().unwrap() {
        SimaiNote::Slide { pattern, end, reflect, duration, delay, .. } => {
            assert_eq!(*pattern, SlidePattern::BigV);
            assert_eq!((*reflect, *end), (Some(2), 5));
            assert_eq!((*duration, *delay), (5000, 0), "travel is at least 1/20 measure");
        },
        other => panic!("expected a slide, got {other:?}"),
    }
}

#[test]
fn exported_slides_import_back() {
    // A V through zone 3 to zone 6, then a straight arc to 2: the importer
    // gives the same track back, with its span and wait.
    let track = Slide {
        segments: vec![
            SlideSegment { points: vec![SlidePoint::at(3), SlidePoint::at(6)], shape: SlideShape::BigV },
            SlideSegment { points: vec![SlidePoint::at(2)], shape: SlideShape::Line },
        ],
        slide_duration: 60000,
        slide_start_delay: 25000,
        slide_is_break: true,
    };
    let mut n = Note::new(300000, 1, NoteType::Slide);
    n.slide = vec![track.clone()];
    let mut doc = fallback_chart();
    doc.notes = vec![n];
    let chart = chart_doc_to_simai_chart(&doc);
    let back = simai_chart_to_chart_doc(&chart);
    assert_eq!(back.notes.len(), 1);
    let got = &back.notes[0].slide;
    assert_eq!(got.len(), 1);
    assert_eq!(got[0].slide_duration, track.slide_duration);
    assert_eq!(got[0].slide_start_delay, track.slide_start_delay);
    assert_eq!(got[0].slide_is_break, track.slide_is_break);
    assert_eq!(got[0].segments.len(), 2);
    for (a, b) in got[0].segments.iter().zip(track.segments.iter()) {
        assert_eq!(a.shape, b.shape);
        let za: Vec<u8> = a.points.iter().map(|p| p.zone.id).collect();
        let zb: Vec<u8> = b.points.iter().map(|p| p.zone.id).collect();
        assert_eq!(za, zb);
    }
}

#[test]
fn exported_slide_note_imports_back_with_its_flags() {
    // A short track: 0.1 measure in all, 0.08 of it waiting, so the export
    // travels the shortest 1/20 measure and the span comes back as 0.13.
    let track = Slide {
        segments: vec![SlideSegment { points: vec![SlidePoint::at(5)], shape: SlideShape::Line }],
        slide_duration: 10000,
        slide_start_delay: 8000,
        slide_is_break: false,
    };
    let mut n = Note::new(250000, 3, NoteType::Slide);
    n.slide = vec![track.clone()];
    n.is_break = true;
    n.is_ex = true;
    n.is_tapless = true;
    let mut doc = fallback_chart();
    doc.notes = vec![n];
    let back = simai_chart_to_chart_doc(&chart_doc_to_simai_chart(&doc));
    assert_eq!(back.notes.len(), 1);
    let m = &back.notes[0];
    assert_eq!((m.note_type, m.time, m.lane), (NoteType::Slide, 250000, 3));
    assert!(m.is_break && m.is_ex && m.is_tapless);
    assert_eq!(m.slide.len(), 1);
    assert_eq!(m.slide[0].slide_start_delay, 8000);
    assert_eq!(m.slide[0].slide_duration, 13000);
    assert_eq!(m.slide[0].segments.len(), 1);
    assert_eq!(m.slide[0].segments[0].shape, SlideShape::Line);
    assert_eq!(m.slide[0].segments[0].points[0].zone.id, 5);
}

#[test]
fn chart_as_a_simai_file() {
    let mut doc = fallback_chart();
    doc.simai_level = 0;
    let f = lambda_dx::simai_export::chart_doc_to_simai_file(&doc);
    assert_eq!(f.levels, vec![(6, "?".to_string())]);
    assert_eq!(f.charts.len(), 1);
    assert_eq!(f.charts[0].0, 6);
    assert_eq!(f.wholebpm, Some(18000000));
    assert_eq!(f.title, "Fallback Demo Chart");
    assert!(f.source_text.is_empty());
}

#[test]
fn ring_walks() {
    assert_eq!(ring_cw(7, 2), vec![8, 1, 2]);
    assert_eq!(ring_ccw(2, 7), vec![1, 8, 7]);
    assert_eq!(ring_cw(3, 3), vec![4, 5, 6, 7, 8, 1, 2, 3]);
    assert_eq!(ring_cw(3, 9), vec![4, 5, 6, 7, 8, 1, 2, 3]);
    assert_eq!(ring_cw_full(8), vec![1, 2, 3, 4, 5, 6, 7, 8]);
    assert_eq!(ring_ccw_full(1), vec![8, 7, 6, 5, 4, 3, 2, 1]);
    assert_eq!(wrap8(0), 8);
    assert_eq!(wrap8(-8), 8);
    assert_eq!(wrap8(10), 2);
    assert_eq!(a_to_b(3), 11);
    // 1 to 5 clockwise is four steps: out two, through C, back two.
    assert_eq!(s_curve_waypoints(1, 5, false), vec![11, 17, 11, 5]);
    assert_eq!(s_curve_waypoints(1, 5, true), vec![15, 17, 15, 5]);
}
