use lambda_dx::beat_format::{
    beat_pos_to_measure, chart_to_ser, default_division, duration_to_fraction, fraction_to_duration,
    measure_to_beat_pos, note_to_ser, ser_to_chart, ser_to_note,
};
use lambda_dx::chart::fallback_chart;
use lambda_dx::model::{Note, NoteType};

#[test]
fn positions_in_beats() {
    assert_eq!(measure_to_beat_pos(100000), (1, 1, 1, 0));
    assert_eq!(measure_to_beat_pos(125000), (1, 2, 1, 0));
    // An eighth after beat 3 of measure 2.
    assert_eq!(measure_to_beat_pos(262500), (2, 3, 2, 1));
    // Before measure 1.
    assert_eq!(measure_to_beat_pos(75000), (0, 4, 1, 0));
    assert_eq!(beat_pos_to_measure(2, 3, 2, 1), 262500);
    assert_eq!(beat_pos_to_measure(0, 4, 1, 0), 75000);
    assert_eq!(default_division(), 1);
}

#[test]
fn durations_in_beats() {
    assert_eq!(duration_to_fraction(0), [0, 1]);
    assert_eq!(duration_to_fraction(25000), [1, 1]);
    assert_eq!(duration_to_fraction(50000), [2, 1]);
    assert_eq!(duration_to_fraction(12500), [1, 2]);
    assert_eq!(fraction_to_duration([1, 2]), 12500);
    assert_eq!(fraction_to_duration([3, 1]), 75000);
    assert_eq!(fraction_to_duration([5, 0]), 0);
}

#[test]
fn notes_save_and_load() {
    let mut n = Note::new(262500, 4, NoteType::Hold);
    n.hold_duration = 50000;
    n.is_break = true;
    n.hi_speed = 200000;
    let s = note_to_ser(&n);
    assert_eq!((s.measure, s.beat, s.division, s.offset), (2, 3, 2, 1));
    assert_eq!(s.hold_duration, Some([2, 1]));
    assert!(s.is_break);
    let back = ser_to_note(&s);
    assert_eq!(back.time, 262500);
    assert_eq!(back.hold_duration, 50000);
    assert_eq!(back.lane, 4);
    assert!(back.is_break);
    assert_eq!(back.hi_speed, 0, "speed is not saved");
    let again = note_to_ser(&back);
    assert_eq!((again.measure, again.beat, again.division, again.offset), (2, 3, 2, 1));
    assert_eq!(again.hold_duration, Some([2, 1]));
}

#[test]
fn off_grid_positions_snap_to_ticks() {
    // 1/3 of a beat is not a tick boundary of 1/384 measure: it rounds.
    let n = Note::new(108333, 1, NoteType::Tap);
    let s = note_to_ser(&n);
    let back = ser_to_note(&s);
    let again = note_to_ser(&back);
    assert_eq!((s.measure, s.beat, s.division, s.offset), (again.measure, again.beat, again.division, again.offset));
}

#[test]
fn charts_save_and_load() {
    let doc = fallback_chart();
    let s = chart_to_ser(&doc);
    assert_eq!(s.version, "0.4.0-beat");
    assert_eq!(s.notes.len(), doc.notes.len());
    let back = ser_to_chart(&s);
    assert_eq!(back.title, doc.title);
    assert_eq!(back.notes.len(), doc.notes.len());
    for (a, b) in back.notes.iter().zip(doc.notes.iter()) {
        assert_eq!(a.time, b.time);
        assert_eq!(a.lane, b.lane);
        assert_eq!(a.hold_duration, b.hold_duration);
        assert_eq!(a.slide.len(), b.slide.len());
    }
}

#[test]
fn loading_a_saved_note_snaps_it_to_the_nearest_step() {
    // A third of a measure is tick 128 of 384; it loads as the chart step
    // nearest to 128/384.
    let n = Note::new(133333, 1, NoteType::Tap);
    let back = ser_to_note(&note_to_ser(&n));
    assert_eq!(back.time, 133333);
    // Just off the grid: 0.3335 measure is nearest tick 128 too.
    let n = Note::new(133350, 1, NoteType::Tap);
    assert_eq!(ser_to_note(&note_to_ser(&n)).time, 133333);
}

#[test]
fn a_saved_note_loads_back_snapped_with_its_fields() {
    let mut n = Note::new(133350, 6, NoteType::Hold);
    n.id = 7;
    n.hold_duration = 33350;
    n.is_ex = true;
    n.is_each = true;
    n.hi_speed = 150000;
    let m = ser_to_note(&note_to_ser(&n));
    assert_eq!(m.id, 0);
    assert_eq!(m.hi_speed, 0);
    assert_eq!(m.time, 133333);
    assert_eq!(m.hold_duration, 33333);
    assert_eq!((m.lane, m.note_type, m.is_ex, m.is_each, m.is_break), (6, NoteType::Hold, true, true, false));
}
