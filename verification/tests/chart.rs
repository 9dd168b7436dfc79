use lambda_dx::chart::{
    audio_candidate, chart_file_name, fallback_chart, find_audio_in_dir, is_simai_file, AUDIO_CANDIDATES,
};
use lambda_dx::model::{NoteType, SlideShape};

#[test]
fn demo_chart() {
    let c = fallback_chart();
    assert_eq!(c.version, "0.3.0-measure");
    assert_eq!(c.title, "Fallback Demo Chart");
    assert_eq!(c.bpm, 18000000);
    assert_eq!(c.bpms.len(), 1);
    assert_eq!(c.notes.len(), 12);
    assert_eq!(c.notes[0].time, 200000);
    assert_eq!(c.notes[4].note_type, NoteType::Touch);
    assert_eq!(c.notes[5].hold_duration, 50000);
    let s = &c.notes[9];
    assert_eq!(s.note_type, NoteType::Slide);
    assert_eq!(s.slide[0].segments[0].shape, SlideShape::Line);
    let zones: Vec<u8> = s.slide[0].segments[0].points.iter().map(|p| p.zone.id).collect();
    assert_eq!(zones, vec![4, 6, 8]);
    assert!(c.notes[10].is_each && c.notes[11].is_each);
}

#[test]
fn audio_next_to_a_chart() {
    let names: Vec<&str> = (0..AUDIO_CANDIDATES).map(audio_candidate).collect();
    assert_eq!(names, vec!["track.mp3", "track.wav", "demo.mp3", "demo.wav"]);
    assert_eq!(find_audio_in_dir(true, &vec![false, true, true, false]), Some(1));
    assert_eq!(find_audio_in_dir(true, &vec![false, false, false, false]), None);
    assert_eq!(find_audio_in_dir(false, &vec![true, true, true, true]), None);
}

#[test]
fn chart_files() {
    assert_eq!(chart_file_name(true), "maidata.txt");
    assert_eq!(chart_file_name(false), "chart.json");
    assert!(is_simai_file(Some("MaiData.TXT"), Some("TXT")));
    assert!(is_simai_file(Some("notes.txt"), Some("txt")));
    assert!(is_simai_file(Some("maidata.txt"), None));
    assert!(!is_simai_file(Some("chart.json"), Some("json")));
    assert!(!is_simai_file(None, None));
}
