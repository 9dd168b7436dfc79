use lambda_dx::hotkeys::{apply_hotkey, EditorState, HotKey, HotkeyAction};
use lambda_dx::model::{Note, NoteType};

fn note(id: u64, time: i64) -> Note {
    let mut n = Note::new(time, 1, NoteType::Tap);
    n.id = id;
    n
}

fn editor(ids: &[u64]) -> EditorState {
    EditorState {
        show_pad_only: false,
        mobile_ui: false,
        audio_enabled: true,
        record_snap_grid: false,
        grabbing_notes: false,
        editing_slide_path: None,
        scaling_notes: false,
        selected_note: None,
        selected_notes: vec![],
        selected_note_ids: vec![],
        hidden_notes: vec![],
        template_note_ids: vec![],
        notes: ids.iter().enumerate().map(|(k, &id)| note(id, 100000 + 25000 * k as i64)).collect(),
    }
}

fn ids(st: &EditorState) -> Vec<u64> {
    st.notes.iter().map(|n| n.id).collect()
}

#[test]
fn transport_keys_hand_work_to_the_front_end() {
    let mut st = editor(&[1]);
    assert_eq!(apply_hotkey(&mut st, HotKey::Space, false), vec![HotkeyAction::TogglePlay]);
    assert_eq!(apply_hotkey(&mut st, HotKey::R, false), vec![HotkeyAction::ToggleRecord]);
    assert_eq!(apply_hotkey(&mut st, HotKey::C, false), vec![HotkeyAction::ClearRecording]);
    assert_eq!(apply_hotkey(&mut st, HotKey::L, false), vec![HotkeyAction::LoadLatest]);
    assert_eq!(apply_hotkey(&mut st, HotKey::S, false), vec![HotkeyAction::SaveRecording]);
    assert_eq!(ids(&st), vec![1]);
}

#[test]
fn view_and_audio_toggles() {
    let mut st = editor(&[]);
    assert!(apply_hotkey(&mut st, HotKey::P, false).is_empty());
    assert!(st.show_pad_only);
    assert!(apply_hotkey(&mut st, HotKey::M, false).is_empty());
    assert!(st.mobile_ui);
    assert_eq!(apply_hotkey(&mut st, HotKey::A, false), vec![HotkeyAction::StopAudio]);
    assert!(!st.audio_enabled);
    assert!(apply_hotkey(&mut st, HotKey::A, false).is_empty());
    assert!(st.audio_enabled);
    // P is a slide shape key while a slide path is edited.
    st.editing_slide_path = Some(0);
    apply_hotkey(&mut st, HotKey::P, false);
    assert!(st.show_pad_only);
    assert!(apply_hotkey(&mut st, HotKey::G, false).is_empty());
    assert!(st.record_snap_grid);
}

#[test]
fn hide_and_show_notes() {
    let mut st = editor(&[4, 5, 6]);
    st.selected_note = Some(1);
    apply_hotkey(&mut st, HotKey::H, false);
    assert_eq!(st.hidden_notes, vec![5]);
    assert_eq!(st.selected_note, None);
    st.selected_note_ids = vec![4, 5];
    apply_hotkey(&mut st, HotKey::H, false);
    let mut hidden = st.hidden_notes.clone();
    hidden.sort();
    assert_eq!(hidden, vec![4, 5]);
    apply_hotkey(&mut st, HotKey::H, true);
    assert!(st.hidden_notes.is_empty());
}

#[test]
fn deleting_skips_template_notes() {
    let mut st = editor(&[1, 2, 3, 4]);
    st.selected_notes = vec![3, 0, 2, 3];
    st.selected_note_ids = vec![1, 3, 4];
    st.template_note_ids = vec![3];
    assert_eq!(apply_hotkey(&mut st, HotKey::Delete, false), vec![HotkeyAction::PushUndo]);
    assert_eq!(ids(&st), vec![2, 3]);
    assert!(st.selected_notes.is_empty() && st.selected_note_ids.is_empty());
    // One selected template note stays.
    st.selected_note = Some(1);
    assert!(apply_hotkey(&mut st, HotKey::D, false).is_empty());
    assert_eq!(ids(&st), vec![2, 3]);
    st.selected_note = Some(0);
    assert_eq!(apply_hotkey(&mut st, HotKey::Backspace, false), vec![HotkeyAction::PushUndo]);
    assert_eq!(ids(&st), vec![3]);
    assert_eq!(st.selected_note, None);
    // Backspace edits the slide path instead while one is being edited.
    st.selected_note = Some(0);
    st.editing_slide_path = Some(0);
    assert!(apply_hotkey(&mut st, HotKey::Backspace, false).is_empty());
    assert_eq!(ids(&st), vec![3]);
}

#[test]
fn scaling_needs_several_notes() {
    let mut st = editor(&[1, 2]);
    st.selected_notes = vec![0, 1];
    assert_eq!(apply_hotkey(&mut st, HotKey::S, false), vec![HotkeyAction::PushUndo, HotkeyAction::EnterScale]);
    assert!(st.scaling_notes);
    assert!(apply_hotkey(&mut st, HotKey::S, false).is_empty());
}

#[test]
fn flag_toggles_on_selected_notes() {
    let mut st = editor(&[1, 2, 3]);
    st.selected_notes = vec![0, 2];
    st.template_note_ids = vec![3];
    assert_eq!(apply_hotkey(&mut st, HotKey::B, false), vec![HotkeyAction::PushUndo]);
    assert!(st.notes[0].is_break && !st.notes[1].is_break && !st.notes[2].is_break);
    apply_hotkey(&mut st, HotKey::N, false);
    assert!(st.notes[0].is_break && st.notes[0].is_ex);
    apply_hotkey(&mut st, HotKey::N, false);
    assert!(!st.notes[0].is_break && !st.notes[0].is_ex);
    st.selected_notes = vec![];
    st.selected_note = Some(1);
    apply_hotkey(&mut st, HotKey::X, false);
    assert!(st.notes[1].is_ex);
    st.selected_note = Some(2);
    assert!(apply_hotkey(&mut st, HotKey::X, false).is_empty());
}
