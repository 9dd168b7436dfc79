//! The editor's keyboard commands: how each key changes the editor's state,
//! and what the front end is asked to do (play, record, load, save, undo).

use vstd::prelude::*;

use crate::model::{notes_view, Note, NoteView};

verus! {

/// A command key of the editor.
#[derive(Debug, Clone, Copy, PartialEq, Eq, Structural)]
pub enum HotKey {
    /// Space: play / stop.
    Space,
    /// R: start / stop recording.
    R,
    /// C: clear the current recording.
    C,
    /// P: pad-only view.
    P,
    /// M: mobile UI mode.
    M,
    /// A: audio on / off.
    A,
    /// H: hide the selected notes; with Shift, show every hidden note.
    H,
    /// L: load the latest saved chart.
    L,
    /// S: scale the selected notes, or save.
    S,
    /// Delete: delete the selected notes.
    Delete,
    /// D: delete the selected notes.
    D,
    /// Backspace: delete the selected notes (outside slide path editing).
    Backspace,
    /// B: toggle break on the selected notes.
    B,
    /// X: toggle ex on the selected notes.
    X,
    /// N: toggle break and ex together on the selected notes.
    N,
    /// G: toggle snapping recorded hits to the grid.
    G,
}

/// Work a key hands to the front end.
#[derive(Debug, Clone, Copy, PartialEq, Eq, Structural)]
pub enum HotkeyAction {
    TogglePlay,
    ToggleRecord,
    /// Empty the recorded hits, recorded notes, held recordings and pointer
    /// tracks.
    ClearRecording,
    StopAudio,
    LoadLatest,
    SaveRecording,
    /// Start scaling the selected notes from the pointer's height.
    EnterScale,
    /// Keep the chart as it was before this key, for undo.
    PushUndo,
}

/// What the editor's keys read and change.
pub struct EditorState {
    pub show_pad_only: bool,
    pub mobile_ui: bool,
    pub audio_enabled: bool,
    pub record_snap_grid: bool,
    pub grabbing_notes: bool,
    /// The slide note whose path is being edited, if any.
    pub editing_slide_path: Option<usize>,
    pub scaling_notes: bool,
    /// The note selected alone.
    pub selected_note: Option<usize>,
    /// The notes selected together (indices into `notes`).
    pub selected_notes: Vec<usize>,
    /// Ids of the selected notes.
    pub selected_note_ids: Vec<u64>,
    /// Ids of hidden notes (a set: order and repeats do not matter).
    pub hidden_notes: Vec<u64>,
    /// Ids of the notes that belong to a template instance; these are edited
    /// only in isolation.
    pub template_note_ids: Vec<u64>,
    /// The chart's notes.
    pub notes: Vec<Note>,
}

/// The content of an [`EditorState`].
#[verifier::ext_equal]
pub struct EditorView {
    pub show_pad_only: bool,
    pub mobile_ui: bool,
    pub audio_enabled: bool,
    pub record_snap_grid: bool,
    pub grabbing_notes: bool,
    pub editing_slide_path: Option<usize>,
    pub scaling_notes: bool,
    pub selected_note: Option<usize>,
    pub selected_notes: Seq<usize>,
    pub selected_note_ids: Seq<u64>,
    pub hidden_notes: Set<u64>,
    pub template_note_ids: Set<u64>,
    pub notes: Seq<NoteView>,
}

impl View for EditorState {
    type V = EditorView;

    open spec fn view(&self) -> EditorView {
        EditorView {
            show_pad_only: self.show_pad_only,
            mobile_ui: self.mobile_ui,
            audio_enabled: self.audio_enabled,
            record_snap_grid: self.record_snap_grid,
            grabbing_notes: self.grabbing_notes,
            editing_slide_path: self.editing_slide_path,
            scaling_notes: self.scaling_notes,
            selected_note: self.selected_note,
            selected_notes: self.selected_notes@,
            selected_note_ids: self.selected_note_ids@,
            hidden_notes: Set::new(|x: u64| self.hidden_notes@.contains(x)),
            template_note_ids: Set::new(|x: u64| self.template_note_ids@.contains(x)),
            notes: notes_view(self.notes@),
        }
    }
}

/// Note `i` exists and belongs to a template instance.
pub open spec fn in_template(s: EditorView, i: int) -> bool {
    0 <= i < s.notes.len() && s.template_note_ids.contains(s.notes[i].id)
}

/// Note `i` goes when several notes are selected and deleted: it is selected
/// and not part of a template instance.
pub open spec fn removed_together(s: EditorView, i: int) -> bool {
    s.selected_notes.contains(i as usize) && !in_template(s, i)
}

/// The notes from index `j` on that are not deleted together.
pub open spec fn kept_from(s: EditorView, j: int) -> Seq<NoteView>
    decreases s.notes.len() - j,
{
    if j >= s.notes.len() || j < 0 {
        Seq::empty()
    } else {
        (if removed_together(s, j) { Seq::empty() } else { seq![s.notes[j]] }) + kept_from(s, j + 1)
    }
}

/// Deleting: with several notes selected, every selected note outside a
/// template instance goes and the selection is dropped (the chart is kept
/// for undo first); with one note selected, it goes unless it lies outside
/// the chart or in a template instance.
pub open spec fn delete_step(s: EditorView) -> (EditorView, Seq<HotkeyAction>) {
    if s.selected_notes.len() > 1 {
        (
            EditorView {
                notes: kept_from(s, 0),
                selected_note: None,
                selected_notes: Seq::empty(),
                selected_note_ids: Seq::empty(),
                ..s
            },
            seq![HotkeyAction::PushUndo],
        )
    } else {
        match s.selected_note {
            Some(i) => if i < s.notes.len() && !in_template(s, i as int) {
                (EditorView { notes: s.notes.remove(i as int), selected_note: None, ..s }, seq![HotkeyAction::PushUndo])
            } else {
                (s, Seq::empty())
            },
            None => (s, Seq::empty()),
        }
    }
}

/// The ids that H hides: the selected ids, or else the id of the note
/// selected alone.
pub open spec fn hide_targets(s: EditorView) -> Seq<u64> {
    if s.selected_note_ids.len() > 0 {
        s.selected_note_ids
    } else {
        match s.selected_note {
            Some(i) => if i < s.notes.len() { seq![s.notes[i as int].id] } else { Seq::empty() },
            None => Seq::empty(),
        }
    }
}

/// Which flags a toggle key flips.
#[derive(Debug, Clone, Copy, PartialEq, Eq, Structural)]
pub enum FlagKey {
    Break,
    Ex,
    ExBreak,
}

pub open spec fn flag_toggle(n: NoteView, which: FlagKey) -> NoteView {
    match which {
        FlagKey::Break => NoteView { is_break: !n.is_break, ..n },
        FlagKey::Ex => NoteView { is_ex: !n.is_ex, ..n },
        FlagKey::ExBreak => {
            let on = !(n.is_break && n.is_ex);
            NoteView { is_break: on, is_ex: on, ..n }
        },
    }
}

/// The notes a toggle key acts on: the notes selected together, or else the
/// note selected alone.
pub open spec fn toggle_targets(s: EditorView) -> Seq<usize> {
    if s.selected_notes.len() > 0 {
        s.selected_notes
    } else {
        match s.selected_note {
            Some(i) => seq![i],
            None => Seq::empty(),
        }
    }
}

/// The notes after flipping `which` on the first `k` targets, each in turn
/// (a target named twice flips twice), skipping template-instance notes and
/// indices outside the chart.
pub open spec fn toggled_upto(s: EditorView, idx: Seq<usize>, which: FlagKey, k: int) -> Seq<NoteView>
    decreases k,
{
    if k <= 0 {
        s.notes
    } else {
        let prev = toggled_upto(s, idx, which, k - 1);
        let i = idx[k - 1] as int;
        if !in_template(s, i) && i < prev.len() {
            prev.update(i, flag_toggle(prev[i], which))
        } else {
            prev
        }
    }
}

/// Some target lies outside template instances.
pub open spec fn any_free_target(s: EditorView, idx: Seq<usize>) -> bool {
    exists|k: int| 0 <= k < idx.len() && !in_template(s, #[trigger] idx[k] as int)
}

/// A toggle key: when some target lies outside template instances, the
/// chart is kept for undo and the flags flip (see [`toggled_upto`]).
pub open spec fn toggle_step(s: EditorView, which: FlagKey) -> (EditorView, Seq<HotkeyAction>) {
    let idx = toggle_targets(s);
    if any_free_target(s, idx) {
        (EditorView { notes: toggled_upto(s, idx, which, idx.len() as int), ..s }, seq![HotkeyAction::PushUndo])
    } else {
        (s, Seq::empty())
    }
}

/// What key `key` (with Shift held or not) does to the editor, and the work
/// it hands to the front end.
pub open spec fn hotkey_step(s: EditorView, key: HotKey, shift: bool) -> (EditorView, Seq<HotkeyAction>) {
    match key {
        HotKey::Space => (s, seq![HotkeyAction::TogglePlay]),
        HotKey::R => (s, seq![HotkeyAction::ToggleRecord]),
        HotKey::C => (s, seq![HotkeyAction::ClearRecording]),
        HotKey::P => if s.editing_slide_path is None {
            (EditorView { show_pad_only: !s.show_pad_only, ..s }, Seq::empty())
        } else {
            (s, Seq::empty())
        },
        HotKey::M => (EditorView { mobile_ui: !s.mobile_ui, ..s }, Seq::empty()),
        HotKey::A => (
            EditorView { audio_enabled: !s.audio_enabled, ..s },
            if s.audio_enabled { seq![HotkeyAction::StopAudio] } else { Seq::empty() },
        ),
        HotKey::H => if shift {
            (EditorView { hidden_notes: Set::empty(), ..s }, Seq::empty())
        } else {
            let t = hide_targets(s);
            if t.len() == 0 {
                (s, Seq::empty())
            } else {
                (
                    EditorView {
                        hidden_notes: s.hidden_notes.union(Set::new(|x: u64| t.contains(x))),
                        selected_note: None,
                        selected_notes: Seq::empty(),
                        ..s
                    },
                    Seq::empty(),
                )
            }
        },
        HotKey::L => (s, seq![HotkeyAction::LoadLatest]),
        HotKey::S => if s.editing_slide_path is Some || s.scaling_notes {
            (s, Seq::empty())
        } else if s.selected_notes.len() > 1 {
            (EditorView { scaling_notes: true, ..s }, seq![HotkeyAction::PushUndo, HotkeyAction::EnterScale])
        } else {
            (s, seq![HotkeyAction::SaveRecording])
        },
        HotKey::Delete => delete_step(s),
        HotKey::D => delete_step(s),
        HotKey::Backspace => if s.editing_slide_path is None {
            delete_step(s)
        } else {
            (s, Seq::empty())
        },
        HotKey::B => toggle_step(s, FlagKey::Break),
        HotKey::X => toggle_step(s, FlagKey::Ex),
        HotKey::N => toggle_step(s, FlagKey::ExBreak),
        HotKey::G => if !s.grabbing_notes && s.selected_notes.len() <= 1 {
            (EditorView { record_snap_grid: !s.record_snap_grid, ..s }, Seq::empty())
        } else {
            (s, Seq::empty())
        },
    }
}

/// `a` and `b` agree on everything but their notes.
pub open spec fn same_but_notes(a: EditorState, b: EditorState) -> bool {
    &&& a.show_pad_only == b.show_pad_only
    &&& a.mobile_ui == b.mobile_ui
    &&& a.audio_enabled == b.audio_enabled
    &&& a.record_snap_grid == b.record_snap_grid
    &&& a.grabbing_notes == b.grabbing_notes
    &&& a.editing_slide_path == b.editing_slide_path
    &&& a.scaling_notes == b.scaling_notes
    &&& a.selected_note == b.selected_note
    &&& a.selected_notes@ == b.selected_notes@
    &&& a.selected_note_ids@ == b.selected_note_ids@
    &&& a.hidden_notes@ == b.hidden_notes@
    &&& a.template_note_ids@ == b.template_note_ids@
}

proof fn lemma_push_contains(v: Seq<u64>, x: u64, y: u64)
    ensures
        v.push(x).contains(y) <==> (v.contains(y) || y == x),
{
    if v.contains(y) {
        let j = choose|j: int| 0 <= j < v.len() && v[j] == y;
        assert(v.push(x)[j] == y);
    }
    if y == x {
        assert(v.push(x)[v.len() as int] == x);
    }
    if v.push(x).contains(y) {
        let j = choose|j: int| 0 <= j < v.push(x).len() && v.push(x)[j] == y;
        if j < v.len() {
            assert(v[j] == y);
        }
    }
}

proof fn lemma_take_push_contains(t: Seq<u64>, k: int, y: u64)
    requires
        0 <= k < t.len(),
    ensures
        t.subrange(0, k + 1).contains(y) <==> (t.subrange(0, k).contains(y) || y == t[k]),
{
    assert(t.subrange(0, k + 1) =~= t.subrange(0, k).push(t[k]));
    lemma_push_contains(t.subrange(0, k), t[k], y);
}

proof fn lemma_no_free_target(s: EditorView, idx: Seq<usize>, which: FlagKey, k: int)
    requires
        0 <= k <= idx.len(),
        forall|m: int| 0 <= m < k ==> in_template(s, #[trigger] idx[m] as int),
    ensures
        toggled_upto(s, idx, which, k) == s.notes,
    decreases k,
{
    if k > 0 {
        lemma_no_free_target(s, idx, which, k - 1);
        assert(in_template(s, idx[k - 1] as int));
    }
}

fn has_usize(v: &Vec<usize>, x: usize) -> (r: bool)
    ensures
        r == v@.contains(x),
{
    let mut k: usize = 0;
    while k < v.len()
        invariant
            k <= v@.len(),
            forall|m: int| 0 <= m < k ==> v@[m] != x,
        decreases v.len() - k,
    {
        if v[k] == x {
            assert(v@[k as int] == x);
            return true;
        }
        k = k + 1;
    }
    false
}

fn has_u64(v: &Vec<u64>, x: u64) -> (r: bool)
    ensures
        r == v@.contains(x),
{
    let mut k: usize = 0;
    while k < v.len()
        invariant
            k <= v@.len(),
            forall|m: int| 0 <= m < k ==> v@[m] != x,
        decreases v.len() - k,
    {
        if v[k] == x {
            assert(v@[k as int] == x);
            return true;
        }
        k = k + 1;
    }
    false
}

/// Note `i` of `notes` exists and its id is one of `template_ids`.
fn note_in_template(notes: &Vec<Note>, template_ids: &Vec<u64>, i: usize) -> (r: bool)
    ensures
        r == (i < notes@.len() && template_ids@.contains(notes@[i as int].id)),
{
    if i < notes.len() {
        has_u64(template_ids, notes[i].id)
    } else {
        false
    }
}

fn delete_selected(st: &mut EditorState) -> (r: Vec<HotkeyAction>)
    ensures
        final(st)@ == delete_step(old(st)@).0,
        r@ == delete_step(old(st)@).1,
{
    let ghost s = st@;
    if st.selected_notes.len() > 1 {
        let mut j: usize = st.notes.len();
        while j > 0
            invariant
                j <= st.notes@.len(),
                same_but_notes(*st, *old(st)),
                s == old(st)@,
                j <= s.notes.len(),
                notes_view(st.notes@) == s.notes.subrange(0, j as int) + kept_from(s, j as int),
            decreases j,
        {
            let i = j - 1;
            assert(notes_view(st.notes@)[i as int] == s.notes[i as int]);
            let tmpl = note_in_template(&st.notes, &st.template_note_ids, i);
            let sel = has_usize(&st.selected_notes, i);
            proof {
                assert(tmpl == in_template(s, i as int));
                assert(kept_from(s, i as int) == (if removed_together(s, i as int) { Seq::empty() } else {
                    seq![s.notes[i as int]]
                }) + kept_from(s, j as int));
            }
            if sel && !tmpl {
                let ghost before = st.notes@;
                st.notes.remove(i);
                assert(notes_view(st.notes@) =~= s.notes.subrange(0, i as int) + kept_from(s, i as int)) by {
                    assert(notes_view(before.remove(i as int)) =~= notes_view(before).remove(i as int));
                }
            } else {
                assert(notes_view(st.notes@) =~= s.notes.subrange(0, i as int) + kept_from(s, i as int));
            }
            j = i;
        }
        assert(s.notes.subrange(0, 0) + kept_from(s, 0) =~= kept_from(s, 0));
        st.selected_note = None;
        st.selected_notes.clear();
        st.selected_note_ids.clear();
        let mut r = Vec::new();
        r.push(HotkeyAction::PushUndo);
        assert(st@ =~= delete_step(s).0);
        assert(r@ =~= delete_step(s).1);
        r
    } else {
        match st.selected_note {
            Some(i) => {
                if i < st.notes.len() && !note_in_template(&st.notes, &st.template_note_ids, i) {
                    let ghost before = st.notes@;
                    st.notes.remove(i);
                    st.selected_note = None;
                    assert(notes_view(before.remove(i as int)) =~= notes_view(before).remove(i as int));
                    let mut r = Vec::new();
                    r.push(HotkeyAction::PushUndo);
                    assert(st@ =~= delete_step(s).0);
                    assert(r@ =~= delete_step(s).1);
                    r
                } else {
                    assert(st@ =~= delete_step(s).0);
                    Vec::new()
                }
            },
            None => {
                assert(st@ =~= delete_step(s).0);
                Vec::new()
            },
        }
    }
}

fn hide_selected(st: &mut EditorState)
    ensures
        final(st)@ == hotkey_step(old(st)@, HotKey::H, false).0,
{
    let ghost s = st@;
    let ghost t = hide_targets(s);
    let mut targets: Vec<u64> = Vec::new();
    if st.selected_note_ids.len() > 0 {
        let mut k: usize = 0;
        while k < st.selected_note_ids.len()
            invariant
                k <= st.selected_note_ids@.len(),
                targets@ == st.selected_note_ids@.subrange(0, k as int),
            decreases st.selected_note_ids.len() - k,
        {
            targets.push(st.selected_note_ids[k]);
            k = k + 1;
            assert(targets@ =~= st.selected_note_ids@.subrange(0, k as int));
        }
        assert(targets@ =~= st.selected_note_ids@);
    } else if let Some(i) = st.selected_note {
        if i < st.notes.len() {
            targets.push(st.notes[i].id);
            assert(targets@ =~= seq![s.notes[i as int].id]);
        }
    }
    assert(targets@ =~= t);
    if targets.len() == 0 {
        assert(st@ =~= hotkey_step(s, HotKey::H, false).0);
        return;
    }
    let ghost h0 = st.hidden_notes@;
    let mut k: usize = 0;
    while k < targets.len()
        invariant
            k <= targets@.len(),
            targets@ == t,
            forall|x: u64| #[trigger] st.hidden_notes@.contains(x) <==> (h0.contains(x) || t.subrange(0, k as int).contains(x)),
            st.selected_note == s.selected_note,
            st.notes@ == old(st).notes@,
            st.selected_notes@ == s.selected_notes,
            st.selected_note_ids@ == s.selected_note_ids,
            st.template_note_ids@ == old(st).template_note_ids@,
            st.show_pad_only == s.show_pad_only && st.mobile_ui == s.mobile_ui && st.audio_enabled == s.audio_enabled,
            st.record_snap_grid == s.record_snap_grid && st.grabbing_notes == s.grabbing_notes,
            st.editing_slide_path == s.editing_slide_path && st.scaling_notes == s.scaling_notes,
        decreases targets.len() - k,
    {
        let x = targets[k];
        let ghost before = st.hidden_notes@;
        if !has_u64(&st.hidden_notes, x) {
            st.hidden_notes.push(x);
        }
        proof {
            assert forall|y: u64| #[trigger] st.hidden_notes@.contains(y) <==> (h0.contains(y) || t.subrange(0, k + 1).contains(y)) by {
                lemma_push_contains(before, x, y);
                lemma_take_push_contains(t, k as int, y);
                assert(before.contains(y) <==> (h0.contains(y) || t.subrange(0, k as int).contains(y)));
            }
        }
        k = k + 1;
    }
    assert(t.subrange(0, t.len() as int) =~= t);
    st.selected_note = None;
    st.selected_notes.clear();
    assert(st@ =~= hotkey_step(s, HotKey::H, false).0);
}

fn toggle_selected(st: &mut EditorState, which: FlagKey) -> (r: Vec<HotkeyAction>)
    ensures
        final(st)@ == toggle_step(old(st)@, which).0,
        r@ == toggle_step(old(st)@, which).1,
{
    let ghost s = st@;
    let ghost idx = toggle_targets(s);
    let multi = st.selected_notes.len() > 0;
    let count: usize = if multi {
        st.selected_notes.len()
    } else if st.selected_note.is_some() {
        1
    } else {
        0
    };
    assert(count == idx.len());
    let mut any = false;
    let mut k: usize = 0;
    while k < count
        invariant
            count == idx.len(),
            idx == toggle_targets(s),
            multi == (s.selected_notes.len() > 0),
            same_but_notes(*st, *old(st)),
            s == old(st)@,
            k <= count,
            notes_view(st.notes@) == toggled_upto(s, idx, which, k as int),
            notes_view(st.notes@).len() == s.notes.len(),
            forall|m: int| 0 <= m < s.notes.len() ==> (#[trigger] notes_view(st.notes@)[m]).id == s.notes[m].id,
            any == exists|m: int| 0 <= m < k && !in_template(s, #[trigger] idx[m] as int),
        decreases count - k,
    {
        let i = if multi { st.selected_notes[k] } else { st.selected_note.unwrap() };
        assert(i == idx[k as int]);
        let tmpl = note_in_template(&st.notes, &st.template_note_ids, i);
        proof {
            if i < st.notes@.len() {
                assert(notes_view(st.notes@)[i as int].id == s.notes[i as int].id);
            }
            assert(tmpl == in_template(s, i as int));
        }
        if !tmpl {
            any = true;
            if i < st.notes.len() {
                let ghost before = notes_view(st.notes@);
                match which {
                    FlagKey::Break => {
                        let b = st.notes[i].is_break;
                        st.notes[i].is_break = !b;
                    },
                    FlagKey::Ex => {
                        let e = st.notes[i].is_ex;
                        st.notes[i].is_ex = !e;
                    },
                    FlagKey::ExBreak => {
                        let on = !(st.notes[i].is_break && st.notes[i].is_ex);
                        st.notes[i].is_break = on;
                        st.notes[i].is_ex = on;
                    },
                }
                assert(notes_view(st.notes@) =~= before.update(i as int, flag_toggle(before[i as int], which)));
            }
        }
        k = k + 1;
    }
    assert(any == any_free_target(s, idx));
    if any {
        let mut r = Vec::new();
        r.push(HotkeyAction::PushUndo);
        assert(st@ =~= toggle_step(s, which).0);
        assert(r@ =~= toggle_step(s, which).1);
        r
    } else {
        proof {
            lemma_no_free_target(s, idx, which, idx.len() as int);
        }
        assert(st@ =~= toggle_step(s, which).0);
        Vec::new()
    }
}

fn one(a: HotkeyAction) -> (r: Vec<HotkeyAction>)
    ensures
        r@ == seq![a],
{
    let mut r = Vec::new();
    r.push(a);
    assert(r@ =~= seq![a]);
    r
}

/// Apply command key `key` (with Shift held or not) to the editor (see
/// [`hotkey_step`]), returning the work it hands to the front end.
pub fn apply_hotkey(st: &mut EditorState, key: HotKey, shift: bool) -> (r: Vec<HotkeyAction>)
    ensures
        final(st)@ == hotkey_step(old(st)@, key, shift).0,
        r@ == hotkey_step(old(st)@, key, shift).1,
{
    let ghost s = st@;
    match key {
        HotKey::Space => {
            assert(st@ =~= s);
            one(HotkeyAction::TogglePlay)
        },
        HotKey::R => {
            assert(st@ =~= s);
            one(HotkeyAction::ToggleRecord)
        },
        HotKey::C => {
            assert(st@ =~= s);
            one(HotkeyAction::ClearRecording)
        },
        HotKey::P => {
            if st.editing_slide_path.is_none() {
                st.show_pad_only = !st.show_pad_only;
            }
            assert(st@ =~= hotkey_step(s, key, shift).0);
            Vec::new()
        },
        HotKey::M => {
            st.mobile_ui = !st.mobile_ui;
            assert(st@ =~= hotkey_step(s, key, shift).0);
            Vec::new()
        },
        HotKey::A => {
            st.audio_enabled = !st.audio_enabled;
            assert(st@ =~= hotkey_step(s, key, shift).0);
            if !st.audio_enabled {
                one(HotkeyAction::StopAudio)
            } else {
                Vec::new()
            }
        },
        HotKey::H => {
            if shift {
                st.hidden_notes.clear();
                assert(st@ =~= hotkey_step(s, key, shift).0);
            } else {
                hide_selected(st);
            }
            Vec::new()
        },
        HotKey::L => {
            assert(st@ =~= s);
            one(HotkeyAction::LoadLatest)
        },
        HotKey::S => {
            if st.editing_slide_path.is_some() || st.scaling_notes {
                assert(st@ =~= s);
                Vec::new()
            } else if st.selected_notes.len() > 1 {
                st.scaling_notes = true;
                assert(st@ =~= hotkey_step(s, key, shift).0);
                let mut r = Vec::new();
                r.push(HotkeyAction::PushUndo);
                r.push(HotkeyAction::EnterScale);
                assert(r@ =~= seq![HotkeyAction::PushUndo, HotkeyAction::EnterScale]);
                r
            } else {
                assert(st@ =~= s);
                one(HotkeyAction::SaveRecording)
            }
        },
        HotKey::Delete => delete_selected(st),
        HotKey::D => delete_selected(st),
        HotKey::Backspace => {
            if st.editing_slide_path.is_none() {
                delete_selected(st)
            } else {
                assert(st@ =~= s);
                Vec::new()
            }
        },
        HotKey::B => toggle_selected(st, FlagKey::Break),
        HotKey::X => toggle_selected(st, FlagKey::Ex),
        HotKey::N => toggle_selected(st, FlagKey::ExBreak),
        HotKey::G => {
            if !st.grabbing_notes && st.selected_notes.len() <= 1 {
                st.record_snap_grid = !st.record_snap_grid;
            }
            assert(st@ =~= hotkey_step(s, key, shift).0);
            Vec::new()
        },
    }
}

} // verus!
