//! Writing Simai text: the notes of one time step (taps, holds, touch notes
//! and slides, separated by `/`), and a whole file's header and charts.

use vstd::prelude::*;

use crate::simai_io::{pattern_text, simai_notes_view, ChainArc, SimaiFile, SimaiNote, SimaiNoteView, SlidePattern};
use crate::text::{decimal, decimal_text, push_char};

verus! {

/// A pattern in Simai notation; a `V` slide also names its turning button.
pub open spec fn pattern_notation(p: SlidePattern, reflect: Option<u8>) -> Seq<char> {
    if p == SlidePattern::BigV {
        match reflect {
            Some(r) => seq!['V'] + decimal(r as nat + 1),
            None => seq!['V'],
        }
    } else {
        pattern_text(p)
    }
}

/// The chained arcs of a slide: each arc's pattern and 1-based end button.
pub open spec fn chain_notation(chain: Seq<ChainArc>) -> Seq<char>
    decreases chain.len(),
{
    if chain.len() == 0 {
        Seq::empty()
    } else {
        chain_notation(chain.drop_last()) + pattern_notation(chain.last().0, chain.last().2)
            + decimal(chain.last().1 as nat + 1)
    }
}

/// `n` is a slide leaving button `b`.
pub open spec fn slide_from(n: SimaiNoteView, b: u8) -> bool {
    n matches SimaiNoteView::Slide { start, .. } && start == b
}

/// `n` is a star tap on button `b`.
pub open spec fn star_tap(n: SimaiNoteView, b: u8) -> bool {
    n matches SimaiNoteView::Tap { button, is_star, .. } && is_star && button == b
}

/// Some note of `ns` is a slide leaving button `b`.
pub open spec fn any_slide_from(ns: Seq<SimaiNoteView>, b: u8) -> bool {
    exists|j: int| 0 <= j < ns.len() && #[trigger] slide_from(ns[j], b)
}

/// Some note of `ns` is a star tap on button `b`.
pub open spec fn any_star_tap(ns: Seq<SimaiNoteView>, b: u8) -> bool {
    exists|j: int| 0 <= j < ns.len() && #[trigger] star_tap(ns[j], b)
}

/// A slide before note `i` leaves button `b` already.
pub open spec fn start_seen(ns: Seq<SimaiNoteView>, i: int, b: u8) -> bool {
    exists|j: int| 0 <= j < i && #[trigger] slide_from(ns[j], b)
}

/// `c` when `on`, else nothing.
pub open spec fn flag(on: bool, c: char) -> Seq<char> {
    if on { seq![c] } else { Seq::empty() }
}

/// A length written as `[den:num]`.
pub open spec fn frac_notation(f: (u32, u32)) -> Seq<char> {
    seq!['['] + decimal(f.0 as nat) + seq![':'] + decimal(f.1 as nat) + seq![']']
}

/// A touch sensor: `C`, or its region letter and 1-based position.
pub open spec fn sensor_notation(region: char, position: u8) -> Seq<char> {
    if region == 'C' { seq!['C'] } else { seq![region] + decimal(position as nat + 1) }
}

/// The text of note `i` in pass `pass` (1 taps, 2 holds, 3 touch taps,
/// 4 touch holds, 5 slides), when it is written in that pass, and whether a
/// `/` may stand before it. `fr` holds the `[den:num]` length of each hold and
/// `sx` the length suffix of each slide. A star tap on a button that a slide
/// of the step leaves is not written: the slide stands for it. A slide from a
/// button that an earlier slide left is written with `*` and no modifier.
pub open spec fn note_item(ns: Seq<SimaiNoteView>, fr: Seq<(u32, u32)>, sx: Seq<Seq<char>>, pass: int, i: int) -> Option<(Seq<char>, bool)> {
    match ns[i] {
        SimaiNoteView::Tap { button, is_break, is_ex, is_star, .. } => if pass == 1 && !(is_star && any_slide_from(ns, button)) {
            Some((decimal(button as nat + 1) + flag(is_break, 'b') + flag(is_ex, 'x') + flag(is_star, '$'), true))
        } else {
            None
        },
        SimaiNoteView::Hold { button, is_ex, .. } => if pass == 2 {
            Some((decimal(button as nat + 1) + seq!['h'] + flag(is_ex, 'x') + frac_notation(fr[i]), true))
        } else {
            None
        },
        SimaiNoteView::TouchTap { region, position, is_firework, .. } => if pass == 3 {
            Some((sensor_notation(region, position) + flag(is_firework, 'f'), true))
        } else {
            None
        },
        SimaiNoteView::TouchHold { region, position, is_firework, .. } => if pass == 4 {
            Some((sensor_notation(region, position) + seq!['h'] + flag(is_firework, 'f') + frac_notation(fr[i]), true))
        } else {
            None
        },
        SimaiNoteView::Slide { start, end, pattern, reflect, is_break, is_ex, is_tapless, chain, .. } => if pass == 5 {
            let again = start_seen(ns, i, start);
            let head = if again { seq!['*'] } else { decimal(start as nat + 1) };
            let mods = if again {
                Seq::empty()
            } else if is_tapless && !any_star_tap(ns, start) {
                seq!['?']
            } else if is_break {
                seq!['b']
            } else {
                flag(is_ex, 'x')
            };
            Some((head + mods + pattern_notation(pattern, reflect) + decimal(end as nat + 1) + chain_notation(chain) + sx[i], !again))
        } else {
            None
        },
    }
}

/// The text so far and whether anything was written, after one more item.
pub open spec fn write_item(acc: (Seq<char>, bool), it: Option<(Seq<char>, bool)>) -> (Seq<char>, bool) {
    match it {
        None => acc,
        Some((t, may_sep)) => (acc.0 + (if acc.1 && may_sep { seq!['/'] } else { Seq::empty() }) + t, true),
    }
}

/// `acc` after writing notes `0..k` in pass `pass`.
pub open spec fn pass_acc(ns: Seq<SimaiNoteView>, fr: Seq<(u32, u32)>, sx: Seq<Seq<char>>, pass: int, k: int, acc: (Seq<char>, bool)) -> (Seq<char>, bool)
    decreases k,
{
    if k <= 0 {
        acc
    } else {
        write_item(pass_acc(ns, fr, sx, pass, k - 1, acc), note_item(ns, fr, sx, pass, k - 1))
    }
}

/// `acc` after passes `1..=p` over all notes.
pub open spec fn passes_acc(ns: Seq<SimaiNoteView>, fr: Seq<(u32, u32)>, sx: Seq<Seq<char>>, p: int) -> (Seq<char>, bool)
    decreases p,
{
    if p <= 0 {
        (Seq::empty(), false)
    } else {
        pass_acc(ns, fr, sx, p, ns.len() as int, passes_acc(ns, fr, sx, p - 1))
    }
}

/// The text of one time step: its taps, then holds, touch taps, touch holds
/// and slides, each in the order given.
pub open spec fn fragment_text(ns: Seq<SimaiNoteView>, fr: Seq<(u32, u32)>, sx: Seq<Seq<char>>) -> Seq<char> {
    passes_acc(ns, fr, sx, 5).0
}

pub open spec fn texts_view(v: Seq<String>) -> Seq<Seq<char>> {
    v.map_values(|s: String| s@)
}

fn append_string(out: &mut String, t: &String)
    ensures
        final(out)@ == old(out)@ + t@,
{
    out.append(t.as_str());
}

fn append_decimal(out: &mut String, n: u32)
    ensures
        final(out)@ == old(out)@ + decimal(n as nat),
{
    let d = decimal_text(n);
    append_string(out, &d);
}

fn append_flag(out: &mut String, on: bool, c: char)
    ensures
        final(out)@ == old(out)@ + flag(on, c),
{
    if on {
        push_char(out, c);
    } else {
        assert(old(out)@ + flag(on, c) =~= old(out)@);
    }
}

fn append_frac(out: &mut String, f: (u32, u32))
    ensures
        final(out)@ == old(out)@ + frac_notation(f),
{
    let ghost o = out@;
    push_char(out, '[');
    append_decimal(out, f.0);
    push_char(out, ':');
    append_decimal(out, f.1);
    push_char(out, ']');
    assert(out@ =~= o + frac_notation(f));
}

fn append_sensor(out: &mut String, region: char, position: u8)
    ensures
        final(out)@ == old(out)@ + sensor_notation(region, position),
{
    let ghost o = out@;
    if region == 'C' {
        push_char(out, 'C');
    } else {
        push_char(out, region);
        append_decimal(out, position as u32 + 1);
    }
    assert(out@ =~= o + sensor_notation(region, position));
}

fn append_pattern(out: &mut String, p: SlidePattern, reflect: Option<u8>)
    ensures
        final(out)@ == old(out)@ + pattern_notation(p, reflect),
{
    let ghost o = out@;
    match p {
        SlidePattern::BigV => {
            push_char(out, 'V');
            if let Some(r) = reflect {
                append_decimal(out, r as u32 + 1);
            }
        },
        _ => {
            out.append(p.as_str());
        },
    }
    assert(out@ =~= o + pattern_notation(p, reflect));
}

fn append_chain(out: &mut String, chain: &Vec<ChainArc>)
    ensures
        final(out)@ == old(out)@ + chain_notation(chain@),
{
    let ghost o = out@;
    let mut k: usize = 0;
    while k < chain.len()
        invariant
            k <= chain@.len(),
            out@ == o + chain_notation(chain@.subrange(0, k as int)),
        decreases chain.len() - k,
    {
        let arc = chain[k];
        append_pattern(out, arc.0, arc.2);
        append_decimal(out, arc.1 as u32 + 1);
        proof {
            let s = chain@.subrange(0, k as int + 1);
            assert(s.drop_last() =~= chain@.subrange(0, k as int));
            assert(s.last() == arc);
        }
        k = k + 1;
    }
    assert(chain@.subrange(0, chain@.len() as int) =~= chain@);
}

fn has_slide_from(notes: &Vec<SimaiNote>, b: u8, hi: usize) -> (r: bool)
    requires
        hi <= notes@.len(),
    ensures
        r == (exists|j: int| 0 <= j < hi && #[trigger] slide_from(simai_notes_view(notes@)[j], b)),
{
    let ghost ns = simai_notes_view(notes@);
    let mut j: usize = 0;
    while j < hi
        invariant
            hi <= notes@.len(),
            ns == simai_notes_view(notes@),
            j <= hi,
            forall|k: int| 0 <= k < j ==> !#[trigger] slide_from(ns[k], b),
        decreases hi - j,
    {
        assert(ns[j as int] == notes@[j as int]@);
        match &notes[j] {
            SimaiNote::Slide { start, .. } => {
                if *start == b {
                    assert(slide_from(ns[j as int], b));
                    return true;
                }
            },
            _ => {},
        }
        j = j + 1;
    }
    false
}

fn has_star_tap(notes: &Vec<SimaiNote>, b: u8) -> (r: bool)
    ensures
        r == any_star_tap(simai_notes_view(notes@), b),
{
    let ghost ns = simai_notes_view(notes@);
    let mut j: usize = 0;
    while j < notes.len()
        invariant
            ns == simai_notes_view(notes@),
            j <= notes@.len(),
            forall|k: int| 0 <= k < j ==> !#[trigger] star_tap(ns[k], b),
        decreases notes.len() - j,
    {
        assert(ns[j as int] == notes@[j as int]@);
        match &notes[j] {
            SimaiNote::Tap { button, is_star, .. } => {
                if *is_star && *button == b {
                    assert(star_tap(ns[j as int], b));
                    return true;
                }
            },
            _ => {},
        }
        j = j + 1;
    }
    false
}

/// The text of an item, as [`note_item`] gives it.
pub open spec fn item_view(it: Option<(String, bool)>) -> Option<(Seq<char>, bool)> {
    match it {
        Some((t, sep)) => Some((t@, sep)),
        None => None,
    }
}

fn tap_text(button: u8, is_break: bool, is_ex: bool, is_star: bool) -> (t: String)
    ensures
        t@ == decimal(button as nat + 1) + flag(is_break, 'b') + flag(is_ex, 'x') + flag(is_star, '$'),
{
    let mut t = String::new();
    let ghost e = t@;
    append_decimal(&mut t, button as u32 + 1);
    append_flag(&mut t, is_break, 'b');
    append_flag(&mut t, is_ex, 'x');
    append_flag(&mut t, is_star, '$');
    assert(e =~= Seq::<char>::empty());
    assert(t@ =~= decimal(button as nat + 1) + flag(is_break, 'b') + flag(is_ex, 'x') + flag(is_star, '$'));
    t
}

fn hold_text(button: u8, is_ex: bool, f: (u32, u32)) -> (t: String)
    ensures
        t@ == decimal(button as nat + 1) + seq!['h'] + flag(is_ex, 'x') + frac_notation(f),
{
    let mut t = String::new();
    append_decimal(&mut t, button as u32 + 1);
    push_char(&mut t, 'h');
    append_flag(&mut t, is_ex, 'x');
    append_frac(&mut t, f);
    assert(t@ =~= decimal(button as nat + 1) + seq!['h'] + flag(is_ex, 'x') + frac_notation(f));
    t
}

fn touch_text(region: char, position: u8, is_firework: bool) -> (t: String)
    ensures
        t@ == sensor_notation(region, position) + flag(is_firework, 'f'),
{
    let mut t = String::new();
    append_sensor(&mut t, region, position);
    append_flag(&mut t, is_firework, 'f');
    assert(t@ =~= sensor_notation(region, position) + flag(is_firework, 'f'));
    t
}

fn touch_hold_text(region: char, position: u8, is_firework: bool, f: (u32, u32)) -> (t: String)
    ensures
        t@ == sensor_notation(region, position) + seq!['h'] + flag(is_firework, 'f') + frac_notation(f),
{
    let mut t = String::new();
    append_sensor(&mut t, region, position);
    push_char(&mut t, 'h');
    append_flag(&mut t, is_firework, 'f');
    append_frac(&mut t, f);
    assert(t@ =~= sensor_notation(region, position) + seq!['h'] + flag(is_firework, 'f') + frac_notation(f));
    t
}

/// The head and modifier of a slide: `*` when its button was left already,
/// else the button, then `?` for a tapless slide without a star tap, `b` or
/// `x`.
fn slide_head_text(again: bool, start: u8, is_tapless: bool, star_here: bool, is_break: bool, is_ex: bool) -> (t: String)
    ensures
        t@ == (if again { seq!['*'] } else { decimal(start as nat + 1) }) + (if again {
            Seq::<char>::empty()
        } else if is_tapless && !star_here {
            seq!['?']
        } else if is_break {
            seq!['b']
        } else {
            flag(is_ex, 'x')
        }),
{
    let mut t = String::new();
    if again {
        push_char(&mut t, '*');
        assert(t@ =~= seq!['*'] + Seq::<char>::empty());
    } else {
        append_decimal(&mut t, start as u32 + 1);
        let ghost d = t@;
        if is_tapless && !star_here {
            push_char(&mut t, '?');
        } else if is_break {
            push_char(&mut t, 'b');
        } else {
            append_flag(&mut t, is_ex, 'x');
        }
        assert(d =~= decimal(start as nat + 1));
    }
    t
}

fn slide_text(
    notes: &Vec<SimaiNote>,
    slide_suffixes: &Vec<String>,
    i: usize,
) -> (r: Option<(String, bool)>)
    requires
        i < notes@.len(),
        slide_suffixes@.len() == notes@.len(),
        notes@[i as int]@ is Slide,
    ensures
        item_view(r) == note_item(simai_notes_view(notes@), Seq::empty(), texts_view(slide_suffixes@), 5, i as int),
{
    let ghost ns = simai_notes_view(notes@);
    assert(ns[i as int] == notes@[i as int]@);
    match &notes[i] {
        SimaiNote::Slide { start, end, pattern, reflect, is_break, is_ex, is_tapless, chain, .. } => {
            let again = has_slide_from(notes, *start, i);
            let star_here = has_star_tap(notes, *start);
            let mut t = slide_head_text(again, *start, *is_tapless, star_here, *is_break, *is_ex);
            let ghost h = t@;
            append_pattern(&mut t, *pattern, *reflect);
            append_decimal(&mut t, *end as u32 + 1);
            append_chain(&mut t, chain);
            append_string(&mut t, &slide_suffixes[i]);
            assert(texts_view(slide_suffixes@)[i as int] == slide_suffixes@[i as int]@);
            assert(t@ =~= h + pattern_notation(*pattern, *reflect) + decimal(*end as nat + 1)
                + chain_notation(chain@) + texts_view(slide_suffixes@)[i as int]);
            Some((t, !again))
        },
        _ => None,
    }
}

/// Note `i` as pass `pass` writes it, with whether a `/` may precede it.
fn note_text(
    notes: &Vec<SimaiNote>,
    hold_fracs: &Vec<(u32, u32)>,
    slide_suffixes: &Vec<String>,
    pass: u8,
    i: usize,
) -> (r: Option<(String, bool)>)
    requires
        i < notes@.len(),
        hold_fracs@.len() == notes@.len(),
        slide_suffixes@.len() == notes@.len(),
    ensures
        item_view(r) == note_item(simai_notes_view(notes@), hold_fracs@, texts_view(slide_suffixes@), pass as int, i as int),
{
    let ghost ns = simai_notes_view(notes@);
    assert(ns[i as int] == notes@[i as int]@);
    match &notes[i] {
        SimaiNote::Tap { button, is_break, is_ex, is_star, .. } => {
            if pass == 1 && !(*is_star && has_slide_from(notes, *button, notes.len())) {
                Some((tap_text(*button, *is_break, *is_ex, *is_star), true))
            } else {
                None
            }
        },
        SimaiNote::Hold { button, is_ex, .. } => {
            if pass == 2 {
                Some((hold_text(*button, *is_ex, hold_fracs[i]), true))
            } else {
                None
            }
        },
        SimaiNote::TouchTap { region, position, is_firework, .. } => {
            if pass == 3 {
                Some((touch_text(*region, *position, *is_firework), true))
            } else {
                None
            }
        },
        SimaiNote::TouchHold { region, position, is_firework, .. } => {
            if pass == 4 {
                Some((touch_hold_text(*region, *position, *is_firework, hold_fracs[i]), true))
            } else {
                None
            }
        },
        SimaiNote::Slide { .. } => {
            if pass == 5 {
                slide_text(notes, slide_suffixes, i)
            } else {
                None
            }
        },
    }
}

/// Appends an item with its separator; `started` records that something was
/// written.
fn write_note(out: &mut String, started: &mut bool, it: Option<(String, bool)>)
    ensures
        (final(out)@, *final(started)) == write_item((old(out)@, *old(started)), item_view(it)),
{
    match it {
        None => {},
        Some((t, may_sep)) => {
            let ghost o = out@;
            if *started && may_sep {
                push_char(out, '/');
            }
            append_string(out, &t);
            *started = true;
            assert(out@ =~= o + (if *old(started) && may_sep { seq!['/'] } else { Seq::<char>::empty() }) + t@);
        },
    }
}

/// A step holding one tap is written as the tap's 1-based button, then `b`
/// when it is a break, `x` when it is ex and `$` when it is a star.
pub proof fn lemma_lone_tap_text(
    measure: i64,
    button: u8,
    is_break: bool,
    is_ex: bool,
    is_star: bool,
    hi_speed: i64,
    f: (u32, u32),
    sx: Seq<char>,
)
    ensures
        fragment_text(
            seq![SimaiNoteView::Tap { measure, button, is_break, is_ex, is_star, hi_speed }],
            seq![f],
            seq![sx],
        ) == decimal(button as nat + 1) + (if is_break { seq!['b'] } else { Seq::<char>::empty() }) + (if is_ex {
            seq!['x']
        } else {
            Seq::<char>::empty()
        }) + (if is_star { seq!['$'] } else { Seq::<char>::empty() }),
{
    let ns = seq![SimaiNoteView::Tap { measure, button, is_break, is_ex, is_star, hi_speed }];
    let fr = seq![f];
    let sxs = seq![sx];
    assert(!any_slide_from(ns, button)) by {
        if any_slide_from(ns, button) {
            let j = choose|j: int| 0 <= j < ns.len() && #[trigger] slide_from(ns[j], button);
            assert(j == 0);
        }
    }
    reveal_with_fuel(passes_acc, 6);
    reveal_with_fuel(pass_acc, 2);
    let e = (Seq::<char>::empty(), false);
    let t = decimal(button as nat + 1) + flag(is_break, 'b') + flag(is_ex, 'x') + flag(is_star, '$');
    assert(pass_acc(ns, fr, sxs, 1, 1, e) == (Seq::<char>::empty() + Seq::<char>::empty() + t, true));
    assert(Seq::<char>::empty() + Seq::<char>::empty() + t =~= t);
    let a1 = (t, true);
    assert(pass_acc(ns, fr, sxs, 2, 1, a1) == a1);
    assert(pass_acc(ns, fr, sxs, 3, 1, a1) == a1);
    assert(pass_acc(ns, fr, sxs, 4, 1, a1) == a1);
    assert(pass_acc(ns, fr, sxs, 5, 1, a1) == a1);
    assert(t =~= decimal(button as nat + 1) + (if is_break { seq!['b'] } else { Seq::<char>::empty() }) + (if is_ex {
        seq!['x']
    } else {
        Seq::<char>::empty()
    }) + (if is_star { seq!['$'] } else { Seq::<char>::empty() }));
}

/// A step holding one hold is written as the hold's 1-based button, `h`,
/// `x` when it is ex, then its length `[den:num]`.
pub proof fn lemma_lone_hold_text(
    measure: i64,
    button: u8,
    duration: i64,
    is_ex: bool,
    hi_speed: i64,
    f: (u32, u32),
    sx: Seq<char>,
)
    ensures
        fragment_text(seq![SimaiNoteView::Hold { measure, button, duration, is_ex, hi_speed }], seq![f], seq![sx])
            == decimal(button as nat + 1) + seq!['h'] + (if is_ex { seq!['x'] } else { Seq::<char>::empty() })
            + seq!['['] + decimal(f.0 as nat) + seq![':'] + decimal(f.1 as nat) + seq![']'],
{
    let ns = seq![SimaiNoteView::Hold { measure, button, duration, is_ex, hi_speed }];
    let fr = seq![f];
    let sxs = seq![sx];
    reveal_with_fuel(passes_acc, 6);
    reveal_with_fuel(pass_acc, 2);
    let e = (Seq::<char>::empty(), false);
    let t = decimal(button as nat + 1) + seq!['h'] + flag(is_ex, 'x') + frac_notation(f);
    assert(pass_acc(ns, fr, sxs, 1, 1, e) == e);
    assert(pass_acc(ns, fr, sxs, 2, 1, e) == (Seq::<char>::empty() + Seq::<char>::empty() + t, true));
    assert(Seq::<char>::empty() + Seq::<char>::empty() + t =~= t);
    let a2 = (t, true);
    assert(pass_acc(ns, fr, sxs, 3, 1, a2) == a2);
    assert(pass_acc(ns, fr, sxs, 4, 1, a2) == a2);
    assert(pass_acc(ns, fr, sxs, 5, 1, a2) == a2);
    assert(t =~= decimal(button as nat + 1) + seq!['h'] + (if is_ex { seq!['x'] } else { Seq::<char>::empty() })
        + seq!['['] + decimal(f.0 as nat) + seq![':'] + decimal(f.1 as nat) + seq![']']);
}

/// A step holding one touch tap is written as `C` for the centre, else the
/// region letter and 1-based position, then `f` when it is a firework.
pub proof fn lemma_lone_touch_text(
    measure: i64,
    region: char,
    position: u8,
    is_firework: bool,
    hi_speed: i64,
    f: (u32, u32),
    sx: Seq<char>,
)
    ensures
        fragment_text(
            seq![SimaiNoteView::TouchTap { measure, region, position, is_firework, hi_speed }],
            seq![f],
            seq![sx],
        ) == (if region == 'C' { seq!['C'] } else { seq![region] + decimal(position as nat + 1) }) + (if is_firework {
            seq!['f']
        } else {
            Seq::<char>::empty()
        }),
{
    let ns = seq![SimaiNoteView::TouchTap { measure, region, position, is_firework, hi_speed }];
    let fr = seq![f];
    let sxs = seq![sx];
    reveal_with_fuel(passes_acc, 6);
    reveal_with_fuel(pass_acc, 2);
    let e = (Seq::<char>::empty(), false);
    let t = sensor_notation(region, position) + flag(is_firework, 'f');
    assert(pass_acc(ns, fr, sxs, 1, 1, e) == e);
    assert(pass_acc(ns, fr, sxs, 2, 1, e) == e);
    assert(pass_acc(ns, fr, sxs, 3, 1, e) == (Seq::<char>::empty() + Seq::<char>::empty() + t, true));
    assert(Seq::<char>::empty() + Seq::<char>::empty() + t =~= t);
    let a = (t, true);
    assert(pass_acc(ns, fr, sxs, 4, 1, a) == a);
    assert(pass_acc(ns, fr, sxs, 5, 1, a) == a);
}

/// A step holding one slide without chained arcs, on a pattern other than
/// `V`, is written as its 1-based start button, then `?` when it is
/// tapless, else `b` when it is a break, else `x` when it is ex, then the
/// pattern, the 1-based end button and the slide's length suffix.
pub proof fn lemma_lone_slide_text(n: SimaiNoteView, f: (u32, u32), sx: Seq<char>)
    requires
        n is Slide,
        n->Slide_pattern != SlidePattern::BigV,
        n->Slide_chain.len() == 0,
    ensures
        fragment_text(seq![n], seq![f], seq![sx]) == decimal(n->Slide_start as nat + 1) + (if n->Slide_is_tapless {
            seq!['?']
        } else if n->Slide_is_break {
            seq!['b']
        } else if n->Slide_is_ex {
            seq!['x']
        } else {
            Seq::<char>::empty()
        }) + pattern_text(n->Slide_pattern) + decimal(n->Slide_end as nat + 1) + sx,
{
    let ns = seq![n];
    let fr = seq![f];
    let sxs = seq![sx];
    reveal_with_fuel(passes_acc, 6);
    reveal_with_fuel(pass_acc, 2);
    reveal_with_fuel(chain_notation, 1);
    let e = (Seq::<char>::empty(), false);
    assert(!start_seen(ns, 0, n->Slide_start));
    assert(!any_star_tap(ns, n->Slide_start)) by {
        if any_star_tap(ns, n->Slide_start) {
            let j = choose|j: int| 0 <= j < ns.len() && #[trigger] star_tap(ns[j], n->Slide_start);
            assert(j == 0);
        }
    }
    assert(pass_acc(ns, fr, sxs, 1, 1, e) == e);
    assert(pass_acc(ns, fr, sxs, 2, 1, e) == e);
    assert(pass_acc(ns, fr, sxs, 3, 1, e) == e);
    assert(pass_acc(ns, fr, sxs, 4, 1, e) == e);
    let r = note_item(ns, fr, sxs, 5, 0);
    assert(r is Some);
    let t = (r->0).0;
    assert(pass_acc(ns, fr, sxs, 5, 1, e) == (Seq::<char>::empty() + Seq::<char>::empty() + t, true));
    assert(Seq::<char>::empty() + Seq::<char>::empty() + t =~= t);
    assert(chain_notation(n->Slide_chain) =~= Seq::<char>::empty());
    assert(t =~= decimal(n->Slide_start as nat + 1) + (if n->Slide_is_tapless {
        seq!['?']
    } else if n->Slide_is_break {
        seq!['b']
    } else if n->Slide_is_ex {
        seq!['x']
    } else {
        Seq::<char>::empty()
    }) + pattern_text(n->Slide_pattern) + decimal(n->Slide_end as nat + 1) + sx);
}

/// Two taps of one step are written in their order, separated by `/`.
pub proof fn lemma_two_taps_text(a: SimaiNoteView, b: SimaiNoteView, f: (u32, u32), sx: Seq<char>)
    requires
        a matches SimaiNoteView::Tap { is_star, .. } && !is_star,
        b matches SimaiNoteView::Tap { is_star, .. } && !is_star,
    ensures
        fragment_text(seq![a, b], seq![f, f], seq![sx, sx]) == fragment_text(seq![a], seq![f], seq![sx]) + seq!['/']
            + fragment_text(seq![b], seq![f], seq![sx]),
{
    let ns = seq![a, b];
    let fr = seq![f, f];
    let sxs = seq![sx, sx];
    reveal_with_fuel(passes_acc, 6);
    reveal_with_fuel(pass_acc, 3);
    let e = (Seq::<char>::empty(), false);
    let ta = (note_item(ns, fr, sxs, 1, 0)->0).0;
    let tb = (note_item(ns, fr, sxs, 1, 1)->0).0;
    assert(note_item(ns, fr, sxs, 1, 0) is Some);
    assert(note_item(ns, fr, sxs, 1, 1) is Some);
    assert(pass_acc(ns, fr, sxs, 1, 2, e) == (Seq::<char>::empty() + Seq::<char>::empty() + ta + seq!['/'] + tb, true));
    let a2 = pass_acc(ns, fr, sxs, 1, 2, e);
    assert(pass_acc(ns, fr, sxs, 2, 2, a2) == a2);
    assert(pass_acc(ns, fr, sxs, 3, 2, a2) == a2);
    assert(pass_acc(ns, fr, sxs, 4, 2, a2) == a2);
    assert(pass_acc(ns, fr, sxs, 5, 2, a2) == a2);
    let na = seq![a];
    let nb = seq![b];
    assert(pass_acc(na, seq![f], seq![sx], 1, 1, e) == (Seq::<char>::empty() + Seq::<char>::empty() + ta, true));
    assert(pass_acc(nb, seq![f], seq![sx], 1, 1, e) == (Seq::<char>::empty() + Seq::<char>::empty() + tb, true));
    let a1 = pass_acc(na, seq![f], seq![sx], 1, 1, e);
    let b1 = pass_acc(nb, seq![f], seq![sx], 1, 1, e);
    assert(pass_acc(na, seq![f], seq![sx], 2, 1, a1) == a1);
    assert(pass_acc(na, seq![f], seq![sx], 3, 1, a1) == a1);
    assert(pass_acc(na, seq![f], seq![sx], 4, 1, a1) == a1);
    assert(pass_acc(na, seq![f], seq![sx], 5, 1, a1) == a1);
    assert(pass_acc(nb, seq![f], seq![sx], 2, 1, b1) == b1);
    assert(pass_acc(nb, seq![f], seq![sx], 3, 1, b1) == b1);
    assert(pass_acc(nb, seq![f], seq![sx], 4, 1, b1) == b1);
    assert(pass_acc(nb, seq![f], seq![sx], 5, 1, b1) == b1);
    assert(Seq::<char>::empty() + Seq::<char>::empty() + ta + seq!['/'] + tb =~= ta + seq!['/'] + tb);
    assert(Seq::<char>::empty() + Seq::<char>::empty() + ta =~= ta);
    assert(Seq::<char>::empty() + Seq::<char>::empty() + tb =~= tb);
}

/// The text of one Simai time step (see [`fragment_text`]): `hold_fracs[i]`
/// is the `[den:num]` length of note `i` when it is a hold, and
/// `slide_suffixes[i]` the length suffix of note `i` when it is a slide.
pub fn render_fragment(notes: &Vec<SimaiNote>, hold_fracs: &Vec<(u32, u32)>, slide_suffixes: &Vec<String>) -> (s: String)
    requires
        hold_fracs@.len() == notes@.len(),
        slide_suffixes@.len() == notes@.len(),
    ensures
        s@ == fragment_text(simai_notes_view(notes@), hold_fracs@, texts_view(slide_suffixes@)),
{
    let ghost ns = simai_notes_view(notes@);
    let ghost fr = hold_fracs@;
    let ghost sx = texts_view(slide_suffixes@);
    let mut out = String::new();
    let mut started = false;
    let mut pass: u8 = 1;
    while pass <= 5
        invariant
            1 <= pass <= 6,
            hold_fracs@.len() == notes@.len(),
            slide_suffixes@.len() == notes@.len(),
            ns == simai_notes_view(notes@),
            fr == hold_fracs@,
            sx == texts_view(slide_suffixes@),
            (out@, started) == passes_acc(ns, fr, sx, pass - 1),
        decreases 6 - pass,
    {
        let ghost acc0 = (out@, started);
        let mut i: usize = 0;
        while i < notes.len()
            invariant
                1 <= pass <= 5,
                i <= notes@.len(),
                hold_fracs@.len() == notes@.len(),
                slide_suffixes@.len() == notes@.len(),
                ns == simai_notes_view(notes@),
                fr == hold_fracs@,
                sx == texts_view(slide_suffixes@),
                (out@, started) == pass_acc(ns, fr, sx, pass as int, i as int, acc0),
            decreases notes.len() - i,
        {
            let it = note_text(notes, hold_fracs, slide_suffixes, pass, i);
            write_note(&mut out, &mut started, it);
            i = i + 1;
        }
        assert(ns.len() == notes@.len());
        pass = pass + 1;
    }
    out
}

// ---------------------------------------------------------------------------
// Charts
// ---------------------------------------------------------------------------

/// One time step of a chart as it is laid out: its tempo mark (`(bpm)` or
/// nothing), the text of its notes, the beat divisor it is written under,
/// how many steps of that divisor and how many whole measures follow it, and
/// the whole measure the writer had reached before it.
#[derive(Debug, Clone)]
pub struct ChartStep {
    pub bpm_prefix: String,
    pub fragment: String,
    pub divisor: u32,
    pub rests: i32,
    pub wholes: i32,
    pub tick_floor: i64,
}

/// `n` commas (none when `n` is not positive).
pub open spec fn commas(n: int) -> Seq<char> {
    Seq::new(if n > 0 { n as nat } else { 0 }, |i: int| ',')
}

/// The text so far, the divisor last written and the whole measure at which
/// it was written, after one more step. A step opens a new line with its
/// divisor `{d}` when the divisor changes or a new whole measure was reached;
/// whole measures of rest are written under `{1}`.
pub open spec fn step_state(st: (Seq<char>, Option<u32>, i64), c: ChartStep) -> (Seq<char>, Option<u32>, i64) {
    let opens = st.1 != Some(c.divisor) || c.tick_floor > st.2;
    let out1 = if opens {
        st.0 + (if st.0.len() > 0 { seq!['\n'] } else { Seq::empty() }) + c.bpm_prefix@ + seq!['{']
            + decimal(c.divisor as nat) + seq!['}'] + c.fragment@
    } else {
        st.0 + c.bpm_prefix@ + c.fragment@
    };
    let div1 = if opens { Some(c.divisor) } else { st.1 };
    let int1 = if opens { c.tick_floor } else { st.2 };
    let out2 = out1 + commas(c.rests as int);
    if c.wholes > 0 {
        if c.divisor != 1 {
            (out2 + "{1}"@ + commas(c.wholes as int), Some(1u32), int1)
        } else {
            (out2 + commas(c.wholes as int), div1, int1)
        }
    } else {
        (out2, div1, int1)
    }
}

/// The state after the first `k` steps.
pub open spec fn steps_state(steps: Seq<ChartStep>, k: int) -> (Seq<char>, Option<u32>, i64)
    decreases k,
{
    if k <= 0 {
        (Seq::empty(), None, 0)
    } else {
        step_state(steps_state(steps, k - 1), steps[k - 1])
    }
}

/// The text of a chart laid out in `steps`, closed by `,` and the end mark
/// `E`.
pub open spec fn chart_text_spec(steps: Seq<ChartStep>) -> Seq<char> {
    steps_state(steps, steps.len() as int).0 + ",\nE\n"@
}

fn append_commas(out: &mut String, n: i32)
    ensures
        final(out)@ == old(out)@ + commas(n as int),
{
    let ghost o = out@;
    let mut k: i32 = 0;
    while k < n
        invariant
            0 <= k,
            k <= (if n > 0 { n } else { 0 }),
            out@ == o + commas(k as int),
        decreases n - k,
    {
        push_char(out, ',');
        k = k + 1;
        assert(out@ =~= o + commas(k as int));
    }
    assert(commas(k as int) =~= commas(n as int));
}

fn write_step(out: &mut String, prev_div: &mut Option<u32>, prev_int: &mut i64, c: &ChartStep)
    ensures
        (final(out)@, *final(prev_div), *final(prev_int)) == step_state((old(out)@, *old(prev_div), *old(prev_int)), *c),
{
    let ghost o = out@;
    let opens = match *prev_div {
        Some(d) => d != c.divisor,
        None => true,
    } || c.tick_floor > *prev_int;
    if opens {
        if !out.as_str().is_empty() {
            push_char(out, '\n');
        }
        append_string(out, &c.bpm_prefix);
        push_char(out, '{');
        append_decimal(out, c.divisor);
        push_char(out, '}');
        append_string(out, &c.fragment);
        *prev_div = Some(c.divisor);
        *prev_int = c.tick_floor;
        assert(out@ =~= o + (if o.len() > 0 { seq!['\n'] } else { Seq::<char>::empty() }) + c.bpm_prefix@ + seq!['{']
            + decimal(c.divisor as nat) + seq!['}'] + c.fragment@);
    } else {
        append_string(out, &c.bpm_prefix);
        append_string(out, &c.fragment);
        assert(out@ =~= o + c.bpm_prefix@ + c.fragment@);
    }
    append_commas(out, c.rests);
    if c.wholes > 0 {
        if c.divisor != 1 {
            out.append("{1}");
            *prev_div = Some(1);
        }
        append_commas(out, c.wholes);
    }
}

/// A chart being written step by step.
pub struct ChartWriter {
    out: String,
    prev_div: Option<u32>,
    prev_int: i64,
}

impl ChartWriter {
    /// The text so far, the divisor last written and the whole measure at
    /// which it was written.
    pub closed spec fn state(&self) -> (Seq<char>, Option<u32>, i64) {
        (self.out@, self.prev_div, self.prev_int)
    }

    /// A writer that has written nothing.
    pub fn new() -> (w: ChartWriter)
        ensures
            w.state() == steps_state(Seq::empty(), 0),
    {
        ChartWriter { out: String::new(), prev_div: None, prev_int: 0 }
    }

    /// The beat divisor the text continues under, if any was written.
    pub fn divisor(&self) -> (d: Option<u32>)
        ensures
            d == self.state().1,
    {
        self.prev_div
    }

    /// Writes one more step (see [`step_state`]).
    pub fn step(&mut self, c: &ChartStep)
        ensures
            final(self).state() == step_state(old(self).state(), *c),
    {
        write_step(&mut self.out, &mut self.prev_div, &mut self.prev_int, c);
    }

    /// The chart's text, closed by `,` and the end mark `E`.
    pub fn finish(self) -> (s: String)
        ensures
            s@ == self.state().0 + ",\nE\n"@,
    {
        let mut out = self.out;
        out.append(",\nE\n");
        out
    }
}

/// The text of a chart laid out in `steps` (see [`chart_text_spec`]).
pub fn chart_text(steps: &Vec<ChartStep>) -> (s: String)
    ensures
        s@ == chart_text_spec(steps@),
{
    let mut w = ChartWriter::new();
    let mut k: usize = 0;
    while k < steps.len()
        invariant
            k <= steps@.len(),
            w.state() == steps_state(steps@, k as int),
        decreases steps.len() - k,
    {
        w.step(&steps[k]);
        k = k + 1;
    }
    w.finish()
}

// ---------------------------------------------------------------------------
// Files
// ---------------------------------------------------------------------------

/// The level lines `&lv_N=label`, one per level, in order.
pub open spec fn levels_text(levels: Seq<(u32, String)>) -> Seq<char>
    decreases levels.len(),
{
    if levels.len() == 0 {
        Seq::empty()
    } else {
        levels_text(levels.drop_last()) + "&lv_"@ + decimal(levels.last().0 as nat) + seq!['='] + levels.last().1@
            + seq!['\n']
    }
}

/// The chart lines `&inote_N=text`, one per chart, with the chart texts in
/// `texts`.
pub open spec fn charts_text(charts: Seq<(u32, crate::simai_io::SimaiChart)>, texts: Seq<Seq<char>>) -> Seq<char>
    decreases charts.len(),
{
    if charts.len() == 0 {
        Seq::empty()
    } else {
        charts_text(charts.drop_last(), texts) + "&inote_"@ + decimal(charts.last().0 as nat) + seq!['=']
            + texts[charts.len() - 1] + seq!['\n']
    }
}

/// The text of a Simai file: its source text when it holds no chart but
/// came from text; else the `&title=`, `&artist=`, `&first=` lines, a
/// `&wholebpm=` line when it has a whole-song tempo, its level lines and its
/// chart lines. `first`, `wholebpm` and the chart texts are given written
/// out.
pub open spec fn file_text(file: SimaiFile, first: Seq<char>, wholebpm: Seq<char>, texts: Seq<Seq<char>>) -> Seq<char> {
    if file.charts@.len() == 0 && file.source_text@.len() != 0 {
        file.source_text@
    } else {
        "&title="@ + file.title@ + seq!['\n'] + "&artist="@ + file.artist@ + seq!['\n'] + "&first="@ + first
            + seq!['\n'] + (if file.wholebpm is Some { "&wholebpm="@ + wholebpm + seq!['\n'] } else { Seq::empty() })
            + levels_text(file.levels@) + charts_text(file.charts@, texts)
    }
}

/// The text of a Simai file (see [`file_text`]): `first_text` is its offset
/// written out, `wholebpm_text` its whole-song tempo written out (used when
/// it has one), and `chart_texts[i]` the text of chart `i`.
pub fn export_simai_file(file: &SimaiFile, first_text: &String, wholebpm_text: &String, chart_texts: &Vec<String>) -> (s: String)
    requires
        chart_texts@.len() == file.charts@.len(),
    ensures
        s@ == file_text(*file, first_text@, wholebpm_text@, texts_view(chart_texts@)),
{
    if file.charts.len() == 0 && !file.source_text.as_str().is_empty() {
        return file.source_text.clone();
    }
    let mut s = String::new();
    let ghost e = s@;
    s.append("&title=");
    append_string(&mut s, &file.title);
    push_char(&mut s, '\n');
    s.append("&artist=");
    append_string(&mut s, &file.artist);
    push_char(&mut s, '\n');
    s.append("&first=");
    append_string(&mut s, first_text);
    push_char(&mut s, '\n');
    let ghost head = s@;
    if file.wholebpm.is_some() {
        s.append("&wholebpm=");
        append_string(&mut s, wholebpm_text);
        push_char(&mut s, '\n');
    }
    let ghost with_bpm = s@;
    assert(e =~= Seq::<char>::empty());
    assert(head =~= "&title="@ + file.title@ + seq!['\n'] + "&artist="@ + file.artist@ + seq!['\n'] + "&first="@
        + first_text@ + seq!['\n']);
    assert(with_bpm =~= head + (if file.wholebpm is Some { "&wholebpm="@ + wholebpm_text@ + seq!['\n'] } else {
        Seq::<char>::empty()
    }));
    let mut k: usize = 0;
    while k < file.levels.len()
        invariant
            k <= file.levels@.len(),
            s@ == with_bpm + levels_text(file.levels@.subrange(0, k as int)),
        decreases file.levels.len() - k,
    {
        let ghost before = s@;
        s.append("&lv_");
        append_decimal(&mut s, file.levels[k].0);
        push_char(&mut s, '=');
        append_string(&mut s, &file.levels[k].1);
        push_char(&mut s, '\n');
        proof {
            let l = file.levels@.subrange(0, k as int + 1);
            assert(l.drop_last() =~= file.levels@.subrange(0, k as int));
            assert(l.last() == file.levels@[k as int]);
            assert(s@ =~= before + "&lv_"@ + decimal(l.last().0 as nat) + seq!['='] + l.last().1@ + seq!['\n']);
        }
        k = k + 1;
    }
    assert(file.levels@.subrange(0, file.levels@.len() as int) =~= file.levels@);
    let ghost with_levels = s@;
    let mut c: usize = 0;
    while c < file.charts.len()
        invariant
            c <= file.charts@.len(),
            chart_texts@.len() == file.charts@.len(),
            s@ == with_levels + charts_text(file.charts@.subrange(0, c as int), texts_view(chart_texts@)),
        decreases file.charts.len() - c,
    {
        let ghost before = s@;
        s.append("&inote_");
        append_decimal(&mut s, file.charts[c].0);
        push_char(&mut s, '=');
        append_string(&mut s, &chart_texts[c]);
        push_char(&mut s, '\n');
        proof {
            let l = file.charts@.subrange(0, c as int + 1);
            assert(l.drop_last() =~= file.charts@.subrange(0, c as int));
            assert(l.last() == file.charts@[c as int]);
            assert(texts_view(chart_texts@)[c as int] == chart_texts@[c as int]@);
            assert(s@ =~= before + "&inote_"@ + decimal(l.last().0 as nat) + seq!['='] + texts_view(chart_texts@)[l.len() - 1]
                + seq!['\n']);
        }
        c = c + 1;
    }
    assert(file.charts@.subrange(0, file.charts@.len() as int) =~= file.charts@);
    s
}

} // verus!
