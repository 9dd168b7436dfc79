//! Convert a parsed Simai `maidata.txt` into the internal [`ChartDoc`].
//!
//! * a tap becomes a tap (button + 1 = lane 1..=8);
//! * a hold becomes a hold (duration in measures);
//! * a slide becomes a slide note (pattern to shape, chained arcs to
//!   segments, `*` splits into separate slides);
//! * touch taps and touch holds map onto pad zone numbers.
//!
//! Slide timing follows the same rule as the chart.json loader: the tracing
//! span is the travel plus a default one-beat (quarter measure) wait, unless
//! an explicit `[wait##travel]` wait is given. `is_star` (double star) is
//! decided by shared heads, exactly like the chart.json path.

use vstd::prelude::*;

use crate::maichart::{is_slide, mark_double_stars, recompute_each, with_double_stars, with_each};
use crate::model::{
    BpmChange, ChartDoc, Note, NoteType, NoteView, notes_view, plain_note, sort_by_measure,
    sort_by_time, sort_bpms_by_measure, sort_notes_by_time, QUANTA_PER_MEASURE,
};
use crate::simai_io::{
    arc_ok, build_chain_slides, chain_ok, chain_slides, lane_of, SimaiChart, SimaiFile, SimaiNote,
    DEFAULT_BPM,
};

verus! {

/// Default wait before a slide moves: one beat, a quarter measure (quanta).
pub const SLIDE_DEFAULT_WAIT: i64 = 25000;

// ---------------------------------------------------------------------------
// Choosing a chart
// ---------------------------------------------------------------------------

/// `x` placed after the last index of `s` whose key is not larger.
pub open spec fn insert_by_key(keys: Seq<u32>, s: Seq<int>, x: int) -> Seq<int>
    decreases s.len(),
{
    if s.len() == 0 {
        seq![x]
    } else if keys[s.last()] <= keys[x] {
        s.push(x)
    } else {
        insert_by_key(keys, s.drop_last(), x).push(s.last())
    }
}

/// The first `k` indices ordered by key; equal keys keep their order.
pub open spec fn order_upto(keys: Seq<u32>, k: int) -> Seq<int>
    decreases k,
{
    if k <= 0 {
        Seq::empty()
    } else {
        insert_by_key(keys, order_upto(keys, k - 1), k - 1)
    }
}

/// Chart indices in ascending `&inote_N=` order.
pub open spec fn key_order(keys: Seq<u32>) -> Seq<int> {
    order_upto(keys, keys.len() as int)
}

pub open spec fn chart_keys(charts: Seq<(u32, SimaiChart)>) -> Seq<u32> {
    charts.map_values(|c: (u32, SimaiChart)| c.0)
}

proof fn lemma_insert_key_at(keys: Seq<u32>, s: Seq<int>, x: int, j: int)
    requires
        0 <= j <= s.len(),
        j == 0 || keys[s[j - 1]] <= keys[x],
        forall|k: int| j <= k < s.len() ==> keys[#[trigger] s[k]] > keys[x],
    ensures
        insert_by_key(keys, s, x) == s.insert(j, x),
    decreases s.len(),
{
    if s.len() == 0 {
        assert(s.insert(j, x) =~= seq![x]);
    } else if keys[s.last()] <= keys[x] {
        assert(j == s.len());
        assert(s.insert(j, x) =~= s.push(x));
    } else {
        lemma_insert_key_at(keys, s.drop_last(), x, j);
        assert(s.insert(j, x) =~= s.drop_last().insert(j, x).push(s.last()));
    }
}

proof fn lemma_insert_key_range(keys: Seq<u32>, s: Seq<int>, x: int, n: int)
    requires
        0 <= x < n,
        forall|k: int| 0 <= k < s.len() ==> 0 <= #[trigger] s[k] < n,
    ensures
        insert_by_key(keys, s, x).len() == s.len() + 1,
        forall|k: int|
            0 <= k < insert_by_key(keys, s, x).len() ==> 0 <= #[trigger] insert_by_key(keys, s, x)[k] < n,
    decreases s.len(),
{
    if s.len() > 0 && keys[s.last()] > keys[x] {
        lemma_insert_key_range(keys, s.drop_last(), x, n);
    }
}

proof fn lemma_order_range(keys: Seq<u32>, k: int)
    requires
        0 <= k,
    ensures
        order_upto(keys, k).len() == k,
        forall|i: int| 0 <= i < k ==> 0 <= #[trigger] order_upto(keys, k)[i] < k,
    decreases k,
{
    if k > 0 {
        lemma_order_range(keys, k - 1);
        lemma_insert_key_range(keys, order_upto(keys, k - 1), k - 1, k);
    }
}

/// Indices of `charts` sorted by ascending `&inote_N=` key.
pub fn difficulty_order(charts: &Vec<(u32, SimaiChart)>) -> (order: Vec<usize>)
    ensures
        order@.len() == charts@.len(),
        forall|i: int| 0 <= i < order@.len() ==> order@[i] == key_order(chart_keys(charts@))[i],
        forall|i: int| 0 <= i < order@.len() ==> #[trigger] order@[i] < charts@.len(),
{
    let ghost keys = chart_keys(charts@);
    let mut order: Vec<usize> = Vec::new();
    let mut i: usize = 0;
    while i < charts.len()
        invariant
            i <= charts@.len(),
            keys == chart_keys(charts@),
            order@.len() == i,
            forall|k: int| 0 <= k < i ==> order@[k] == order_upto(keys, i as int)[k],
            forall|k: int| 0 <= k < i ==> #[trigger] order@[k] < i,
        decreases charts.len() - i,
    {
        let key = charts[i].0;
        proof {
            lemma_order_range(keys, i as int);
        }
        let ghost prev = order_upto(keys, i as int);
        let mut j = order.len();
        while j > 0 && charts[order[j - 1]].0 > key
            invariant
                j <= order@.len(),
                order@.len() == i,
                i < charts@.len(),
                keys == chart_keys(charts@),
                key == keys[i as int],
                prev == order_upto(keys, i as int),
                prev.len() == i,
                forall|k: int| 0 <= k < i ==> 0 <= #[trigger] prev[k] < i,
                forall|k: int| 0 <= k < i ==> order@[k] == prev[k],
                forall|k: int| 0 <= k < i ==> #[trigger] order@[k] < i,
                forall|k: int| j <= k < order@.len() ==> keys[#[trigger] prev[k]] > key,
            decreases j,
        {
            j = j - 1;
        }
        proof {
            lemma_insert_key_at(keys, prev, i as int, j as int);
        }
        let ghost before = order@;
        order.insert(j, i);
        i = i + 1;
        assert forall|k: int| 0 <= k < i implies order@[k] == order_upto(keys, i as int)[k] by {
            assert(order_upto(keys, i as int) == prev.insert(j as int, (i - 1) as int));
        }
        assert forall|k: int| 0 <= k < i implies #[trigger] order@[k] < i by {
            assert(order@ == before.insert(j as int, (i - 1) as usize));
            if k < j {
                assert(order@[k] == before[k]);
            } else if k > j {
                assert(order@[k] == before[k - 1]);
            }
        }
    }
    proof {
        lemma_order_range(keys, charts@.len() as int);
    }
    order
}

/// Position in the key order of the chart to load: `diff` counts from 1
/// (the easiest) and is clamped to the hardest; no `diff`, or one below 1,
/// means the hardest.
pub open spec fn chosen_position(n: int, diff: Option<i32>) -> int {
    match diff {
        Some(d) => if d >= 1 {
            if d - 1 < n - 1 { d - 1 } else { n - 1 }
        } else {
            n - 1
        },
        None => n - 1,
    }
}

/// Pick a chart index. `diff` is 1-based over `order`; `None` = hardest.
pub fn select_chart(order: &Vec<usize>, diff: Option<i32>) -> (r: usize)
    ensures
        order@.len() == 0 ==> r == 0,
        order@.len() > 0 ==> r == order@[chosen_position(order@.len() as int, diff)],
{
    if order.len() == 0 {
        return 0;
    }
    match diff {
        Some(d) => {
            if d >= 1 {
                let want = (d - 1) as usize;
                let last = order.len() - 1;
                if want < last {
                    order[want]
                } else {
                    order[last]
                }
            } else {
                order[order.len() - 1]
            }
        },
        None => order[order.len() - 1],
    }
}

/// The chart of `charts` to load for `diff`.
pub open spec fn selected_chart(charts: Seq<(u32, SimaiChart)>, diff: Option<i32>) -> int {
    key_order(chart_keys(charts))[chosen_position(charts.len() as int, diff)]
}

// ---------------------------------------------------------------------------
// Notes
// ---------------------------------------------------------------------------

/// Touch sensor region and 0-based position to a 1-based pad zone:
/// A = 1..8, B = 9..16, C = 17, D = 18..25, E = 26..33.
pub open spec fn sensor_lane_spec(region: char, position: u8) -> Option<u8> {
    let base: int = if region == 'A' {
        1
    } else if region == 'B' {
        9
    } else if region == 'C' {
        17
    } else if region == 'D' {
        18
    } else if region == 'E' {
        26
    } else {
        0
    };
    if base == 0 {
        None
    } else if region == 'C' {
        Some(17)
    } else if position <= 7 {
        Some((base + position) as u8)
    } else {
        None
    }
}

/// Touch sensor region and position to a 1-based pad zone.
pub fn sensor_lane(region: char, position: u8) -> (r: Option<u8>)
    ensures
        r == sensor_lane_spec(region, position),
{
    let base: u8 = match region {
        'A' => 1,
        'B' => 9,
        'C' => 17,
        'D' => 18,
        'E' => 26,
        _ => return None,
    };
    if region == 'C' {
        Some(17)
    } else if position <= 7 {
        Some(base + position)
    } else {
        None
    }
}

/// The wait of a slide: the written one, else one beat.
pub open spec fn slide_wait(delay: i64, delay_explicit: bool) -> i64 {
    if delay_explicit {
        delay
    } else {
        SLIDE_DEFAULT_WAIT
    }
}

/// The chart note of a Simai note; touch notes outside A-E are dropped.
pub open spec fn maidata_note(n: SimaiNote) -> Option<NoteView> {
    match n {
        SimaiNote::Tap { measure, button, is_break, is_ex, is_star, hi_speed } => Some(
            NoteView { is_break, is_ex, is_star, hi_speed, ..plain_note(measure, lane_of(button), NoteType::Tap) },
        ),
        SimaiNote::Hold { measure, button, duration, is_ex, hi_speed } => Some(
            NoteView {
                hold_duration: duration,
                is_ex,
                hi_speed,
                ..plain_note(measure, lane_of(button), NoteType::Hold)
            },
        ),
        SimaiNote::TouchTap { measure, region, position, hi_speed, .. } => match sensor_lane_spec(
            region,
            position,
        ) {
            Some(lane) => Some(NoteView { hi_speed, ..plain_note(measure, lane, NoteType::Touch) }),
            None => None,
        },
        SimaiNote::TouchHold { measure, region, position, duration, hi_speed, .. } => match sensor_lane_spec(
            region,
            position,
        ) {
            Some(lane) => Some(
                NoteView { hold_duration: duration, hi_speed, ..plain_note(measure, lane, NoteType::Hold) },
            ),
            None => None,
        },
        SimaiNote::Slide {
            measure,
            start,
            end,
            pattern,
            reflect,
            duration,
            delay,
            delay_explicit,
            is_break,
            is_ex,
            is_tapless,
            chain,
            hi_speed,
        } => {
            let wait = slide_wait(delay, delay_explicit);
            Some(
                NoteView {
                    is_break,
                    is_ex,
                    is_tapless,
                    hi_speed,
                    slide: chain_slides(end, pattern, reflect, chain@, (wait + duration) as i64, wait, is_break),
                    ..plain_note(measure, lane_of(start), NoteType::Slide)
                },
            )
        },
    }
}

/// Buttons fit a 1-based lane in a byte and a slide's span fits in `i64`.
pub open spec fn maidata_note_ok(n: SimaiNote) -> bool {
    match n {
        SimaiNote::Tap { button, .. } => button < 255,
        SimaiNote::Hold { button, .. } => button < 255,
        SimaiNote::Slide { start, end, pattern, reflect, chain, duration, delay, delay_explicit, .. } => {
            &&& start < 255
            &&& arc_ok(pattern, end, reflect)
            &&& chain_ok(chain@)
            &&& i64::MIN <= slide_wait(delay, delay_explicit) + duration <= i64::MAX
        },
        _ => true,
    }
}

pub open spec fn maidata_notes_ok(ns: Seq<SimaiNote>) -> bool {
    forall|i: int| 0 <= i < ns.len() ==> maidata_note_ok(#[trigger] ns[i])
}

/// The chart notes of the first `k` Simai notes, in order.
pub open spec fn maidata_notes_upto(ns: Seq<SimaiNote>, k: int) -> Seq<NoteView>
    decreases k,
{
    if k <= 0 {
        Seq::empty()
    } else {
        let prev = maidata_notes_upto(ns, k - 1);
        match maidata_note(ns[k - 1]) {
            Some(n) => prev.push(n),
            None => prev,
        }
    }
}

fn convert_note(n: &SimaiNote) -> (r: Option<Note>)
    requires
        maidata_note_ok(*n),
    ensures
        match r {
            Some(x) => maidata_note(*n) == Some(x@),
            None => maidata_note(*n) is None,
        },
{
    match n {
        SimaiNote::Tap { measure, button, is_break, is_ex, is_star, hi_speed } => {
            let mut x = Note::new(*measure, *button + 1, NoteType::Tap);
            x.is_break = *is_break;
            x.is_ex = *is_ex;
            x.is_star = *is_star;
            x.hi_speed = *hi_speed;
            assert(x@.slide =~= maidata_note(*n).unwrap().slide);
            Some(x)
        },
        SimaiNote::Hold { measure, button, duration, is_ex, hi_speed } => {
            let mut x = Note::new(*measure, *button + 1, NoteType::Hold);
            x.hold_duration = *duration;
            x.is_ex = *is_ex;
            x.hi_speed = *hi_speed;
            assert(x@.slide =~= maidata_note(*n).unwrap().slide);
            Some(x)
        },
        SimaiNote::TouchTap { measure, region, position, hi_speed, .. } => {
            match sensor_lane(*region, *position) {
                Some(lane) => {
                    let mut x = Note::new(*measure, lane, NoteType::Touch);
                    x.hi_speed = *hi_speed;
                    assert(x@.slide =~= maidata_note(*n).unwrap().slide);
                    Some(x)
                },
                None => None,
            }
        },
        SimaiNote::TouchHold { measure, region, position, duration, hi_speed, .. } => {
            match sensor_lane(*region, *position) {
                Some(lane) => {
                    let mut x = Note::new(*measure, lane, NoteType::Hold);
                    x.hold_duration = *duration;
                    x.hi_speed = *hi_speed;
                    assert(x@.slide =~= maidata_note(*n).unwrap().slide);
                    Some(x)
                },
                None => None,
            }
        },
        SimaiNote::Slide {
            measure,
            start,
            end,
            pattern,
            reflect,
            duration,
            delay,
            delay_explicit,
            is_break,
            is_ex,
            is_tapless,
            chain,
            hi_speed,
        } => {
            let wait = if *delay_explicit { *delay } else { SLIDE_DEFAULT_WAIT };
            let slides = build_chain_slides(
                *start,
                *end,
                *pattern,
                *reflect,
                chain,
                wait + *duration,
                wait,
                *is_break,
            );
            let mut x = Note::new(*measure, *start + 1, NoteType::Slide);
            x.is_break = *is_break;
            x.is_ex = *is_ex;
            x.is_tapless = *is_tapless;
            x.hi_speed = *hi_speed;
            x.slide = slides;
            Some(x)
        },
    }
}

/// Another note of `s` is a slide at `n`'s position and lane.
pub open spec fn heads_slide(s: Seq<NoteView>, n: NoteView) -> bool {
    exists|j: int| 0 <= j < s.len() && is_slide(#[trigger] s[j]) && s[j].time == n.time && s[j].lane == n.lane
}

/// A star tap that only heads a slide of `s`.
pub open spec fn is_head_tap(s: Seq<NoteView>, n: NoteView) -> bool {
    n.note_type == NoteType::Tap && n.is_star && heads_slide(s, n)
}

/// The first `k` notes of `all` without the star taps that head a slide.
pub open spec fn without_head_taps(all: Seq<NoteView>, k: int) -> Seq<NoteView>
    decreases k,
{
    if k <= 0 {
        Seq::empty()
    } else {
        let prev = without_head_taps(all, k - 1);
        if is_head_tap(all, all[k - 1]) {
            prev
        } else {
            prev.push(all[k - 1])
        }
    }
}

fn heads_slide_exec(notes: &Vec<Note>, i: usize) -> (b: bool)
    requires
        i < notes@.len(),
    ensures
        b == heads_slide(notes_view(notes@), notes@[i as int]@),
{
    let ghost s = notes_view(notes@);
    let mut j: usize = 0;
    while j < notes.len()
        invariant
            j <= notes@.len(),
            i < notes@.len(),
            s == notes_view(notes@),
            forall|k: int|
                0 <= k < j ==> !(is_slide(#[trigger] s[k]) && s[k].time == s[i as int].time && s[k].lane
                    == s[i as int].lane),
        decreases notes.len() - j,
    {
        if notes[j].note_type == NoteType::Slide && notes[j].time == notes[i].time && notes[j].lane
            == notes[i].lane {
            assert(is_slide(s[j as int]));
            return true;
        }
        j = j + 1;
    }
    false
}

/// Drop star taps that are only the head of a slide at the same position
/// and lane: the slide draws its own head, so the duplicate tap goes.
pub fn drop_slide_star_taps(notes: &mut Vec<Note>)
    ensures
        notes_view(final(notes)@) == without_head_taps(
            notes_view(old(notes)@),
            old(notes)@.len() as int,
        ),
{
    let ghost all = notes_view(notes@);
    let n = notes.len();
    let mut drop: Vec<bool> = Vec::new();
    let mut i: usize = 0;
    while i < n
        invariant
            n == notes@.len(),
            i <= n,
            all == notes_view(notes@),
            drop@.len() == i,
            forall|k: int| 0 <= k < i ==> drop@[k] == is_head_tap(all, all[k]),
        decreases n - i,
    {
        let head = heads_slide_exec(notes, i);
        drop.push(notes[i].note_type == NoteType::Tap && notes[i].is_star && head);
        i = i + 1;
    }
    let mut rest: Vec<Note> = Vec::new();
    std::mem::swap(notes, &mut rest);
    let mut k: usize = 0;
    while k < n
        invariant
            n == all.len(),
            drop@.len() == n,
            forall|m: int| 0 <= m < n ==> drop@[m] == is_head_tap(all, all[m]),
            k <= n,
            rest@.len() == n - k,
            notes_view(rest@) == all.subrange(k as int, n as int),
            notes_view(notes@) == without_head_taps(all, k as int),
        decreases n - k,
    {
        let ghost old_rest = rest@;
        let x = rest.remove(0);
        assert(notes_view(old_rest)[0] == x@);
        assert(rest@ =~= old_rest.drop_first());
        assert(notes_view(rest@) =~= notes_view(old_rest).drop_first());
        assert(notes_view(rest@) =~= all.subrange(k + 1, n as int));
        if !drop[k] {
            let ghost before = notes@;
            notes.push(x);
            assert(notes_view(notes@) =~= notes_view(before).push(x@));
        }
        k = k + 1;
    }
}

// ---------------------------------------------------------------------------
// Conversion
// ---------------------------------------------------------------------------

/// Tempo changes in position order, or 120 from measure 1 when there is none.
pub open spec fn bpms_or_default(bpms: Seq<BpmChange>) -> Seq<BpmChange> {
    let s = sort_by_measure(bpms);
    if s.len() == 0 {
        seq![BpmChange { measure: QUANTA_PER_MEASURE, bpm: DEFAULT_BPM }]
    } else {
        s
    }
}

fn build_bpms(chart: &SimaiChart) -> (r: Vec<BpmChange>)
    ensures
        r@ == bpms_or_default(chart.bpms@),
        r@.len() > 0,
{
    let mut bpms = sort_bpms_by_measure(&chart.bpms);
    if bpms.len() == 0 {
        bpms.push(BpmChange { measure: QUANTA_PER_MEASURE, bpm: DEFAULT_BPM });
        assert(bpms@ =~= seq![BpmChange { measure: QUANTA_PER_MEASURE, bpm: DEFAULT_BPM }]);
    }
    bpms
}

/// The level number of the first label with key `key`, or 0.
pub open spec fn level_of(keys: Seq<u32>, numbers: Seq<u32>, key: u32) -> u32
    decreases keys.len(),
{
    if keys.len() == 0 || numbers.len() == 0 {
        0
    } else if keys[0] == key {
        numbers[0]
    } else {
        level_of(keys.drop_first(), numbers.drop_first(), key)
    }
}

pub open spec fn label_keys(levels: Seq<(u32, String)>) -> Seq<u32> {
    levels.map_values(|l: (u32, String)| l.0)
}

fn find_level(levels: &Vec<(u32, String)>, numbers: &Vec<u32>, key: u32) -> (r: u32)
    requires
        numbers@.len() == levels@.len(),
    ensures
        r == level_of(label_keys(levels@), numbers@, key),
{
    let ghost keys = label_keys(levels@);
    let mut i: usize = 0;
    assert(keys.skip(0) =~= keys);
    assert(numbers@.skip(0) =~= numbers@);
    while i < levels.len()
        invariant
            i <= levels@.len(),
            numbers@.len() == levels@.len(),
            keys == label_keys(levels@),
            level_of(keys, numbers@, key) == level_of(keys.skip(i as int), numbers@.skip(i as int), key),
        decreases levels.len() - i,
    {
        assert(keys.skip(i as int)[0] == levels@[i as int].0);
        assert(numbers@.skip(i as int)[0] == numbers@[i as int]);
        if levels[i].0 == key {
            return numbers[i];
        }
        assert(keys.skip(i as int).drop_first() =~= keys.skip(i + 1));
        assert(numbers@.skip(i as int).drop_first() =~= numbers@.skip(i + 1));
        i = i + 1;
    }
    0
}

/// `doc` is the chart made of Simai chart `chart` with key `key` of `file`;
/// `numbers` are the level numbers of the file's level labels.
pub open spec fn converted(
    doc: ChartDoc,
    file: SimaiFile,
    numbers: Seq<u32>,
    key: u32,
    chart: SimaiChart,
) -> bool {
    let raw = maidata_notes_upto(chart.notes@, chart.notes@.len() as int);
    &&& doc.version@ == "simai-1"@
    &&& doc.title@ == file.title@
    &&& doc.artist@ == file.artist@
    &&& doc.simai_level == level_of(label_keys(file.levels@), numbers, key)
    &&& doc.bpms@ == bpms_or_default(chart.bpms@)
    &&& doc.bpm == bpms_or_default(chart.bpms@)[0].bpm
    &&& doc.audio_offset == file.first
    &&& notes_view(doc.notes@) == with_each(
        with_double_stars(sort_by_time(without_head_taps(raw, raw.len() as int))),
    )
}

/// Build a [`ChartDoc`] from a parsed maidata file. `diff` is 1-based over
/// the charts in ascending `&inote_N=` order (so `1` is the easiest); `None`
/// picks the hardest. `level_numbers` holds the level number of each level
/// label of the file.
pub fn convert(file: SimaiFile, diff: Option<i32>, level_numbers: &Vec<u32>) -> (doc: ChartDoc)
    requires
        file.charts@.len() > 0,
        level_numbers@.len() == file.levels@.len(),
        maidata_notes_ok(file.charts@[selected_chart(file.charts@, diff)].1.notes@),
    ensures
        converted(
            doc,
            file,
            level_numbers@,
            file.charts@[selected_chart(file.charts@, diff)].0,
            file.charts@[selected_chart(file.charts@, diff)].1,
        ),
{
    let ghost whole = file;
    let order = difficulty_order(&file.charts);
    let idx = select_chart(&order, diff);
    assert(idx == selected_chart(file.charts@, diff));
    let SimaiFile { title, artist, first, levels, charts, .. } = file;
    let key = charts[idx].0;
    let chart = &charts[idx].1;
    let bpms = build_bpms(chart);
    let bpm = bpms[0].bpm;
    let ns = &chart.notes;
    let mut notes: Vec<Note> = Vec::new();
    let mut i: usize = 0;
    while i < ns.len()
        invariant
            i <= ns@.len(),
            maidata_notes_ok(ns@),
            notes_view(notes@) == maidata_notes_upto(ns@, i as int),
        decreases ns.len() - i,
    {
        assert(maidata_note_ok(ns@[i as int]));
        if let Some(x) = convert_note(&ns[i]) {
            let ghost before = notes@;
            notes.push(x);
            assert(notes_view(notes@) =~= notes_view(before).push(x@));
        }
        i = i + 1;
    }
    drop_slide_star_taps(&mut notes);
    let mut notes = sort_notes_by_time(notes);
    mark_double_stars(&mut notes);
    recompute_each(&mut notes);
    let simai_level = find_level(&levels, level_numbers, key);
    ChartDoc {
        version: String::from_str("simai-1"),
        title,
        artist,
        simai_level,
        bpm,
        bpms,
        audio_offset: first,
        notes,
    }
}

/// A chart read from maidata lists its notes in time order.
pub proof fn lemma_maidata_notes_in_time_order(chart: SimaiChart)
    ensures
        ({
            let raw = maidata_notes_upto(chart.notes@, chart.notes@.len() as int);
            crate::model::time_sorted(
                with_each(with_double_stars(sort_by_time(without_head_taps(raw, raw.len() as int)))),
            )
        }),
{
    let raw = maidata_notes_upto(chart.notes@, chart.notes@.len() as int);
    let kept = without_head_taps(raw, raw.len() as int);
    crate::model::lemma_sort_by_time(kept);
    crate::maichart::lemma_marks_keep_times(sort_by_time(kept));
}

} // verus!
