//! Beat-based save format: measure + beat + division + offset.
//!
//! Notes are saved on a grid of 384 ticks per measure (96 per beat in 4/4).
//! A position is written as a 1-based measure, a 1-based beat, and the
//! remaining ticks as the reduced fraction `offset / division` of a beat.

use vstd::prelude::*;

use crate::simai_io::{divides, gcd_spec, lemma_gcd_divides, lemma_gcd_pos};
use crate::model::{
    BpmChange, ChartDoc, Note, NoteType, Slide, SlideView, slides_view, QUANTA_PER_MEASURE,
};

verus! {

pub const TICKS_PER_MEASURE: i32 = 384;

pub const TICKS_PER_BEAT: i32 = 96;

/// A saved note.
#[derive(Debug, Clone)]
pub struct SerNote {
    pub measure: i32,
    pub beat: i32,
    /// Beat subdivision of `offset`; `1` when the note sits on a beat.
    pub division: i32,
    pub offset: i32,
    pub lane: u8,
    pub note_type: NoteType,
    pub is_each: bool,
    pub is_break: bool,
    pub is_ex: bool,
    pub is_star: bool,
    pub is_tapless: bool,
    /// Hold duration as [numerator, denominator] in beats.
    pub hold_duration: Option<[i32; 2]>,
    pub slide: Vec<Slide>,
}

/// Subdivision used when a saved note gives none.
pub fn default_division() -> (d: i32)
    ensures
        d == 1,
{
    1
}

// ---------------------------------------------------------------------------
// Arithmetic
// ---------------------------------------------------------------------------

pub open spec fn abs(x: int) -> int {
    if x < 0 { -x } else { x }
}

/// `n / d` rounded to the nearest integer, halves away from zero (`d > 0`).
pub open spec fn round_div(n: int, d: int) -> int {
    if n >= 0 {
        (2 * n + d) / (2 * d)
    } else {
        -((-2 * n + d) / (2 * d))
    }
}

/// `n / d` rounded towards zero (`d != 0`).
pub open spec fn trunc_div(n: int, d: int) -> int {
    let q = abs(n) / abs(d);
    if (n < 0) == (d < 0) { q } else { -q }
}

/// Greatest common divisor of the magnitudes.
fn gcd(a: i32, b: i32) -> (g: i32)
    requires
        a != i32::MIN,
        b != i32::MIN,
    ensures
        g == gcd_spec(abs(a as int) as nat, abs(b as int) as nat),
        g >= 0,
{
    let mut x: i32 = if a < 0 { -a } else { a };
    let mut y: i32 = if b < 0 { -b } else { b };
    while y != 0
        invariant
            x >= 0,
            y >= 0,
            gcd_spec(abs(a as int) as nat, abs(b as int) as nat) == gcd_spec(x as nat, y as nat),
        decreases y,
    {
        let t = y;
        y = x % y;
        x = t;
    }
    x
}

// ---------------------------------------------------------------------------
// Rounding
// ---------------------------------------------------------------------------

/// The rounded quotient is within half a step of the exact one.
pub proof fn lemma_round_div_close(n: int, d: int)
    requires
        d > 0,
    ensures
        2 * abs(d * round_div(n, d) - n) <= d,
{
    if n >= 0 {
        let q = (2 * n + d) / (2 * d);
        let r = (2 * n + d) % (2 * d);
        assert(2 * n + d == q * (2 * d) + r && 0 <= r < 2 * d) by (nonlinear_arith)
            requires
                d > 0,
                q == (2 * n + d) / (2 * d),
                r == (2 * n + d) % (2 * d),
        {
        }
        assert(2 * (d * q - n) == r_shift(r, d)) by (nonlinear_arith)
            requires
                2 * n + d == q * (2 * d) + r,
        {
        }
    } else {
        let m = -n;
        let q = (2 * m + d) / (2 * d);
        let r = (2 * m + d) % (2 * d);
        assert(2 * m + d == q * (2 * d) + r && 0 <= r < 2 * d) by (nonlinear_arith)
            requires
                d > 0,
                q == (2 * m + d) / (2 * d),
                r == (2 * m + d) % (2 * d),
        {
        }
        assert(round_div(n, d) == -q);
        assert(2 * (d * (-q) - n) == -r_shift(r, d)) by (nonlinear_arith)
            requires
                2 * m + d == q * (2 * d) + r,
                m == -n,
        {
        }
    }
}

/// `d - r`: twice the distance of a rounded quotient from the exact one.
pub open spec fn r_shift(r: int, d: int) -> int {
    d - r
}

/// A value within less than half a step of `d * t` rounds to `t`.
pub proof fn lemma_round_div_exact(n: int, d: int, t: int)
    requires
        d > 0,
        2 * abs(n - d * t) < d,
    ensures
        round_div(n, d) == t,
{
    if n >= 0 {
        let e = n - d * t;
        assert(2 * n + d == t * (2 * d) + (2 * e + d)) by (nonlinear_arith)
            requires
                e == n - d * t,
        {
        }
        assert(0 <= 2 * e + d < 2 * d);
        lemma_div_unique(2 * n + d, 2 * d, t, 2 * e + d);
    } else {
        let m = -n;
        let e = m - d * (-t);
        assert(2 * m + d == (-t) * (2 * d) + (2 * e + d)) by (nonlinear_arith)
            requires
                e == m - d * (-t),
        {
        }
        assert(abs(e) == abs(n - d * t)) by (nonlinear_arith)
            requires
                e == m - d * (-t),
                m == -n,
        {
        }
        assert(0 <= 2 * e + d < 2 * d);
        lemma_div_unique(2 * m + d, 2 * d, -t, 2 * e + d);
    }
}

proof fn lemma_div_unique(x: int, d: int, q: int, r: int)
    requires
        d > 0,
        x == q * d + r,
        0 <= r < d,
    ensures
        x / d == q,
        x % d == r,
{
    vstd::arithmetic::div_mod::lemma_fundamental_div_mod_converse(x, d, q, r);
}

// ---------------------------------------------------------------------------
// Positions
// ---------------------------------------------------------------------------

/// `(measure, beat, division, offset)` of a tick position: 1-based measure
/// and beat, and the ticks left over as the reduced fraction
/// `offset / division` of a beat (`1` and `0` on a beat).
pub open spec fn beat_pos_spec(ticks: int) -> (int, int, int, int) {
    let m = ticks / 384;
    let tim = ticks - m * 384;
    let beat = tim / 96 + 1;
    let tib = tim % 96;
    if tib == 0 {
        (m + 1, beat, 1, 0)
    } else {
        let g = gcd_spec(tib as nat, 96) as int;
        (m + 1, beat, 96int / g, tib / g)
    }
}

/// Tick position of a saved `(measure, beat, division, offset)`; a
/// subdivision that is not positive adds nothing.
pub open spec fn beat_pos_ticks(measure: int, beat: int, division: int, offset: int) -> int {
    (measure - 1) * 384 + (beat - 1) * 96 + if division > 0 {
        trunc_div(offset * 96, division)
    } else {
        0
    }
}

/// Saving a tick position and reading it back gives the same position.
pub proof fn lemma_beat_pos_round_trip(ticks: int)
    ensures
        ({
            let (m, b, d, o) = beat_pos_spec(ticks);
            beat_pos_ticks(m, b, d, o) == ticks
        }),
{
    let m = ticks / 384;
    let tim = ticks - m * 384;
    assert(0 <= tim < 384) by (nonlinear_arith)
        requires
            m == ticks / 384,
            tim == ticks - m * 384,
    {
    }
    let beat = tim / 96 + 1;
    let tib = tim % 96;
    assert(tim == (beat - 1) * 96 + tib) by (nonlinear_arith)
        requires
            beat == tim / 96 + 1,
            tib == tim % 96,
            0 <= tim,
    {
    }
    if tib != 0 {
        let g = gcd_spec(tib as nat, 96);
        lemma_gcd_pos(tib as nat, 96);
        lemma_gcd_divides(tib as nat, 96);
        let ka = choose|k: nat| tib as nat == #[trigger] (k * g);
        let kb = choose|k: nat| 96nat == #[trigger] (k * g);
        assert(tib / (g as int) == ka) by (nonlinear_arith)
            requires
                tib == ka * g,
                g > 0,
        {
        }
        assert(96int / (g as int) == kb) by (nonlinear_arith)
            requires
                96 == kb * g,
                g > 0,
        {
        }
        assert(kb > 0) by (nonlinear_arith)
            requires
                96 == kb * g,
        {
        }
        assert((ka as int) * 96 == tib * (kb as int)) by (nonlinear_arith)
            requires
                tib == ka * g,
                96 == kb * g,
        {
        }
        assert(ka * 96 >= 0);
        assert(trunc_div((ka as int) * 96, kb as int) == tib) by (nonlinear_arith)
            requires
                (ka as int) * 96 == tib * (kb as int),
                kb > 0,
                tib > 0,
                trunc_div((ka as int) * 96, kb as int) == ((ka as int) * 96) / (kb as int),
        {
        }
    }
}

/// Ticks (1/384 measure) from quanta, as a whole number of quanta offset from
/// measure 1, rounded half away from zero.
pub open spec fn quanta_ticks(q: int) -> int {
    round_div((q - QUANTA_PER_MEASURE) * 384, QUANTA_PER_MEASURE as int)
}

/// Quanta of a tick position.
pub open spec fn ticks_quanta(t: int) -> int {
    QUANTA_PER_MEASURE + round_div(t * QUANTA_PER_MEASURE, 384)
}

/// Turning a tick position into quanta and back gives the same tick.
pub proof fn lemma_ticks_quanta_round_trip(t: int)
    ensures
        quanta_ticks(ticks_quanta(t)) == t,
{
    let q1 = round_div(t * 100000, 384);
    lemma_round_div_close(t * 100000, 384);
    // |384 * q1 - 100000 * t| <= 192
    let n = q1 * 384;
    assert(2 * abs(n - 100000 * t) < 100000) by (nonlinear_arith)
        requires
            2 * abs(384 * q1 - t * 100000) <= 384,
            n == q1 * 384,
    {
    }
    assert((ticks_quanta(t) - QUANTA_PER_MEASURE) * 384 == n);
    lemma_round_div_exact(n, 100000, t);
}

pub open spec fn clamp_i32(x: int) -> int {
    if x < i32::MIN { i32::MIN as int } else if x > i32::MAX { i32::MAX as int } else { x }
}

/// `n / d` rounded half away from zero, for `d > 0`.
fn round_div_i128(n: i128, d: i128) -> (r: i128)
    requires
        d > 0,
        -0x1000_0000_0000_0000_0000_0000 <= n <= 0x1000_0000_0000_0000_0000_0000,
        d <= 0x1000_0000_0000,
    ensures
        r == round_div(n as int, d as int),
{
    if n >= 0 {
        (2 * n + d) / (2 * d)
    } else {
        let m = -n;
        -((2 * m + d) / (2 * d))
    }
}

fn clamp_to_i32(x: i128) -> (r: i32)
    ensures
        r == clamp_i32(x as int),
{
    if x < i32::MIN as i128 {
        i32::MIN
    } else if x > i32::MAX as i128 {
        i32::MAX
    } else {
        x as i32
    }
}

/// Tick position of a note position in quanta (saturating at the ends of
/// `i32`).
fn quanta_to_ticks(q: i64) -> (t: i32)
    ensures
        t == clamp_i32(quanta_ticks(q as int)),
{
    let n: i128 = (q as i128 - QUANTA_PER_MEASURE as i128) * 384;
    clamp_to_i32(round_div_i128(n, QUANTA_PER_MEASURE as i128))
}

proof fn lemma_floor_div_neg(t: int)
    requires
        t < 0,
    ensures
        -((-t + 383) / 384) == t / 384,
{
    let a = (-t + 383) / 384;
    let b = (-t + 383) % 384;
    assert(-t + 383 == a * 384 + b && 0 <= b < 384) by (nonlinear_arith)
        requires
            a == (-t + 383) / 384,
            b == (-t + 383) % 384,
    {
    }
    lemma_div_unique(t, 384, -a, 383 - b);
}

/// `(measure, beat, division, offset)` of a tick position.
fn ticks_to_beat_pos(ticks: i32) -> (r: (i32, i32, i32, i32))
    ensures
        (r.0 as int, r.1 as int, r.2 as int, r.3 as int) == beat_pos_spec(ticks as int),
{
    let t = ticks as i64;
    let m: i64 = if t >= 0 {
        t / 384
    } else {
        proof {
            lemma_floor_div_neg(t as int);
        }
        -((-t + 383) / 384)
    };
    assert(m == (t as int) / 384);
    let tim = t - m * 384;
    assert(0 <= tim < 384) by (nonlinear_arith)
        requires
            m == (t as int) / 384,
            tim == t - m * 384,
    {
    }
    assert(-5592406 <= m <= 5592405) by (nonlinear_arith)
        requires
            m == (t as int) / 384,
            i32::MIN <= t <= i32::MAX,
    {
    }
    let beat = (tim / 96 + 1) as i32;
    let tib = (tim % 96) as i32;
    if tib == 0 {
        ((m + 1) as i32, beat, 1, 0)
    } else {
        let g = gcd(tib, 96);
        proof {
            lemma_gcd_pos(tib as nat, 96);
        }
        ((m + 1) as i32, beat, 96 / g, tib / g)
    }
}

/// `(measure, beat, division, offset)` of a note position in quanta.
pub fn measure_to_beat_pos(time: i64) -> (r: (i32, i32, i32, i32))
    ensures
        (r.0 as int, r.1 as int, r.2 as int, r.3 as int) == beat_pos_spec(
            clamp_i32(quanta_ticks(time as int)),
        ),
{
    ticks_to_beat_pos(quanta_to_ticks(time))
}

/// The tick arithmetic of a saved position stays within `i32`.
pub open spec fn beat_pos_fits(measure: int, beat: int, division: int, offset: int) -> bool {
    let a = (measure - 1) * 384;
    let b = (beat - 1) * 96;
    let c = if division > 0 { trunc_div(offset * 96, division) } else { 0 };
    &&& i32::MIN <= measure - 1 && i32::MIN <= a <= i32::MAX
    &&& i32::MIN <= beat - 1 && i32::MIN <= b <= i32::MAX
    &&& division > 0 ==> i32::MIN <= offset * 96 <= i32::MAX
    &&& i32::MIN <= a + b <= i32::MAX
    &&& i32::MIN <= a + b + c <= i32::MAX
}

fn trunc_div_i64(n: i64, d: i64) -> (r: i64)
    requires
        d > 0,
        n > i64::MIN,
    ensures
        r == trunc_div(n as int, d as int),
{
    if n >= 0 {
        n / d
    } else {
        -((-n) / d)
    }
}

/// Note position in quanta of a saved `(measure, beat, division, offset)`.
pub fn beat_pos_to_measure(measure: i32, beat: i32, division: i32, offset: i32) -> (q: i64)
    requires
        beat_pos_fits(measure as int, beat as int, division as int, offset as int),
    ensures
        q == ticks_quanta(beat_pos_ticks(measure as int, beat as int, division as int, offset as int)),
{
    let a = (measure - 1) * TICKS_PER_MEASURE;
    let b = (beat - 1) * TICKS_PER_BEAT;
    let c: i32 = if division > 0 {
        let p = (offset * TICKS_PER_BEAT) as i64;
        trunc_div_i64(p, division as i64) as i32
    } else {
        0
    };
    proof {
        if division > 0 {
            assert(abs((offset as int) * 96) / abs(division as int) <= abs((offset as int) * 96))
                by (nonlinear_arith)
                requires
                    division > 0,
            {
            }
        }
    }
    let tick = a + b + c;
    let wide = tick as i128;
    assert(-0x8000_0000 <= wide <= 0x8000_0000);
    assert(-0x8000_0000 * 100000 <= wide * 100000 <= 0x8000_0000 * 100000) by (nonlinear_arith)
        requires
            -0x8000_0000 <= wide <= 0x8000_0000,
    {
    }
    let scaled = wide * 100000;
    (QUANTA_PER_MEASURE as i128 + round_div_i128(scaled, 384)) as i64
}

/// Tick length (saturating at the ends of `i32`) of a duration in quanta.
pub open spec fn duration_ticks(dur: int) -> int {
    clamp_i32(round_div(dur * 384, QUANTA_PER_MEASURE as int))
}

/// A duration as the reduced fraction `[numerator, denominator]` of beats;
/// zero is `[0, 1]`.
pub open spec fn duration_fraction(dur: int) -> (int, int) {
    let t = duration_ticks(dur);
    if t == 0 {
        (0, 1)
    } else {
        let g = gcd_spec(abs(t) as nat, 96) as int;
        (t / g, 96int / g)
    }
}

/// A duration in quanta as a reduced fraction of beats.
pub fn duration_to_fraction(dur: i64) -> (r: [i32; 2])
    requires
        duration_ticks(dur as int) != i32::MIN,
    ensures
        (r[0] as int, r[1] as int) == duration_fraction(dur as int),
{
    let n: i128 = dur as i128 * 384;
    let ticks = clamp_to_i32(round_div_i128(n, QUANTA_PER_MEASURE as i128));
    if ticks == 0 {
        return [0, 1];
    }
    let g = gcd(ticks, TICKS_PER_BEAT);
    proof {
        lemma_gcd_pos(abs(ticks as int) as nat, 96);
        lemma_gcd_divides(abs(ticks as int) as nat, 96);
    }
    let ghost gg = g as int;
    let num: i32 = if ticks >= 0 {
        ticks / g
    } else {
        let k = (-ticks) / g;
        proof {
            let gn = gcd_spec(abs(ticks as int) as nat, 96nat);
            assert(gn == gg);
            let kk = choose|k: nat| abs(ticks as int) as nat == #[trigger] (k * gn);
            assert((-(ticks as int)) / gg == kk) by (nonlinear_arith)
                requires
                    -(ticks as int) == kk * gg,
                    gg > 0,
            {
            }
            assert((ticks as int) / gg == -(kk as int)) by {
                assert((ticks as int) == (-(kk as int)) * gg) by (nonlinear_arith)
                    requires
                        -(ticks as int) == kk * gg,
                {
                }
                lemma_div_unique(ticks as int, gg, -(kk as int), 0);
            }
        }
        -k
    };
    [num, TICKS_PER_BEAT / g]
}

/// Tick length of a saved `[numerator, denominator]` beat fraction: the
/// numerator scaled to ticks and divided, rounding towards zero.
pub open spec fn fraction_ticks(frac: (int, int)) -> int {
    if frac.1 == 0 { 0 } else { trunc_div(frac.0 * 96, frac.1) }
}

/// The tick arithmetic of a saved fraction stays within `i32`.
pub open spec fn fraction_fits(frac: (int, int)) -> bool {
    frac.1 != 0 ==> (i32::MIN < frac.0 * 96 <= i32::MAX)
}

/// Duration in quanta of a saved beat fraction.
pub fn fraction_to_duration(frac: [i32; 2]) -> (q: i64)
    requires
        fraction_fits((frac[0] as int, frac[1] as int)),
    ensures
        q == round_div(fraction_ticks((frac[0] as int, frac[1] as int)) * QUANTA_PER_MEASURE, 384),
{
    if frac[1] == 0 {
        assert(round_div(0, 384) == 0);
        return 0;
    }
    let p = frac[0] * TICKS_PER_BEAT;
    let ticks: i64 = if frac[1] > 0 {
        trunc_div_i64(p as i64, frac[1] as i64)
    } else {
        -trunc_div_i64(p as i64, -(frac[1] as i64))
    };
    proof {
        let pp = p as int;
        let dd = frac[1] as int;
        if dd < 0 {
            assert(trunc_div(pp, dd) == -trunc_div(pp, -dd));
        }
        assert(abs(pp) / abs(dd) <= abs(pp)) by (nonlinear_arith)
            requires
                dd != 0,
        {
        }
    }
    let wide = ticks as i128;
    assert(-0x8000_0000 <= wide <= 0x8000_0000);
    assert(-0x8000_0000 * 100000 <= wide * 100000 <= 0x8000_0000 * 100000) by (nonlinear_arith)
        requires
            -0x8000_0000 <= wide <= 0x8000_0000,
    {
    }
    let r = round_div_i128(wide * 100000, 384);
    proof {
        lemma_round_div_close((wide * 100000) as int, 384);
    }
    assert(-0x10_0000_0000_0000 <= r <= 0x10_0000_0000_0000) by (nonlinear_arith)
        requires
            2 * abs(384 * r - wide * 100000) <= 384,
            -0x8000_0000 * 100000 <= wide * 100000 <= 0x8000_0000 * 100000,
    {
    }
    r as i64
}

// ---------------------------------------------------------------------------
// Notes
// ---------------------------------------------------------------------------

/// What saving `note` writes: its position on the tick grid, its hold length
/// as a beat fraction (none for a zero length), flags and slides.
pub open spec fn saved_as(note: Note, s: SerNote) -> bool {
    &&& (s.measure as int, s.beat as int, s.division as int, s.offset as int) == beat_pos_spec(
        clamp_i32(quanta_ticks(note.time as int)),
    )
    &&& s.lane == note.lane
    &&& s.note_type == note.note_type
    &&& s.is_each == note.is_each
    &&& s.is_break == note.is_break
    &&& s.is_ex == note.is_ex
    &&& s.is_star == note.is_star
    &&& s.is_tapless == note.is_tapless
    &&& note.hold_duration == 0 ==> s.hold_duration is None
    &&& note.hold_duration != 0 ==> (s.hold_duration matches Some(f) && (f[0] as int, f[1] as int)
        == duration_fraction(note.hold_duration as int))
    &&& slides_view(s.slide@) == slides_view(note.slide@)
}

/// The note can be saved without overflow.
pub open spec fn savable(note: Note) -> bool {
    note.hold_duration != 0 ==> duration_ticks(note.hold_duration as int) != i32::MIN
}

/// Save a note.
pub fn note_to_ser(note: &Note) -> (s: SerNote)
    requires
        savable(*note),
    ensures
        saved_as(*note, s),
{
    let (measure, beat, division, offset) = measure_to_beat_pos(note.time);
    let hold_duration = if note.hold_duration != 0 {
        Some(duration_to_fraction(note.hold_duration))
    } else {
        None
    };
    SerNote {
        measure,
        beat,
        division,
        offset,
        lane: note.lane,
        note_type: note.note_type,
        is_each: note.is_each,
        is_break: note.is_break,
        is_ex: note.is_ex,
        is_star: note.is_star,
        is_tapless: note.is_tapless,
        hold_duration,
        slide: crate::model::copy_slides(&note.slide),
    }
}

/// Hold length in quanta of a saved fraction (zero when absent).
pub open spec fn saved_hold(h: Option<[i32; 2]>) -> int {
    match h {
        Some(f) => round_div(fraction_ticks((f[0] as int, f[1] as int)) * QUANTA_PER_MEASURE, 384),
        None => 0,
    }
}

/// What loading `s` gives.
pub open spec fn loaded_as(s: SerNote, n: Note) -> bool {
    &&& n.id == 0
    &&& n.time == ticks_quanta(
        beat_pos_ticks(s.measure as int, s.beat as int, s.division as int, s.offset as int),
    )
    &&& n.hold_duration == saved_hold(s.hold_duration)
    &&& n.lane == s.lane
    &&& n.note_type == s.note_type
    &&& n.is_each == s.is_each
    &&& !n.is_each_head
    &&& n.is_break == s.is_break
    &&& n.is_ex == s.is_ex
    &&& n.is_star == s.is_star
    &&& n.is_tapless == s.is_tapless
    &&& n.hi_speed == 0
    &&& slides_view(n.slide@) == slides_view(s.slide@)
}

/// The saved note loads without overflow.
pub open spec fn loadable(s: SerNote) -> bool {
    &&& beat_pos_fits(s.measure as int, s.beat as int, s.division as int, s.offset as int)
    &&& s.hold_duration matches Some(f) ==> fraction_fits((f[0] as int, f[1] as int))
}

/// Load a saved note.
pub fn ser_to_note(s: &SerNote) -> (n: Note)
    requires
        loadable(*s),
    ensures
        loaded_as(*s, n),
{
    let time = beat_pos_to_measure(s.measure, s.beat, s.division, s.offset);
    let hold_duration = match s.hold_duration {
        Some(f) => fraction_to_duration(f),
        None => 0,
    };
    Note {
        id: 0,
        time,
        lane: s.lane,
        note_type: s.note_type,
        hold_duration,
        is_each: s.is_each,
        is_each_head: false,
        is_break: s.is_break,
        is_ex: s.is_ex,
        is_star: s.is_star,
        is_tapless: s.is_tapless,
        hi_speed: 0,
        slide: crate::model::copy_slides(&s.slide),
    }
}

/// A saved position always loads without overflow.
proof fn lemma_saved_pos_fits(t: int)
    requires
        -2147483520 <= t <= i32::MAX,
    ensures
        ({
            let (m, b, d, o) = beat_pos_spec(t);
            beat_pos_fits(m, b, d, o)
        }),
{
    lemma_beat_pos_round_trip(t);
    let m = t / 384;
    let tim = t - m * 384;
    assert(0 <= tim < 384 && -5592405 <= m <= 5592405) by (nonlinear_arith)
        requires
            m == t / 384,
            tim == t - m * 384,
            -2147483520 <= t <= i32::MAX,
    {
    }
    assert(-2147483520 <= m * 384 <= 2147483520) by (nonlinear_arith)
        requires
            -5592405 <= m <= 5592405,
    {
    }
    let (mm, b, d, o) = beat_pos_spec(t);
    assert(1 <= b <= 4) by (nonlinear_arith)
        requires
            b == tim / 96 + 1,
            0 <= tim < 384,
    {
    }
    let tib = tim % 96;
    if tib != 0 {
        lemma_gcd_pos(tib as nat, 96);
        lemma_gcd_divides(tib as nat, 96);
        let gn = gcd_spec(tib as nat, 96nat);
        let g = gn as int;
        let k = choose|k: nat| 96nat == #[trigger] (k * gn);
        let ka = choose|k: nat| tib as nat == #[trigger] (k * gn);
        assert(96int / g == k && k >= 1) by (nonlinear_arith)
            requires
                96 == k * g,
                g > 0,
        {
        }
        assert(tib / g == ka && ka < 96) by (nonlinear_arith)
            requires
                tib == ka * g,
                g > 0,
                0 < tib < 96,
        {
        }
        assert(d == k && o == ka);
        assert(0 <= o * 96 <= 9120);
    }
    assert(tim == (b - 1) * 96 + tib) by (nonlinear_arith)
        requires
            b == tim / 96 + 1,
            tib == tim % 96,
            0 <= tim,
    {
    }
    assert(beat_pos_ticks(mm, b, d, o) == t);
    assert(mm - 1 == m);
}

/// Saving a note, loading it and saving it again writes the same position:
/// positions load without overflow and land back on the saved tick.
pub proof fn lemma_save_load_save_position(time: i64)
    requires
        quanta_ticks(time as int) >= -2147483520,
    ensures
        ({
            let p = beat_pos_spec(clamp_i32(quanta_ticks(time as int)));
            let loaded = ticks_quanta(beat_pos_ticks(p.0, p.1, p.2, p.3));
            &&& beat_pos_fits(p.0, p.1, p.2, p.3)
            &&& beat_pos_spec(clamp_i32(quanta_ticks(loaded))) == p
        }),
{
    let t = clamp_i32(quanta_ticks(time as int));
    lemma_beat_pos_round_trip(t);
    lemma_saved_pos_fits(t);
    lemma_ticks_quanta_round_trip(t);
}

/// Loading a saved note gives its time on the 1/384-measure grid: the saved
/// tick is the grid step nearest to the time (within half a step, unless the
/// time lies beyond the ticks an `i32` holds), and the loaded time is the
/// chart step nearest to that tick.
pub proof fn lemma_load_of_save_position(time: i64)
    requires
        quanta_ticks(time as int) >= -2147483520,
    ensures
        ({
            let t = clamp_i32(quanta_ticks(time as int));
            let p = beat_pos_spec(t);
            let loaded = ticks_quanta(beat_pos_ticks(p.0, p.1, p.2, p.3));
            &&& loaded == ticks_quanta(t)
            &&& 2 * abs(384 * (loaded - QUANTA_PER_MEASURE) - QUANTA_PER_MEASURE * t) <= 384
            &&& (quanta_ticks(time as int) <= i32::MAX ==> 2 * abs(QUANTA_PER_MEASURE * t - 384 * (time - QUANTA_PER_MEASURE))
                <= QUANTA_PER_MEASURE)
        }),
{
    let t = clamp_i32(quanta_ticks(time as int));
    lemma_beat_pos_round_trip(t);
    lemma_round_div_close(t * QUANTA_PER_MEASURE, 384);
    lemma_round_div_close((time - QUANTA_PER_MEASURE) * 384, QUANTA_PER_MEASURE as int);
}

/// Saving a note and loading it back gives the note with id 0, no speed and
/// no each-head mark, its time at the 1/384-measure step nearest to it and
/// its hold length at the nearest whole number of such steps (each put on the
/// chart grid at the nearest quantum), and everything else as it was.
pub proof fn lemma_note_round_trip(n: Note, s: SerNote, m: Note)
    requires
        saved_as(n, s),
        loaded_as(s, m),
        quanta_ticks(n.time as int) >= -2147483520,
        n.hold_duration != 0 ==> abs(duration_ticks(n.hold_duration as int)) * 96 <= i32::MAX,
    ensures
        m.id == 0,
        m.hi_speed == 0,
        !m.is_each_head,
        m.time == ticks_quanta(clamp_i32(quanta_ticks(n.time as int))),
        m.hold_duration == if n.hold_duration == 0 {
            0
        } else {
            round_div(duration_ticks(n.hold_duration as int) * QUANTA_PER_MEASURE, 384)
        },
        m.lane == n.lane,
        m.note_type == n.note_type,
        m.is_each == n.is_each,
        m.is_break == n.is_break,
        m.is_ex == n.is_ex,
        m.is_star == n.is_star,
        m.is_tapless == n.is_tapless,
        slides_view(m.slide@) == slides_view(n.slide@),
{
    lemma_load_of_save_position(n.time);
    if n.hold_duration != 0 {
        lemma_save_load_save_hold(n.hold_duration);
    }
}

/// Saving a hold length, loading it and saving it again writes the same
/// fraction.
pub proof fn lemma_save_load_save_hold(dur: i64)
    requires
        dur != 0,
        abs(duration_ticks(dur as int)) * 96 <= i32::MAX,
    ensures
        ({
            let f = duration_fraction(dur as int);
            let loaded = round_div(fraction_ticks(f) * QUANTA_PER_MEASURE, 384);
            &&& fraction_fits(f)
            &&& fraction_ticks(f) == duration_ticks(dur as int)
            &&& (loaded != 0 ==> duration_fraction(loaded) == f)
        }),
{
    let t = duration_ticks(dur as int);
    if t == 0 {
        assert(fraction_ticks((0, 1)) == 0);
        assert(round_div(0, 384) == 0);
    } else {
        let g = gcd_spec(abs(t) as nat, 96) as int;
        lemma_gcd_pos(abs(t) as nat, 96);
        lemma_gcd_divides(abs(t) as nat, 96);
        let gn = gcd_spec(abs(t) as nat, 96nat);
        let ka = choose|k: nat| abs(t) as nat == #[trigger] (k * gn);
        let kb = choose|k: nat| 96nat == #[trigger] (k * gn);
        assert(kb > 0 && kb <= 96) by (nonlinear_arith)
            requires
                96 == kb * g,
                g > 0,
        {
        }
        assert(96int / g == kb) by (nonlinear_arith)
            requires
                96 == kb * g,
                g > 0,
        {
        }
        let num = t / g;
        if t > 0 {
            assert(num == ka) by (nonlinear_arith)
                requires
                    t == ka * g,
                    g > 0,
                    num == t / g,
            {
            }
        } else {
            assert(t == (-(ka as int)) * g) by (nonlinear_arith)
                requires
                    -t == ka * g,
            {
            }
            lemma_div_unique(t, g, -(ka as int), 0);
        }
        assert(num * 96 == t * kb) by (nonlinear_arith)
            requires
                t == num * g,
                96 == kb * g,
        {
        }
        assert(abs(num) <= abs(t)) by (nonlinear_arith)
            requires
                t == num * g,
                g > 0,
        {
        }
        assert(-0x8000_0000 < num * 96 <= 0x7fff_ffff) by (nonlinear_arith)
            requires
                num * 96 == t * kb,
                1 <= kb <= 96,
                abs(t) * 96 <= 0x7fff_ffff,
        {
        }
        assert(trunc_div(num * 96, kb as int) == t) by (nonlinear_arith)
            requires
                num * 96 == t * kb,
                kb > 0,
                trunc_div(num * 96, kb as int) == if (num * 96 < 0) == (kb < 0) {
                    abs(num * 96) / abs(kb as int)
                } else {
                    -(abs(num * 96) / abs(kb as int))
                },
        {
            assert(abs(num * 96) == abs(t) * kb);
        }
        // the loaded length goes back to the same ticks
        let loaded = round_div(t * QUANTA_PER_MEASURE, 384);
        lemma_round_div_close(t * 100000, 384);
        assert(2 * abs(loaded * 384 - 100000 * t) < 100000) by (nonlinear_arith)
            requires
                2 * abs(384 * loaded - t * 100000) <= 384,
        {
        }
        lemma_round_div_exact(loaded * 384, 100000, t);
    }
}

// ---------------------------------------------------------------------------
// Charts
// ---------------------------------------------------------------------------

/// A saved chart.
#[derive(Debug, Clone)]
pub struct SerChartDoc {
    pub version: String,
    pub title: String,
    pub artist: String,
    pub simai_level: u32,
    /// Tempo in 1/100000 beats per minute.
    pub bpm: i64,
    pub bpms: Vec<BpmChange>,
    /// Audio offset in 1/100000 seconds.
    pub audio_offset: i64,
    pub notes: Vec<SerNote>,
}

/// Save a chart in the beat format.
pub fn chart_to_ser(chart: &ChartDoc) -> (s: SerChartDoc)
    requires
        forall|i: int| 0 <= i < chart.notes@.len() ==> savable(#[trigger] chart.notes@[i]),
    ensures
        s.version@ == "0.4.0-beat"@,
        s.title@ == chart.title@,
        s.artist@ == chart.artist@,
        s.simai_level == chart.simai_level,
        s.bpm == chart.bpm,
        s.bpms@ == chart.bpms@,
        s.audio_offset == chart.audio_offset,
        s.notes@.len() == chart.notes@.len(),
        forall|i: int| 0 <= i < s.notes@.len() ==> saved_as(chart.notes@[i], #[trigger] s.notes@[i]),
{
    let mut notes: Vec<SerNote> = Vec::new();
    let mut i: usize = 0;
    while i < chart.notes.len()
        invariant
            i <= chart.notes@.len(),
            notes@.len() == i,
            forall|k: int| 0 <= k < chart.notes@.len() ==> savable(#[trigger] chart.notes@[k]),
            forall|k: int| 0 <= k < i ==> saved_as(chart.notes@[k], #[trigger] notes@[k]),
        decreases chart.notes.len() - i,
    {
        notes.push(note_to_ser(&chart.notes[i]));
        i = i + 1;
    }
    SerChartDoc {
        version: String::from_str("0.4.0-beat"),
        title: chart.title.clone(),
        artist: chart.artist.clone(),
        simai_level: chart.simai_level,
        bpm: chart.bpm,
        bpms: crate::model::copy_bpm_changes(&chart.bpms),
        audio_offset: chart.audio_offset,
        notes,
    }
}

/// Whether a saved note loads without overflow (see [`loadable`]).
pub fn note_loadable(s: &SerNote) -> (b: bool)
    ensures
        b == loadable(*s),
{
    let m = s.measure as i64;
    let bt = s.beat as i64;
    let d = s.division as i64;
    let o = s.offset as i64;
    let lo = i32::MIN as i64;
    let hi = i32::MAX as i64;
    let a = (m - 1) * 384;
    let b = (bt - 1) * 96;
    let p = o * 96;
    let c = if d > 0 { trunc_div_i64(p, d) } else { 0 };
    proof {
        if d > 0 {
            assert(abs(p as int) / abs(d as int) <= abs(p as int)) by (nonlinear_arith)
                requires
                    d > 0,
            {
            }
        }
    }
    let pos = lo <= m - 1 && lo <= a && a <= hi && lo <= bt - 1 && lo <= b && b <= hi && (d <= 0 || (lo
        <= p && p <= hi)) && lo <= a + b && a + b <= hi && lo <= a + b + c && a + b + c <= hi;
    let hold = match s.hold_duration {
        Some(f) => f[1] == 0 || (lo < f[0] as i64 * 96 && f[0] as i64 * 96 <= hi),
        None => true,
    };
    pos && hold
}

/// Whether every note of a saved chart loads without overflow.
pub fn chart_loadable(s: &SerChartDoc) -> (b: bool)
    ensures
        b == forall|i: int| 0 <= i < s.notes@.len() ==> loadable(#[trigger] s.notes@[i]),
{
    let mut i: usize = 0;
    while i < s.notes.len()
        invariant
            i <= s.notes@.len(),
            forall|k: int| 0 <= k < i ==> loadable(#[trigger] s.notes@[k]),
        decreases s.notes.len() - i,
    {
        if !note_loadable(&s.notes[i]) {
            return false;
        }
        i = i + 1;
    }
    true
}

/// What loading the saved chart `s` gives: its header, its tempo changes
/// (one at measure 1 when it has none but a positive tempo) and its notes.
pub open spec fn loaded_chart(s: SerChartDoc, c: ChartDoc) -> bool {
    &&& c.version@ == s.version@
    &&& c.title@ == s.title@
    &&& c.artist@ == s.artist@
    &&& c.simai_level == s.simai_level
    &&& c.bpm == s.bpm
    &&& c.bpms@ == if s.bpms@.len() == 0 && s.bpm > 0 {
        seq![BpmChange { measure: QUANTA_PER_MEASURE, bpm: s.bpm }]
    } else {
        s.bpms@
    }
    &&& c.audio_offset == s.audio_offset
    &&& c.notes@.len() == s.notes@.len()
    &&& forall|i: int| 0 <= i < c.notes@.len() ==> loaded_as(s.notes@[i], #[trigger] c.notes@[i])
}

/// Load a chart saved in the beat format. A chart with no tempo changes but a
/// positive tempo gets one change at measure 1.
pub fn ser_to_chart(s: &SerChartDoc) -> (c: ChartDoc)
    requires
        forall|i: int| 0 <= i < s.notes@.len() ==> loadable(#[trigger] s.notes@[i]),
    ensures
        loaded_chart(*s, c),
{
    let bpms = if s.bpms.len() == 0 && s.bpm > 0 {
        let mut b: Vec<BpmChange> = Vec::new();
        b.push(BpmChange { measure: QUANTA_PER_MEASURE, bpm: s.bpm });
        assert(b@ =~= seq![BpmChange { measure: QUANTA_PER_MEASURE, bpm: s.bpm }]);
        b
    } else {
        crate::model::copy_bpm_changes(&s.bpms)
    };
    let mut notes: Vec<Note> = Vec::new();
    let mut i: usize = 0;
    while i < s.notes.len()
        invariant
            i <= s.notes@.len(),
            notes@.len() == i,
            forall|k: int| 0 <= k < s.notes@.len() ==> loadable(#[trigger] s.notes@[k]),
            forall|k: int| 0 <= k < i ==> loaded_as(s.notes@[k], #[trigger] notes@[k]),
        decreases s.notes.len() - i,
    {
        notes.push(ser_to_note(&s.notes[i]));
        i = i + 1;
    }
    ChartDoc {
        version: s.version.clone(),
        title: s.title.clone(),
        artist: s.artist.clone(),
        simai_level: s.simai_level,
        bpm: s.bpm,
        bpms,
        audio_offset: s.audio_offset,
        notes,
    }
}

/// The chart of a saved document when its version says it is in the beat
/// format (`beat` occurs in it); `None` for other documents.
pub fn beat_chart(s: &SerChartDoc) -> (r: Option<ChartDoc>)
    requires
        forall|i: int| 0 <= i < s.notes@.len() ==> loadable(#[trigger] s.notes@[i]),
    ensures
        r is Some <==> crate::model::contains_text_spec(s.version@, "beat"@),
        r matches Some(c) ==> loaded_chart(*s, c),
{
    if crate::model::contains_text(s.version.as_str(), "beat") {
        Some(ser_to_chart(s))
    } else {
        None
    }
}

} // verus!
