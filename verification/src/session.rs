//! Typed judgement-core sessions: a session is either empty or holds a
//! loaded chart, and the type says which.

use std::marker::PhantomData;

use vstd::prelude::*;

use crate::simai_io::{area_lane, slot_number, touch_lane_spec, OuterSlot, SensorArea};

verus! {

/// State of a session with no chart.
pub struct Empty;

/// State of a session holding a chart.
pub struct Loaded;

/// A JSON reply of the judgement core.
#[derive(Debug, Clone)]
pub struct FfiEnvelope {
    pub json: String,
}

/// A JSON error of the judgement core.
#[derive(Debug, Clone)]
pub struct LnmaiError {
    pub json: String,
}

/// A judgement-core session in state `State`, known by its handle.
pub struct Session<State> {
    handle: u64,
    _state: PhantomData<State>,
}

impl<State> Session<State> {
    pub closed spec fn spec_handle(&self) -> u64 {
        self.handle
    }

    /// The core's handle of this session.
    pub fn handle(&self) -> (h: u64)
        ensures
            h == self.spec_handle(),
    {
        self.handle
    }
}

/// The reply to a successful request: `{"ok":true}`.
pub open spec fn ok_reply() -> Seq<char> {
    "{\"ok\":true}"@
}

fn ok_envelope() -> (e: FfiEnvelope)
    ensures
        e.json@ == ok_reply(),
{
    FfiEnvelope { json: String::from_str("{\"ok\":true}") }
}

impl Session<Empty> {
    /// The empty session the core created under `handle`.
    pub fn from_handle(handle: u64) -> (s: Session<Empty>)
        ensures
            s.spec_handle() == handle,
    {
        Session { handle, _state: PhantomData }
    }

    /// The session after the core was asked to load a chart into it:
    /// on success the same handle now holds a chart and the reply is
    /// `{"ok":true}`; on failure the core's error text is the error.
    pub fn loaded(self, outcome: Result<(), String>) -> (r: Result<(Session<Loaded>, FfiEnvelope), LnmaiError>)
        ensures
            match outcome {
                Ok(_) => r matches Ok(p) && p.0.spec_handle() == self.spec_handle() && p.1.json@ == ok_reply(),
                Err(e) => r matches Err(err) && err.json@ == e@,
            },
    {
        match outcome {
            Ok(()) => Ok((Session { handle: self.handle, _state: PhantomData }, ok_envelope())),
            Err(e) => Err(LnmaiError { json: e }),
        }
    }
}

impl Session<Loaded> {
    /// The session after the core was asked to unload its chart: on
    /// success the same handle is empty again and the reply is
    /// `{"ok":true}`; on failure the core's error text is the error.
    pub fn unloaded(self, outcome: Result<(), String>) -> (r: Result<(Session<Empty>, FfiEnvelope), LnmaiError>)
        ensures
            match outcome {
                Ok(_) => r matches Ok(p) && p.0.spec_handle() == self.spec_handle() && p.1.json@ == ok_reply(),
                Err(e) => r matches Err(err) && err.json@ == e@,
            },
    {
        match outcome {
            Ok(()) => Ok((Session { handle: self.handle, _state: PhantomData }, ok_envelope())),
            Err(e) => Err(LnmaiError { json: e }),
        }
    }
}

// ---------------------------------------------------------------------------
// Buttons and sensors of the judgement core
// ---------------------------------------------------------------------------

/// Slot of a 0-based button; buttons wrap around the ring of eight.
pub fn button_to_slot(button: u8) -> (slot: OuterSlot)
    ensures
        slot_number(slot) == button % 8 + 1,
{
    match button % 8 {
        0 => OuterSlot::S1,
        1 => OuterSlot::S2,
        2 => OuterSlot::S3,
        3 => OuterSlot::S4,
        4 => OuterSlot::S5,
        5 => OuterSlot::S6,
        6 => OuterSlot::S7,
        _ => OuterSlot::S8,
    }
}

/// Lane of the sensor for a region letter (either case) and a 0-based
/// position, which wraps around the ring; an unknown letter means C.
pub open spec fn region_lane(region: char, position: u8) -> int {
    let idx = position % 8 + 1;
    if region == 'A' || region == 'a' {
        idx
    } else if region == 'B' || region == 'b' {
        8 + idx
    } else if region == 'D' || region == 'd' {
        17 + idx
    } else if region == 'E' || region == 'e' {
        25 + idx
    } else {
        17
    }
}

fn ring_area(ring: u8, idx: u8) -> (a: SensorArea)
    requires
        ring < 4,
        1 <= idx <= 8,
    ensures
        area_lane(a) == if ring == 0 { idx as int } else if ring == 1 { 8 + idx } else if ring == 2 {
            17 + idx
        } else {
            25 + idx
        },
{
    if ring == 0 {
        match idx { 1 => SensorArea::A1, 2 => SensorArea::A2, 3 => SensorArea::A3, 4 => SensorArea::A4,
            5 => SensorArea::A5, 6 => SensorArea::A6, 7 => SensorArea::A7, _ => SensorArea::A8 }
    } else if ring == 1 {
        match idx { 1 => SensorArea::B1, 2 => SensorArea::B2, 3 => SensorArea::B3, 4 => SensorArea::B4,
            5 => SensorArea::B5, 6 => SensorArea::B6, 7 => SensorArea::B7, _ => SensorArea::B8 }
    } else if ring == 2 {
        match idx { 1 => SensorArea::D1, 2 => SensorArea::D2, 3 => SensorArea::D3, 4 => SensorArea::D4,
            5 => SensorArea::D5, 6 => SensorArea::D6, 7 => SensorArea::D7, _ => SensorArea::D8 }
    } else {
        match idx { 1 => SensorArea::E1, 2 => SensorArea::E2, 3 => SensorArea::E3, 4 => SensorArea::E4,
            5 => SensorArea::E5, 6 => SensorArea::E6, 7 => SensorArea::E7, _ => SensorArea::E8 }
    }
}

/// Sensor area of a touch note given by region letter and position.
pub fn region_pos_to_sensor(region: char, position: u8) -> (a: SensorArea)
    ensures
        area_lane(a) == region_lane(region, position),
{
    let idx = (position % 8) + 1;
    match region {
        'A' | 'a' => ring_area(0, idx),
        'B' | 'b' => ring_area(1, idx),
        'D' | 'd' => ring_area(2, idx),
        'E' | 'e' => ring_area(3, idx),
        _ => SensorArea::C,
    }
}

/// The judgement core and the chart model agree on where a touch note sits:
/// for every region letter A-E and position, the core's sensor area has the
/// lane the chart gives the note.
pub proof fn lemma_sensor_matches_lane(region: char, position: u8)
    requires
        region == 'A' || region == 'B' || region == 'C' || region == 'D' || region == 'E',
    ensures
        touch_lane_spec(region, position) == Some(region_lane(region, position) as u8),
{
}

} // verus!
