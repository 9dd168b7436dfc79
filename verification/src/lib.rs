//! LambdaDX chart model and conversion logic.
//!
//! Positions and durations are carried as whole numbers of measure quanta
//! (`model::QUANTA_PER_MEASURE` quanta make one measure), so the chart logic
//! works on exact integers.

pub mod model;
pub mod cli;
pub mod slide_match;
pub mod simai_io;
pub mod beat_format;
pub mod maichart;
pub mod maidata;
pub mod simai_export;
pub mod simai_write;
pub mod hotkeys;
pub mod pad;
pub mod chart;
pub mod params;
pub mod session;
pub mod audio;
pub mod text;
pub mod simai_source;
