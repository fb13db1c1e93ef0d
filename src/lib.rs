//! Trace ingestion and waveform geometry for a VCD viewer: the scope tree of a trace's header,
//! resolution of signal paths by name or by position, single-pass extraction of change points,
//! the model of loaded signals, and the segments that draw a signal in a time window.

pub mod hierarchy;
pub mod integer_object;
pub mod render;
pub mod trace;
pub mod value;
pub mod viewer;
