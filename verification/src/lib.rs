//! A discrete-time, switch-level digital circuit simulator.
//!
//! A netlist of transistors, pull resistors and signal sources is evaluated
//! tick by tick. Every tick each component contributes a set of drive flags
//! to its output net, the flags of each net are reduced to one resolved
//! drive, and every net moves to its next logic state. Short circuits
//! ("shoot-through") are sticky and the first tick at which one appears is
//! reported next to the recorded traces.

pub mod component;
pub mod decode;
pub mod drive;
pub mod laws;
pub mod net;
pub mod pack;
pub mod run;
pub mod simulate;

pub use component::{Component, SignalLevel};
pub use decode::{decode_description, DecodeError};
pub use drive::{merge_drives, resolve_drive, Drive, DriveType};
pub use net::{next_state, Net, NetState};
pub use pack::{pack_traces, TraceIndex};
pub use run::{
    get_first_shoot_through, get_indices, perform_simulation, run_simulation, SimulationError,
    SimulationResult,
};
