//! Recording and replay core for GPU compute passes.
//!
//! Applications record compute commands into a [`pass::ComputePass`]; ending
//! the pass replays the recorded commands against the device state, validates
//! them, computes the memory barriers the hardware needs, and emits the final
//! hardware-level command stream as a trace of [`hal::HalCommand`] values.
//!
//! The hardware abstraction layer, the resource registry and the device are
//! modelled as plain data ([`global::Global`]), so that the whole two-phase
//! pipeline - record, then replay - is stated and proved here.

pub mod binder;
pub mod data;
pub mod errors;
pub mod global;
pub mod hal;
pub mod pass;
pub mod laws;
pub mod record;
pub mod replay;
pub mod track;
pub mod util;
