//! A small stack-machine bytecode interpreter for firmware boot programs.
//!
//! The interpreter consumes an immutable program buffer and runs a
//! fetch-decode-execute loop over a 64-bit operand stack and a fixed
//! bank of variable slots.  Malformed instructions never abort the run:
//! every truncated operand, unknown opcode or stack underflow degrades
//! to a defined local effect and the loop makes forward progress.
//! Interaction with the host (console output, key input, power control)
//! is surfaced as events, so the whole instruction semantics is a pure
//! function of the program bytes and the current state.

pub mod engine;
pub mod text;

use vstd::prelude::*;

verus! {

/// The fault stop.  In the firmware image the fault handler never
/// returns: it parks the processor in an endless idle loop, since before
/// an operating system is loaded there is nowhere to return to.  An
/// endless loop cannot stand in verified code, so this function only
/// marks the stopping point and the unverified handler around the
/// library (`park` in the application layer) must loop forever once it
/// returns.  No run of the engine ever gets here: the verified
/// instruction set has no panicking path — malformed bytecode degrades
/// locally and execution continues (see `engine::step_spec`).
pub fn panic() {
}

} // verus!
