//! Host library for a sandboxed fantasy-computer guest: the memory bridge
//! that marshals bytes across the host/guest boundary, the per-process
//! output pipe, the supervised process tree driven in lockstep once per
//! display frame, the input bitmask encoding, and the virtual file system
//! the host exposes to guests.
use vstd::prelude::*;

pub mod bridge;
pub mod input;
pub mod process;
pub mod rw_cursor;
pub mod vfs;

verus! {

/// Width of the shared framebuffer in display cells.
pub const BUFFER_WIDTH: u32 = 336;

/// Height of the shared framebuffer in display cells.
pub const BUFFER_HEIGHT: u32 = 144;

/// Length in bytes of the shared framebuffer: one palette-index byte per
/// display cell.
pub const BUFFER_LEN: usize = 336 * 144;

} // verus!
