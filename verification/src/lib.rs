//! Memory-management and task-scheduling core of a freestanding kernel.
//!
//! The crate models the two subsystems that carry the hard engineering of
//! such a kernel: physical/virtual memory management (a bitmap frame
//! allocator, a hierarchical page-table mapper, and heap bootstrap) and a
//! cooperative task executor fed by a bounded interrupt-to-task queue.
//! Hardware access (port I/O, control registers, the halt instruction) lives
//! outside this crate; everything here works on explicitly owned state handed
//! in by the boot path.

use vstd::prelude::*;

pub mod executor;
pub mod frame_allocator;
pub mod heap;
pub mod idle;
pub mod interrupts;
pub mod keyboard;
pub mod mem;
pub mod paging;
pub mod queue;
pub mod serial;

verus! {

/// Fixed virtual offset at which all of physical memory is mapped
/// (the direct map). Physical address `p` is visible at `p + offset`.
pub const PHYSICAL_MEMORY_OFFSET: u64 = 0xFFFF_8000_0000_0000;

/// I/O port of the primary serial monitor.
pub const SERIAL_MONITOR_PORT: u16 = 0x3F8;

} // verus!
