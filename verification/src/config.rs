//! Sizes and addresses fixed at build time.

use vstd::prelude::*;

verus! {

/// Number of task slots that are statically reserved.
pub const MAX_TASK_NUM: usize = 32;

/// Number of system-call numbers for which invocations are counted.
pub const MAX_SYSCALL_NUM: usize = 500;

/// Address at which the image of task 0 is placed.
pub const APP_BASE_ADDR: usize = 0x80400000;

/// Distance between the load addresses of two consecutive tasks.
pub const MAX_APP_SIZE: usize = 0x20000;

/// Number of scheduling quanta per second.
pub const TICKS_PER_SEC: usize = 100;

} // verus!
