//! Task management core of a small single-CPU time-sharing kernel.
//!
//! A fixed set of tasks is scheduled round-robin. The scheduler itself never
//! touches hardware: every operation takes the current clock reading as an
//! argument and returns a description of what the surrounding kernel has to
//! do next (copy an image, switch contexts, program the timer, power off).

pub mod config;
pub mod context;
pub mod laws;
pub mod model;
pub mod stat;
pub mod task;
pub mod trap;
