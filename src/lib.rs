//! Cooperative task scheduling core of a single-core kernel: task identities,
//! units of work, wake handles, bounded ready queues, and round-robin and
//! priority schedulers, with the small pieces of interrupt and display
//! configuration the kernel computes.

pub mod interrupts;
pub mod pic_8259;
pub mod queue;
pub mod scheduler;
pub mod task;
pub mod vga_buffer;
pub mod yields;
