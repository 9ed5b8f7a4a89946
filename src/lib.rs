//! Process-lifecycle and address-space system calls of a small multitasking
//! kernel, modelled over an explicit kernel state and verified with Verus.

pub mod mm;
pub mod task;
pub mod process;
pub mod lemmas;
