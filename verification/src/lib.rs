//! A POSIX-style signal delivery subsystem: registration of signal
//! dispositions, per-thread signal masks, process/group/broadcast targeting
//! for `kill`, single-thread targeting for `tkill`, alternate signal stacks,
//! and trap-frame restoration on `sigreturn`.

pub mod error;
pub mod laws;
pub mod process;
pub mod signal;
pub mod syscall;
