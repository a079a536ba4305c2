//! Runs a command every N seconds: the schedule of ticks, the per-tick launch
//! policy with its bookkeeping of running invocations, and the command line.

pub mod args;
pub mod help;
pub mod launcher;
pub mod text;
pub mod tick;
