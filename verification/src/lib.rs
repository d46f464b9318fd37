//! A per-session stopwatch core: a text time-log format, split/lap
//! derivation, and the command state machine that drives them.
//!
//! The log is a sequence of `"<label>: <timestamp>\n"` lines; the first
//! entry is always the start marker labeled `"0"`.  Commands map the
//! presence and contents of the log onto file actions and report values.
//! All durations are integer nanosecond differences; callers render them
//! in whatever unit they like.

pub mod codec;
pub mod command;
pub mod engine;
pub mod errors;
pub mod numtext;
pub mod table;
