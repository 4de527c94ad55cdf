//! A verified pedestrian-crossing signal controller.
//!
//! Two binary output lines ("man walking" and "raised hand") are driven by a
//! stream of typed commands arriving on a queue. Immediate commands switch the
//! signal at once; a countdown command runs a timed walk-then-blink sequence
//! that any newly arriving command pre-empts at the next delay boundary.

mod channel;
pub mod command;
pub mod controller;
pub mod parse;
