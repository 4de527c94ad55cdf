//! The command vocabulary consumed by the signal controller.

use vstd::prelude::*;

verus! {

/// A typed request for the signal controller.
///
/// `Off`, `Man` and `Hand` ask for an immediate switch to the corresponding
/// signal state; `Countdown` starts the timed walk-then-blink sequence;
/// `Count(n)` stores `n` as the step count of the next countdown without
/// touching the output lines.
#[derive(Debug, Clone, Copy, PartialEq, Eq, Structural)]
pub enum Command {
    Off,
    Hand,
    Man,
    Countdown,
    Count(u64),
}

} // verus!
