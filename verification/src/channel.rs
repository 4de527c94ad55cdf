//! Trusted view of the command queue.
//!
//! The controller receives its commands over a `std::sync::mpsc` channel.
//! What a receive returns depends on other threads and on real time, so the
//! wrappers here promise nothing about which outcome occurs — only that the
//! three possible outcomes of a timed receive are told apart faithfully.

use vstd::prelude::*;

use crate::command::Command;
use crate::controller::LineWrite;

verus! {

#[verifier::external_type_specification]
#[verifier::external_body]
#[verifier::reject_recursive_types(T)]
pub struct ExSender<T>(std::sync::mpsc::Sender<T>);

/// Relies on `std::sync::mpsc::Sender::send`: queues the write for the
/// receiving end, in sending order, and fails exactly when that end is
/// gone. Whether it fails depends on the other side, so only the success
/// flag is returned and nothing is promised of it.
#[verifier::external_body]
pub(crate) fn send_line_write(tx: &std::sync::mpsc::Sender<LineWrite>, w: LineWrite) -> (r: bool) {
    tx.send(w).is_ok()
}

#[verifier::external_type_specification]
#[verifier::external_body]
#[verifier::reject_recursive_types(T)]
pub struct ExReceiver<T>(std::sync::mpsc::Receiver<T>);

/// The outcome of waiting on the command queue for a bounded time.
#[derive(Debug, Clone, Copy, PartialEq, Eq, Structural)]
pub enum TimedRecv {
    /// A command arrived before the time ran out.
    Received(Command),
    /// The time ran out with no command and the queue still open.
    TimedOut,
    /// Every producer is gone and no command is left.
    Closed,
}

/// Relies on `std::sync::mpsc::Receiver::recv`: blocks until a command
/// arrives (`Some`) or every sender has been dropped and the queue is
/// empty (`None`). Which of the two happens depends on other threads,
/// so nothing is promised of the result.
#[verifier::external_body]
pub(crate) fn recv_command(rx: &std::sync::mpsc::Receiver<Command>) -> (r: Option<Command>) {
    match rx.recv() {
        Ok(cmd) => Some(cmd),
        Err(_) => None,
    }
}

/// Relies on `std::sync::mpsc::Receiver::recv_timeout`: waits at most the
/// given number of milliseconds and has exactly three outcomes — a command,
/// a timeout, or a disconnection — mapped one arm to one variant. Which
/// outcome occurs depends on other threads and on real time, so nothing is
/// promised of the result.
#[verifier::external_body]
pub(crate) fn recv_command_timeout(
    rx: &std::sync::mpsc::Receiver<Command>,
    ms: u64,
) -> (r: TimedRecv) {
    match rx.recv_timeout(core::time::Duration::from_millis(ms)) {
        Ok(cmd) => TimedRecv::Received(cmd),
        Err(std::sync::mpsc::RecvTimeoutError::Timeout) => TimedRecv::TimedOut,
        Err(std::sync::mpsc::RecvTimeoutError::Disconnected) => TimedRecv::Closed,
    }
}

} // verus!
