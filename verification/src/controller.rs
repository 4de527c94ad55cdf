//! The signal controller: an interruptible, command-driven state machine.

use vstd::prelude::*;

use crate::channel::{recv_command, recv_command_timeout, send_line_write, TimedRecv};
use crate::command::Command;
use std::sync::mpsc::Receiver;
use std::sync::mpsc::Sender;

verus! {

/// Milliseconds of the solid walk phase at the head of a countdown.
pub const COUNTDOWN_INITIAL_DELAY_MS: u64 = 2000;

/// Milliseconds of each half of a blink step inside a countdown.
pub const COUNTDOWN_DELAY_MS: u64 = 500;

/// The three mutually exclusive signal states.
///
/// `Man` is the "man walking" (walk) lamp, `Hand` the "raised hand"
/// (don't-walk) lamp, and `Off` has both lamps dark.
#[derive(Debug, Clone, Copy, PartialEq, Eq, Structural)]
pub enum CrosswalkState {
    Off,
    Man,
    Hand,
}

/// One of the two physical output lines.
#[derive(Debug, Clone, Copy, PartialEq, Eq, Structural)]
pub enum Line {
    Man,
    Hand,
}

/// One set-level operation on one output line: the unit the controller
/// hands to the line driver.
#[derive(Debug, Clone, Copy, PartialEq, Eq, Structural)]
pub struct LineWrite {
    pub line: Line,
    pub high: bool,
}

/// The levels `(man, hand)` that the two output lines hold once the given
/// signal state has been applied.
pub open spec fn levels_of(s: CrosswalkState) -> (bool, bool) {
    match s {
        CrosswalkState::Off => (false, false),
        CrosswalkState::Man => (true, false),
        CrosswalkState::Hand => (false, true),
    }
}

/// At most one of the two output lines is high.
pub open spec fn at_most_one_high(l: (bool, bool)) -> bool {
    !(l.0 && l.1)
}

/// The two single-line writes, in order, that switch the lines from the
/// levels `prev` to the levels of `s`. The line that must end low is always
/// written first, so no intermediate point has both lines high.
pub open spec fn writes_of(prev: (bool, bool), s: CrosswalkState) -> Seq<(bool, bool)> {
    match s {
        CrosswalkState::Off => seq![(prev.0, false), (false, false)],
        CrosswalkState::Man => seq![(prev.0, false), (true, false)],
        CrosswalkState::Hand => seq![(false, prev.1), (false, true)],
    }
}

/// The abstract state of a controller: the current line levels, the stored
/// step count, the pending-command slot, the history of applied signal
/// states, the history of every single-line write, and the number of
/// commands the run loop has consumed so far.
#[verifier::ext_equal]
pub struct ControllerModel {
    pub man: bool,
    pub hand: bool,
    pub count: u64,
    pub pending: Option<Command>,
    pub trace: Seq<CrosswalkState>,
    pub writes: Seq<(bool, bool)>,
    pub executed: nat,
}

/// Well-formedness of a controller model: no point of the write history ever
/// had both lines high, the current levels do not either, and the current
/// levels are the ones the most recently applied state calls for.
pub open spec fn model_wf(m: ControllerModel) -> bool {
    &&& at_most_one_high((m.man, m.hand))
    &&& (forall|i: int| 0 <= i < m.writes.len() ==> at_most_one_high(#[trigger] m.writes[i]))
    &&& (m.trace.len() > 0 ==> (m.man, m.hand) == levels_of(m.trace.last()))
}

/// The model after applying signal state `s`: both lines are rewritten in
/// the safe order, and the applied state is appended to the trace.
pub open spec fn after_set(m: ControllerModel, s: CrosswalkState) -> ControllerModel {
    (ControllerModel {
        man: levels_of(s).0,
        hand: levels_of(s).1,
        trace: m.trace.push(s),
        writes: m.writes + writes_of((m.man, m.hand), s),
        ..m
    })
}

/// The model after storing `n` as the new step count: nothing else changes,
/// in particular no output line.
pub open spec fn after_set_count(m: ControllerModel, n: u64) -> ControllerModel {
    (ControllerModel { count: n, ..m })
}

/// The signal states an uninterrupted run of `n` blink steps appends after
/// the walk phase: `n` repetitions of `Hand` then `Off`.
pub open spec fn blink_steps(n: nat) -> Seq<CrosswalkState>
    decreases n,
{
    if n == 0 {
        Seq::empty()
    } else {
        blink_steps((n - 1) as nat) + seq![CrosswalkState::Hand, CrosswalkState::Off]
    }
}

/// The exact sequence of signal states an uninterrupted countdown with step
/// count `n` applies: `Man`, `Off`, `n` blink steps, and a final held `Hand`.
pub open spec fn countdown_trace(n: nat) -> Seq<CrosswalkState> {
    seq![CrosswalkState::Man, CrosswalkState::Off] + blink_steps(n) + seq![CrosswalkState::Hand]
}

/// The sequences of signal states a countdown with step count `n` can have
/// applied when it stops early: a command arrived (or the queue closed)
/// during one of its timed delays, so the sequence breaks off exactly at
/// that delay's boundary and the lines stay as last set.
pub open spec fn interrupted_steps(n: nat, t: Seq<CrosswalkState>) -> bool {
    ||| t == seq![CrosswalkState::Man]
    ||| (exists|i: nat|
        i < n && t == seq![CrosswalkState::Man, CrosswalkState::Off] + blink_steps(i) + seq![
            CrosswalkState::Hand,
        ])
    ||| (exists|i: nat|
        1 <= i <= n && t == seq![CrosswalkState::Man, CrosswalkState::Off] + blink_steps(i))
}

/// The sequences of signal states a countdown with step count `n` can have
/// applied when the line driver failed at one of its switches: any
/// delay-boundary prefix, the walk phase with its following off, or the
/// full sequence with the failure at its last switch.
pub open spec fn partial_steps(n: nat, t: Seq<CrosswalkState>) -> bool {
    ||| interrupted_steps(n, t)
    ||| t == seq![CrosswalkState::Man, CrosswalkState::Off]
    ||| t == countdown_trace(n)
}

/// The error a controller run can end with. Both are fatal: the controller
/// never retries.
#[derive(Debug, Clone, Copy, PartialEq, Eq, Structural)]
pub enum ControllerError {
    /// The command queue was closed while the controller was inside a timed
    /// delay — the producer vanished mid-sequence.
    ChannelClosed,
    /// The line driver's end of the write port is gone, so a set-level
    /// operation could not be delivered — an unrecoverable output fault.
    LineClosed,
}

/// The signal controller. It owns the model of the two output lines, the
/// countdown step count, the consumer end of the command queue, and the
/// pending-command slot that holds a command which pre-empted a countdown.
pub struct CrosswalkController {
    man_level: bool,
    hand_level: bool,
    count: u64,
    cmd_rx: Receiver<Command>,
    line_tx: Sender<LineWrite>,
    pending_cmd: Option<Command>,
    states: Vec<CrosswalkState>,
    write_log: Ghost<Seq<(bool, bool)>>,
    executed_cmds: Ghost<nat>,
}

impl View for CrosswalkController {
    type V = ControllerModel;

    closed spec fn view(&self) -> ControllerModel {
        ControllerModel {
            man: self.man_level,
            hand: self.hand_level,
            count: self.count,
            pending: self.pending_cmd,
            trace: self.states@,
            writes: self.write_log@,
            executed: self.executed_cmds@,
        }
    }
}

impl CrosswalkController {
    /// The controller's invariant; every method preserves it.
    pub open spec fn wf(&self) -> bool {
        model_wf(self@)
    }

    /// A fresh controller: both lines low, the default step count of five,
    /// an empty pending slot and empty histories. It owns the consumer end
    /// of the command queue and the producer end of the line-write port.
    pub fn new(cmd_rx: Receiver<Command>, line_tx: Sender<LineWrite>) -> (r: Self)
        ensures
            r.wf(),
            r@.man == false,
            r@.hand == false,
            r@.count == 5,
            r@.pending is None,
            r@.trace == Seq::<CrosswalkState>::empty(),
            r@.writes == Seq::<(bool, bool)>::empty(),
            r@.executed == 0,
    {
        Self {
            man_level: false,
            hand_level: false,
            count: 5,
            cmd_rx,
            line_tx,
            pending_cmd: None,
            states: Vec::new(),
            write_log: Ghost(Seq::empty()),
            executed_cmds: Ghost(0),
        }
    }

    /// Apply a signal state to the two output lines: the line that must end
    /// low is written before the line that must end high, so that no
    /// intermediate point has both lines high. Each single-line write is
    /// also handed to the line driver, in the same order; a driver whose
    /// end of the port is gone is an unrecoverable output fault, reported
    /// after both commanded writes are recorded.
    pub fn set_state(&mut self, state: CrosswalkState) -> (r: Result<(), ControllerError>)
        requires
            old(self).wf(),
        ensures
            final(self).wf(),
            final(self)@ == after_set(old(self)@, state),
            r is Ok || r == Err::<(), ControllerError>(ControllerError::LineClosed),
    {
        let delivered: bool;
        match state {
            CrosswalkState::Off => {
                self.hand_level = false;
                self.write_log = Ghost(self.write_log@.push((self.man_level, self.hand_level)));
                let first = send_line_write(
                    &self.line_tx,
                    LineWrite { line: Line::Hand, high: false },
                );
                self.man_level = false;
                self.write_log = Ghost(self.write_log@.push((self.man_level, self.hand_level)));
                let second = send_line_write(
                    &self.line_tx,
                    LineWrite { line: Line::Man, high: false },
                );
                delivered = first && second;
            }
            CrosswalkState::Man => {
                self.hand_level = false;
                self.write_log = Ghost(self.write_log@.push((self.man_level, self.hand_level)));
                let first = send_line_write(
                    &self.line_tx,
                    LineWrite { line: Line::Hand, high: false },
                );
                self.man_level = true;
                self.write_log = Ghost(self.write_log@.push((self.man_level, self.hand_level)));
                let second = send_line_write(
                    &self.line_tx,
                    LineWrite { line: Line::Man, high: true },
                );
                delivered = first && second;
            }
            CrosswalkState::Hand => {
                self.man_level = false;
                self.write_log = Ghost(self.write_log@.push((self.man_level, self.hand_level)));
                let first = send_line_write(
                    &self.line_tx,
                    LineWrite { line: Line::Man, high: false },
                );
                self.hand_level = true;
                self.write_log = Ghost(self.write_log@.push((self.man_level, self.hand_level)));
                let second = send_line_write(
                    &self.line_tx,
                    LineWrite { line: Line::Hand, high: true },
                );
                delivered = first && second;
            }
        }
        self.states.push(state);
        proof {
            assert(self@.writes =~= after_set(old(self)@, state).writes);
            assert(self@ =~= after_set(old(self)@, state));
        }
        if delivered {
            Ok(())
        } else {
            Err(ControllerError::LineClosed)
        }
    }

    /// Wait up to `delay_ms` milliseconds for a command. A command that
    /// arrives in time is saved in the pending slot and the result is
    /// `Ok(true)` ("interrupted"); silence until the time runs out gives
    /// `Ok(false)`; a closed queue during the wait is fatal. The output
    /// lines, the trace and the step count never change.
    pub fn int_delay(&mut self, delay_ms: u64) -> (r: Result<bool, ControllerError>)
        requires
            old(self)@.pending is None,
        ensures
            final(self)@.man == old(self)@.man,
            final(self)@.hand == old(self)@.hand,
            final(self)@.count == old(self)@.count,
            final(self)@.trace == old(self)@.trace,
            final(self)@.writes == old(self)@.writes,
            final(self)@.executed == old(self)@.executed,
            old(self).wf() ==> final(self).wf(),
            (r matches Ok(true)) ==> final(self)@.pending is Some,
            (r matches Ok(false)) ==> final(self)@.pending is None,
            r is Err ==> r == Err::<bool, ControllerError>(ControllerError::ChannelClosed)
                && final(self)@.pending is None,
    {
        match recv_command_timeout(&self.cmd_rx, delay_ms) {
            TimedRecv::Received(cmd) => {
                self.pending_cmd = Some(cmd);
                proof {
                    assert(self@.writes == old(self)@.writes);
                }
                Ok(true)
            }
            TimedRecv::TimedOut => Ok(false),
            TimedRecv::Closed => Err(ControllerError::ChannelClosed),
        }
    }

    /// Run the countdown sequence with the current step count `n`: walk, a
    /// long interruptible delay, off, then `n` blink steps (don't-walk, a
    /// short delay, off, a short delay), ending held at don't-walk. Any
    /// command arriving during a delay stops the sequence at that delay's
    /// boundary, goes into the pending slot, and the lines stay as last set;
    /// a queue closed during a delay is fatal.
    pub fn countdown(&mut self) -> (r: Result<(), ControllerError>)
        requires
            old(self).wf(),
            old(self)@.pending is None,
        ensures
            final(self).wf(),
            final(self)@.count == old(self)@.count,
            final(self)@.executed == old(self)@.executed,
            final(self)@.trace.len() > old(self)@.trace.len(),
            forall|k: int|
                0 <= k < old(self)@.trace.len() ==> final(self)@.trace[k] == old(self)@.trace[k],
            r is Ok && final(self)@.pending is None ==> final(self)@.trace == old(self)@.trace
                + countdown_trace(old(self)@.count as nat) && (final(self)@.man, final(self)@.hand)
                == levels_of(CrosswalkState::Hand),
            r is Ok && final(self)@.pending is Some ==> interrupted_steps(
                old(self)@.count as nat,
                final(self)@.trace.skip(old(self)@.trace.len() as int),
            ),
            r is Err ==> final(self)@.pending is None,
            r is Err ==> r == Err::<(), ControllerError>(ControllerError::ChannelClosed) || r
                == Err::<(), ControllerError>(ControllerError::LineClosed),
            r == Err::<(), ControllerError>(ControllerError::ChannelClosed) ==> interrupted_steps(
                old(self)@.count as nat,
                final(self)@.trace.skip(old(self)@.trace.len() as int),
            ),
            r == Err::<(), ControllerError>(ControllerError::LineClosed) ==> partial_steps(
                old(self)@.count as nat,
                final(self)@.trace.skip(old(self)@.trace.len() as int),
            ),
    {
        let ghost base = old(self)@.trace;
        match self.set_state(CrosswalkState::Man) {
            Ok(_) => {}
            Err(e) => {
                proof {
                    assert(self@.trace.skip(base.len() as int) =~= seq![CrosswalkState::Man]);
                }
                return Err(e);
            }
        }
        let interrupted = match self.int_delay(COUNTDOWN_INITIAL_DELAY_MS) {
            Ok(b) => b,
            Err(e) => {
                proof {
                    assert(self@.trace.skip(base.len() as int) =~= seq![CrosswalkState::Man]);
                }
                return Err(e);
            }
        };
        if interrupted {
            proof {
                assert(self@.trace.skip(base.len() as int) =~= seq![CrosswalkState::Man]);
            }
            return Ok(());
        }
        match self.set_state(CrosswalkState::Off) {
            Ok(_) => {}
            Err(e) => {
                proof {
                    assert(self@.trace.skip(base.len() as int) =~= seq![
                        CrosswalkState::Man,
                        CrosswalkState::Off,
                    ]);
                }
                return Err(e);
            }
        }
        let n = self.count;
        let mut i: u64 = 0;
        proof {
            assert(self@.trace =~= base + seq![CrosswalkState::Man, CrosswalkState::Off]
                + blink_steps(0));
        }
        while i < n
            invariant
                self.wf(),
                self@.pending is None,
                self@.count == n,
                n == old(self)@.count,
                self@.executed == old(self)@.executed,
                base == old(self)@.trace,
                i <= n,
                self@.trace == base + seq![CrosswalkState::Man, CrosswalkState::Off] + blink_steps(
                    i as nat,
                ),
            decreases n - i,
        {
            match self.set_state(CrosswalkState::Hand) {
                Ok(_) => {}
                Err(e) => {
                    proof {
                        assert(self@.trace.skip(base.len() as int) =~= seq![
                            CrosswalkState::Man,
                            CrosswalkState::Off,
                        ] + blink_steps(i as nat) + seq![CrosswalkState::Hand]);
                    }
                    return Err(e);
                }
            }
            proof {
                assert(self@.trace.skip(base.len() as int) =~= seq![
                    CrosswalkState::Man,
                    CrosswalkState::Off,
                ] + blink_steps(i as nat) + seq![CrosswalkState::Hand]);
            }
            let interrupted = match self.int_delay(COUNTDOWN_DELAY_MS) {
                Ok(b) => b,
                Err(e) => {
                    return Err(e);
                }
            };
            if interrupted {
                return Ok(());
            }
            match self.set_state(CrosswalkState::Off) {
                Ok(_) => {}
                Err(e) => {
                    proof {
                        assert(blink_steps((i + 1) as nat) == blink_steps(i as nat) + seq![
                            CrosswalkState::Hand,
                            CrosswalkState::Off,
                        ]);
                        assert(self@.trace.skip(base.len() as int) =~= seq![
                            CrosswalkState::Man,
                            CrosswalkState::Off,
                        ] + blink_steps((i + 1) as nat));
                    }
                    return Err(e);
                }
            }
            proof {
                assert(blink_steps((i + 1) as nat) == blink_steps(i as nat) + seq![
                    CrosswalkState::Hand,
                    CrosswalkState::Off,
                ]);
                assert(self@.trace =~= base + seq![CrosswalkState::Man, CrosswalkState::Off]
                    + blink_steps((i + 1) as nat));
                assert(self@.trace.skip(base.len() as int) =~= seq![
                    CrosswalkState::Man,
                    CrosswalkState::Off,
                ] + blink_steps((i + 1) as nat));
            }
            let interrupted = match self.int_delay(COUNTDOWN_DELAY_MS) {
                Ok(b) => b,
                Err(e) => {
                    return Err(e);
                }
            };
            if interrupted {
                return Ok(());
            }
            i = i + 1;
        }
        let finished = self.set_state(CrosswalkState::Hand);
        proof {
            assert(self@.trace =~= base + countdown_trace(n as nat));
            assert(self@.trace.skip(base.len() as int) =~= countdown_trace(n as nat));
        }
        finished
    }

    /// Dispatch one command: the three immediate commands switch the signal
    /// at once, `Count(n)` stores the new step count and touches no output
    /// line, and `Countdown` runs the countdown sequence.
    pub fn execute(&mut self, cmd: Command) -> (r: Result<(), ControllerError>)
        requires
            old(self).wf(),
            old(self)@.pending is None,
        ensures
            final(self).wf(),
            final(self)@.executed == old(self)@.executed,
            final(self)@.trace.len() >= old(self)@.trace.len(),
            forall|k: int|
                0 <= k < old(self)@.trace.len() ==> final(self)@.trace[k] == old(self)@.trace[k],
            (cmd matches Command::Off) ==> final(self)@ == after_set(
                old(self)@,
                CrosswalkState::Off,
            ),
            (cmd matches Command::Man) ==> final(self)@ == after_set(
                old(self)@,
                CrosswalkState::Man,
            ),
            (cmd matches Command::Hand) ==> final(self)@ == after_set(
                old(self)@,
                CrosswalkState::Hand,
            ),
            cmd matches Command::Count(n) ==> r is Ok && final(self)@ == after_set_count(
                old(self)@,
                n,
            ),
            (cmd matches Command::Countdown) ==> final(self)@.count == old(self)@.count && (r
                is Ok && final(self)@.pending is None ==> final(self)@.trace == old(self)@.trace
                + countdown_trace(old(self)@.count as nat)) && (r is Ok
                && final(self)@.pending is Some ==> interrupted_steps(
                old(self)@.count as nat,
                final(self)@.trace.skip(old(self)@.trace.len() as int),
            )) && (r == Err::<(), ControllerError>(ControllerError::ChannelClosed)
                ==> interrupted_steps(
                old(self)@.count as nat,
                final(self)@.trace.skip(old(self)@.trace.len() as int),
            )) && (r == Err::<(), ControllerError>(ControllerError::LineClosed) ==> partial_steps(
                old(self)@.count as nat,
                final(self)@.trace.skip(old(self)@.trace.len() as int),
            )),
            r is Err ==> final(self)@.pending is None,
            r is Err ==> r == Err::<(), ControllerError>(ControllerError::ChannelClosed) || r
                == Err::<(), ControllerError>(ControllerError::LineClosed),
            r == Err::<(), ControllerError>(ControllerError::ChannelClosed) ==> (
            cmd matches Command::Countdown),
    {
        match cmd {
            Command::Off => self.set_state(CrosswalkState::Off),
            Command::Hand => self.set_state(CrosswalkState::Hand),
            Command::Man => self.set_state(CrosswalkState::Man),
            Command::Countdown => self.countdown(),
            Command::Count(count) => {
                self.count = count;
                Ok(())
            }
        }
    }

    /// The controller's run loop: force the signal off and clear the pending
    /// slot, then repeatedly consume the pending command if one exists, or
    /// block on the queue otherwise, and execute what was taken. A queue
    /// closed while the controller idles ends the loop cleanly with
    /// `Ok(true)`; a queue closed inside a countdown delay ends it with an
    /// error.
    ///
    /// Verified loops must terminate, so the loop carries a command budget:
    /// it gives up with `Ok(false)` exactly when `max_cmds` commands have
    /// been consumed and executed (the model's `executed` count says so). A
    /// caller that wants the practically unbounded loop of a long-running
    /// device passes `u64::MAX`.
    pub fn run(&mut self, max_cmds: u64) -> (r: Result<bool, ControllerError>)
        requires
            old(self).wf(),
        ensures
            final(self).wf(),
            final(self)@.trace.len() > old(self)@.trace.len(),
            forall|k: int|
                0 <= k < old(self)@.trace.len() ==> final(self)@.trace[k] == old(self)@.trace[k],
            final(self)@.trace[old(self)@.trace.len() as int] == CrosswalkState::Off,
            old(self)@.executed <= final(self)@.executed <= old(self)@.executed + max_cmds,
            r matches Ok(true) ==> final(self)@.pending is None && final(self)@.executed < old(
                self,
            )@.executed + max_cmds,
            r matches Ok(false) ==> final(self)@.executed == old(self)@.executed + max_cmds,
            r is Err ==> final(self)@.pending is None,
            r is Err ==> r == Err::<bool, ControllerError>(ControllerError::ChannelClosed) || r
                == Err::<bool, ControllerError>(ControllerError::LineClosed),
    {
        self.pending_cmd = None;
        proof {
            assert(self@.writes == old(self)@.writes);
            assert(self.wf());
        }
        match self.set_state(CrosswalkState::Off) {
            Ok(_) => {}
            Err(e) => {
                return Err(e);
            }
        }
        let mut remaining = max_cmds;
        while remaining > 0
            invariant
                self.wf(),
                self@.trace.len() > old(self)@.trace.len(),
                forall|k: int|
                    0 <= k < old(self)@.trace.len() ==> self@.trace[k] == old(self)@.trace[k],
                self@.trace[old(self)@.trace.len() as int] == CrosswalkState::Off,
                remaining <= max_cmds,
                self@.executed == old(self)@.executed + max_cmds - remaining,
            decreases remaining,
        {
            let ghost pre = self@;
            let cmd: Command;
            if let Some(c) = self.pending_cmd {
                self.pending_cmd = None;
                cmd = c;
            } else {
                match recv_command(&self.cmd_rx) {
                    Some(c) => {
                        cmd = c;
                    }
                    None => {
                        return Ok(true);
                    }
                }
            }
            self.executed_cmds = Ghost(self.executed_cmds@ + 1);
            proof {
                assert(self@.writes == pre.writes);
                assert(self@.trace == pre.trace);
                assert(self.wf());
            }
            match self.execute(cmd) {
                Ok(_) => {}
                Err(e) => {
                    return Err(e);
                }
            }
            remaining = remaining - 1;
        }
        Ok(false)
    }

    /// The history of signal states applied so far, oldest first.
    pub fn trace(&self) -> (r: &Vec<CrosswalkState>)
        ensures
            r@ == self@.trace,
    {
        &self.states
    }

    /// The step count the next countdown will use.
    pub fn step_count(&self) -> (r: u64)
        ensures
            r == self@.count,
    {
        self.count
    }

    /// The command, if any, that pre-empted the last countdown and waits to
    /// be executed.
    pub fn pending(&self) -> (r: Option<Command>)
        ensures
            r == self@.pending,
    {
        self.pending_cmd
    }

    /// The current levels `(man, hand)` of the two output lines.
    pub fn line_levels(&self) -> (r: (bool, bool))
        ensures
            r == (self@.man, self@.hand),
    {
        (self.man_level, self.hand_level)
    }
}

/// Law: along the whole write history of a well-formed controller, the two
/// output lines are never both high — including the point between the two
/// single-line writes of one state switch.
pub proof fn lemma_never_both_high(m: ControllerModel, i: int)
    requires
        model_wf(m),
        0 <= i < m.writes.len(),
    ensures
        !(m.writes[i].0 && m.writes[i].1),
{
}

/// Law: whatever levels the two lines held before, the ordered pair of
/// single-line writes that switches them to a new signal state never passes
/// through a point with both lines high.
pub proof fn lemma_switch_never_both_high(prev: (bool, bool), s: CrosswalkState)
    ensures
        forall|i: int|
            0 <= i < writes_of(prev, s).len() ==> at_most_one_high(#[trigger] writes_of(prev, s)[i]),
{
}

/// Law: applying the same signal state twice in a row — in particular
/// switching the signal off twice — leaves the same observable state (line
/// levels, step count and pending slot) as applying it once.
pub proof fn lemma_set_idempotent(m: ControllerModel, s: CrosswalkState)
    ensures
        after_set(after_set(m, s), s).man == after_set(m, s).man,
        after_set(after_set(m, s), s).hand == after_set(m, s).hand,
        after_set(after_set(m, s), s).count == after_set(m, s).count,
        after_set(after_set(m, s), s).pending == after_set(m, s).pending,
{
}

/// Law: storing a new step count changes no output line and applies no
/// signal state, and a countdown that follows uses the count most recently
/// stored, whatever was stored before.
pub proof fn lemma_set_count_output_unchanged(m: ControllerModel, earlier: u64, n: u64)
    ensures
        after_set_count(m, n).man == m.man,
        after_set_count(m, n).hand == m.hand,
        after_set_count(m, n).trace == m.trace,
        after_set_count(m, n).writes == m.writes,
        after_set_count(after_set_count(m, earlier), n).count == n,
{
}

/// Law: a countdown with step count zero applies exactly walk, off, and the
/// held don't-walk — no blink step and no fault.
pub proof fn lemma_countdown_zero()
    ensures
        countdown_trace(0) == seq![CrosswalkState::Man, CrosswalkState::Off, CrosswalkState::Hand],
{
    assert(countdown_trace(0) =~= seq![
        CrosswalkState::Man,
        CrosswalkState::Off,
        CrosswalkState::Hand,
    ]);
}

/// The blink part of an uninterrupted countdown with step count `n` holds
/// exactly `n` pairs of don't-walk then off: don't-walk at even offsets,
/// off at odd ones.
proof fn lemma_blink_steps_shape(n: nat)
    ensures
        blink_steps(n).len() == 2 * n,
        forall|j: int|
            0 <= j < 2 * n ==> #[trigger] blink_steps(n)[j] == (if j % 2 == 0 {
                CrosswalkState::Hand
            } else {
                CrosswalkState::Off
            }),
    decreases n,
{
    if n > 0 {
        lemma_blink_steps_shape((n - 1) as nat);
    }
}

/// Law: an uninterrupted countdown with step count `n` passes through
/// exactly walk, off, then `n` times don't-walk and off in alternation, and
/// ends held at don't-walk — `2 * n + 3` applied states in all.
pub proof fn lemma_countdown_trace_shape(n: nat)
    ensures
        countdown_trace(n).len() == 2 * n + 3,
        countdown_trace(n)[0] == CrosswalkState::Man,
        countdown_trace(n)[1] == CrosswalkState::Off,
        countdown_trace(n).last() == CrosswalkState::Hand,
        forall|j: int|
            2 <= j < 2 * n + 2 ==> #[trigger] countdown_trace(n)[j] == (if j % 2 == 0 {
                CrosswalkState::Hand
            } else {
                CrosswalkState::Off
            }),
{
    lemma_blink_steps_shape(n);
    assert forall|j: int| 2 <= j < 2 * n + 2 implies #[trigger] countdown_trace(n)[j] == (if j % 2
        == 0 {
        CrosswalkState::Hand
    } else {
        CrosswalkState::Off
    }) by {
        assert(countdown_trace(n)[j] == blink_steps(n)[j - 2]);
        assert((j - 2) % 2 == j % 2);
    }
}

} // verus!
