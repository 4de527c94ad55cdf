use crosswalk::command::Command;
use crosswalk::controller::{
    ControllerError, CrosswalkController, CrosswalkState, Line, LineWrite, COUNTDOWN_DELAY_MS,
    COUNTDOWN_INITIAL_DELAY_MS,
};
use std::sync::mpsc;
use std::sync::mpsc::Receiver;
use std::time::Instant;

fn fresh() -> (CrosswalkController, mpsc::Sender<Command>, Receiver<LineWrite>) {
    let (cmd_tx, cmd_rx) = mpsc::channel();
    let (line_tx, line_rx) = mpsc::channel();
    (CrosswalkController::new(cmd_rx, line_tx), cmd_tx, line_rx)
}

fn both_ok(levels: (bool, bool)) -> bool {
    !(levels.0 && levels.1)
}

/// Replay the delivered single-line writes and check that no point of the
/// history has both lines high.
fn replay_is_safe(writes: &[LineWrite]) -> bool {
    let mut man = false;
    let mut hand = false;
    for w in writes {
        match w.line {
            Line::Man => man = w.high,
            Line::Hand => hand = w.high,
        }
        if man && hand {
            return false;
        }
    }
    true
}

#[test]
fn new_controller_defaults() {
    let (c, _cmd_tx, _line_rx) = fresh();
    assert_eq!(c.step_count(), 5);
    assert_eq!(c.pending(), None);
    assert_eq!(c.line_levels(), (false, false));
    assert!(c.trace().is_empty());
}

#[test]
fn run_exits_cleanly_when_queue_closes_while_idle() {
    let (mut c, cmd_tx, _line_rx) = fresh();
    drop(cmd_tx);
    let r = c.run(u64::MAX);
    assert_eq!(r, Ok(true));
    assert_eq!(c.trace(), &vec![CrosswalkState::Off]);
    assert_eq!(c.pending(), None);
}

#[test]
fn run_fails_when_queue_closes_inside_a_delay() {
    let (mut c, cmd_tx, _line_rx) = fresh();
    cmd_tx.send(Command::Countdown).unwrap();
    drop(cmd_tx);
    let r = c.run(u64::MAX);
    assert_eq!(r, Err(ControllerError::ChannelClosed));
    assert_eq!(c.trace(), &vec![CrosswalkState::Off, CrosswalkState::Man]);
}

#[test]
fn run_fails_when_the_line_driver_is_gone() {
    let (mut c, cmd_tx, line_rx) = fresh();
    drop(line_rx);
    drop(cmd_tx);
    let r = c.run(u64::MAX);
    assert_eq!(r, Err(ControllerError::LineClosed));
}

#[test]
fn command_arriving_in_walk_phase_preempts_and_runs_next() {
    let (mut c, cmd_tx, line_rx) = fresh();
    cmd_tx.send(Command::Countdown).unwrap();
    cmd_tx.send(Command::Off).unwrap();
    drop(cmd_tx);
    let r = c.run(u64::MAX);
    assert_eq!(r, Ok(true));
    // The countdown is cut short after the walk phase: no blink step runs,
    // and the pre-empting command leaves the signal off, not at don't-walk.
    assert_eq!(
        c.trace(),
        &vec![CrosswalkState::Off, CrosswalkState::Man, CrosswalkState::Off]
    );
    assert_eq!(c.line_levels(), (false, false));
    let writes: Vec<LineWrite> = line_rx.try_iter().collect();
    assert!(replay_is_safe(&writes));
}

#[test]
fn countdown_interrupted_saves_the_command_and_stops() {
    let (mut c, cmd_tx, _line_rx) = fresh();
    cmd_tx.send(Command::Hand).unwrap();
    let r = c.execute(Command::Countdown);
    assert_eq!(r, Ok(()));
    assert_eq!(c.pending(), Some(Command::Hand));
    // Only the walk phase was applied; the lines stay as last set.
    assert_eq!(c.trace(), &vec![CrosswalkState::Man]);
    assert_eq!(c.line_levels(), (true, false));
}

#[test]
fn uninterrupted_countdown_walks_then_blinks_then_holds() {
    let (mut c, _cmd_tx, line_rx) = fresh();
    assert_eq!(c.execute(Command::Count(2)), Ok(()));
    let started = Instant::now();
    let r = c.execute(Command::Countdown);
    let elapsed = started.elapsed().as_millis() as u64;
    assert_eq!(r, Ok(()));
    assert_eq!(c.pending(), None);
    assert_eq!(
        c.trace(),
        &vec![
            CrosswalkState::Man,
            CrosswalkState::Off,
            CrosswalkState::Hand,
            CrosswalkState::Off,
            CrosswalkState::Hand,
            CrosswalkState::Off,
            CrosswalkState::Hand,
        ]
    );
    assert_eq!(c.line_levels(), (false, true));
    // Each timed step waited out its configured duration.
    assert!(elapsed >= COUNTDOWN_INITIAL_DELAY_MS + 4 * COUNTDOWN_DELAY_MS);
    let writes: Vec<LineWrite> = line_rx.try_iter().collect();
    assert_eq!(writes.len(), 14);
    assert!(replay_is_safe(&writes));
}

#[test]
fn countdown_with_zero_steps_skips_the_blinking() {
    let (mut c, _cmd_tx, _line_rx) = fresh();
    assert_eq!(c.execute(Command::Count(0)), Ok(()));
    let r = c.execute(Command::Countdown);
    assert_eq!(r, Ok(()));
    assert_eq!(
        c.trace(),
        &vec![CrosswalkState::Man, CrosswalkState::Off, CrosswalkState::Hand]
    );
    assert_eq!(c.line_levels(), (false, true));
}

#[test]
fn set_off_twice_equals_set_off_once() {
    let (mut once, _t1, _l1) = fresh();
    let (mut twice, _t2, _l2) = fresh();
    assert_eq!(once.execute(Command::Off), Ok(()));
    assert_eq!(twice.execute(Command::Off), Ok(()));
    assert_eq!(twice.execute(Command::Off), Ok(()));
    assert_eq!(once.line_levels(), twice.line_levels());
    assert_eq!(once.step_count(), twice.step_count());
    assert_eq!(once.pending(), twice.pending());
}

#[test]
fn set_count_changes_no_output_and_latest_count_wins() {
    let (mut c, _cmd_tx, line_rx) = fresh();
    assert_eq!(c.execute(Command::Man), Ok(()));
    let trace_before = c.trace().clone();
    let levels_before = c.line_levels();
    let writes_before = line_rx.try_iter().count();
    assert_eq!(c.execute(Command::Count(9)), Ok(()));
    assert_eq!(c.trace(), &trace_before);
    assert_eq!(c.line_levels(), levels_before);
    assert_eq!(line_rx.try_iter().count(), 0);
    assert_eq!(writes_before, 2);
    assert_eq!(c.step_count(), 9);
    // Counts beyond one byte are stored unclipped.
    assert_eq!(c.execute(Command::Count(70000)), Ok(()));
    assert_eq!(c.step_count(), 70000);
    // A later count supersedes, and the countdown uses it: one blink pair.
    assert_eq!(c.execute(Command::Count(1)), Ok(()));
    assert_eq!(c.step_count(), 1);
    let r = c.execute(Command::Countdown);
    assert_eq!(r, Ok(()));
    assert_eq!(
        &c.trace()[1..],
        &[
            CrosswalkState::Man,
            CrosswalkState::Off,
            CrosswalkState::Hand,
            CrosswalkState::Off,
            CrosswalkState::Hand,
        ]
    );
}

#[test]
fn switching_to_walk_lowers_the_hand_line_first() {
    let (mut c, _cmd_tx, line_rx) = fresh();
    assert_eq!(c.execute(Command::Hand), Ok(()));
    assert_eq!(c.execute(Command::Man), Ok(()));
    let writes: Vec<LineWrite> = line_rx.try_iter().collect();
    assert_eq!(
        writes,
        vec![
            LineWrite { line: Line::Man, high: false },
            LineWrite { line: Line::Hand, high: true },
            LineWrite { line: Line::Hand, high: false },
            LineWrite { line: Line::Man, high: true },
        ]
    );
    assert!(replay_is_safe(&writes));
}

#[test]
fn lines_never_both_high_across_commands() {
    let (mut c, cmd_tx, line_rx) = fresh();
    assert!(both_ok(c.line_levels()));
    for cmd in [
        Command::Man,
        Command::Hand,
        Command::Man,
        Command::Off,
        Command::Hand,
        Command::Count(1),
        Command::Hand,
    ] {
        assert_eq!(c.execute(cmd), Ok(()));
        assert!(both_ok(c.line_levels()));
    }
    // Interrupt a countdown mid-flight and keep checking.
    cmd_tx.send(Command::Man).unwrap();
    assert_eq!(c.execute(Command::Countdown), Ok(()));
    assert!(both_ok(c.line_levels()));
    assert_eq!(c.pending(), Some(Command::Man));
    let writes: Vec<LineWrite> = line_rx.try_iter().collect();
    assert!(replay_is_safe(&writes));
}
