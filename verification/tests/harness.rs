use gavin_rust_blog_os::harness::{step, RunAction, RunEvent, RunState};
use gavin_rust_blog_os::{test_runner, QemuExitCode, Testable};
use std::cell::RefCell;

struct Recorded<'a> {
    id: usize,
    log: &'a RefCell<Vec<usize>>,
}

impl Testable for Recorded<'_> {
    fn run(&self) {
        self.log.borrow_mut().push(self.id);
    }
}

/// Drives the transition function as a harness does: `outcomes[i]` says
/// whether check `i` passes. Returns the checks run and the signals given.
fn drive(total: usize, outcomes: &[bool], extra: &[RunEvent]) -> (Vec<usize>, Vec<QemuExitCode>) {
    let mut ran = Vec::new();
    let mut exits = Vec::new();
    let mut turn = step(RunState::Ready { total }, RunEvent::Start);
    loop {
        match turn.1 {
            RunAction::Run(index) => {
                ran.push(index);
                let event = if outcomes[index] { RunEvent::Passed } else { RunEvent::Faulted };
                turn = step(turn.0, event);
            }
            RunAction::Exit(code) => {
                exits.push(code);
                break;
            }
            RunAction::Idle => panic!("idle before the exit"),
        }
    }
    let mut state = turn.0;
    for event in extra {
        let next = step(state, *event);
        match next.1 {
            RunAction::Run(index) => ran.push(index),
            RunAction::Exit(code) => exits.push(code),
            RunAction::Idle => {}
        }
        state = next.0;
    }
    assert_eq!(state, RunState::Exited);
    (ran, exits)
}

#[test]
fn runner_runs_every_check_once_in_order() {
    let log = RefCell::new(Vec::new());
    let a = Recorded { id: 10, log: &log };
    let b = Recorded { id: 20, log: &log };
    let c = Recorded { id: 30, log: &log };
    let code = test_runner(&[&a, &b, &c]);
    assert_eq!(code, QemuExitCode::Success);
    assert_eq!(*log.borrow(), vec![10, 20, 30]);
}

#[test]
fn runner_with_no_checks_succeeds() {
    assert_eq!(test_runner(&[]), QemuExitCode::Success);
}

#[test]
fn runner_runs_a_check_listed_twice_twice() {
    let log = RefCell::new(Vec::new());
    let a = Recorded { id: 1, log: &log };
    let b = Recorded { id: 2, log: &log };
    assert_eq!(test_runner(&[&a, &b, &a]), QemuExitCode::Success);
    assert_eq!(*log.borrow(), vec![1, 2, 1]);
}

#[test]
fn start_runs_the_first_check() {
    assert_eq!(
        step(RunState::Ready { total: 3 }, RunEvent::Start),
        (RunState::Running { index: 0, total: 3 }, RunAction::Run(0))
    );
}

#[test]
fn start_without_checks_exits_with_success() {
    assert_eq!(
        step(RunState::Ready { total: 0 }, RunEvent::Start),
        (RunState::Exited, RunAction::Exit(QemuExitCode::Success))
    );
}

#[test]
fn a_pass_runs_the_next_check() {
    assert_eq!(
        step(RunState::Running { index: 0, total: 3 }, RunEvent::Passed),
        (RunState::Running { index: 1, total: 3 }, RunAction::Run(1))
    );
    assert_eq!(
        step(RunState::Running { index: 1, total: 3 }, RunEvent::Passed),
        (RunState::Running { index: 2, total: 3 }, RunAction::Run(2))
    );
}

#[test]
fn the_last_pass_exits_with_success() {
    assert_eq!(
        step(RunState::Running { index: 2, total: 3 }, RunEvent::Passed),
        (RunState::Exited, RunAction::Exit(QemuExitCode::Success))
    );
    assert_eq!(
        step(RunState::Running { index: usize::MAX - 1, total: usize::MAX }, RunEvent::Passed),
        (RunState::Exited, RunAction::Exit(QemuExitCode::Success))
    );
}

#[test]
fn a_fault_exits_with_failed() {
    assert_eq!(
        step(RunState::Running { index: 1, total: 3 }, RunEvent::Faulted),
        (RunState::Exited, RunAction::Exit(QemuExitCode::Failed))
    );
    assert_eq!(
        step(RunState::Ready { total: 3 }, RunEvent::Faulted),
        (RunState::Exited, RunAction::Exit(QemuExitCode::Failed))
    );
}

#[test]
fn nothing_is_done_after_the_exit() {
    for event in [RunEvent::Start, RunEvent::Passed, RunEvent::Faulted] {
        assert_eq!(step(RunState::Exited, event), (RunState::Exited, RunAction::Idle));
    }
}

#[test]
fn an_event_that_does_not_fit_changes_nothing() {
    let ready = RunState::Ready { total: 2 };
    assert_eq!(step(ready, RunEvent::Passed), (ready, RunAction::Idle));
    let running = RunState::Running { index: 1, total: 2 };
    assert_eq!(step(running, RunEvent::Start), (running, RunAction::Idle));
}

#[test]
fn a_clean_run_signals_success_once() {
    for total in 0..6 {
        let (ran, exits) = drive(total, &vec![true; total], &[]);
        assert_eq!(ran, (0..total).collect::<Vec<usize>>());
        assert_eq!(exits, vec![QemuExitCode::Success]);
    }
}

#[test]
fn a_fault_signals_failed_once_and_stops_the_run() {
    for total in 1..6 {
        for faulty in 0..total {
            let mut outcomes = vec![true; total];
            outcomes[faulty] = false;
            let later = [RunEvent::Passed, RunEvent::Start, RunEvent::Faulted, RunEvent::Passed];
            let (ran, exits) = drive(total, &outcomes, &later);
            assert_eq!(ran, (0..=faulty).collect::<Vec<usize>>());
            assert_eq!(exits, vec![QemuExitCode::Failed]);
        }
    }
}
