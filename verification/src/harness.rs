//! Running self-checks under an emulator: the status codes that end a run,
//! and the decisions of the runner, which are one transition function that
//! both the runner and the fault path consult.

use vstd::prelude::*;

verus! {

/// The status that the emulator is asked to exit with.
#[derive(Debug, Clone, Copy, PartialEq, Eq, Structural)]
pub enum QemuExitCode {
    Success,
    Failed,
}

/// The I/O port of the emulator's exit device.
pub const EXIT_PORT: u16 = 0xf4;

impl QemuExitCode {
    /// The 32-bit value that stands for a status on the exit port.
    pub open spec fn spec_value(self) -> u32 {
        match self {
            QemuExitCode::Success => 0x10,
            QemuExitCode::Failed => 0x11,
        }
    }

    /// The value to write to the exit port for this status.
    #[verifier::when_used_as_spec(spec_value)]
    pub fn value(self) -> (value: u32)
        ensures
            value == self.spec_value(),
    {
        match self {
            QemuExitCode::Success => 0x10,
            QemuExitCode::Failed => 0x11,
        }
    }
}

/// A self-check. `run` returns when the check has passed; a check that fails
/// faults and does not return.
pub trait Testable {
    fn run(&self) -> ();
}

/// Where a run of the self-checks stands.
#[derive(Debug, Clone, Copy, PartialEq, Eq, Structural)]
pub enum RunState {
    /// No check has run yet; `total` of them wait.
    Ready { total: usize },
    /// Check `index` of `total` is running.
    Running { index: usize, total: usize },
    /// The exit signal has been given.
    Exited,
}

/// What happened, as the runner is told.
#[derive(Debug, Clone, Copy, PartialEq, Eq, Structural)]
pub enum RunEvent {
    /// The run begins.
    Start,
    /// The running check returned.
    Passed,
    /// A fault was raised.
    Faulted,
}

/// What is to be done next.
#[derive(Debug, Clone, Copy, PartialEq, Eq, Structural)]
pub enum RunAction {
    /// Run the check with this index.
    Run(usize),
    /// Give the exit signal with this status.
    Exit(QemuExitCode),
    /// Do nothing.
    Idle,
}

impl RunState {
    /// A running check is one of the checks.
    pub open spec fn wf(self) -> bool {
        match self {
            RunState::Running { index, total } => index < total,
            _ => true,
        }
    }
}

/// The state and the action that follow a state and an event.
///
/// A run starts with check 0, or exits with `Success` at once where there is
/// no check. A check that passes is followed by the next one, the last by the
/// exit with `Success`. A fault before the exit leads to the exit with
/// `Failed`, whatever was running. After the exit nothing is done, and an
/// event that does not fit the state changes nothing.
pub open spec fn spec_step(state: RunState, event: RunEvent) -> (RunState, RunAction) {
    match (state, event) {
        (RunState::Exited, _) => (RunState::Exited, RunAction::Idle),
        (_, RunEvent::Faulted) => (RunState::Exited, RunAction::Exit(QemuExitCode::Failed)),
        (RunState::Ready { total }, RunEvent::Start) => if total == 0 {
            (RunState::Exited, RunAction::Exit(QemuExitCode::Success))
        } else {
            (RunState::Running { index: 0, total }, RunAction::Run(0))
        },
        (RunState::Running { index, total }, RunEvent::Passed) => if index + 1 < total {
            (RunState::Running { index: (index + 1) as usize, total }, RunAction::Run((index + 1) as usize))
        } else {
            (RunState::Exited, RunAction::Exit(QemuExitCode::Success))
        },
        _ => (state, RunAction::Idle),
    }
}

/// Decides what follows `event` in `state`: the next state and the action to
/// take.
#[verifier::when_used_as_spec(spec_step)]
pub fn step(state: RunState, event: RunEvent) -> (next: (RunState, RunAction))
    ensures
        next == spec_step(state, event),
        state.wf() ==> next.0.wf(),
{
    match state {
        RunState::Exited => (RunState::Exited, RunAction::Idle),
        RunState::Ready { total } => match event {
            RunEvent::Faulted => (RunState::Exited, RunAction::Exit(QemuExitCode::Failed)),
            RunEvent::Start => if total == 0 {
                (RunState::Exited, RunAction::Exit(QemuExitCode::Success))
            } else {
                (RunState::Running { index: 0, total }, RunAction::Run(0))
            },
            RunEvent::Passed => (state, RunAction::Idle),
        },
        RunState::Running { index, total } => match event {
            RunEvent::Faulted => (RunState::Exited, RunAction::Exit(QemuExitCode::Failed)),
            RunEvent::Passed => if index < total && index + 1 < total {
                (RunState::Running { index: index + 1, total }, RunAction::Run(index + 1))
            } else {
                (RunState::Exited, RunAction::Exit(QemuExitCode::Success))
            },
            RunEvent::Start => (state, RunAction::Idle),
        },
    }
}

/// Runs every check of `tests` in order, each once, as [`step`] decides, and
/// returns the status to exit with. A check that faults does not return, and
/// then neither does the runner: the fault path takes over.
pub fn test_runner(tests: &[&dyn Testable]) -> (code: QemuExitCode)
    ensures
        code == QemuExitCode::Success,
{
    let total = tests.len();
    let mut turn = step(RunState::Ready { total }, RunEvent::Start);
    loop
        invariant
            total == tests.len(),
            turn.0.wf(),
            match turn.1 {
                RunAction::Run(index) => turn.0 == (RunState::Running { index, total }),
                RunAction::Exit(code) => code == QemuExitCode::Success,
                RunAction::Idle => false,
            },
        decreases
            match turn.1 {
                RunAction::Run(index) => total - index,
                _ => 0,
            },
    {
        match turn.1 {
            RunAction::Run(index) => {
                tests[index].run();
                turn = step(turn.0, RunEvent::Passed);
            },
            RunAction::Exit(code) => {
                return code;
            },
            RunAction::Idle => {
                return unreached();
            },
        }
    }
}

/// The state reached and the actions taken, in order, when the events arrive
/// one after another.
pub open spec fn run_trace(state: RunState, events: Seq<RunEvent>) -> (RunState, Seq<RunAction>)
    decreases events.len(),
{
    if events.len() == 0 {
        (state, Seq::empty())
    } else {
        let before = run_trace(state, events.drop_last());
        let last = spec_step(before.0, events.last());
        (last.0, before.1.push(last.1))
    }
}

/// The exit signals among the actions, in order.
pub open spec fn signals(actions: Seq<RunAction>) -> Seq<QemuExitCode>
    decreases actions.len(),
{
    if actions.len() == 0 {
        Seq::empty()
    } else {
        let before = signals(actions.drop_last());
        match actions.last() {
            RunAction::Exit(code) => before.push(code),
            _ => before,
        }
    }
}

/// The checks that the actions run, in order.
pub open spec fn checks_run(actions: Seq<RunAction>) -> Seq<usize>
    decreases actions.len(),
{
    if actions.len() == 0 {
        Seq::empty()
    } else {
        let before = checks_run(actions.drop_last());
        match actions.last() {
            RunAction::Run(index) => before.push(index),
            _ => before,
        }
    }
}

/// The start of a run followed by `passed` checks that pass.
pub open spec fn start_then_passes(passed: nat) -> Seq<RunEvent> {
    seq![RunEvent::Start] + Seq::new(passed, |i: int| RunEvent::Passed)
}

/// The actions that run the checks `0` to `count - 1` in order.
pub open spec fn runs(count: nat) -> Seq<RunAction> {
    Seq::new(count, |i: int| RunAction::Run(i as usize))
}

/// As many times `Idle` as asked.
pub open spec fn idles(count: nat) -> Seq<RunAction> {
    Seq::new(count, |i: int| RunAction::Idle)
}

/// The events of two stretches lead where the second stretch leads from the
/// end of the first, and the actions follow one another.
pub proof fn lemma_trace_concat(state: RunState, first: Seq<RunEvent>, second: Seq<RunEvent>)
    ensures
        run_trace(state, first + second) == (
            run_trace(run_trace(state, first).0, second).0,
            run_trace(state, first).1 + run_trace(run_trace(state, first).0, second).1,
        ),
    decreases second.len(),
{
    let mid = run_trace(state, first);
    if second.len() == 0 {
        assert(first + second =~= first);
        assert(mid.1 + Seq::<RunAction>::empty() =~= mid.1);
    } else {
        lemma_trace_concat(state, first, second.drop_last());
        assert((first + second).drop_last() =~= first + second.drop_last());
        let before = run_trace(mid.0, second.drop_last());
        let last = spec_step(before.0, second.last());
        assert(mid.1 + before.1.push(last.1) =~= (mid.1 + before.1).push(last.1));
    }
}

/// The exit signals of two stretches of actions follow one another, and so
/// do the checks they run.
pub proof fn lemma_actions_concat(first: Seq<RunAction>, second: Seq<RunAction>)
    ensures
        signals(first + second) == signals(first) + signals(second),
        checks_run(first + second) == checks_run(first) + checks_run(second),
    decreases second.len(),
{
    if second.len() == 0 {
        assert(first + second =~= first);
        assert(signals(first) + Seq::<QemuExitCode>::empty() =~= signals(first));
        assert(checks_run(first) + Seq::<usize>::empty() =~= checks_run(first));
    } else {
        lemma_actions_concat(first, second.drop_last());
        assert((first + second).drop_last() =~= first + second.drop_last());
        let s = signals(second.drop_last());
        let c = checks_run(second.drop_last());
        match second.last() {
            RunAction::Exit(code) => {
                assert(signals(first) + s.push(code) =~= (signals(first) + s).push(code));
            },
            RunAction::Run(index) => {
                assert(checks_run(first) + c.push(index) =~= (checks_run(first) + c).push(index));
            },
            RunAction::Idle => {},
        }
    }
}

/// Running checks gives no exit signal and runs the checks named.
pub proof fn lemma_runs(count: nat)
    requires
        count <= usize::MAX,
    ensures
        signals(runs(count)) == Seq::<QemuExitCode>::empty(),
        checks_run(runs(count)) == Seq::new(count, |i: int| i as usize),
    decreases count,
{
    if count > 0 {
        lemma_runs((count - 1) as nat);
        assert(runs(count).drop_last() =~= runs((count - 1) as nat));
        assert(Seq::new((count - 1) as nat, |i: int| i as usize).push((count - 1) as usize) =~= Seq::new(
            count,
            |i: int| i as usize,
        ));
    } else {
        assert(Seq::new(count, |i: int| i as usize) =~= Seq::<usize>::empty());
    }
}

/// Doing nothing gives no exit signal and runs no check.
pub proof fn lemma_idles(count: nat)
    ensures
        signals(idles(count)) == Seq::<QemuExitCode>::empty(),
        checks_run(idles(count)) == Seq::<usize>::empty(),
    decreases count,
{
    if count > 0 {
        lemma_idles((count - 1) as nat);
        assert(idles(count).drop_last() =~= idles((count - 1) as nat));
    }
}

/// After the exit nothing is done any more, whatever happens.
pub proof fn lemma_exited_stays(events: Seq<RunEvent>)
    ensures
        run_trace(RunState::Exited, events) == (RunState::Exited, idles(events.len())),
    decreases events.len(),
{
    if events.len() == 0 {
        assert(idles(0) =~= Seq::<RunAction>::empty());
    } else {
        lemma_exited_stays(events.drop_last());
        assert(idles((events.len() - 1) as nat).push(RunAction::Idle) =~= idles(events.len()));
    }
}

/// While the checks pass, they are run one after another: after the start and
/// `passed` passes, with a check still left, check `passed` is running and
/// the checks up to it have been started, each once, in order.
pub proof fn lemma_passes(total: usize, passed: nat)
    requires
        passed < total,
    ensures
        run_trace(RunState::Ready { total }, start_then_passes(passed)) == (
            RunState::Running { index: passed as usize, total },
            runs(passed + 1),
        ),
    decreases passed,
{
    let events = start_then_passes(passed);
    if passed == 0 {
        assert(events.drop_last() =~= Seq::<RunEvent>::empty());
        assert(run_trace(RunState::Ready { total }, events.drop_last()).1 =~= Seq::<RunAction>::empty());
        assert(Seq::<RunAction>::empty().push(RunAction::Run(0)) =~= runs(1));
    } else {
        lemma_passes(total, (passed - 1) as nat);
        assert(events.drop_last() =~= start_then_passes((passed - 1) as nat));
        assert(runs(passed).push(RunAction::Run(passed as usize)) =~= runs(passed + 1));
    }
}

/// A run without a fault: every check is run once, in order, and then the
/// exit signal is given once, with `Success`. No signal carries `Failed`.
pub proof fn lemma_clean_run(total: usize)
    ensures
        run_trace(RunState::Ready { total }, start_then_passes(total as nat)) == (
            RunState::Exited,
            runs(total as nat).push(RunAction::Exit(QemuExitCode::Success)),
        ),
        signals(run_trace(RunState::Ready { total }, start_then_passes(total as nat)).1) == seq![
            QemuExitCode::Success,
        ],
        checks_run(run_trace(RunState::Ready { total }, start_then_passes(total as nat)).1) == Seq::new(
            total as nat,
            |i: int| i as usize,
        ),
{
    let events = start_then_passes(total as nat);
    let exit = RunAction::Exit(QemuExitCode::Success);
    if total == 0 {
        assert(events.drop_last() =~= Seq::<RunEvent>::empty());
        assert(run_trace(RunState::Ready { total }, events.drop_last()).1 =~= Seq::<RunAction>::empty());
        assert(Seq::<RunAction>::empty().push(exit) =~= runs(0).push(exit));
    } else {
        lemma_passes(total, (total - 1) as nat);
        assert(events.drop_last() =~= start_then_passes((total - 1) as nat));
    }
    let actions = runs(total as nat).push(exit);
    assert(actions.drop_last() =~= runs(total as nat));
    lemma_runs(total as nat);
    assert(Seq::<QemuExitCode>::empty().push(QemuExitCode::Success) =~= seq![QemuExitCode::Success]);
}

/// A fault while a check runs: the exit signal is given once, with `Failed`,
/// and whatever happens afterwards, no further check is run and no further
/// signal given. Here check `passed` faults after the checks before it have
/// passed.
pub proof fn lemma_fault_ends_run(total: usize, passed: nat, rest: Seq<RunEvent>)
    requires
        passed < total,
    ensures
        run_trace(
            RunState::Ready { total },
            start_then_passes(passed) + seq![RunEvent::Faulted] + rest,
        ) == (
            RunState::Exited,
            runs(passed + 1) + seq![RunAction::Exit(QemuExitCode::Failed)] + idles(rest.len()),
        ),
        signals(
            run_trace(
                RunState::Ready { total },
                start_then_passes(passed) + seq![RunEvent::Faulted] + rest,
            ).1,
        ) == seq![QemuExitCode::Failed],
        checks_run(
            run_trace(
                RunState::Ready { total },
                start_then_passes(passed) + seq![RunEvent::Faulted] + rest,
            ).1,
        ) == Seq::new(passed + 1, |i: int| i as usize),
{
    let ready = RunState::Ready { total };
    let running = RunState::Running { index: passed as usize, total };
    let fault = seq![RunEvent::Faulted];
    let exit = seq![RunAction::Exit(QemuExitCode::Failed)];
    lemma_passes(total, passed);
    assert(run_trace(running, fault) == (RunState::Exited, exit)) by {
        assert(fault.drop_last() =~= Seq::<RunEvent>::empty());
        assert(run_trace(running, fault.drop_last()).1 =~= Seq::<RunAction>::empty());
        assert(Seq::<RunAction>::empty().push(RunAction::Exit(QemuExitCode::Failed)) =~= exit);
    }
    lemma_exited_stays(rest);
    lemma_trace_concat(ready, start_then_passes(passed), fault);
    lemma_trace_concat(ready, start_then_passes(passed) + fault, rest);
    lemma_actions_concat(runs(passed + 1), exit);
    lemma_actions_concat(runs(passed + 1) + exit, idles(rest.len()));
    lemma_runs(passed + 1);
    lemma_idles(rest.len());
    assert(signals(exit) =~= seq![QemuExitCode::Failed]) by {
        assert(exit.drop_last() =~= Seq::<RunAction>::empty());
        assert(signals(exit.drop_last()) =~= Seq::<QemuExitCode>::empty());
    }
    assert(checks_run(exit) =~= Seq::<usize>::empty()) by {
        assert(exit.drop_last() =~= Seq::<RunAction>::empty());
        assert(checks_run(exit.drop_last()) =~= Seq::<usize>::empty());
    }
    assert(Seq::<QemuExitCode>::empty() + seq![QemuExitCode::Failed] + Seq::<QemuExitCode>::empty()
        =~= seq![QemuExitCode::Failed]);
    assert(Seq::new(passed + 1, |i: int| i as usize) + Seq::<usize>::empty() + Seq::<usize>::empty()
        =~= Seq::new(passed + 1, |i: int| i as usize));
}

/// Whatever happens, from whatever state: at most one exit signal is given,
/// none before the state is `Exited`, and none at all once it is.
pub proof fn lemma_exit_at_most_once(state: RunState, events: Seq<RunEvent>)
    ensures
        signals(run_trace(state, events).1).len() <= 1,
        run_trace(state, events).0 != RunState::Exited ==> signals(run_trace(state, events).1).len() == 0,
        state == RunState::Exited ==> signals(run_trace(state, events).1).len() == 0,
        state.wf() ==> run_trace(state, events).0.wf(),
    decreases events.len(),
{
    if events.len() > 0 {
        lemma_exit_at_most_once(state, events.drop_last());
        let before = run_trace(state, events.drop_last());
        let last = spec_step(before.0, events.last());
        assert(before.1.push(last.1).drop_last() =~= before.1);
        if state == RunState::Exited {
            lemma_exited_stays(events.drop_last());
        }
    }
}

} // verus!
