//! What holds of every run of the start-up sequencer, proved over its model.

use crate::bootstrap::{Action, Event, Machine, Phase, State, StepModel};
use vstd::prelude::*;

verus! {

/// The machine after a whole sequence of events, taken in order.
pub open spec fn replay(machine: Machine, events: Seq<Event>) -> Machine
    decreases events.len(),
{
    if events.len() == 0 {
        machine
    } else {
        replay(machine, events.drop_last()).on(events.last())
    }
}

/// The action that is pending after each event of a sequence.
pub open spec fn trail(machine: Machine, events: Seq<Event>) -> Seq<Action> {
    Seq::new(events.len(), |i: int| replay(machine, events.take(i + 1)).pending())
}

/// `count` failed acquisition attempts, each followed by its back-off.
pub open spec fn failed_attempts(count: nat) -> Seq<Event> {
    Seq::new(
        2 * count,
        |i: int|
            if i % 2 == 0 {
                Event::AcquireFailed
            } else {
                Event::BackoffElapsed
            },
    )
}

/// Every event keeps a sequencer within the states in which it can rest.
pub proof fn lemma_on_keeps_wf(machine: Machine, event: Event)
    requires
        machine.wf(),
    ensures
        machine.on(event).wf(),
        machine.on(event).steps == machine.steps,
        machine.on(event).retry_delay == machine.retry_delay,
{
}

proof fn lemma_terminal_replay(machine: Machine, events: Seq<Event>)
    requires
        machine.state.is_terminal(),
    ensures
        replay(machine, events) == machine,
    decreases events.len(),
{
    if events.len() > 0 {
        lemma_terminal_replay(machine, events.drop_last());
    }
}

/// `Ready` and `Failed` are final: no event moves a sequencer out of them, and
/// the pending action stays `HandOver`, or `Abort`.
pub proof fn lemma_terminal_states_absorb(machine: Machine, events: Seq<Event>)
    requires
        machine.state.is_terminal(),
    ensures
        replay(machine, events) == machine,
        forall|i: int| 0 <= i < events.len() ==> trail(machine, events)[i] == machine.pending(),
        machine.pending() == if machine.state is Ready {
            Action::HandOver
        } else {
            Action::Abort
        },
{
    lemma_terminal_replay(machine, events);
    assert forall|i: int| 0 <= i < events.len() implies trail(machine, events)[i]
        == machine.pending() by {
        lemma_terminal_replay(machine, events.take(i + 1));
    }
}

/// A step that fails ends the run: the sequencer is `Failed` at that step,
/// whatever is reported afterwards changes nothing, and no check or apply of a
/// later step is ever asked for.
pub proof fn lemma_failed_step_is_fatal(machine: Machine, later: Seq<Event>)
    requires
        machine.wf(),
        machine.state is Initializing,
    ensures
        machine.on(Event::StepFailed).state == (State::Failed {
            step: machine.state->Initializing_step,
        }),
        replay(machine.on(Event::StepFailed), later) == machine.on(Event::StepFailed),
        forall|i: int|
            0 <= i < later.len() ==> trail(machine.on(Event::StepFailed), later)[i]
                == Action::Abort,
{
    lemma_terminal_states_absorb(machine.on(Event::StepFailed), later);
}

/// However often acquisition fails, the sequencer stays in `Connecting`: each
/// failure is answered with a wait of the configured delay, each elapsed wait
/// with a new attempt, and after the last back-off the sequencer stands where
/// it started.
pub proof fn lemma_failures_are_retried(machine: Machine, count: nat)
    requires
        machine.state == (State::Connecting { waiting: false }),
    ensures
        replay(machine, failed_attempts(count)) == machine,
        forall|i: int|
            0 <= i < 2 * count ==> #[trigger] trail(machine, failed_attempts(count))[i] == if i % 2
                == 0 {
                Action::Wait(machine.retry_delay)
            } else {
                Action::Acquire
            },
        forall|i: int|
            0 <= i <= 2 * count ==> #[trigger] replay(
                machine,
                failed_attempts(count).take(i),
            ).state.phase() == Phase::Connecting,
{
    let events = failed_attempts(count);
    assert forall|i: int| 0 <= i <= 2 * count implies #[trigger] replay(
        machine,
        events.take(i),
    ).state.phase() == Phase::Connecting by {
        lemma_failures_prefix(machine, count, i);
    }
    assert(events.take(2 * count as int) =~= events);
    lemma_failures_prefix(machine, count, 2 * count as int);
    assert forall|i: int| 0 <= i < 2 * count implies #[trigger] trail(machine, events)[i] == if i
        % 2 == 0 {
        Action::Wait(machine.retry_delay)
    } else {
        Action::Acquire
    } by {
        lemma_failures_prefix(machine, count, i + 1);
    }
}

proof fn lemma_failures_prefix(machine: Machine, count: nat, len: int)
    requires
        machine.state == (State::Connecting { waiting: false }),
        0 <= len <= 2 * count,
    ensures
        replay(machine, failed_attempts(count).take(len)) == (Machine {
            state: State::Connecting { waiting: len % 2 == 1 },
            ..machine
        }),
    decreases len,
{
    let prefix = failed_attempts(count).take(len);
    if len > 0 {
        lemma_failures_prefix(machine, count, len - 1);
        assert(prefix.drop_last() =~= failed_attempts(count).take(len - 1));
        assert(prefix.last() == failed_attempts(count)[len - 1]);
    }
}

/// The first successful attempt ends `Connecting`, however many failures came
/// before it: the sequencer goes through `Connected` to the check of the first
/// step, or to `Ready` where there is no step.
pub proof fn lemma_success_after_failures(machine: Machine, count: nat)
    requires
        machine.state == (State::Connecting { waiting: false }),
    ensures
        machine.react(Event::Acquired) == State::Connected,
        replay(machine, failed_attempts(count).push(Event::Acquired)).state == if machine.steps.len(
        ) == 0 {
            State::Ready
        } else {
            State::Initializing { step: 0, applying: false }
        },
{
    lemma_failures_are_retried(machine, count);
    let events = failed_attempts(count).push(Event::Acquired);
    assert(events.drop_last() =~= failed_attempts(count));
}

/// How far start-up has come: connecting, then initializing, then done.
pub open spec fn progress(state: State) -> nat {
    match state {
        State::Connecting { .. } => 0,
        State::Connected => 1,
        State::Initializing { .. } => 2,
        State::Ready => 3,
        State::Failed { .. } => 3,
    }
}

/// Start-up never goes back: no event returns a sequencer to an earlier
/// phase. So a handle is acquired once at most, by the first attempt that
/// succeeds, and a sequencer that has left `Connecting` never asks for a
/// handle or for a wait again.
pub proof fn lemma_phases_never_go_back(machine: Machine, event: Event)
    requires
        machine.wf(),
    ensures
        progress(machine.on(event).state) >= progress(machine.state),
        !(machine.state is Connecting) ==> !(machine.on(event).state is Connecting)
            && machine.on(event).pending() != Action::Acquire && !(machine.on(
            event,
        ).pending() is Wait),
        event is Acquired && machine.accepts(event) ==> machine.state == (State::Connecting {
            waiting: false,
        }),
{
}

/// Initialization takes the steps in their order and skips none: the step
/// that is checked or applied next is the one after the steps that are
/// complete, and an event moves on by one step at most. A step is applied
/// only after its check has found its object absent.
pub proof fn lemma_steps_run_in_order(machine: Machine, event: Event)
    requires
        machine.wf(),
        machine.state is Initializing,
    ensures
        machine.pending() == if machine.state->Initializing_applying {
            Action::Apply(machine.state->Initializing_step)
        } else {
            Action::Check(machine.state->Initializing_step)
        },
        machine.on(event).state matches State::Initializing { step, .. } ==> step
            == machine.state->Initializing_step || (step == machine.state->Initializing_step + 1
            && (event is Present || event is Applied)),
        machine.on(event).state is Ready ==> machine.state->Initializing_step + 1
            == machine.steps.len() && (event is Present || event is Applied),
        !machine.state->Initializing_applying && machine.on(event).pending() is Apply ==> event
            is Absent && machine.on(event).pending() == Action::Apply(
            machine.state->Initializing_step,
        ),
{
}

/// What the driver meets in a simulated run: a store that holds the objects
/// of some steps, behind an acquirer that fails a number of times before it
/// succeeds. The apply of a step succeeds unless the step is broken.
pub struct World {
    /// The steps whose object is in place.
    pub store: Set<int>,
    /// The acquisition attempts that are still to fail.
    pub failures: nat,
    /// The steps whose apply fails.
    pub broken: Set<int>,
}

/// What the world answers to an action.
pub open spec fn answer(world: World, action: Action) -> Event {
    match action {
        Action::Acquire => if world.failures > 0 {
            Event::AcquireFailed
        } else {
            Event::Acquired
        },
        Action::Wait(_) => Event::BackoffElapsed,
        Action::Check(step) => if world.store.contains(step as int) {
            Event::Present
        } else {
            Event::Absent
        },
        Action::Apply(step) => if world.broken.contains(step as int) {
            Event::StepFailed
        } else {
            Event::Applied
        },
        _ => Event::Applied,
    }
}

/// The world after an action: a failed attempt is used up, an apply that
/// succeeds puts the step's object in place, and nothing else changes the
/// world.
pub open spec fn effect(world: World, action: Action) -> World {
    match action {
        Action::Acquire => if world.failures > 0 {
            World { failures: (world.failures - 1) as nat, ..world }
        } else {
            world
        },
        Action::Apply(step) => if world.broken.contains(step as int) {
            world
        } else {
            World { store: world.store.insert(step as int), ..world }
        },
        _ => world,
    }
}

/// Where a simulated run ends.
pub struct Outcome {
    pub machine: Machine,
    /// The steps whose object is in place.
    pub store: Set<int>,
    /// The steps whose apply was invoked, in the order of the calls.
    pub applied: Seq<int>,
    /// The seconds spent waiting.
    pub waited: int,
}

/// Drives `machine` against `world` until it is `Ready` or `Failed`, for at
/// most `fuel` actions.
pub open spec fn run(machine: Machine, world: World, fuel: nat) -> Outcome
    decreases fuel,
{
    if fuel == 0 || machine.state.is_terminal() {
        Outcome { machine, store: world.store, applied: Seq::empty(), waited: 0 }
    } else {
        let action = machine.pending();
        let rest = run(machine.on(answer(world, action)), effect(world, action), (fuel - 1) as nat);
        match action {
            Action::Apply(step) => Outcome { applied: seq![step as int] + rest.applied, ..rest },
            Action::Wait(delay) => Outcome { waited: delay + rest.waited, ..rest },
            _ => rest,
        }
    }
}

/// The steps from `from` up to `to` whose object `store` lacks, in order.
pub open spec fn missing(store: Set<int>, from: int, to: int) -> Seq<int>
    decreases to - from,
{
    if from >= to {
        Seq::empty()
    } else if store.contains(from) {
        missing(store, from + 1, to)
    } else {
        seq![from] + missing(store, from + 1, to)
    }
}

/// The first step from `from` up to `to` that is missing and broken, or `to`
/// where there is none: the step at which a run stops.
pub open spec fn halt(world: World, from: int, to: int) -> int
    decreases to - from,
{
    if from >= to {
        to
    } else if !world.store.contains(from) && world.broken.contains(from) {
        from
    } else {
        halt(world, from + 1, to)
    }
}

/// The steps from `from` up to `to`, as a set.
pub open spec fn steps_between(from: int, to: int) -> Set<int> {
    Set::new(|step: int| from <= step < to)
}

/// The actions that a run needs at most: two for each failed attempt, one
/// for the attempt that succeeds, and two for each step.
pub open spec fn enough_fuel(steps: nat, failures: nat) -> nat {
    2 * failures + 1 + 2 * steps
}

/// The actions that a run needs at most from the state that it is in, once
/// the handle is acquired: two for each step that is left, less the check
/// that has been made.
pub open spec fn fuel_from(machine: Machine) -> int {
    let left = machine.steps.len() - machine.state->Initializing_step;
    if machine.state->Initializing_applying {
        2 * left - 1
    } else {
        2 * left
    }
}

/// The state in which a run over `count` steps ends that stops at step
/// `stop`.
pub open spec fn end_state(stop: int, count: int) -> State {
    if stop < count {
        State::Failed { step: stop as usize }
    } else {
        State::Ready
    }
}

/// The steps whose apply is invoked by a run from step `from` that stops at
/// step `stop`: those that are missing, up to and with the one that fails.
pub open spec fn invoked(store: Set<int>, from: int, stop: int, count: int) -> Seq<int> {
    missing(
        store,
        from,
        if stop < count {
            stop + 1
        } else {
            count
        },
    )
}

/// From the check of a step on, a run takes the steps that are left in their
/// order, up to the first that fails.
proof fn lemma_run_steps(machine: Machine, world: World, fuel: nat)
    requires
        machine.wf(),
        machine.state is Initializing,
        fuel >= fuel_from(machine),
        machine.state->Initializing_applying ==> !world.store.contains(
            machine.state->Initializing_step as int,
        ),
    ensures
        ({
            let from = machine.state->Initializing_step as int;
            let count = machine.steps.len() as int;
            let stop = halt(world, from, count);
            let end = run(machine, world, fuel);
            &&& from <= stop <= count
            &&& end.machine == Machine { state: end_state(stop, count), ..machine }
            &&& end.store =~= world.store + steps_between(from, stop)
            &&& end.applied == invoked(world.store, from, stop, count)
            &&& end.waited == 0
        }),
    decreases fuel,
{
    let step = machine.state->Initializing_step;
    let count = machine.steps.len() as int;
    let action = machine.pending();
    let next = machine.on(answer(world, action));
    let next_world = effect(world, action);
    let stop = halt(world, step as int, count);
    if !machine.state->Initializing_applying && !world.store.contains(step as int) {
        // The check finds the object missing: the apply is next.
        assert(next == Machine { state: State::Initializing { step, applying: true }, ..machine });
        lemma_run_steps(next, next_world, (fuel - 1) as nat);
    } else if machine.state->Initializing_applying && world.broken.contains(step as int) {
        // The apply fails: the run stops here.
        assert(next == Machine { state: State::Failed { step }, ..machine });
        assert(missing(world.store, step + 1, step + 1) == Seq::<int>::empty());
        assert(run(machine, world, fuel).applied =~= seq![step as int]);
        assert(missing(world.store, step as int, step + 1) =~= seq![step as int]);
    } else {
        // The step is complete, by its apply or because its object was in place.
        lemma_halt_ignores_earlier(world, next_world, step as int, step + 1, count);
        lemma_halt_is_missing_and_broken(next_world, step + 1, count);
        let rest_stop = halt(next_world, step + 1, count);
        assert(stop == rest_stop);
        if machine.state->Initializing_applying {
            lemma_missing_ignores_earlier(
                world.store,
                step as int,
                step + 1,
                if rest_stop < count {
                    rest_stop + 1
                } else {
                    count
                },
            );
        }
        if step + 1 == count {
            assert(next == Machine { state: State::Ready, ..machine });
            assert(missing(next_world.store, step + 1, count) == Seq::<int>::empty());
        } else {
            assert(next == Machine {
                state: State::Initializing { step: (step + 1) as usize, applying: false },
                ..machine
            });
            lemma_run_steps(next, next_world, (fuel - 1) as nat);
        }
    }
}

/// A run stops within the steps that are left, and only at a step that is
/// missing and broken; no step before it is both.
proof fn lemma_halt_is_missing_and_broken(world: World, from: int, to: int)
    requires
        from <= to,
    ensures
        from <= halt(world, from, to) <= to,
        halt(world, from, to) < to ==> !world.store.contains(halt(world, from, to))
            && world.broken.contains(halt(world, from, to)),
        forall|step: int|
            from <= step < halt(world, from, to) ==> world.store.contains(step)
                || !world.broken.contains(step),
    decreases to - from,
{
    if from < to {
        lemma_halt_is_missing_and_broken(world, from + 1, to);
    }
}

/// A step that is put in place does not change where the run stops later.
proof fn lemma_halt_ignores_earlier(world: World, next: World, step: int, from: int, to: int)
    requires
        step < from,
        next.broken == world.broken,
        next.store == world.store || next.store == world.store.insert(step),
    ensures
        halt(next, from, to) == halt(world, from, to),
    decreases to - from,
{
    if from < to {
        lemma_halt_ignores_earlier(world, next, step, from + 1, to);
    }
}

/// A step that is put in place does not change which later steps are missing.
proof fn lemma_missing_ignores_earlier(store: Set<int>, step: int, from: int, to: int)
    requires
        step < from,
    ensures
        missing(store.insert(step), from, to) == missing(store, from, to),
    decreases to - from,
{
    if from < to {
        lemma_missing_ignores_earlier(store, step, from + 1, to);
    }
}

/// The missing steps are listed in ascending order, each once, and a store
/// that holds every step misses none.
proof fn lemma_missing_is_ascending(store: Set<int>, from: int, to: int)
    ensures
        forall|i: int|
            0 <= i < missing(store, from, to).len() ==> from <= #[trigger] missing(
                store,
                from,
                to,
            )[i] < to && !store.contains(missing(store, from, to)[i]),
        forall|i: int, j: int|
            0 <= i < j < missing(store, from, to).len() ==> missing(store, from, to)[i] < missing(
                store,
                from,
                to,
            )[j],
        steps_between(from, to).subset_of(store) ==> missing(store, from, to).len() == 0,
    decreases to - from,
{
    if from < to {
        let all = missing(store, from, to);
        let rest = missing(store, from + 1, to);
        lemma_missing_is_ascending(store, from + 1, to);
        if !store.contains(from) {
            assert(all == seq![from] + rest);
            assert forall|i: int| 0 <= i < all.len() implies from <= #[trigger] all[i] < to
                && !store.contains(all[i]) by {
                if i > 0 {
                    assert(all[i] == rest[i - 1]);
                }
            }
            assert forall|i: int, j: int| 0 <= i < j < all.len() implies all[i] < all[j] by {
                assert(all[j] == rest[j - 1]);
                if i > 0 {
                    assert(all[i] == rest[i - 1]);
                }
            }
        }
        if steps_between(from, to).subset_of(store) {
            assert(steps_between(from, to).contains(from));
            assert(steps_between(from + 1, to).subset_of(store)) by {
                assert forall|step: int|
                    steps_between(from + 1, to).contains(step) implies store.contains(step) by {
                    assert(steps_between(from, to).contains(step));
                }
            }
        }
    }
}

/// What a run comes to, whatever the world. Acquisition is tried until it
/// succeeds, with one wait of the configured delay after each failure and
/// none otherwise. The steps are then taken in their order: a step whose
/// object is in place is skipped, a step whose object is missing is applied
/// once. The run ends in `Ready` when every step is complete, and in `Failed`
/// at the first step whose apply fails; no later step is checked or applied.
pub proof fn lemma_run_outcome(steps: Seq<StepModel>, retry_delay: u64, world: World, fuel: nat)
    requires
        steps.len() <= usize::MAX,
        fuel >= enough_fuel(steps.len(), world.failures),
    ensures
        ({
            let count = steps.len() as int;
            let stop = halt(world, 0, count);
            let end = run(Machine::fresh(steps, retry_delay), world, fuel);
            &&& 0 <= stop <= count
            &&& end.machine.state == end_state(stop, count)
            &&& end.waited == world.failures * retry_delay
            &&& end.store == world.store + steps_between(0, stop)
            &&& end.applied == invoked(world.store, 0, stop, count)
            &&& end.applied.no_duplicates()
            &&& forall|i: int|
                0 <= i < end.applied.len() ==> 0 <= #[trigger] end.applied[i] <= stop
                    && !world.store.contains(end.applied[i])
        }),
    decreases world.failures,
{
    let machine = Machine::fresh(steps, retry_delay);
    let count = steps.len() as int;
    let stop = halt(world, 0, count);
    lemma_halt_is_missing_and_broken(world, 0, count);
    let reach = if stop < count {
        stop + 1
    } else {
        count
    };
    lemma_missing_is_ascending(world.store, 0, reach);
    if world.failures > 0 {
        // The attempt fails, the delay is waited, and the rest of the run
        // starts from a fresh sequencer with one failure less to come.
        let fewer = World { failures: (world.failures - 1) as nat, ..world };
        let waiting = machine.on(Event::AcquireFailed);
        assert(waiting.on(Event::BackoffElapsed) == machine);
        assert(run(machine, world, fuel) == run(waiting, fewer, (fuel - 1) as nat));
        assert(run(waiting, fewer, (fuel - 1) as nat) == (Outcome {
            waited: retry_delay + run(machine, fewer, (fuel - 2) as nat).waited,
            ..run(machine, fewer, (fuel - 2) as nat)
        }));
        lemma_halt_ignores_earlier(world, fewer, -1, 0, count);
        lemma_run_outcome(steps, retry_delay, fewer, (fuel - 2) as nat);
        assert(world.failures * retry_delay == retry_delay + fewer.failures * retry_delay)
            by (nonlinear_arith)
            requires
                fewer.failures == world.failures - 1,
        ;
    } else {
        let connected = machine.on(Event::Acquired);
        assert(world.failures * retry_delay == 0) by (nonlinear_arith)
            requires
                world.failures == 0,
        ;
        if steps.len() > 0 {
            lemma_run_steps(connected, world, (fuel - 1) as nat);
            assert(run(machine, world, fuel).store =~= world.store + steps_between(0, stop));
        } else {
            assert(run(connected, world, (fuel - 1) as nat).store == world.store);
            assert(world.store =~= world.store + steps_between(0, stop));
        }
    }
}

/// Against a store whose applies all succeed, a run reaches `Ready` however
/// often acquisition fails first, with no step skipped: every step is either
/// found in place or applied, and afterwards every step's object is in place.
pub proof fn lemma_run_completes(steps: Seq<StepModel>, retry_delay: u64, world: World, fuel: nat)
    requires
        steps.len() <= usize::MAX,
        fuel >= enough_fuel(steps.len(), world.failures),
        world.broken == Set::<int>::empty(),
    ensures
        ({
            let count = steps.len() as int;
            let end = run(Machine::fresh(steps, retry_delay), world, fuel);
            &&& end.machine.state == State::Ready
            &&& end.waited == world.failures * retry_delay
            &&& end.store == world.store + steps_between(0, count)
            &&& end.applied == missing(world.store, 0, count)
        }),
{
    lemma_run_outcome(steps, retry_delay, world, fuel);
    lemma_halt_is_missing_and_broken(world, 0, steps.len() as int);
}

/// Running start-up a second time against the store that a complete first run
/// left changes nothing: the second run ends in `Ready` as well, leaves the
/// store as it found it, and invokes no apply at all, not even where every
/// apply would fail now. So over both runs no step is applied more than once.
pub proof fn lemma_bootstrap_is_idempotent(
    steps: Seq<StepModel>,
    retry_delay: u64,
    world: World,
    again: World,
    fuel: nat,
)
    requires
        steps.len() <= usize::MAX,
        fuel >= enough_fuel(steps.len(), world.failures),
        fuel >= enough_fuel(steps.len(), again.failures),
        world.broken == Set::<int>::empty(),
        again.store == run(Machine::fresh(steps, retry_delay), world, fuel).store,
    ensures
        ({
            let first = run(Machine::fresh(steps, retry_delay), world, fuel);
            let second = run(Machine::fresh(steps, retry_delay), again, fuel);
            &&& first.machine.state == State::Ready
            &&& second.machine.state == State::Ready
            &&& second.store == first.store
            &&& second.applied.len() == 0
            &&& (first.applied + second.applied).no_duplicates()
        }),
{
    let count = steps.len() as int;
    let first = run(Machine::fresh(steps, retry_delay), world, fuel);
    lemma_run_completes(steps, retry_delay, world, fuel);
    lemma_run_outcome(steps, retry_delay, world, fuel);
    lemma_run_outcome(steps, retry_delay, again, fuel);
    lemma_halt_is_missing_and_broken(again, 0, count);
    let stop = halt(again, 0, count);
    if stop < count {
        assert(steps_between(0, count).contains(stop));
    }
    assert(steps_between(0, count).subset_of(again.store));
    lemma_missing_is_ascending(again.store, 0, count);
    let second = run(Machine::fresh(steps, retry_delay), again, fuel);
    assert(second.store =~= first.store);
    assert(first.applied + second.applied =~= first.applied);
}

/// A run against a store in which the apply of a missing step fails ends in
/// `Failed` at the first such step. The steps before it are complete, its own
/// apply was the last that was invoked, and no step after it was touched.
pub proof fn lemma_run_fails_at_first_broken_step(
    steps: Seq<StepModel>,
    retry_delay: u64,
    world: World,
    fuel: nat,
    broken: int,
)
    requires
        steps.len() <= usize::MAX,
        fuel >= enough_fuel(steps.len(), world.failures),
        0 <= broken < steps.len(),
        !world.store.contains(broken),
        world.broken.contains(broken),
        forall|step: int|
            0 <= step < broken ==> world.store.contains(step) || !world.broken.contains(step),
    ensures
        ({
            let end = run(Machine::fresh(steps, retry_delay), world, fuel);
            &&& end.machine.state == State::Failed { step: broken as usize }
            &&& end.store == world.store + steps_between(0, broken)
            &&& end.applied.len() > 0
            &&& end.applied.last() == broken
            &&& forall|i: int| 0 <= i < end.applied.len() ==> end.applied[i] <= broken
        }),
{
    let count = steps.len() as int;
    lemma_run_outcome(steps, retry_delay, world, fuel);
    lemma_halt_is_missing_and_broken(world, 0, count);
    let stop = halt(world, 0, count);
    assert(stop == broken);
    lemma_missing_ends_with(world.store, 0, broken);
}

/// A missing step is the last of the missing steps up to and with itself.
proof fn lemma_missing_ends_with(store: Set<int>, from: int, step: int)
    requires
        from <= step,
        !store.contains(step),
    ensures
        missing(store, from, step + 1).len() > 0,
        missing(store, from, step + 1).last() == step,
    decreases step - from,
{
    if from < step {
        lemma_missing_ends_with(store, from + 1, step);
    } else {
        assert(missing(store, step + 1, step + 1) == Seq::<int>::empty());
        assert(missing(store, step, step + 1) =~= seq![step]);
    }
}

} // verus!
