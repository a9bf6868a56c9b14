//! The start-up sequencer: from "no store handle" to a store that holds every
//! schema object and seed row it needs.
//!
//! The sequencer performs no I/O itself. It is a state machine that a driver
//! feeds with events; after each event it names the one action the driver has to
//! carry out next. The driver acquires the connection, sleeps through the
//! back-off and runs each step's check and apply against the store.

use vstd::prelude::*;

verus! {

/// The five phases of start-up.
#[derive(Clone, Copy, Debug, PartialEq, Eq, Structural)]
pub enum Phase {
    Connecting,
    Connected,
    Initializing,
    Ready,
    Failed,
}

/// The state of the sequencer: a phase, and where within the phase it stands.
#[derive(Clone, Copy, Debug, PartialEq, Eq, Structural)]
pub enum State {
    /// No store handle yet. `waiting` is set between a failed attempt and the
    /// end of the back-off that follows it.
    Connecting { waiting: bool },
    /// A handle has been acquired. The sequencer never rests here: it moves on
    /// to `Initializing` within the same event.
    Connected,
    /// Steps `0..step` are complete. `applying` is set once the check of `step`
    /// has found its object absent.
    Initializing { step: usize, applying: bool },
    /// Every step is complete; the handle may be served.
    Ready,
    /// Step `step` could not be carried out. Nothing is retried.
    Failed { step: usize },
}

/// What the driver reports back.
#[derive(Clone, Copy, Debug, PartialEq, Eq, Structural)]
pub enum Event {
    /// The acquisition attempt returned a live handle.
    Acquired,
    /// The acquisition attempt failed.
    AcquireFailed,
    /// The back-off delay has passed.
    BackoffElapsed,
    /// The current step's check found its object in the store.
    Present,
    /// The current step's check found its object missing.
    Absent,
    /// The current step's apply succeeded.
    Applied,
    /// The current step's check or apply raised an error.
    StepFailed,
}

/// What the driver has to do next.
#[derive(Clone, Copy, Debug, PartialEq, Eq, Structural)]
pub enum Action {
    /// Try to acquire a store handle.
    Acquire,
    /// Wait for this many seconds, then report `BackoffElapsed`.
    Wait(u64),
    /// Run the check of the step with this index.
    Check(usize),
    /// Run the apply of the step with this index.
    Apply(usize),
    /// Hand the store handle to the rest of the process.
    HandOver,
    /// Release the store handle and end the process with a failure.
    Abort,
}

impl State {
    pub open spec fn phase(self) -> Phase {
        match self {
            State::Connecting { .. } => Phase::Connecting,
            State::Connected => Phase::Connected,
            State::Initializing { .. } => Phase::Initializing,
            State::Ready => Phase::Ready,
            State::Failed { .. } => Phase::Failed,
        }
    }

    pub open spec fn is_terminal(self) -> bool {
        self is Ready || self is Failed
    }
}

/// What a step puts in place.
#[derive(Clone, Copy, Debug, PartialEq, Eq, Structural)]
pub enum StepKind {
    /// A table. Its check asks whether the table exists.
    Schema,
    /// Seed rows. Its check asks for the marker row of the seed.
    Seed,
}

/// The model of a step: its name and its kind.
pub struct StepModel {
    pub name: Seq<char>,
    pub kind: StepKind,
}

/// The mathematical model of a sequencer.
pub struct Machine {
    /// The steps, in the order in which they run.
    pub steps: Seq<StepModel>,
    /// The fixed delay between two acquisition attempts.
    pub retry_delay: u64,
    pub state: State,
}

impl Machine {
    /// A sequencer that has not yet attempted anything.
    pub open spec fn fresh(steps: Seq<StepModel>, retry_delay: u64) -> Machine {
        Machine { steps, retry_delay, state: State::Connecting { waiting: false } }
    }

    /// The states in which a sequencer can rest between two events.
    pub open spec fn wf(self) -> bool {
        &&& self.steps.len() <= usize::MAX
        &&& match self.state {
            State::Connecting { .. } => true,
            State::Connected => false,
            State::Initializing { step, .. } => step < self.steps.len(),
            State::Ready => true,
            State::Failed { step } => step < self.steps.len(),
        }
    }

    /// Whether `event` answers the action that is pending.
    pub open spec fn accepts(self, event: Event) -> bool {
        match self.state {
            State::Connecting { waiting: false } => event is Acquired || event is AcquireFailed,
            State::Connecting { waiting: true } => event is BackoffElapsed,
            State::Connected => false,
            State::Initializing { applying: false, .. } => event is Present || event is Absent
                || event is StepFailed,
            State::Initializing { applying: true, .. } => event is Applied || event is StepFailed,
            State::Ready => false,
            State::Failed { .. } => false,
        }
    }

    /// The state that an event leads to directly.
    pub open spec fn react(self, event: Event) -> State {
        match self.state {
            State::Connecting { .. } => match event {
                Event::AcquireFailed => State::Connecting { waiting: true },
                Event::BackoffElapsed => State::Connecting { waiting: false },
                Event::Acquired => State::Connected,
                _ => self.state,
            },
            State::Initializing { step, .. } => match event {
                Event::Absent => State::Initializing { step, applying: true },
                Event::Present | Event::Applied => State::Initializing {
                    step: (step + 1) as usize,
                    applying: false,
                },
                Event::StepFailed => State::Failed { step },
                _ => self.state,
            },
            _ => self.state,
        }
    }

    /// Follows the transitions that need no event: `Connected` goes on to the
    /// first step, and a sequencer that has run out of steps is `Ready`.
    pub open spec fn settle(self, state: State) -> State {
        match state {
            State::Connected => if self.steps.len() == 0 {
                State::Ready
            } else {
                State::Initializing { step: 0, applying: false }
            },
            State::Initializing { step, .. } => if step >= self.steps.len() {
                State::Ready
            } else {
                state
            },
            _ => state,
        }
    }

    /// The machine after `event`. An event that does not answer the pending
    /// action changes nothing.
    pub open spec fn on(self, event: Event) -> Machine {
        if self.accepts(event) {
            Machine { state: self.settle(self.react(event)), ..self }
        } else {
            self
        }
    }

    /// The action that the driver owes in this state.
    pub open spec fn pending(self) -> Action {
        match self.state {
            State::Connecting { waiting: false } => Action::Acquire,
            State::Connecting { waiting: true } => Action::Wait(self.retry_delay),
            State::Connected => Action::Check(0),
            State::Initializing { step, applying: false } => Action::Check(step),
            State::Initializing { step, applying: true } => Action::Apply(step),
            State::Ready => Action::HandOver,
            State::Failed { .. } => Action::Abort,
        }
    }
}

/// One unit of schema or seed work. The check and the apply themselves belong
/// to the driver; the sequencer knows a step by its place and its name.
#[derive(Debug)]
pub struct BootstrapStep {
    pub name: String,
    pub kind: StepKind,
}

impl View for BootstrapStep {
    type V = StepModel;

    open spec fn view(&self) -> StepModel {
        StepModel { name: self.name@, kind: self.kind }
    }
}

/// The models of the steps of a plan.
pub open spec fn plan_of(steps: Seq<BootstrapStep>) -> Seq<StepModel> {
    Seq::new(steps.len(), |i: int| steps[i]@)
}

/// The delay in seconds between two acquisition attempts where none is
/// configured.
pub const DEFAULT_RETRY_DELAY: u64 = 5;

/// The standard plan: the tables in the order of their references, then the
/// seeds.
pub open spec fn standard_steps() -> Seq<StepModel> {
    seq![
        StepModel { name: "users"@, kind: StepKind::Schema },
        StepModel { name: "posts"@, kind: StepKind::Schema },
        StepModel { name: "categories"@, kind: StepKind::Schema },
        StepModel { name: "categories_relationships"@, kind: StepKind::Schema },
        StepModel { name: "comments"@, kind: StepKind::Schema },
        StepModel { name: "admin_user"@, kind: StepKind::Seed },
        StepModel { name: "first_posts"@, kind: StepKind::Seed },
    ]
}

fn step(name: &str, kind: StepKind) -> (step: BootstrapStep)
    ensures
        step@ == (StepModel { name: name@, kind }),
{
    BootstrapStep { name: name.to_owned(), kind }
}

/// The steps that bring an empty store up: one per table, each after the
/// tables that it refers to, then the privileged account and the first posts.
pub fn standard_plan() -> (plan: Vec<BootstrapStep>)
    ensures
        plan_of(plan@) == standard_steps(),
{
    let mut plan: Vec<BootstrapStep> = Vec::new();
    plan.push(step("users", StepKind::Schema));
    plan.push(step("posts", StepKind::Schema));
    plan.push(step("categories", StepKind::Schema));
    plan.push(step("categories_relationships", StepKind::Schema));
    plan.push(step("comments", StepKind::Schema));
    plan.push(step("admin_user", StepKind::Seed));
    plan.push(step("first_posts", StepKind::Seed));
    plan
}

/// Drives connection acquisition and the ordered steps of initialization.
pub struct Sequencer {
    steps: Vec<BootstrapStep>,
    retry_delay: u64,
    state: State,
}

impl View for Sequencer {
    type V = Machine;

    closed spec fn view(&self) -> Machine {
        Machine {
            steps: plan_of(self.steps@),
            retry_delay: self.retry_delay,
            state: self.state,
        }
    }
}

impl Sequencer {
    #[verifier::type_invariant]
    spec fn inv(self) -> bool {
        self@.wf()
    }

    /// A sequencer in `Connecting` that has attempted nothing yet.
    pub fn new(steps: Vec<BootstrapStep>, retry_delay: u64) -> (s: Sequencer)
        ensures
            s@ == Machine::fresh(plan_of(steps@), retry_delay),
            s@.wf(),
    {
        assert(steps@.len() == steps.len());
        Sequencer { steps, retry_delay, state: State::Connecting { waiting: false } }
    }

    pub fn state(&self) -> (state: State)
        ensures
            state == self@.state,
            self@.wf(),
    {
        proof {
            use_type_invariant(self);
        }
        self.state
    }

    pub fn phase(&self) -> (phase: Phase)
        ensures
            phase == self@.state.phase(),
            phase != Phase::Connected,
    {
        proof {
            use_type_invariant(self);
        }
        match self.state {
            State::Connecting { .. } => Phase::Connecting,
            State::Connected => Phase::Connected,
            State::Initializing { .. } => Phase::Initializing,
            State::Ready => Phase::Ready,
            State::Failed { .. } => Phase::Failed,
        }
    }

    pub fn step_count(&self) -> (n: usize)
        ensures
            n == self@.steps.len(),
    {
        self.steps.len()
    }

    /// The kind of step `index`, or `None` past the last step.
    pub fn step_kind(&self, index: usize) -> (kind: Option<StepKind>)
        ensures
            kind == if index < self@.steps.len() {
                Some(self@.steps[index as int].kind)
            } else {
                None
            },
    {
        if index < self.steps.len() {
            Some(self.steps[index].kind)
        } else {
            None
        }
    }

    /// The name of step `index`, or `None` past the last step.
    pub fn step_name(&self, index: usize) -> (name: Option<&str>)
        ensures
            match name {
                Some(n) => index < self@.steps.len() && n@ == self@.steps[index as int].name,
                None => index >= self@.steps.len(),
            },
    {
        if index < self.steps.len() {
            Some(self.steps[index].name.as_str())
        } else {
            None
        }
    }

    /// The action that the driver owes now.
    pub fn next_action(&self) -> (action: Action)
        ensures
            action == self@.pending(),
    {
        proof {
            use_type_invariant(self);
        }
        match self.state {
            State::Connecting { waiting } => if waiting {
                Action::Wait(self.retry_delay)
            } else {
                Action::Acquire
            },
            State::Connected => Action::Check(0),
            State::Initializing { step, applying } => if applying {
                Action::Apply(step)
            } else {
                Action::Check(step)
            },
            State::Ready => Action::HandOver,
            State::Failed { .. } => Action::Abort,
        }
    }

    /// Takes in what the driver reports and names the next action. An event
    /// that does not answer the pending action is refused with `None` and
    /// leaves the sequencer as it was.
    pub fn on_event(&mut self, event: Event) -> (action: Option<Action>)
        ensures
            final(self)@ == old(self)@.on(event),
            final(self)@.wf(),
            old(self)@.accepts(event) ==> action == Some(final(self)@.pending()),
            !old(self)@.accepts(event) ==> action is None,
    {
        proof {
            use_type_invariant(&*self);
        }
        let count = self.steps.len();
        let next = match (self.state, event) {
            (State::Connecting { waiting: false }, Event::AcquireFailed) => State::Connecting {
                waiting: true,
            },
            (State::Connecting { waiting: true }, Event::BackoffElapsed) => State::Connecting {
                waiting: false,
            },
            (State::Connecting { waiting: false }, Event::Acquired) => first_step(count),
            (State::Initializing { step, applying: false }, Event::Absent) => State::Initializing {
                step,
                applying: true,
            },
            (State::Initializing { step, applying: false }, Event::Present) => step_after(
                step,
                count,
            ),
            (State::Initializing { step, applying: true }, Event::Applied) => step_after(
                step,
                count,
            ),
            (State::Initializing { step, .. }, Event::StepFailed) => State::Failed { step },
            _ => {
                return None;
            },
        };
        self.state = next;
        Some(self.next_action())
    }
}

/// Where a sequencer with `count` steps stands once the handle is acquired.
fn first_step(count: usize) -> (state: State)
    ensures
        state == if count == 0 {
            State::Ready
        } else {
            State::Initializing { step: 0, applying: false }
        },
{
    if count == 0 {
        State::Ready
    } else {
        State::Initializing { step: 0, applying: false }
    }
}

/// Where a sequencer with `count` steps stands once step `step` is complete.
fn step_after(step: usize, count: usize) -> (state: State)
    requires
        step < count,
    ensures
        state == if step + 1 == count {
            State::Ready
        } else {
            State::Initializing { step: (step + 1) as usize, applying: false }
        },
{
    if step + 1 == count {
        State::Ready
    } else {
        State::Initializing { step: step + 1, applying: false }
    }
}

} // verus!
