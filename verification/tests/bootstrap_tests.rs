use blog_core::bootstrap::{
    standard_plan, Action, BootstrapStep, Event, Phase, Sequencer, State, StepKind,
    DEFAULT_RETRY_DELAY,
};

fn plan_of(names: &[&str]) -> Vec<BootstrapStep> {
    names
        .iter()
        .map(|name| BootstrapStep { name: name.to_string(), kind: StepKind::Schema })
        .collect()
}

/// A store and an acquirer for the driver below: a store that holds the
/// objects of some steps, an acquirer that fails a number of times first, and
/// at most one step whose apply fails.
struct World {
    present: Vec<bool>,
    failures_left: u32,
    failing_apply: Option<usize>,
    actions: Vec<Action>,
    waited: u64,
}

impl World {
    fn new(step_count: usize) -> World {
        World {
            present: vec![false; step_count],
            failures_left: 0,
            failing_apply: None,
            actions: Vec::new(),
            waited: 0,
        }
    }

    fn applied(&self) -> Vec<usize> {
        let mut steps = Vec::new();
        for action in &self.actions {
            if let Action::Apply(step) = action {
                steps.push(*step);
            }
        }
        steps
    }

    fn checked(&self) -> Vec<usize> {
        let mut steps = Vec::new();
        for action in &self.actions {
            if let Action::Check(step) = action {
                steps.push(*step);
            }
        }
        steps
    }

    /// Carries out actions until the sequencer hands over or aborts.
    fn drive(&mut self, sequencer: &mut Sequencer) -> Phase {
        let mut action = sequencer.next_action();
        loop {
            self.actions.push(action);
            let event = match action {
                Action::Acquire => {
                    if self.failures_left > 0 {
                        self.failures_left -= 1;
                        Event::AcquireFailed
                    } else {
                        Event::Acquired
                    }
                }
                Action::Wait(delay) => {
                    self.waited += delay;
                    Event::BackoffElapsed
                }
                Action::Check(step) => {
                    if self.present[step] {
                        Event::Present
                    } else {
                        Event::Absent
                    }
                }
                Action::Apply(step) => {
                    if self.failing_apply == Some(step) {
                        Event::StepFailed
                    } else {
                        assert!(!self.present[step]);
                        self.present[step] = true;
                        Event::Applied
                    }
                }
                Action::HandOver | Action::Abort => return sequencer.phase(),
            };
            action = match sequencer.on_event(event) {
                Some(next) => next,
                None => panic!("the sequencer refused {:?}", event),
            };
            assert_eq!(action, sequencer.next_action());
        }
    }
}

#[test]
fn fresh_sequencer_is_connecting_and_asks_for_a_handle() {
    let sequencer = Sequencer::new(plan_of(&["a", "b"]), 5);
    assert_eq!(sequencer.phase(), Phase::Connecting);
    assert_eq!(sequencer.state(), State::Connecting { waiting: false });
    assert_eq!(sequencer.next_action(), Action::Acquire);
    assert_eq!(sequencer.step_count(), 2);
}

#[test]
fn default_retry_delay_is_five() {
    assert_eq!(DEFAULT_RETRY_DELAY, 5);
}

#[test]
fn store_that_is_reached_at_once_is_initialized_step_by_step() {
    let mut sequencer = Sequencer::new(plan_of(&["a", "b", "c"]), 5);
    let mut world = World::new(3);
    assert_eq!(world.drive(&mut sequencer), Phase::Ready);
    assert_eq!(
        world.actions,
        vec![
            Action::Acquire,
            Action::Check(0),
            Action::Apply(0),
            Action::Check(1),
            Action::Apply(1),
            Action::Check(2),
            Action::Apply(2),
            Action::HandOver,
        ]
    );
    assert_eq!(world.present, vec![true, true, true]);
    assert_eq!(world.waited, 0);
}

#[test]
fn two_failed_attempts_are_retried_after_the_delay_each() {
    let mut sequencer = Sequencer::new(plan_of(&["a", "b"]), 5);
    let mut world = World::new(2);
    world.failures_left = 2;
    assert_eq!(world.drive(&mut sequencer), Phase::Ready);
    assert_eq!(
        world.actions,
        vec![
            Action::Acquire,
            Action::Wait(5),
            Action::Acquire,
            Action::Wait(5),
            Action::Acquire,
            Action::Check(0),
            Action::Apply(0),
            Action::Check(1),
            Action::Apply(1),
            Action::HandOver,
        ]
    );
    assert_eq!(world.waited, 10);
    assert_eq!(world.checked(), vec![0, 1]);
    assert_eq!(sequencer.state(), State::Ready);
}

#[test]
fn sequencer_stays_connecting_while_attempts_fail() {
    let mut sequencer = Sequencer::new(plan_of(&["a"]), 7);
    for _ in 0..1_000 {
        assert_eq!(sequencer.phase(), Phase::Connecting);
        assert_eq!(sequencer.on_event(Event::AcquireFailed), Some(Action::Wait(7)));
        assert_eq!(sequencer.state(), State::Connecting { waiting: true });
        assert_eq!(sequencer.on_event(Event::BackoffElapsed), Some(Action::Acquire));
        assert_eq!(sequencer.state(), State::Connecting { waiting: false });
    }
    assert_eq!(sequencer.on_event(Event::Acquired), Some(Action::Check(0)));
    assert_eq!(sequencer.phase(), Phase::Initializing);
}

#[test]
fn success_is_not_accepted_during_the_back_off() {
    let mut sequencer = Sequencer::new(plan_of(&["a"]), 5);
    assert_eq!(sequencer.on_event(Event::AcquireFailed), Some(Action::Wait(5)));
    assert_eq!(sequencer.on_event(Event::Acquired), None);
    assert_eq!(sequencer.on_event(Event::AcquireFailed), None);
    assert_eq!(sequencer.state(), State::Connecting { waiting: true });
    assert_eq!(sequencer.next_action(), Action::Wait(5));
}

#[test]
fn failing_second_apply_is_fatal() {
    let mut sequencer = Sequencer::new(plan_of(&["a", "b", "c", "d"]), 5);
    let mut world = World::new(4);
    world.failing_apply = Some(1);
    assert_eq!(world.drive(&mut sequencer), Phase::Failed);
    assert_eq!(
        world.actions,
        vec![
            Action::Acquire,
            Action::Check(0),
            Action::Apply(0),
            Action::Check(1),
            Action::Apply(1),
            Action::Abort,
        ]
    );
    assert_eq!(sequencer.state(), State::Failed { step: 1 });
    assert_eq!(world.present, vec![true, false, false, false]);
    assert_eq!(world.waited, 0);
}

#[test]
fn failed_sequencer_accepts_nothing_more() {
    let mut sequencer = Sequencer::new(plan_of(&["a", "b"]), 5);
    assert_eq!(sequencer.on_event(Event::Acquired), Some(Action::Check(0)));
    assert_eq!(sequencer.on_event(Event::Absent), Some(Action::Apply(0)));
    assert_eq!(sequencer.on_event(Event::StepFailed), Some(Action::Abort));
    let events = [
        Event::Acquired,
        Event::AcquireFailed,
        Event::BackoffElapsed,
        Event::Present,
        Event::Absent,
        Event::Applied,
        Event::StepFailed,
    ];
    for event in events {
        assert_eq!(sequencer.on_event(event), None);
        assert_eq!(sequencer.state(), State::Failed { step: 0 });
        assert_eq!(sequencer.next_action(), Action::Abort);
    }
}

#[test]
fn failing_check_is_fatal_as_well() {
    let mut sequencer = Sequencer::new(plan_of(&["a", "b"]), 5);
    assert_eq!(sequencer.on_event(Event::Acquired), Some(Action::Check(0)));
    assert_eq!(sequencer.on_event(Event::Present), Some(Action::Check(1)));
    assert_eq!(sequencer.on_event(Event::StepFailed), Some(Action::Abort));
    assert_eq!(sequencer.state(), State::Failed { step: 1 });
    assert_eq!(sequencer.phase(), Phase::Failed);
}

#[test]
fn ready_sequencer_accepts_nothing_more() {
    let mut sequencer = Sequencer::new(plan_of(&["a"]), 5);
    assert_eq!(sequencer.on_event(Event::Acquired), Some(Action::Check(0)));
    assert_eq!(sequencer.on_event(Event::Present), Some(Action::HandOver));
    for event in [Event::Acquired, Event::Present, Event::Applied, Event::StepFailed] {
        assert_eq!(sequencer.on_event(event), None);
        assert_eq!(sequencer.state(), State::Ready);
        assert_eq!(sequencer.next_action(), Action::HandOver);
    }
}

#[test]
fn second_run_applies_nothing_and_leaves_the_store_as_it_is() {
    let names = ["a", "b", "c", "d", "e"];
    let mut world = World::new(5);
    let mut first = Sequencer::new(plan_of(&names), 5);
    assert_eq!(world.drive(&mut first), Phase::Ready);
    assert_eq!(world.applied(), vec![0, 1, 2, 3, 4]);
    let store_after_first = world.present.clone();

    world.actions.clear();
    let mut second = Sequencer::new(plan_of(&names), 5);
    assert_eq!(world.drive(&mut second), Phase::Ready);
    assert_eq!(world.applied(), Vec::<usize>::new());
    assert_eq!(world.checked(), vec![0, 1, 2, 3, 4]);
    assert_eq!(world.present, store_after_first);
}

#[test]
fn only_missing_steps_are_applied() {
    let mut world = World::new(5);
    world.present = vec![true, false, true, true, false];
    let mut sequencer = Sequencer::new(plan_of(&["a", "b", "c", "d", "e"]), 5);
    assert_eq!(world.drive(&mut sequencer), Phase::Ready);
    assert_eq!(world.applied(), vec![1, 4]);
    assert_eq!(world.checked(), vec![0, 1, 2, 3, 4]);
    assert_eq!(world.present, vec![true; 5]);
}

#[test]
fn run_after_a_failed_run_takes_up_where_that_one_stopped() {
    let names = ["a", "b", "c"];
    let mut world = World::new(3);
    world.failing_apply = Some(1);
    let mut first = Sequencer::new(plan_of(&names), 5);
    assert_eq!(world.drive(&mut first), Phase::Failed);
    assert_eq!(world.applied(), vec![0, 1]);

    world.actions.clear();
    world.failing_apply = None;
    let mut second = Sequencer::new(plan_of(&names), 5);
    assert_eq!(world.drive(&mut second), Phase::Ready);
    assert_eq!(world.applied(), vec![1, 2]);
    assert_eq!(world.present, vec![true, true, true]);
}

#[test]
fn plan_without_steps_is_ready_once_connected() {
    let mut sequencer = Sequencer::new(Vec::new(), 5);
    assert_eq!(sequencer.on_event(Event::Acquired), Some(Action::HandOver));
    assert_eq!(sequencer.state(), State::Ready);
}

#[test]
fn events_of_another_stage_are_refused() {
    let mut sequencer = Sequencer::new(plan_of(&["a", "b"]), 5);
    let early = [
        Event::BackoffElapsed,
        Event::Present,
        Event::Absent,
        Event::Applied,
        Event::StepFailed,
    ];
    for event in early {
        assert_eq!(sequencer.on_event(event), None);
        assert_eq!(sequencer.state(), State::Connecting { waiting: false });
    }
    assert_eq!(sequencer.on_event(Event::Acquired), Some(Action::Check(0)));
    for event in [Event::Acquired, Event::AcquireFailed, Event::BackoffElapsed, Event::Applied] {
        assert_eq!(sequencer.on_event(event), None);
        assert_eq!(sequencer.state(), State::Initializing { step: 0, applying: false });
    }
    assert_eq!(sequencer.on_event(Event::Absent), Some(Action::Apply(0)));
    for event in [Event::Acquired, Event::Present, Event::Absent, Event::BackoffElapsed] {
        assert_eq!(sequencer.on_event(event), None);
        assert_eq!(sequencer.state(), State::Initializing { step: 0, applying: true });
    }
    assert_eq!(sequencer.on_event(Event::Applied), Some(Action::Check(1)));
}

#[test]
fn standard_plan_creates_tables_before_seeds() {
    let plan = standard_plan();
    let names: Vec<&str> = plan.iter().map(|step| step.name.as_str()).collect();
    assert_eq!(
        names,
        vec![
            "users",
            "posts",
            "categories",
            "categories_relationships",
            "comments",
            "admin_user",
            "first_posts",
        ]
    );
    let kinds: Vec<StepKind> = plan.iter().map(|step| step.kind).collect();
    assert_eq!(
        kinds,
        vec![
            StepKind::Schema,
            StepKind::Schema,
            StepKind::Schema,
            StepKind::Schema,
            StepKind::Schema,
            StepKind::Seed,
            StepKind::Seed,
        ]
    );
}

#[test]
fn steps_are_known_by_name_and_kind() {
    let sequencer = Sequencer::new(standard_plan(), DEFAULT_RETRY_DELAY);
    assert_eq!(sequencer.step_count(), 7);
    assert_eq!(sequencer.step_name(0), Some("users"));
    assert_eq!(sequencer.step_name(6), Some("first_posts"));
    assert_eq!(sequencer.step_name(7), None);
    assert_eq!(sequencer.step_kind(4), Some(StepKind::Schema));
    assert_eq!(sequencer.step_kind(5), Some(StepKind::Seed));
    assert_eq!(sequencer.step_kind(7), None);
}

#[test]
fn standard_plan_runs_to_ready_twice() {
    let mut world = World::new(7);
    world.failures_left = 1;
    let mut first = Sequencer::new(standard_plan(), DEFAULT_RETRY_DELAY);
    assert_eq!(world.drive(&mut first), Phase::Ready);
    assert_eq!(world.waited, 5);
    assert_eq!(world.applied(), vec![0, 1, 2, 3, 4, 5, 6]);
    world.actions.clear();
    let mut second = Sequencer::new(standard_plan(), DEFAULT_RETRY_DELAY);
    assert_eq!(world.drive(&mut second), Phase::Ready);
    assert_eq!(world.applied(), Vec::<usize>::new());
}
