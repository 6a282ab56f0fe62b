use std::cell::Cell;

use incremental::cancellation::CancellationContext;
use incremental::computation::Computations;
use incremental::computation::Step;
use incremental::computation::StepOutcome;
use incremental::engine::Engine;
use incremental::graph::Event;
use incremental::graph::Resolved;
use incremental::inputs::UpdateError;
use incremental::inputs::Version;
use incremental::key::Key;

const INPUT: u64 = 1;
const DOUBLE: u64 = 2;
const TENTH: u64 = 3;
const TOP: u64 = 4;
const SUM: u64 = 5;

/// Computations over integers: `DOUBLE(n)` is twice the input `n`,
/// `TENTH(n)` a tenth of it, `TOP(n)` is `TENTH(n)` plus one hundred and
/// `SUM(n)` adds the inputs `n` and `n + 1`.
struct Arithmetic {
    started: Cell<u32>,
    started_top: Cell<u32>,
    interrupted: Cell<bool>,
}

impl Arithmetic {
    fn new() -> Self {
        Arithmetic { started: Cell::new(0), started_top: Cell::new(0), interrupted: Cell::new(false) }
    }
}

impl Computations<i64> for Arithmetic {
    fn step(&self, key: &Key, reads: &Vec<(Key, i64)>) -> StepOutcome<i64> {
        if self.interrupted.get() {
            return StepOutcome::Cancelled;
        }
        if reads.is_empty() {
            if key.type_tag == TOP {
                self.started_top.set(self.started_top.get() + 1);
            } else {
                self.started.set(self.started.get() + 1);
            }
        }
        let step = match (key.type_tag, reads.len()) {
            (DOUBLE, 0) => Step::Need(Key::injected(INPUT, key.id)),
            (DOUBLE, _) => Step::Done(reads[0].1 * 2),
            (TENTH, 0) => Step::Need(Key::injected(INPUT, key.id)),
            (TENTH, _) => Step::Done(reads[0].1 / 10),
            (TOP, 0) => Step::Need(Key::computed(TENTH, key.id)),
            (TOP, _) => Step::Done(reads[0].1 + 100),
            (SUM, 0) => Step::Need(Key::injected(INPUT, key.id)),
            (SUM, 1) => Step::Need(Key::injected(INPUT, key.id + 1)),
            (SUM, _) => Step::Done(reads[0].1 + reads[1].1),
            _ => Step::Done(-1),
        };
        StepOutcome::Step(step)
    }

    fn same(&self, _key: &Key, a: &i64, b: &i64) -> bool {
        a == b
    }
}

fn value(r: Resolved<i64>) -> i64 {
    match r {
        Resolved::Value(v) => v,
        other => panic!("expected a value, got {:?}", other),
    }
}

fn inject(engine: &mut Engine<i64, Arithmetic>, id: u64, v: i64) -> Version {
    let mut batch = engine.begin_update();
    assert!(batch.set(Key::injected(INPUT, id), v).is_ok());
    engine.commit(batch)
}

#[test]
fn unchanged_input_is_reused_and_changed_input_recomputed() {
    let a = Key::injected(INPUT, 0);
    let b = Key::computed(DOUBLE, 0);
    let mut engine = Engine::new(Arithmetic::new());
    let live = CancellationContext::new();

    let v1 = inject(&mut engine, 0, 1);
    assert_eq!(v1, Version(1));
    assert_eq!(value(engine.resolve(b, v1, &live)), 2);
    assert_eq!(engine.graph().dependencies(&b), Some(vec![a]));
    assert_eq!(engine.computations().started.get(), 1);
    assert_eq!(engine.graph().executions_of(&b), 1);

    let v2 = inject(&mut engine, 0, 1);
    assert_eq!(v2, Version(2));
    assert_eq!(value(engine.resolve(b, v2, &live)), 2);
    assert_eq!(engine.computations().started.get(), 1);
    assert_eq!(engine.graph().executions_of(&b), 1);
    assert_eq!(engine.graph().valid_range(&b), Some((v1, v2)));
    assert_eq!(engine.graph().event_log().last(), Some(&Event::Reused(b)));

    let v3 = inject(&mut engine, 0, 5);
    assert_eq!(v3, Version(3));
    assert_eq!(value(engine.resolve(b, v3, &live)), 10);
    assert_eq!(engine.computations().started.get(), 2);
    assert_eq!(engine.graph().executions_of(&b), 2);
    assert_eq!(engine.graph().value_of(&b), Some(10));
}

#[test]
fn second_request_at_the_same_version_is_a_hit() {
    let b = Key::computed(DOUBLE, 0);
    let mut engine = Engine::new(Arithmetic::new());
    let live = CancellationContext::new();
    let v1 = inject(&mut engine, 0, 21);
    assert_eq!(value(engine.resolve(b, v1, &live)), 42);
    assert_eq!(value(engine.resolve(b, v1, &live)), 42);
    assert_eq!(engine.computations().started.get(), 1);
    assert_eq!(
        engine.graph().event_log(),
        &vec![Event::Executed(b), Event::Hit(b)]
    );
}

#[test]
fn change_absorbed_below_does_not_reach_the_top() {
    let top = Key::computed(TOP, 0);
    let tenth = Key::computed(TENTH, 0);
    let mut engine = Engine::new(Arithmetic::new());
    let live = CancellationContext::new();
    let v1 = inject(&mut engine, 0, 11);
    assert_eq!(value(engine.resolve(top, v1, &live)), 101);
    assert_eq!(engine.computations().started_top.get(), 1);
    assert_eq!(engine.graph().executions_of(&tenth), 1);

    // 11 -> 12: a tenth of the input is still 1, so the change stops there.
    let v2 = inject(&mut engine, 0, 12);
    assert_eq!(value(engine.resolve(top, v2, &live)), 101);
    assert_eq!(engine.graph().executions_of(&tenth), 2);
    assert_eq!(engine.graph().executions_of(&top), 1);
    assert_eq!(engine.computations().started_top.get(), 1);

    // 12 -> 25: now the tenth changes, and the top is computed again, once.
    let v3 = inject(&mut engine, 0, 25);
    assert_eq!(value(engine.resolve(top, v3, &live)), 102);
    assert_eq!(engine.graph().executions_of(&top), 2);
    assert_eq!(engine.computations().started_top.get(), 2);
}

#[test]
fn earlier_versions_keep_their_values() {
    let b = Key::computed(DOUBLE, 0);
    let mut engine = Engine::new(Arithmetic::new());
    let live = CancellationContext::new();
    let v1 = inject(&mut engine, 0, 3);
    let old_context = engine.context();
    let v2 = inject(&mut engine, 0, 4);
    assert_eq!(engine.current_version(), v2);
    assert_eq!(old_context.version(), v1);
    assert!(old_context.is_superseded(engine.current_version()));
    assert_eq!(value(engine.resolve(b, v2, &live)), 8);
    assert_eq!(value(old_context.compute(&mut engine, b)), 6);
    assert_eq!(engine.inputs().value_at(&Key::injected(INPUT, 0), v1), Some(3));
    assert_eq!(engine.inputs().value_at(&Key::injected(INPUT, 0), v2), Some(4));
    assert_eq!(engine.inputs().value_at(&Key::injected(INPUT, 0), Version(0)), None);
}

#[test]
fn missing_input_is_reported_and_not_remembered() {
    let sum = Key::computed(SUM, 0);
    let mut engine = Engine::new(Arithmetic::new());
    let live = CancellationContext::new();
    let v1 = inject(&mut engine, 0, 3);
    match engine.resolve(sum, v1, &live) {
        Resolved::Missing(k) => assert_eq!(k, Key::injected(INPUT, 1)),
        other => panic!("expected a missing input, got {:?}", other),
    }
    assert_eq!(engine.graph().value_of(&sum), None);
    let v2 = inject(&mut engine, 1, 4);
    assert_eq!(value(engine.resolve(sum, v2, &live)), 7);
    assert_eq!(
        engine.graph().dependencies(&sum),
        Some(vec![Key::injected(INPUT, 0), Key::injected(INPUT, 1)])
    );
}

#[test]
fn injected_key_resolves_to_its_value() {
    let mut engine = Engine::new(Arithmetic::new());
    let live = CancellationContext::new();
    let v1 = inject(&mut engine, 7, 70);
    assert_eq!(value(engine.resolve(Key::injected(INPUT, 7), v1, &live)), 70);
    assert!(engine.graph().event_log().is_empty());
}

#[test]
fn later_assignment_in_a_batch_wins() {
    let mut engine = Engine::new(Arithmetic::new());
    let mut batch = engine.begin_update();
    assert!(batch.set(Key::injected(INPUT, 0), 1).is_ok());
    assert!(batch.set(Key::injected(INPUT, 0), 2).is_ok());
    let v1 = engine.commit(batch);
    assert_eq!(engine.inputs().value_at(&Key::injected(INPUT, 0), v1), Some(2));
}

#[test]
fn computed_key_cannot_be_injected() {
    let engine = Engine::new(Arithmetic::new());
    let mut batch = engine.begin_update();
    let computed = Key::computed(DOUBLE, 0);
    assert_eq!(batch.set(computed, 1), Err(UpdateError::NotInjected(computed)));
}

#[test]
fn cancelled_request_changes_nothing_and_the_next_runs() {
    let b = Key::computed(DOUBLE, 0);
    let mut engine = Engine::new(Arithmetic::new());
    let v1 = inject(&mut engine, 0, 4);
    let mut ctx = engine.context();
    ctx.cancel();
    assert!(ctx.is_cancelled());
    assert!(matches!(ctx.compute(&mut engine, b), Resolved::Cancelled));
    assert_eq!(engine.graph().value_of(&b), None);
    assert_eq!(engine.computations().started.get(), 0);
    assert_eq!(engine.graph().event_log(), &vec![Event::Cancelled(b)]);

    let live = engine.context();
    assert_eq!(live.version(), v1);
    assert_eq!(value(live.compute(&mut engine, b)), 8);
    assert_eq!(engine.computations().started.get(), 1);
}

#[test]
fn computation_that_gives_up_leaves_no_value() {
    let b = Key::computed(DOUBLE, 0);
    let mut engine = Engine::new(Arithmetic::new());
    let live = CancellationContext::new();
    let v1 = inject(&mut engine, 0, 4);
    engine.computations().interrupted.set(true);
    assert!(matches!(engine.resolve(b, v1, &live), Resolved::Cancelled));
    assert_eq!(engine.graph().value_of(&b), None);
    assert_eq!(engine.graph().executions_of(&b), 1);
    assert_eq!(engine.graph().event_log(), &vec![Event::Executed(b), Event::Cancelled(b)]);
    engine.computations().interrupted.set(false);
    assert_eq!(value(engine.resolve(b, v1, &live)), 8);
    assert_eq!(engine.graph().executions_of(&b), 2);
    assert_eq!(engine.graph().value_of(&b), Some(8));
}

#[test]
fn value_is_remembered_for_a_range_of_versions() {
    let b = Key::computed(DOUBLE, 0);
    let mut engine = Engine::new(Arithmetic::new());
    let live = CancellationContext::new();
    let v1 = inject(&mut engine, 0, 1);
    assert_eq!(value(engine.resolve(b, v1, &live)), 2);
    assert_eq!(engine.graph().valid_range(&b), Some((v1, v1)));
    let v2 = inject(&mut engine, 1, 9);
    let v3 = inject(&mut engine, 1, 10);
    // Not the next version: the range starts anew.
    assert_eq!(value(engine.resolve(b, v3, &live)), 2);
    assert_eq!(engine.graph().valid_range(&b), Some((v3, v3)));
    // The version just before: the range grows downwards.
    assert_eq!(value(engine.resolve(b, v2, &live)), 2);
    assert_eq!(engine.graph().valid_range(&b), Some((v2, v3)));
    let v4 = inject(&mut engine, 1, 11);
    assert_eq!(value(engine.resolve(b, v4, &live)), 2);
    assert_eq!(engine.graph().valid_range(&b), Some((v2, v4)));
    // Inside the range the value is returned as it is.
    assert_eq!(value(engine.resolve(b, v3, &live)), 2);
    assert_eq!(engine.graph().event_log().last(), Some(&Event::Hit(b)));
    assert_eq!(engine.graph().executions_of(&b), 1);
    // A change ends the range.
    let v5 = inject(&mut engine, 0, 2);
    assert_eq!(value(engine.resolve(b, v5, &live)), 4);
    assert_eq!(engine.graph().valid_range(&b), Some((v5, v5)));
    assert_eq!(engine.graph().executions_of(&b), 2);
}

#[test]
fn taking_the_events_leaves_the_values() {
    let b = Key::computed(DOUBLE, 0);
    let mut engine = Engine::new(Arithmetic::new());
    let live = CancellationContext::new();
    let v1 = inject(&mut engine, 0, 2);
    assert_eq!(value(engine.resolve(b, v1, &live)), 4);
    assert_eq!(engine.take_events(), vec![Event::Executed(b)]);
    assert!(engine.graph().event_log().is_empty());
    assert_eq!(engine.graph().executions_of(&b), 0);
    assert_eq!(engine.graph().value_of(&b), Some(4));
    assert_eq!(value(engine.resolve(b, v1, &live)), 4);
    assert_eq!(engine.take_events(), vec![Event::Hit(b)]);
}

#[test]
fn forgetting_old_versions_keeps_the_newer_ones() {
    let a = Key::injected(INPUT, 0);
    let b = Key::computed(DOUBLE, 0);
    let mut engine = Engine::new(Arithmetic::new());
    let live = CancellationContext::new();
    let v1 = inject(&mut engine, 0, 1);
    let v2 = inject(&mut engine, 0, 2);
    let v3 = inject(&mut engine, 0, 3);
    let v4 = inject(&mut engine, 9, 9);
    assert_eq!(value(engine.resolve(b, v1, &live)), 2);
    assert_eq!(engine.graph().valid_range(&b), Some((v1, v1)));

    engine.forget_before(v3);
    assert_eq!(engine.current_version(), v4);
    assert_eq!(engine.inputs().value_at(&a, v3), Some(3));
    assert_eq!(engine.inputs().value_at(&a, v4), Some(3));
    assert_eq!(engine.inputs().value_at(&Key::injected(INPUT, 9), v4), Some(9));
    // What the forgotten versions saw is lost.
    assert_eq!(engine.inputs().value_at(&a, v1), None);
    assert_eq!(engine.inputs().value_at(&a, v2), None);
    // The value is still remembered, but for no version.
    assert_eq!(engine.graph().value_of(&b), Some(2));
    assert_eq!(engine.graph().valid_range(&b), Some((v3, v2)));

    assert_eq!(value(engine.resolve(b, v3, &live)), 6);
    assert_eq!(engine.graph().valid_range(&b), Some((v3, v3)));
    assert_eq!(value(engine.resolve(b, v4, &live)), 6);
    assert_eq!(engine.graph().valid_range(&b), Some((v3, v4)));
    assert_eq!(engine.graph().executions_of(&b), 2);

    // Forgetting part of a range shortens it.
    engine.forget_before(v4);
    assert_eq!(engine.graph().valid_range(&b), Some((v4, v4)));
    assert_eq!(value(engine.resolve(b, v4, &live)), 6);
    assert_eq!(engine.graph().event_log().last(), Some(&Event::Hit(b)));
}
