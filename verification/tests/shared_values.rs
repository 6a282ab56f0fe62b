use std::sync::Arc;

use incremental::cancellation::CancellationContext;
use incremental::computation::Computations;
use incremental::computation::Step;
use incremental::computation::StepOutcome;
use incremental::engine::Engine;
use incremental::graph::Resolved;
use incremental::key::Key;
use incremental::share::Share;

const TEXT: u64 = 1;
const SHOUTED: u64 = 2;

/// `SHOUTED(n)` is the text `n` in capitals. The values are shared texts.
struct Texts;

impl Computations<Arc<String>> for Texts {
    fn step(&self, key: &Key, reads: &Vec<(Key, Arc<String>)>) -> StepOutcome<Arc<String>> {
        let step = if reads.is_empty() {
            Step::Need(Key::injected(TEXT, key.id))
        } else {
            Step::Done(Arc::new(reads[0].1.to_uppercase()))
        };
        StepOutcome::Step(step)
    }

    fn same(&self, _key: &Key, a: &Arc<String>, b: &Arc<String>) -> bool {
        a == b
    }
}

fn text(r: Resolved<Arc<String>>) -> Arc<String> {
    match r {
        Resolved::Value(v) => v,
        other => panic!("expected a value, got {:?}", other),
    }
}

#[test]
fn shared_value_is_handed_out_and_not_copied() {
    let shouted = Key::computed(SHOUTED, 0);
    let mut engine = Engine::new(Texts);
    let live = CancellationContext::new();
    let injected = Arc::new("hello".to_owned());
    let mut batch = engine.begin_update();
    assert!(batch.set(Key::injected(TEXT, 0), injected.share()).is_ok());
    let v1 = engine.commit(batch);

    let seen = engine.inputs().value_at(&Key::injected(TEXT, 0), v1).unwrap();
    assert!(Arc::ptr_eq(&seen, &injected));

    let first = text(engine.resolve(shouted, v1, &live));
    let second = text(engine.resolve(shouted, v1, &live));
    assert_eq!(*first, "HELLO");
    assert!(Arc::ptr_eq(&first, &second));
    let remembered = engine.graph().value_of(&shouted).unwrap();
    assert!(Arc::ptr_eq(&first, &remembered));

    // The same text injected anew: the shouted text is kept, the very same.
    let mut batch = engine.begin_update();
    assert!(batch.set(Key::injected(TEXT, 0), Arc::new("hello".to_owned())).is_ok());
    let v2 = engine.commit(batch);
    let third = text(engine.resolve(shouted, v2, &live));
    assert!(Arc::ptr_eq(&first, &third));
    assert_eq!(engine.graph().executions_of(&shouted), 1);
}

#[test]
fn small_values_share_by_copy() {
    assert_eq!(7u8.share(), 7);
    assert_eq!((-3i64).share(), -3);
    assert!(true.share());
    assert_eq!('x'.share(), 'x');
    assert!(matches!(Resolved::Value(5u64).share(), Resolved::Value(5)));
    assert!(matches!(Resolved::<u64>::Cancelled.share(), Resolved::Cancelled));
}
