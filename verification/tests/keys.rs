use incremental::key::Key;
use incremental::key::KeyKind;

#[test]
fn injected_and_computed_keys_differ() {
    let a = Key::injected(1, 7);
    let b = Key::computed(1, 7);
    assert_eq!(a.kind, KeyKind::Injected);
    assert_eq!(b.kind, KeyKind::Computed);
    assert!(a.is_injected());
    assert!(!b.is_injected());
    assert!(!a.same_key(&b));
    assert!(a.same_key(&Key::injected(1, 7)));
}
