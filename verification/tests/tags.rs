use incremental::artifact_tag::tag_artifacts;
use incremental::artifact_tag::tag_inputs;
use incremental::artifact_tag::ArtifactTag;
use incremental::artifact_tag::Tagged;
use incremental::artifact_tag::TaggedCommandLine;
use incremental::artifact_tag::TaggedValue;
use incremental::artifact_tag::ValueHandle;

#[test]
fn every_new_tag_is_its_own() {
    let a = ArtifactTag::new();
    let b = ArtifactTag::new();
    assert!(a.same_tag(&a));
    assert!(!a.same_tag(&b));
    assert!(a == a.dupe());
    assert!(a != b);
    assert!(a.dupe().same_tag(&a));
}

#[test]
fn plain_value_is_tagged_as_a_value() {
    let tag = ArtifactTag::new();
    match tag_artifacts(&tag, ValueHandle(7), false) {
        Tagged::Value(v) => {
            assert_eq!(v.inner, ValueHandle(7));
            assert!(v.tag == tag);
            assert!(!v.inputs_only);
        }
        other => panic!("expected a tagged value, got {:?}", other),
    }
    match tag_inputs(&tag, ValueHandle(8), false) {
        Tagged::Value(v) => {
            assert_eq!(v.inner, ValueHandle(8));
            assert!(v.tag == tag);
            assert!(v.inputs_only);
        }
        other => panic!("expected a tagged value, got {:?}", other),
    }
}

#[test]
fn command_line_is_tagged_as_a_command_line() {
    let tag = ArtifactTag::new();
    match tag_artifacts(&tag, ValueHandle(1), true) {
        Tagged::CommandLine(c) => {
            assert_eq!(c.inner.inner, ValueHandle(1));
            assert!(c.inner.tag == tag);
            assert!(!c.inner.inputs_only);
        }
        other => panic!("expected a tagged command line, got {:?}", other),
    }
    match tag_inputs(&tag, ValueHandle(2), true) {
        Tagged::CommandLine(c) => {
            assert_eq!(c.inner.inner, ValueHandle(2));
            assert!(c.inner.inputs_only);
        }
        other => panic!("expected a tagged command line, got {:?}", other),
    }
}

#[test]
fn tagged_values_keep_what_they_are_given() {
    let tag = ArtifactTag::new();
    let v = TaggedValue::new(ValueHandle(3), tag.dupe());
    assert!(!v.inputs_only);
    let w = TaggedValue::inputs_only(ValueHandle(3), tag.dupe());
    assert!(w.inputs_only);
    let line = TaggedCommandLine::new(w);
    assert_eq!(line.inner.inner, ValueHandle(3));
    assert!(line.inner.tag == v.tag);
}

#[test]
fn a_value_that_holds_no_tag_equals_no_tag() {
    let a = ArtifactTag::new();
    let b = ArtifactTag::new();
    assert!(!a.equals(None));
    assert!(a.equals(Some(&a)));
    assert!(a.equals(Some(&a.dupe())));
    assert!(!a.equals(Some(&b)));
}

#[test]
fn copies_share_their_address() {
    let a = ArtifactTag::new();
    let b = ArtifactTag::new();
    assert_eq!(a.address(), a.dupe().address());
    assert_ne!(a.address(), b.address());
    assert_ne!(a.address(), 0);
}

#[test]
fn a_clone_is_the_same_tag() {
    let a = ArtifactTag::new();
    let b = a.clone();
    assert!(a == b);
    assert_eq!(a.address(), b.address());
}
