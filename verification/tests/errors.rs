use std::fmt;

use incremental::error::from_chain;
use incremental::error::ChainEntry;
use incremental::error::ChainedError;
use incremental::error::ErrorKind;
use incremental::execute_error::error_items;
use incremental::execute_error::ActionError;
use incremental::execute_error::ActionExecutionEndError;
use incremental::execute_error::CommandExecutionErrorMarker;
use incremental::execute_error::ExecuteError;
use incremental::execute_error::OutputType;

#[derive(Debug)]
struct TestError;

impl fmt::Display for TestError {
    fn fmt(&self, f: &mut fmt::Formatter<'_>) -> fmt::Result {
        f.write_str("TestError")
    }
}

impl std::error::Error for TestError {}

fn check_equal(mut a: &ChainedError, mut b: &ChainedError) {
    loop {
        match (&*a.0, &*b.0) {
            (ErrorKind::Root(a), ErrorKind::Root(b)) => {
                // Avoid comparing vtable pointers
                assert!(a.test_equal(b));
                return;
            }
            (
                ErrorKind::WithContext(a_context, a_inner),
                ErrorKind::WithContext(b_context, b_inner),
            ) => {
                assert_eq!(format!("{}", a_context), format!("{}", b_context));
                a = a_inner;
                b = b_inner;
            }
            (ErrorKind::Emitted(a_inner), ErrorKind::Emitted(b_inner)) => {
                a = a_inner;
                b = b_inner;
            }
            (_, _) => {
                panic!("Left side did not match right: {:?} {:?}", a, b)
            }
        }
    }
}

#[test]
fn test_rountrip_no_context() {
    let e = ChainedError::new(anyhow::Error::new(TestError)).context("context 1");
    let e2 = ChainedError::from(anyhow::Error::from(e.clone()));
    check_equal(&e, &e2);
}

#[test]
fn test_rountrip_with_context() {
    let e = ChainedError::new(anyhow::Error::new(TestError)).context("context 1");
    let e2 = ChainedError::from(anyhow::Error::from(e.clone()).context("context 2"));
    let e3 = e.context("context 2");
    check_equal(&e2, &e3);
}

#[test]
fn foreign_error_becomes_a_root() {
    let e = ChainedError::from(anyhow::Error::new(TestError).context("outer"));
    match e.kind() {
        ErrorKind::Root(root) => {
            assert_eq!(root.display_text(), "outer");
            assert!(root.get_late_format().is_none());
        }
        _ => panic!("expected a bare root"),
    }
    assert_eq!(e.display_text(), "outer");
}

#[test]
fn several_contexts_come_back_in_order() {
    let e = ChainedError::new(anyhow::Error::new(TestError)).mark_emitted();
    let through = anyhow::Error::from(e.clone()).context("inner").context("outer");
    let back = ChainedError::from(through);
    let expected = e.context("inner").context("outer");
    check_equal(&back, &expected);
    assert_eq!(back.display_text(), "outer");
    assert_eq!(format!("{}", back), "outer");
}

#[test]
fn chain_without_an_error_of_ours_gives_a_root() {
    let chain = vec![ChainEntry::Context("a".to_owned()), ChainEntry::Context("b".to_owned())];
    let e = from_chain(anyhow::Error::msg("plain"), &chain);
    assert!(matches!(e.kind(), ErrorKind::Root(_)));
    assert_eq!(e.display_text(), "plain");
}

#[test]
fn chain_stops_at_the_first_error_of_ours() {
    let base = ChainedError::new(anyhow::Error::new(TestError)).context("base context");
    let later = ChainedError::new(anyhow::Error::new(TestError)).context("later");
    let chain = vec![
        ChainEntry::Context("one".to_owned()),
        ChainEntry::Context("two".to_owned()),
        ChainEntry::Base(base.clone()),
        ChainEntry::Context("three".to_owned()),
        ChainEntry::Base(later),
    ];
    let e = from_chain(anyhow::Error::msg("unused"), &chain);
    let expected = base.context("two").context("one");
    check_equal(&e, &expected);
}

#[test]
fn root_keeps_its_late_format() {
    let inner = std::sync::Arc::new(anyhow::Error::new(TestError));
    let e = ChainedError::new_from_arc(inner, Some("late".to_owned()));
    assert_eq!(e.root().get_late_format(), Some("late"));
    assert_eq!(e.display_text(), "TestError");
    assert!(e.root().test_equal(e.clone().context("x").root()));
    let other = ChainedError::new(anyhow::Error::new(TestError));
    assert!(!e.root().test_equal(other.root()));
}

#[test]
fn error_items_of_nothing_is_none() {
    assert_eq!(error_items(&vec![]), "none");
}

#[test]
fn error_items_are_quoted_and_separated() {
    assert_eq!(error_items(&vec!["a/b".to_owned()]), "`a/b`");
    assert_eq!(
        error_items(&vec!["a".to_owned(), "b".to_owned(), "c d".to_owned()]),
        "`a`, `b`, `c d`"
    );
}

fn missing_message(e: &ExecuteError) -> String {
    match e.as_proto() {
        ActionExecutionEndError::MissingOutputs(m) => m.message,
        _ => panic!("expected missing outputs"),
    }
}

#[test]
fn missing_outputs_are_listed() {
    let e = ExecuteError::MissingOutputs { declared: vec!["out/a".to_owned(), "out/b".to_owned()] };
    assert_eq!(missing_message(&e), "Action failed to produce outputs: `out/a`, `out/b`");
    match e.as_action_error_proto() {
        ActionError::MissingOutputs(m) => {
            assert_eq!(m.message, "Action failed to produce outputs: `out/a`, `out/b`")
        }
        _ => panic!("expected missing outputs"),
    }
}

#[test]
fn mismatched_outputs_show_both_lists() {
    let e = ExecuteError::MismatchedOutputs { declared: vec!["x".to_owned()], actual: vec![] };
    assert_eq!(
        missing_message(&e),
        "Action didn't produce the right set of outputs.\nExpected `x``\nreal none"
    );
}

#[test]
fn wrong_output_type_names_both_kinds() {
    let e = ExecuteError::WrongOutputType {
        path: "out/dir".to_owned(),
        declared: OutputType::Directory,
        actual: OutputType::File,
    };
    assert_eq!(
        missing_message(&e),
        "Action didn't produce output of the right type.\nExpected out/dir to be Directory\nreal File"
    );
    assert_eq!(OutputType::FileOrDirectory.name(), "FileOrDirectory");
}

#[test]
fn other_errors_are_reported_in_full() {
    let e = ExecuteError::Error { error: anyhow::Error::new(TestError).context("while building") };
    match e.as_proto() {
        ActionExecutionEndError::Unknown(text) => assert_eq!(text, "while building: TestError"),
        _ => panic!("expected an unknown error"),
    }
    assert!(matches!(
        ExecuteError::CommandExecutionError.as_proto(),
        ActionExecutionEndError::CommandExecutionError
    ));
    assert!(matches!(
        ExecuteError::CommandExecutionError.as_action_error_proto(),
        ActionError::CommandExecutionError
    ));
}

#[test]
fn marker_turns_into_command_execution_error() {
    let marked = anyhow::Error::new(CommandExecutionErrorMarker).context("outer");
    assert!(matches!(ExecuteError::from(marked), ExecuteError::CommandExecutionError));
    assert_eq!(
        CommandExecutionErrorMarker.message(),
        "Command execution failed. Details are in the command report."
    );
    assert_eq!(
        format!("{}", CommandExecutionErrorMarker),
        "Command execution failed. Details are in the command report."
    );
}

#[test]
fn unmarked_error_stays_an_error() {
    let plain = anyhow::Error::new(TestError).context("outer");
    match ExecuteError::from(plain) {
        ExecuteError::Error { error } => {
            let back = ChainedError::from(error);
            assert!(matches!(back.kind(), ErrorKind::Root(_)));
            assert_eq!(back.display_text(), "outer");
        }
        _ => panic!("expected a plain error"),
    }
}

#[test]
fn roots_made_from_one_shared_error_test_equal() {
    let shared = std::sync::Arc::new(anyhow::Error::new(TestError));
    let a = ChainedError::new_from_arc(shared.clone(), None);
    let b = ChainedError::new_from_arc(shared.clone(), Some("late".to_owned()));
    let other = ChainedError::new_from_arc(std::sync::Arc::new(anyhow::Error::new(TestError)), None);
    assert!(a.root().test_equal(b.root()));
    assert!(b.root().test_equal(a.root()));
    assert!(a.root().test_equal(a.root()));
    assert!(!a.root().test_equal(other.root()));
    assert!(!other.root().test_equal(b.root()));
}

#[test]
fn round_trip_keeps_the_displayed_text() {
    let foreign = anyhow::Error::new(TestError).context("outer");
    assert_eq!(ChainedError::from(foreign).display_text(), "outer");

    let ours = ChainedError::new(anyhow::Error::new(TestError)).mark_emitted().context("first");
    let through = ours.clone().into_anyhow();
    assert_eq!(format!("{}", through), "first");
    assert_eq!(format!("{:#}", through), "first: TestError");
    let back = ChainedError::from(through);
    assert_eq!(back.display_text(), "first");
    check_equal(&back, &ours);

    let more = anyhow::Error::from(ours).context("second");
    assert_eq!(format!("{}", more), "second");
    assert_eq!(ChainedError::from(more).display_text(), "second");
}

#[test]
fn wrapped_error_reports_what_the_input_displays() {
    let input = anyhow::Error::new(TestError).context("while building");
    let shown = format!("{}", input);
    let e = ExecuteError::from(input);
    match &e {
        ExecuteError::Error { error } => assert_eq!(format!("{}", error), shown),
        _ => panic!("expected a plain error"),
    }
    match e.as_proto() {
        ActionExecutionEndError::Unknown(text) => assert_eq!(text, "while building"),
        _ => panic!("expected an unknown error"),
    }
}

#[test]
fn debug_form_shows_the_layers() {
    let e = ChainedError::new(anyhow::Error::msg("root cause")).context("a line of context");
    let debug = format!("{:?}", e);
    assert!(debug.contains("WithContext"));
    assert!(debug.contains("a line of context"));
    assert!(debug.contains("root cause"));
}

#[test]
fn shared_inner_is_the_error_the_root_was_made_from() {
    let shared = std::sync::Arc::new(anyhow::Error::msg("root cause"));
    let e = ChainedError::new_from_arc(shared.clone(), None);
    assert!(std::sync::Arc::ptr_eq(&shared, &e.root().shared_inner()));
    assert_eq!(format!("{}", e.root().inner_error()), "root cause");
}

#[test]
fn wrapped_error_is_reported_with_its_lines_of_context() {
    let ours = ChainedError::new(anyhow::Error::msg("root"))
        .context("inner")
        .mark_emitted()
        .context("middle")
        .context("outer");
    let through = ours.clone().into_anyhow();
    assert_eq!(format!("{}", through), "outer");
    // The lines of context down to the first layer that is none, and that layer's text.
    assert_eq!(format!("{:#}", through), "outer: middle: inner");
    assert_eq!(through.chain().len(), 3);
    check_equal(&ChainedError::from(through), &ours);

    let bare = ChainedError::new(anyhow::Error::msg("root"));
    assert_eq!(format!("{:#}", bare.clone().into_anyhow()), "root");
    check_equal(&ChainedError::from(bare.clone().into_anyhow()), &bare);

    let input = anyhow::Error::from(ChainedError::new(anyhow::Error::msg("root"))).context("ctx");
    match ExecuteError::from(input).as_proto() {
        ActionExecutionEndError::Unknown(text) => assert_eq!(text, "ctx: root"),
        _ => panic!("expected an unknown error"),
    }
}
