use std::time::Duration;
use std::time::SystemTime;

use incremental::status::report_duration;
use incremental::status::ArtifactValue;
use incremental::status::CommandExecution;
use incremental::status::CommandExecutionDetails;
use incremental::status::CommandExecutionKind;
use incremental::status::CommandExecutionMetadata;
use incremental::status::CommandExecutionReport;
use incremental::status::CommandExecutionResult;
use incremental::status::CommandExecutionStats;
use incremental::status::CommandExecutionStatus;
use incremental::status::CommandStdStreams;
use incremental::status::CpuCounter;
use incremental::status::OutputCountAndBytes;
use incremental::status::ReportedDuration;
use incremental::status::ReportedKind;
use incremental::status::ReportedMetadata;
use incremental::status::ReportedStatus;

fn local_kind() -> CommandExecutionKind {
    CommandExecutionKind::Local {
        digest: format!("{}:{}", "0".repeat(64), "123"),
        command: vec!["fake_buck2".to_owned()],
        env: vec![("FAKE_ENV_VAR".to_owned(), "1".to_owned())],
    }
}

fn simple_stats() -> CommandExecutionStats {
    CommandExecutionStats {
        cpu_instructions_user: Some(4),
        cpu_instructions_kernel: Some(5),
        userspace_events: Some(CpuCounter { count: 4, time_enabled: 100, time_running: 100 }),
        kernel_events: Some(CpuCounter { count: 10, time_enabled: 50, time_running: 100 }),
    }
}

fn make_simple_report() -> CommandExecutionReport {
    // The field values correspond to what `make_simple_proto()` builds.
    let status = CommandExecutionStatus::Success { execution_kind: local_kind() };
    let timing = CommandExecutionMetadata {
        wall_time: Duration::from_secs(2),
        execution_time: Duration::from_secs(3),
        start_time: SystemTime::UNIX_EPOCH,
        execution_stats: Some(simple_stats()),
        input_materialization_duration: Duration::from_secs(6),
        hashing_duration: Duration::from_secs(7),
    };
    let std_streams = CommandStdStreams::Local {
        stdout: [65, 66, 67].to_vec(), // ABC
        stderr: [68, 69, 70].to_vec(), // DEF
    };
    CommandExecutionReport { status, timing, std_streams, exit_code: Some(456) }
}

fn seconds(s: i64) -> Option<ReportedDuration> {
    Some(ReportedDuration { seconds: s, nanos: 0 })
}

fn make_simple_proto(kind: &CommandExecutionKind) -> CommandExecution<'_> {
    // The field values correspond to what `make_simple_report()` builds.
    let metadata = ReportedMetadata {
        wall_time: seconds(2),
        execution_time: seconds(3),
        start_time: Some(SystemTime::UNIX_EPOCH),
        input_materialization_duration: seconds(6),
        execution_stats: Some(simple_stats()),
        hashing_duration: seconds(7),
    };
    let details = CommandExecutionDetails {
        signed_exit_code: Some(456),
        stdout: "ABC".to_owned(),
        stderr: "DEF".to_owned(),
        command_kind: Some(ReportedKind { kind, details_omitted: false }),
        metadata,
    };
    CommandExecution { details: Some(details), status: Some(ReportedStatus::Success) }
}

#[test]
fn test_to_command_execution_proto() {
    let report = make_simple_report();
    let proto = report.to_command_execution_proto(false, false, false);
    let kind = local_kind();
    let expected_proto = make_simple_proto(&kind);

    assert_eq!(proto, expected_proto);
}

#[test]
fn test_to_command_execution_proto_omit_stdout() {
    let report = make_simple_report();
    let proto = report.to_command_execution_proto(true, false, false);
    let kind = local_kind();
    let mut expected_proto = make_simple_proto(&kind);

    expected_proto.details.as_mut().unwrap().stdout = "".to_owned();

    assert_eq!(proto, expected_proto);
}

#[test]
fn test_to_command_execution_proto_omit_stderr() {
    let report = make_simple_report();
    let proto = report.to_command_execution_proto(false, true, false);
    let kind = local_kind();
    let mut expected_proto = make_simple_proto(&kind);

    expected_proto.details.as_mut().unwrap().stderr = "".to_owned();

    assert_eq!(proto, expected_proto);
}

#[test]
fn test_to_command_execution_proto_omit_command_details() {
    let report = make_simple_report();
    let proto = report.to_command_execution_proto(false, false, true);
    let kind = local_kind();
    let mut expected_proto = make_simple_proto(&kind);

    expected_proto.details.as_mut().unwrap().command_kind =
        Some(ReportedKind { kind: &kind, details_omitted: true });

    assert_eq!(proto, expected_proto);
}

#[test]
fn stdout_of_a_failed_command_is_never_omitted() {
    let mut report = make_simple_report();
    report.status = CommandExecutionStatus::Failure { execution_kind: local_kind() };
    let proto = report.to_command_execution_proto(true, true, false);
    let details = proto.details.unwrap();
    assert_eq!(details.stdout, "ABC");
    assert_eq!(details.stderr, "");
    assert_eq!(proto.status, Some(ReportedStatus::Failure));
}

#[test]
fn every_status_is_reported_as_its_kind() {
    let mut report = make_simple_report();
    report.status = CommandExecutionStatus::Cancelled;
    assert!(report.status.execution_kind().is_none());
    let proto = report.to_command_execution_proto(false, false, false);
    assert_eq!(proto.status, Some(ReportedStatus::Cancelled));
    assert!(proto.details.unwrap().command_kind.is_none());

    report.status = CommandExecutionStatus::TimedOut {
        execution_kind: CommandExecutionKind::Remote { digest: "d".to_owned() },
        duration: Duration::new(5, 250),
    };
    assert_eq!(
        report.status.execution_kind(),
        Some(&CommandExecutionKind::Remote { digest: "d".to_owned() })
    );
    assert_eq!(
        report.to_command_execution_proto(false, false, false).status,
        Some(ReportedStatus::Timeout { duration: Some(ReportedDuration { seconds: 5, nanos: 250 }) })
    );

    report.status = CommandExecutionStatus::Error {
        stage: "prepare",
        error: anyhow::Error::msg("inner").context("outer"),
    };
    assert!(report.status.execution_kind().is_none());
    assert_eq!(
        report.to_command_execution_proto(false, false, false).status,
        Some(ReportedStatus::Error { stage: "prepare".to_owned(), error: "outer: inner".to_owned() })
    );
}

#[test]
fn execution_kind_of_success_and_failure() {
    let success = CommandExecutionStatus::Success { execution_kind: local_kind() };
    assert_eq!(success.execution_kind(), Some(&local_kind()));
    let failure = CommandExecutionStatus::Failure {
        execution_kind: CommandExecutionKind::ActionCache { digest: "a".to_owned() },
    };
    assert_eq!(
        failure.execution_kind(),
        Some(&CommandExecutionKind::ActionCache { digest: "a".to_owned() })
    );
}

#[test]
fn duration_too_long_has_no_reported_form() {
    assert_eq!(report_duration(&Duration::new(u64::MAX, 5)), None);
    assert_eq!(report_duration(&Duration::new(i64::MAX as u64 + 1, 0)), None);
    assert_eq!(
        report_duration(&Duration::new(i64::MAX as u64, 999_999_999)),
        Some(ReportedDuration { seconds: i64::MAX, nanos: 999_999_999 })
    );
    assert_eq!(
        report_duration(&Duration::from_millis(1500)),
        Some(ReportedDuration { seconds: 1, nanos: 500_000_000 })
    );
}

#[test]
fn default_metadata_spent_no_time() {
    let before = SystemTime::now();
    let m = CommandExecutionMetadata::default();
    assert_eq!(m.wall_time, Duration::ZERO);
    assert_eq!(m.execution_time, Duration::ZERO);
    assert_eq!(m.input_materialization_duration, Duration::ZERO);
    assert_eq!(m.hashing_duration, Duration::ZERO);
    assert!(m.execution_stats.is_none());
    assert!(m.start_time >= before);
    let reported = m.to_proto();
    assert_eq!(reported.wall_time, seconds(0));
    assert_eq!(reported.start_time, Some(m.start_time));
}

#[test]
fn invalid_utf8_is_replaced() {
    let streams = CommandStdStreams::Local { stdout: vec![b'a', 0xff, b'b'], stderr: vec![] };
    let pair = streams.to_lossy();
    assert_eq!(pair.stdout, "a\u{fffd}b");
    assert_eq!(pair.stderr, "");
    let empty = CommandStdStreams::Empty.to_lossy();
    assert_eq!(empty.stdout, "");
    assert_eq!(empty.stderr, "");
}

fn sized(bytes: u64) -> ArtifactValue {
    ArtifactValue { size: OutputCountAndBytes { count: 1, bytes } }
}

#[test]
fn output_sizes_are_added_up() {
    let mut result = CommandExecutionResult::new(make_simple_report());
    assert_eq!(result.calc_output_size_bytes(), 0);
    result.add_output("out/a".to_owned(), sized(10));
    result.add_output("out/b".to_owned(), sized(32));
    assert_eq!(result.calc_output_size_bytes(), 42);
    assert_eq!(result.checked_output_size_bytes(), Some(42));
    // An output that is recorded again keeps its place and gets the new value.
    result.add_output("out/a".to_owned(), sized(1));
    assert_eq!(result.calc_output_size_bytes(), 33);
    let paths: Vec<&str> = result.outputs.keys().map(|k| k.as_str()).collect();
    assert_eq!(paths, vec!["out/a", "out/b"]);
    assert_eq!(sized(5).calc_output_count_and_bytes(), OutputCountAndBytes { count: 1, bytes: 5 });
}

#[test]
fn total_too_large_is_not_told() {
    let mut result = CommandExecutionResult::new(make_simple_report());
    result.add_output("a".to_owned(), sized(u64::MAX));
    assert_eq!(result.checked_output_size_bytes(), Some(u64::MAX));
    result.add_output("b".to_owned(), sized(1));
    assert_eq!(result.checked_output_size_bytes(), None);
}

#[test]
fn success_and_how_it_came_about() {
    let mut result = CommandExecutionResult::new(make_simple_report());
    assert!(result.was_success());
    assert!(result.was_locally_executed());
    assert!(!result.was_served_by_remote_dep_file_cache());
    assert!(!result.did_cache_upload);
    assert!(result.rejected_execution.is_none());

    result.report.status = CommandExecutionStatus::Success {
        execution_kind: CommandExecutionKind::RemoteDepFileCache { digest: "d".to_owned() },
    };
    assert!(result.was_success());
    assert!(!result.was_locally_executed());
    assert!(result.was_served_by_remote_dep_file_cache());

    result.report.status = CommandExecutionStatus::Failure { execution_kind: local_kind() };
    assert!(!result.was_success());
    assert!(!result.was_locally_executed());
    assert!(!result.was_served_by_remote_dep_file_cache());
}

#[test]
fn headline_tells_how_the_execution_finished() {
    let success = CommandExecutionStatus::Success { execution_kind: local_kind() };
    assert_eq!(success.headline(), Some("success local".to_owned()));
    let failure = CommandExecutionStatus::Failure {
        execution_kind: CommandExecutionKind::RemoteDepFileCache { digest: "d".to_owned() },
    };
    assert_eq!(failure.headline(), Some("failure remote_dep_file_cache".to_owned()));
    let error = CommandExecutionStatus::Error {
        stage: "upload",
        error: anyhow::Error::msg("inner").context("outer"),
    };
    assert_eq!(error.headline(), Some("error:upload\nouter: inner".to_owned()));
    assert_eq!(CommandExecutionStatus::Cancelled.headline(), Some("Cancelled".to_owned()));
    let timed_out = CommandExecutionStatus::TimedOut {
        execution_kind: CommandExecutionKind::Remote { digest: "d".to_owned() },
        duration: Duration::from_secs(1),
    };
    assert_eq!(timed_out.headline(), None);
    assert_eq!(CommandExecutionKind::ActionCache { digest: "d".to_owned() }.name(), "action_cache");
    assert_eq!(CommandExecutionKind::Remote { digest: "d".to_owned() }.name(), "remote");
}

#[test]
fn early_return_carries_its_result() {
    let mut result = CommandExecutionResult::new(make_simple_report());
    result.add_output("out".to_owned(), sized(9));
    result.did_cache_upload = true;
    let back = CommandExecutionResult::from_residual(std::ops::ControlFlow::Break(result));
    assert!(back.did_cache_upload);
    assert_eq!(back.calc_output_size_bytes(), 9);
    assert_eq!(back.report.exit_code, Some(456));
}
