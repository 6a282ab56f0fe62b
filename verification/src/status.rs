//! How a command ended, what it produced, and how that is reported.

use vstd::prelude::*;
use vstd::string::StringExecFns;
use std::convert::Infallible;
use std::ops::ControlFlow;
use std::time::Duration;
use std::time::SystemTime;
use indexmap::IndexMap;
use crate::execute_error::anyhow_display_in_full;
use crate::execute_error::displayed_in_full;

verus! {

/// `indexmap::IndexMap`, the map that keeps its entries in the order
/// in which they were added.
#[verifier::external_type_specification]
#[verifier::external_body]
#[verifier::reject_recursive_types(K)]
#[verifier::reject_recursive_types(V)]
#[verifier::reject_recursive_types(S)]
pub struct ExIndexMap<K, V, S>(IndexMap<K, V, S>);

/// `std::time::SystemTime`, which is carried through without a look inside.
#[verifier::external_type_specification]
#[verifier::external_body]
pub struct ExSystemTime(SystemTime);

/// How a command was executed.
#[derive(Debug, PartialEq, Eq)]
pub enum CommandExecutionKind {
    /// On this machine, with this command line and environment.
    Local { digest: String, command: Vec<String>, env: Vec<(String, String)> },
    /// On a remote executor.
    Remote { digest: String },
    /// Not at all: the result came from the action cache.
    ActionCache { digest: String },
    /// Not at all: the result came from the cache of dependency files.
    RemoteDepFileCache { digest: String },
}

/// How the execution of an action finished.
#[derive(Debug)]
pub enum CommandExecutionStatus {
    Success { execution_kind: CommandExecutionKind },
    Failure { execution_kind: CommandExecutionKind },
    Error { stage: &'static str, error: anyhow::Error },
    TimedOut { execution_kind: CommandExecutionKind, duration: Duration },
    Cancelled,
}

impl CommandExecutionStatus {
    /// How the command was executed, where it was executed at all.
    pub open spec fn spec_execution_kind(&self) -> Option<CommandExecutionKind> {
        match *self {
            CommandExecutionStatus::Success { execution_kind } => Some(execution_kind),
            CommandExecutionStatus::Failure { execution_kind } => Some(execution_kind),
            CommandExecutionStatus::Error { .. } => None,
            CommandExecutionStatus::TimedOut { execution_kind, .. } => Some(execution_kind),
            CommandExecutionStatus::Cancelled => None,
        }
    }

    /// How the command was executed: known of a command that succeeded,
    /// failed or timed out, and not of one that met an error or was
    /// cancelled.
    pub fn execution_kind(&self) -> (r: Option<&CommandExecutionKind>)
        ensures
            match r {
                Some(k) => self.spec_execution_kind() == Some(*k),
                None => self.spec_execution_kind().is_none(),
            },
    {
        match self {
            CommandExecutionStatus::Success { execution_kind, .. } => Some(execution_kind),
            CommandExecutionStatus::Failure { execution_kind } => Some(execution_kind),
            CommandExecutionStatus::Error { .. } => None,
            CommandExecutionStatus::TimedOut { execution_kind, .. } => Some(execution_kind),
            CommandExecutionStatus::Cancelled => None,
        }
    }
}

impl CommandExecutionKind {
    /// The name of the kind of execution, as it is written in
    /// messages.
    pub open spec fn spec_name(&self) -> Seq<char> {
        match *self {
            CommandExecutionKind::Local { .. } => "local"@,
            CommandExecutionKind::Remote { .. } => "remote"@,
            CommandExecutionKind::ActionCache { .. } => "action_cache"@,
            CommandExecutionKind::RemoteDepFileCache { .. } => "remote_dep_file_cache"@,
        }
    }

    /// The name of the kind of execution, as it is written in
    /// messages.
    pub fn name(&self) -> (s: &'static str)
        ensures
            s@ == self.spec_name(),
    {
        match self {
            CommandExecutionKind::Local { .. } => "local",
            CommandExecutionKind::Remote { .. } => "remote",
            CommandExecutionKind::ActionCache { .. } => "action_cache",
            CommandExecutionKind::RemoteDepFileCache { .. } => "remote_dep_file_cache",
        }
    }
}

impl CommandExecutionStatus {
    /// The line that tells how the execution finished, for every way
    /// of finishing but a timeout, whose line gives the time in
    /// decimal fractions of a second.
    pub open spec fn spec_headline(&self) -> Option<Seq<char>> {
        match *self {
            CommandExecutionStatus::Success { execution_kind } => Some(
                "success "@ + execution_kind.spec_name(),
            ),
            CommandExecutionStatus::Failure { execution_kind } => Some(
                "failure "@ + execution_kind.spec_name(),
            ),
            CommandExecutionStatus::Error { stage, error } => Some(
                "error:"@ + stage@ + "\n"@ + displayed_in_full(error),
            ),
            CommandExecutionStatus::TimedOut { .. } => None,
            CommandExecutionStatus::Cancelled => Some("Cancelled"@),
        }
    }

    /// The line that tells how the execution finished, for every way
    /// of finishing but a timeout.
    pub fn headline(&self) -> (r: Option<String>)
        ensures
            match r {
                Some(text) => self.spec_headline() == Some(text@),
                None => self.spec_headline().is_none(),
            },
    {
        match self {
            CommandExecutionStatus::Success { execution_kind } => {
                let mut text = String::from_str("success ");
                text.append(execution_kind.name());
                Some(text)
            },
            CommandExecutionStatus::Failure { execution_kind } => {
                let mut text = String::from_str("failure ");
                text.append(execution_kind.name());
                Some(text)
            },
            CommandExecutionStatus::Error { stage, error } => {
                let mut text = String::from_str("error:");
                text.append(stage);
                text.append("\n");
                text.append(anyhow_display_in_full(error).as_str());
                Some(text)
            },
            CommandExecutionStatus::TimedOut { .. } => None,
            CommandExecutionStatus::Cancelled => Some(String::from_str("Cancelled")),
        }
    }
}

/// The whole seconds of a duration.
pub uninterp spec fn whole_seconds(d: Duration) -> u64;

/// The part of a duration below one second, in nanoseconds.
pub uninterp spec fn fraction_nanos(d: Duration) -> u32;

/// The text that bytes stand for, with what is not UTF-8 replaced.
pub uninterp spec fn lossy_text(bytes: Seq<u8>) -> Seq<char>;

/// The whole seconds of a duration, by `Duration::as_secs`.
#[verifier::external_body]
fn duration_as_secs(d: &Duration) -> (secs: u64)
    ensures
        secs == whole_seconds(*d),
{
    d.as_secs()
}

/// The fractional part of a duration in nanoseconds, by
/// `Duration::subsec_nanos`; it is below one billion.
#[verifier::external_body]
fn duration_subsec_nanos(d: &Duration) -> (nanos: u32)
    ensures
        nanos == fraction_nanos(*d),
        nanos < 1_000_000_000,
{
    d.subsec_nanos()
}

/// The duration of no time, by `Duration::default`.
#[verifier::external_body]
fn duration_zero() -> (d: Duration)
    ensures
        whole_seconds(d) == 0,
        fraction_nanos(d) == 0,
{
    Duration::default()
}

/// The present moment, by `SystemTime::now`.
#[verifier::external_body]
fn system_time_now() -> (t: SystemTime) {
    SystemTime::now()
}

/// The text of bytes, by `String::from_utf8_lossy`.
#[verifier::external_body]
fn string_from_utf8_lossy(bytes: &Vec<u8>) -> (text: String)
    ensures
        text@ == lossy_text(bytes@),
{
    String::from_utf8_lossy(bytes).into_owned()
}

/// A duration as it is reported: seconds and nanoseconds.
#[derive(Clone, Copy, Debug, PartialEq, Eq, Structural)]
pub struct ReportedDuration {
    pub seconds: i64,
    pub nanos: i32,
}

/// The reported form of a duration, which one has whose seconds fit.
pub open spec fn reported(d: Duration) -> Option<ReportedDuration> {
    if whole_seconds(d) <= i64::MAX {
        Some(ReportedDuration { seconds: whole_seconds(d) as i64, nanos: fraction_nanos(d) as i32 })
    } else {
        None
    }
}

/// The reported form of a duration, which one has whose seconds fit.
pub fn report_duration(d: &Duration) -> (r: Option<ReportedDuration>)
    ensures
        r == reported(*d),
{
    let secs = duration_as_secs(d);
    let nanos = duration_subsec_nanos(d);
    if secs <= 9_223_372_036_854_775_807u64 {
        Some(ReportedDuration { seconds: secs as i64, nanos: nanos as i32 })
    } else {
        None
    }
}

/// A counter of processor events.
#[derive(Clone, Copy, Debug, PartialEq, Eq, Structural)]
pub struct CpuCounter {
    pub count: u64,
    pub time_enabled: u64,
    pub time_running: u64,
}

/// What a command's execution cost.
#[derive(Clone, Copy, Debug, PartialEq, Eq)]
pub struct CommandExecutionStats {
    pub cpu_instructions_user: Option<u64>,
    pub cpu_instructions_kernel: Option<u64>,
    pub userspace_events: Option<CpuCounter>,
    pub kernel_events: Option<CpuCounter>,
}

/// The timing of a command. A command can have richer timing than an
/// action, which has one time only.
#[derive(Clone, Copy, Debug)]
pub struct CommandExecutionMetadata {
    /// How long this build actually waited for the command to complete.
    pub wall_time: Duration,
    /// How long the command took to execute. On a cache hit this is
    /// the time the command once took, not the time waited for it.
    pub execution_time: Duration,
    /// When execution started.
    pub start_time: SystemTime,
    /// Additional stats.
    pub execution_stats: Option<CommandExecutionStats>,
    /// How long it took to materialize the command's inputs.
    pub input_materialization_duration: Duration,
    /// How long was spent hashing the command's inputs.
    pub hashing_duration: Duration,
}

/// The timing of a command, as it is reported.
#[derive(Clone, Copy, Debug, PartialEq, Eq)]
pub struct ReportedMetadata {
    pub wall_time: Option<ReportedDuration>,
    pub execution_time: Option<ReportedDuration>,
    pub start_time: Option<SystemTime>,
    pub input_materialization_duration: Option<ReportedDuration>,
    pub execution_stats: Option<CommandExecutionStats>,
    pub hashing_duration: Option<ReportedDuration>,
}

impl CommandExecutionMetadata {
    /// The timing as it is reported: each duration in its reported
    /// form, or left out where it has none, and the rest as it is.
    pub fn to_proto(&self) -> (r: ReportedMetadata)
        ensures
            r.wall_time == reported(self.wall_time),
            r.execution_time == reported(self.execution_time),
            r.start_time == Some(self.start_time),
            r.input_materialization_duration == reported(self.input_materialization_duration),
            r.execution_stats == self.execution_stats,
            r.hashing_duration == reported(self.hashing_duration),
    {
        ReportedMetadata {
            wall_time: report_duration(&self.wall_time),
            execution_time: report_duration(&self.execution_time),
            start_time: Some(self.start_time),
            input_materialization_duration: report_duration(&self.input_materialization_duration),
            execution_stats: self.execution_stats,
            hashing_duration: report_duration(&self.hashing_duration),
        }
    }
}

impl Default for CommandExecutionMetadata {
    /// No time spent on anything, starting now.
    fn default() -> (m: Self)
        ensures
            reported(m.wall_time) == Some(ReportedDuration { seconds: 0, nanos: 0 }),
            reported(m.execution_time) == Some(ReportedDuration { seconds: 0, nanos: 0 }),
            reported(m.input_materialization_duration) == Some(
                ReportedDuration { seconds: 0, nanos: 0 },
            ),
            reported(m.hashing_duration) == Some(ReportedDuration { seconds: 0, nanos: 0 }),
            m.execution_stats.is_none(),
    {
        CommandExecutionMetadata {
            wall_time: duration_zero(),
            execution_time: duration_zero(),
            start_time: system_time_now(),
            execution_stats: None,
            input_materialization_duration: duration_zero(),
            hashing_duration: duration_zero(),
        }
    }
}

/// What a command wrote to its standard streams.
#[derive(Debug)]
pub enum CommandStdStreams {
    /// The bytes it wrote, held here.
    Local { stdout: Vec<u8>, stderr: Vec<u8> },
    /// Nothing.
    Empty,
}

/// The texts of the two standard streams.
#[derive(Debug, PartialEq, Eq)]
pub struct StdStreamPair {
    pub stdout: String,
    pub stderr: String,
}

impl CommandStdStreams {
    /// The text of the standard output.
    pub open spec fn stdout_text(&self) -> Seq<char> {
        match *self {
            CommandStdStreams::Local { stdout, .. } => lossy_text(stdout@),
            CommandStdStreams::Empty => Seq::empty(),
        }
    }

    /// The text of the standard error.
    pub open spec fn stderr_text(&self) -> Seq<char> {
        match *self {
            CommandStdStreams::Local { stderr, .. } => lossy_text(stderr@),
            CommandStdStreams::Empty => Seq::empty(),
        }
    }

    /// The texts of both streams, with what is not UTF-8 replaced.
    pub fn to_lossy(&self) -> (pair: StdStreamPair)
        ensures
            pair.stdout@ == self.stdout_text(),
            pair.stderr@ == self.stderr_text(),
    {
        match self {
            CommandStdStreams::Local { stdout, stderr } => StdStreamPair {
                stdout: string_from_utf8_lossy(stdout),
                stderr: string_from_utf8_lossy(stderr),
            },
            CommandStdStreams::Empty => StdStreamPair { stdout: String::new(), stderr: String::new() },
        }
    }
}

/// Describes how a command executed.
#[derive(Debug)]
pub struct CommandExecutionReport {
    pub status: CommandExecutionStatus,
    pub timing: CommandExecutionMetadata,
    pub std_streams: CommandStdStreams,
    /// No exit code means that the command did not finish executing.
    /// Signals are mapped to 128 plus the signal's number, as shells do.
    pub exit_code: Option<i32>,
}

/// How a command was executed, as it is reported: with the command
/// line and environment of a local execution, or without them.
#[derive(Debug, PartialEq, Eq)]
pub struct ReportedKind<'a> {
    pub kind: &'a CommandExecutionKind,
    pub details_omitted: bool,
}

/// The details of a command's execution, as they are reported.
#[derive(Debug, PartialEq, Eq)]
pub struct CommandExecutionDetails<'a> {
    pub stdout: String,
    pub stderr: String,
    pub command_kind: Option<ReportedKind<'a>>,
    pub signed_exit_code: Option<i32>,
    pub metadata: ReportedMetadata,
}

/// How a command ended, as it is reported.
#[derive(Debug, PartialEq, Eq)]
pub enum ReportedStatus {
    Success,
    Cancelled,
    Failure,
    Timeout { duration: Option<ReportedDuration> },
    Error { stage: String, error: String },
}

/// A command's execution, as it is reported.
#[derive(Debug, PartialEq, Eq)]
pub struct CommandExecution<'a> {
    pub details: Option<CommandExecutionDetails<'a>>,
    pub status: Option<ReportedStatus>,
}

impl CommandExecutionReport {
    /// The details of the execution as they are reported.
    ///
    /// The standard output is left out where that is asked for and the
    /// command succeeded: of a command that did not succeed nothing is
    /// held back. The standard error is left out where that is asked
    /// for. The exit code and the timing are reported as they are, and
    /// the kind of execution where there is one.
    pub fn to_command_execution_details_proto(
        &self,
        omit_stdout: bool,
        omit_stderr: bool,
        omit_command_details: bool,
    ) -> (r: CommandExecutionDetails<'_>)
        ensures
            r.stdout@ == if omit_stdout && self.status is Success {
                Seq::<char>::empty()
            } else {
                self.std_streams.stdout_text()
            },
            r.stderr@ == if omit_stderr {
                Seq::<char>::empty()
            } else {
                self.std_streams.stderr_text()
            },
            match r.command_kind {
                Some(k) => self.status.spec_execution_kind() == Some(*k.kind) && k.details_omitted
                    == omit_command_details,
                None => self.status.spec_execution_kind().is_none(),
            },
            r.signed_exit_code == self.exit_code,
            r.metadata.wall_time == reported(self.timing.wall_time),
            r.metadata.execution_time == reported(self.timing.execution_time),
            r.metadata.start_time == Some(self.timing.start_time),
            r.metadata.input_materialization_duration == reported(
                self.timing.input_materialization_duration,
            ),
            r.metadata.execution_stats == self.timing.execution_stats,
            r.metadata.hashing_duration == reported(self.timing.hashing_duration),
    {
        let omit_stdout = omit_stdout && matches!(self.status, CommandExecutionStatus::Success { .. });
        let signed_exit_code = self.exit_code;
        let std_pair = self.std_streams.to_lossy();
        let mut stdout = std_pair.stdout;
        let mut stderr = std_pair.stderr;
        if omit_stdout {
            stdout = String::new();
        }
        if omit_stderr {
            stderr = String::new();
        }
        let command_kind = match self.status.execution_kind() {
            Some(kind) => Some(ReportedKind { kind, details_omitted: omit_command_details }),
            None => None,
        };
        CommandExecutionDetails {
            stdout,
            stderr,
            command_kind,
            signed_exit_code,
            metadata: self.timing.to_proto(),
        }
    }

    /// The execution as it is reported: its details, with the texts,
    /// the kind of execution, the exit code and the timing as
    /// `to_command_execution_details_proto` gives them, and how it
    /// ended.
    pub fn to_command_execution_proto(
        &self,
        omit_stdout: bool,
        omit_stderr: bool,
        omit_command_details: bool,
    ) -> (r: CommandExecution<'_>)
        ensures
            r.details matches Some(d) && d.stdout@ == (if omit_stdout && self.status is Success {
                Seq::<char>::empty()
            } else {
                self.std_streams.stdout_text()
            }) && d.stderr@ == (if omit_stderr {
                Seq::<char>::empty()
            } else {
                self.std_streams.stderr_text()
            }) && d.signed_exit_code == self.exit_code && (match d.command_kind {
                Some(k) => self.status.spec_execution_kind() == Some(*k.kind) && k.details_omitted
                    == omit_command_details,
                None => self.status.spec_execution_kind().is_none(),
            }),
            r.details matches Some(d) && d.metadata.wall_time == reported(self.timing.wall_time)
                && d.metadata.execution_time == reported(self.timing.execution_time)
                && d.metadata.start_time == Some(self.timing.start_time)
                && d.metadata.input_materialization_duration == reported(
                self.timing.input_materialization_duration,
            ) && d.metadata.execution_stats == self.timing.execution_stats
                && d.metadata.hashing_duration == reported(self.timing.hashing_duration),
            r.status matches Some(s) && (match self.status {
                CommandExecutionStatus::Success { .. } => s is Success,
                CommandExecutionStatus::Cancelled => s is Cancelled,
                CommandExecutionStatus::Failure { .. } => s is Failure,
                CommandExecutionStatus::TimedOut { duration, .. } => s matches ReportedStatus::Timeout {
                    duration: reported_duration,
                } && reported_duration == reported(duration),
                CommandExecutionStatus::Error { stage, error } => s matches ReportedStatus::Error {
                    stage: reported_stage,
                    error: text,
                } && reported_stage@ == stage@ && text@ == displayed_in_full(error),
            }),
    {
        let details = self.to_command_execution_details_proto(
            omit_stdout,
            omit_stderr,
            omit_command_details,
        );
        let status = match &self.status {
            CommandExecutionStatus::Success { .. } => ReportedStatus::Success,
            CommandExecutionStatus::Cancelled => ReportedStatus::Cancelled,
            CommandExecutionStatus::Failure { .. } => ReportedStatus::Failure,
            CommandExecutionStatus::TimedOut { duration, .. } => ReportedStatus::Timeout {
                duration: report_duration(duration),
            },
            CommandExecutionStatus::Error { stage, error } => ReportedStatus::Error {
                stage: (*stage).to_owned(),
                error: anyhow_display_in_full(error),
            },
        };
        CommandExecution { details: Some(details), status: Some(status) }
    }
}

/// How many files an output holds and how many bytes they have.
#[derive(Clone, Copy, Debug, PartialEq, Eq, Structural)]
pub struct OutputCountAndBytes {
    pub count: u64,
    pub bytes: u64,
}

/// The value of an output: here, its size.
#[derive(Clone, Copy, Debug, PartialEq, Eq, Structural)]
pub struct ArtifactValue {
    pub size: OutputCountAndBytes,
}

impl ArtifactValue {
    /// How many files the output holds and how many bytes they have.
    pub fn calc_output_count_and_bytes(&self) -> (r: OutputCountAndBytes)
        ensures
            r == self.size,
    {
        self.size
    }
}

/// The outputs that a map holds, in the order of the map: each output's
/// path with its value.
pub uninterp spec fn outputs_of(map: IndexMap<String, ArtifactValue>) -> Seq<
    (Seq<char>, ArtifactValue),
>;

/// A map without outputs, by `IndexMap::new`.
#[verifier::external_body]
fn outputs_new() -> (map: IndexMap<String, ArtifactValue>)
    ensures
        outputs_of(map).len() == 0,
{
    IndexMap::new()
}

/// The number of outputs, by `IndexMap::len`.
#[verifier::external_body]
fn outputs_len(map: &IndexMap<String, ArtifactValue>) -> (n: usize)
    ensures
        n == outputs_of(*map).len(),
{
    map.len()
}

/// The value of the output at position `i`, by `IndexMap::get_index`.
#[verifier::external_body]
fn output_value_at(map: &IndexMap<String, ArtifactValue>, i: usize) -> (value: ArtifactValue)
    requires
        i < outputs_of(*map).len(),
    ensures
        value == outputs_of(*map)[i as int].1,
{
    *map.get_index(i).unwrap().1
}

/// Sets the value of the output at `path`, by `IndexMap::insert`: an
/// output that the map holds keeps its place and gets the new value,
/// and one that it does not hold is added at the end.
#[verifier::external_body]
fn outputs_insert(map: &mut IndexMap<String, ArtifactValue>, path: String, value: ArtifactValue)
    ensures
        inserted(outputs_of(*old(map)), outputs_of(*final(map)), path@, value),
{
    map.insert(path, value);
}

/// `after` is `before` with `value` at `path`: in the place of the
/// output at `path` where `before` holds one, and else at the end.
pub open spec fn inserted(
    before: Seq<(Seq<char>, ArtifactValue)>,
    after: Seq<(Seq<char>, ArtifactValue)>,
    path: Seq<char>,
    value: ArtifactValue,
) -> bool {
    if exists|i: int| 0 <= i < before.len() && (#[trigger] before[i]).0 == path {
        exists|i: int|
            0 <= i < before.len() && (#[trigger] before[i]).0 == path && after == before.update(
                i,
                (path, value),
            )
    } else {
        after == before.push((path, value))
    }
}

/// The bytes of all outputs together.
pub open spec fn total_bytes(outputs: Seq<(Seq<char>, ArtifactValue)>) -> nat
    decreases outputs.len(),
{
    if outputs.len() == 0 {
        0
    } else {
        total_bytes(outputs.drop_last()) + outputs.last().1.size.bytes as nat
    }
}

/// The bytes of a part of the outputs are no more than those of all.
proof fn lemma_total_bytes_grows(outputs: Seq<(Seq<char>, ArtifactValue)>, upto: int)
    requires
        0 <= upto <= outputs.len(),
    ensures
        total_bytes(outputs.subrange(0, upto)) <= total_bytes(outputs),
    decreases outputs.len() - upto,
{
    if upto == outputs.len() {
        assert(outputs.subrange(0, upto) =~= outputs);
    } else {
        lemma_total_bytes_grows(outputs, upto + 1);
        let next = outputs.subrange(0, upto + 1);
        assert(next.drop_last() =~= outputs.subrange(0, upto));
    }
}

/// The result of an executor executing a command.
#[derive(Debug)]
pub struct CommandExecutionResult {
    /// The outputs produced by this command.
    pub outputs: IndexMap<String, ArtifactValue>,
    /// How it executed.
    pub report: CommandExecutionReport,
    /// A previously rejected execution of this command.
    pub rejected_execution: Option<CommandExecutionReport>,
    /// Whether this was uploaded to cache.
    pub did_cache_upload: bool,
    /// Whether dependency file information for this action was
    /// uploaded to cache.
    pub did_dep_file_cache_upload: bool,
    /// The key of the dependency file entry, if one was uploaded.
    pub dep_file_key: Option<String>,
    /// Whether this command was eligible for hybrid execution.
    pub eligible_for_full_hybrid: bool,
}

impl CommandExecutionResult {
    /// The outputs, in the order of the map: each path with its value.
    pub open spec fn spec_outputs(&self) -> Seq<(Seq<char>, ArtifactValue)> {
        outputs_of(self.outputs)
    }

    /// A result without outputs of a command that executed as `report`
    /// says; nothing was rejected and nothing uploaded.
    pub fn new(report: CommandExecutionReport) -> (r: Self)
        ensures
            r.spec_outputs().len() == 0,
            r.report == report,
            r.rejected_execution.is_none(),
            !r.did_cache_upload,
            !r.did_dep_file_cache_upload,
            r.dep_file_key.is_none(),
            !r.eligible_for_full_hybrid,
    {
        CommandExecutionResult {
            outputs: outputs_new(),
            report,
            rejected_execution: None,
            did_cache_upload: false,
            did_dep_file_cache_upload: false,
            dep_file_key: None,
            eligible_for_full_hybrid: false,
        }
    }

    /// Records `value` as the output at `path`.
    pub fn add_output(&mut self, path: String, value: ArtifactValue)
        ensures
            inserted(old(self).spec_outputs(), final(self).spec_outputs(), path@, value),
            final(self).report == old(self).report,
            final(self).rejected_execution == old(self).rejected_execution,
            final(self).did_cache_upload == old(self).did_cache_upload,
            final(self).did_dep_file_cache_upload == old(self).did_dep_file_cache_upload,
            final(self).dep_file_key == old(self).dep_file_key,
            final(self).eligible_for_full_hybrid == old(self).eligible_for_full_hybrid,
    {
        outputs_insert(&mut self.outputs, path, value);
    }

    /// Total size of all outputs in bytes, where that fits.
    pub fn calc_output_size_bytes(&self) -> (total: u64)
        requires
            total_bytes(self.spec_outputs()) <= u64::MAX,
        ensures
            total == total_bytes(self.spec_outputs()),
    {
        let n = outputs_len(&self.outputs);
        let ghost all = outputs_of(self.outputs);
        let mut total: u64 = 0;
        let mut i: usize = 0;
        while i < n
            invariant
                i <= n,
                n == all.len(),
                all == outputs_of(self.outputs),
                total_bytes(all) <= u64::MAX,
                total == total_bytes(all.subrange(0, i as int)),
            decreases n - i,
        {
            let value = output_value_at(&self.outputs, i);
            proof {
                let next = all.subrange(0, i + 1);
                assert(next.drop_last() =~= all.subrange(0, i as int));
                assert(next.last() == all[i as int]);
                lemma_total_bytes_grows(all, i + 1);
            }
            total = total + value.calc_output_count_and_bytes().bytes;
            i = i + 1;
        }
        proof {
            assert(all.subrange(0, n as int) =~= all);
        }
        total
    }

    /// Total size of all outputs in bytes, or nothing where the total
    /// is too large to be told.
    pub fn checked_output_size_bytes(&self) -> (r: Option<u64>)
        ensures
            match r {
                Some(total) => total == total_bytes(self.spec_outputs()),
                None => total_bytes(self.spec_outputs()) > u64::MAX,
            },
    {
        let n = outputs_len(&self.outputs);
        let ghost all = outputs_of(self.outputs);
        let mut i: usize = 0;
        let mut total: u64 = 0;
        while i < n
            invariant
                i <= n,
                n == all.len(),
                all == outputs_of(self.outputs),
                total == total_bytes(all.subrange(0, i as int)),
            decreases n - i,
        {
            let bytes = output_value_at(&self.outputs, i).calc_output_count_and_bytes().bytes;
            proof {
                let next = all.subrange(0, i + 1);
                assert(next.drop_last() =~= all.subrange(0, i as int));
                assert(next.last() == all[i as int]);
                lemma_total_bytes_grows(all, i + 1);
            }
            if bytes > u64::MAX - total {
                return None;
            }
            total = total + bytes;
            i = i + 1;
        }
        proof {
            assert(all.subrange(0, n as int) =~= all);
        }
        Some(self.calc_output_size_bytes())
    }

    /// The result that an early return carries.
    pub fn from_residual(residual: ControlFlow<Self, Infallible>) -> (r: Self)
        requires
            residual is Break,
        ensures
            residual == ControlFlow::<Self, Infallible>::Break(r),
    {
        match residual {
            ControlFlow::Break(v) => v,
            ControlFlow::Continue(_) => vstd::pervasive::unreached(),
        }
    }

    /// Whether the command succeeded.
    pub fn was_success(&self) -> (b: bool)
        ensures
            b == (self.report.status is Success),
    {
        match self.report.status {
            CommandExecutionStatus::Success { .. } => true,
            _ => false,
        }
    }

    /// Whether the result came from the cache of dependency files.
    pub fn was_served_by_remote_dep_file_cache(&self) -> (b: bool)
        ensures
            b == (self.report.status matches CommandExecutionStatus::Success { execution_kind }
                && execution_kind is RemoteDepFileCache),
    {
        match self.report.status {
            CommandExecutionStatus::Success {
                execution_kind: CommandExecutionKind::RemoteDepFileCache { .. },
            } => true,
            _ => false,
        }
    }

    /// Whether the command succeeded by being executed on this machine.
    pub fn was_locally_executed(&self) -> (b: bool)
        ensures
            b == (self.report.status matches CommandExecutionStatus::Success { execution_kind }
                && execution_kind is Local),
    {
        match self.report.status {
            CommandExecutionStatus::Success { execution_kind: CommandExecutionKind::Local { .. } } => {
                true
            },
            _ => false,
        }
    }
}

} // verus!
