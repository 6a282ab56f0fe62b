//! How the execution of an action can fail, and how each failure is
//! reported.

use vstd::prelude::*;
use vstd::string::StringExecFns;
use crate::error::chain_of;
use crate::error::displayed;
use crate::error::from_anyhow_for_crate;
use crate::error::rebuilt_from;
use crate::error::write_text;
use crate::error::ChainedError;

verus! {

/// What kind of output a path was declared or found to be.
#[derive(Clone, Copy, Debug, PartialEq, Eq, Structural, Hash)]
pub enum OutputType {
    FileOrDirectory,
    File,
    Directory,
}

impl OutputType {
    /// The name of the kind, as it is written in messages.
    pub open spec fn spec_name(&self) -> Seq<char> {
        match *self {
            OutputType::FileOrDirectory => "FileOrDirectory"@,
            OutputType::File => "File"@,
            OutputType::Directory => "Directory"@,
        }
    }

    /// The name of the kind, as it is written in messages.
    pub fn name(&self) -> (s: &'static str)
        ensures
            s@ == self.spec_name(),
    {
        match self {
            OutputType::FileOrDirectory => "FileOrDirectory",
            OutputType::File => "File",
            OutputType::Directory => "Directory",
        }
    }
}

/// The error that stands for a failed command whose details are in the
/// command's report.
#[derive(Clone, Copy, Debug, PartialEq, Eq, Structural, Hash)]
pub struct CommandExecutionErrorMarker;

impl CommandExecutionErrorMarker {
    /// The marker's message.
    pub fn message(&self) -> (s: &'static str)
        ensures
            s@ == "Command execution failed. Details are in the command report."@,
    {
        "Command execution failed. Details are in the command report."
    }
}

impl core::fmt::Display for CommandExecutionErrorMarker {
    /// Writes the marker's message.
    fn fmt(&self, f: &mut core::fmt::Formatter<'_>) -> (r: Result<(), core::fmt::Error>) {
        write_text(f, self.message())
    }
}

impl std::error::Error for CommandExecutionErrorMarker {

}

/// How the execution of an action failed.
#[allow(inconsistent_fields)]
#[derive(Debug)]
pub enum ExecuteError {
    /// None of the declared outputs was produced.
    MissingOutputs { declared: Vec<String> },
    /// Other outputs were produced than were declared.
    MismatchedOutputs { declared: Vec<String>, actual: Vec<String> },
    /// An output is of another kind than was declared.
    WrongOutputType { path: String, declared: OutputType, actual: OutputType },
    /// Any other error.
    Error { error: anyhow::Error },
    /// The command failed; its report says how.
    CommandExecutionError,
}

/// A report that outputs are missing or wrong.
#[derive(Debug, PartialEq, Eq)]
pub struct CommandOutputsMissing {
    pub message: String,
}

/// The failure of an action's execution, as it is reported at the end
/// of the execution.
#[derive(Debug, PartialEq, Eq)]
pub enum ActionExecutionEndError {
    Unknown(String),
    MissingOutputs(CommandOutputsMissing),
    CommandExecutionError,
}

/// The failure of an action's execution, as it is reported with the
/// action's error.
#[derive(Debug, PartialEq, Eq)]
pub enum ActionError {
    Unknown(String),
    MissingOutputs(CommandOutputsMissing),
    CommandExecutionError,
}

/// An item as it is written in a list: between backticks.
pub open spec fn quoted(item: Seq<char>) -> Seq<char> {
    "`"@ + item + "`"@
}

/// The items between backticks, separated by a comma and a space.
pub open spec fn joined(items: Seq<Seq<char>>) -> Seq<char>
    decreases items.len(),
{
    if items.len() == 0 {
        Seq::empty()
    } else if items.len() == 1 {
        quoted(items[0])
    } else {
        joined(items.drop_last()) + ", "@ + quoted(items.last())
    }
}

/// The text of a list of items: `none` for an empty list, and
/// otherwise the items between backticks, separated by a comma and a
/// space.
pub open spec fn items_text(items: Seq<Seq<char>>) -> Seq<char> {
    if items.len() == 0 {
        "none"@
    } else {
        joined(items)
    }
}

/// The texts of a list of strings.
pub open spec fn texts(xs: Seq<String>) -> Seq<Seq<char>> {
    Seq::new(xs.len(), |i: int| xs[i]@)
}

/// The text of a list of items, as it is written in messages.
pub fn error_items(xs: &Vec<String>) -> (res: String)
    ensures
        res@ == items_text(texts(xs@)),
{
    if xs.len() == 0 {
        return "none".to_owned();
    }
    let mut res = String::new();
    let n = xs.len();
    let mut i: usize = 0;
    while i < n
        invariant
            i <= n,
            n == xs@.len(),
            res@ == joined(texts(xs@).subrange(0, i as int)),
        decreases n - i,
    {
        let ghost before = res@;
        if i != 0 {
            res.append(", ");
        }
        res.append("`");
        res.append(xs[i].as_str());
        res.append("`");
        proof {
            let upto = texts(xs@).subrange(0, i + 1);
            assert(upto.drop_last() =~= texts(xs@).subrange(0, i as int));
            assert(upto.last() == xs@[i as int]@);
            if i == 0 {
                assert(before =~= Seq::<char>::empty());
                assert(res@ =~= quoted(xs@[0]@));
            } else {
                assert(res@ =~= before + ", "@ + quoted(xs@[i as int]@));
            }
        }
        i = i + 1;
    }
    proof {
        assert(texts(xs@).subrange(0, n as int) =~= texts(xs@));
    }
    res
}

/// What an `anyhow::Error` displays as in full, with its causes, by `{:#}`.
pub uninterp spec fn displayed_in_full(error: anyhow::Error) -> Seq<char>;

/// Whether an `anyhow::Error` holds the marker of a failed command.
pub uninterp spec fn holds_marker(error: anyhow::Error) -> bool;

/// The text that an `anyhow::Error` displays in full, by its alternate
/// `Display`, which adds the causes to the error's own text.
#[verifier::external_body]
pub(crate) fn anyhow_display_in_full(error: &anyhow::Error) -> (text: String)
    ensures
        text@ == displayed_in_full(*error),
{
    format!("{:#}", error)
}

/// Whether the error downcasts to the marker of a failed command, by
/// `anyhow::Error::downcast_ref`.
#[verifier::external_body]
fn anyhow_holds_marker(error: &anyhow::Error) -> (held: bool)
    ensures
        held == holds_marker(*error),
{
    error.downcast_ref::<CommandExecutionErrorMarker>().is_some()
}

impl ExecuteError {
    /// The message that reports the failure, for the failures that are
    /// reported by a message.
    pub open spec fn spec_message(&self) -> Seq<char> {
        match *self {
            ExecuteError::MissingOutputs { declared } => "Action failed to produce outputs: "@
                + items_text(texts(declared@)),
            ExecuteError::MismatchedOutputs { declared, actual } => {
                "Action didn't produce the right set of outputs.\nExpected "@ + items_text(
                    texts(declared@),
                ) + "`\nreal "@ + items_text(texts(actual@))
            },
            ExecuteError::WrongOutputType { path, declared, actual } => {
                "Action didn't produce output of the right type.\nExpected "@ + path@ + " to be "@
                    + declared.spec_name() + "\nreal "@ + actual.spec_name()
            },
            ExecuteError::Error { error } => displayed_in_full(error),
            ExecuteError::CommandExecutionError => Seq::empty(),
        }
    }

    /// The failure as it is reported at the end of the execution:
    /// wrong or missing outputs with their message, any other error
    /// with its full text, and a failed command as such.
    pub fn as_proto(&self) -> (r: ActionExecutionEndError)
        ensures
            match *self {
                ExecuteError::MissingOutputs { .. }
                | ExecuteError::MismatchedOutputs { .. }
                | ExecuteError::WrongOutputType { .. } => r matches ActionExecutionEndError::MissingOutputs(
                    m,
                ) && m.message@ == self.spec_message(),
                ExecuteError::Error { .. } => r matches ActionExecutionEndError::Unknown(text)
                    && text@ == self.spec_message(),
                ExecuteError::CommandExecutionError => r is CommandExecutionError,
            },
    {
        match self {
            ExecuteError::MissingOutputs { declared } => {
                let mut message = String::from_str("Action failed to produce outputs: ");
                message.append(error_items(declared).as_str());
                ActionExecutionEndError::MissingOutputs(CommandOutputsMissing { message })
            },
            ExecuteError::MismatchedOutputs { declared, actual } => {
                let mut message = String::from_str(
                    "Action didn't produce the right set of outputs.\nExpected ",
                );
                message.append(error_items(declared).as_str());
                message.append("`\nreal ");
                message.append(error_items(actual).as_str());
                ActionExecutionEndError::MissingOutputs(CommandOutputsMissing { message })
            },
            ExecuteError::WrongOutputType { path, declared, actual } => {
                let mut message = String::from_str(
                    "Action didn't produce output of the right type.\nExpected ",
                );
                message.append(path.as_str());
                message.append(" to be ");
                message.append(declared.name());
                message.append("\nreal ");
                message.append(actual.name());
                ActionExecutionEndError::MissingOutputs(CommandOutputsMissing { message })
            },
            ExecuteError::Error { error } => ActionExecutionEndError::Unknown(
                anyhow_display_in_full(error),
            ),
            ExecuteError::CommandExecutionError => ActionExecutionEndError::CommandExecutionError,
        }
    }

    /// The failure as it is reported with the action's error: what is
    /// reported at the end of the execution, kind by kind.
    pub fn as_action_error_proto(&self) -> (r: ActionError)
        ensures
            match *self {
                ExecuteError::MissingOutputs { .. }
                | ExecuteError::MismatchedOutputs { .. }
                | ExecuteError::WrongOutputType { .. } => r matches ActionError::MissingOutputs(m)
                    && m.message@ == self.spec_message(),
                ExecuteError::Error { .. } => r matches ActionError::Unknown(text) && text@
                    == self.spec_message(),
                ExecuteError::CommandExecutionError => r is CommandExecutionError,
            },
    {
        match self.as_proto() {
            ActionExecutionEndError::Unknown(e) => ActionError::Unknown(e),
            ActionExecutionEndError::MissingOutputs(e) => ActionError::MissingOutputs(e),
            ActionExecutionEndError::CommandExecutionError => ActionError::CommandExecutionError,
        }
    }

    /// The failure that an error stands for, given the error of this
    /// library that it was turned into: a failed command where that
    /// error's root holds the marker of one, and otherwise the error
    /// itself, wrapped again so that it displays what it displayed,
    /// and is reported with its lines of context.
    pub fn from_chained(e: ChainedError) -> (r: ExecuteError)
        ensures
            holds_marker(e.spec_root().inner()) ==> r is CommandExecutionError,
            !holds_marker(e.spec_root().inner()) ==> (r matches ExecuteError::Error { error }
                && chain_of(error) == e.links_of() && displayed(error) == e.headline()
                && r.spec_message() == e.full_text()),
    {
        if anyhow_holds_marker(e.root().inner_error()) {
            return ExecuteError::CommandExecutionError;
        }
        ExecuteError::Error { error: e.into_anyhow() }
    }

    /// The failure that an `anyhow::Error` stands for: a failed command
    /// where the root of the error of this library that it stands for
    /// holds the marker of one, and otherwise that error, wrapped
    /// again. The wrapped error displays what `error` displays, and
    /// the failure's message is the full text of the error that
    /// `error` stands for.
    pub fn from_anyhow(error: anyhow::Error) -> (r: ExecuteError)
        ensures
            exists|e: ChainedError| #[trigger]
                rebuilt_from(e, error, chain_of(error)) && (if holds_marker(
                    e.spec_root().inner(),
                ) {
                    r is CommandExecutionError
                } else {
                    r matches ExecuteError::Error { error: wrapped } && chain_of(wrapped)
                        == e.links_of() && r.spec_message() == e.full_text()
                }),
            r matches ExecuteError::Error { error: wrapped } ==> displayed(wrapped) == displayed(
                error,
            ),
    {
        let e = from_anyhow_for_crate(error);
        Self::from_chained(e)
    }
}

impl From<anyhow::Error> for ExecuteError {
    /// The failure that `error` stands for, as `from_anyhow` gives and
    /// states it.
    fn from(error: anyhow::Error) -> (r: ExecuteError) {
        ExecuteError::from_anyhow(error)
    }
}

/// Nothing is claimed of `from` by way of a function of its argument.
impl vstd::std_specs::convert::FromSpecImpl<anyhow::Error> for ExecuteError {
    open spec fn obeys_from_spec() -> bool {
        false
    }

    open spec fn from_spec(error: anyhow::Error) -> ExecuteError {
        arbitrary()
    }
}

} // verus!
