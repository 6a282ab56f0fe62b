//! Which script files can be evaluated for debugging, and as what.

use vstd::prelude::*;
use vstd::string::StringExecFns;

verus! {

/// What kind of module a path names.
#[derive(Clone, Copy, Debug, PartialEq, Eq, Structural, Hash)]
pub enum ModuleKind {
    /// A file that build files load, ending in `.bzl`.
    LoadFile,
    /// An extension script, ending in `.bxl`.
    BxlFile,
}

/// Why a path cannot be evaluated.
#[derive(Debug)]
pub enum DebugEvalError {
    /// The path names neither kind of module.
    InvalidImportPath(String),
}

/// `text` ends with `suffix`.
pub open spec fn ends_with(text: Seq<char>, suffix: Seq<char>) -> bool {
    text.len() >= suffix.len() && text.subrange(text.len() - suffix.len(), text.len() as int)
        == suffix
}

/// Whether `text` ends with `suffix`.
pub fn has_suffix(text: &str, suffix: &str) -> (b: bool)
    ensures
        b == ends_with(text@, suffix@),
{
    let n = text.unicode_len();
    let m = suffix.unicode_len();
    if n < m {
        return false;
    }
    let start = n - m;
    let ghost tail = text@.subrange(start as int, n as int);
    let mut i: usize = 0;
    while i < m
        invariant
            i <= m,
            n == text@.len(),
            m == suffix@.len(),
            start == n - m,
            tail == text@.subrange(start as int, n as int),
            forall|j: int| 0 <= j < i ==> tail[j] == suffix@[j],
        decreases m - i,
    {
        if text.get_char(start + i) != suffix.get_char(i) {
            proof {
                assert(tail[i as int] != suffix@[i as int]);
            }
            return false;
        }
        i = i + 1;
    }
    proof {
        assert(tail =~= suffix@);
    }
    true
}

impl DebugEvalError {
    /// The error's message.
    pub open spec fn spec_message(&self) -> Seq<char> {
        match *self {
            DebugEvalError::InvalidImportPath(path) => {
                "Can only eval `.bzl` or `.bxl`, but got `"@ + path@ + "`"@
            },
        }
    }

    /// The error's message.
    pub fn message(&self) -> (text: String)
        ensures
            text@ == self.spec_message(),
    {
        match self {
            DebugEvalError::InvalidImportPath(path) => {
                let mut text = String::from_str("Can only eval `.bzl` or `.bxl`, but got `");
                text.append(path.as_str());
                text.append("`");
                text
            },
        }
    }
}

/// The kind of module that `path` names: a file to load where it ends
/// in `.bzl`, an extension script where it ends in `.bxl`, and
/// otherwise none, which is an error that names the path.
pub fn module_kind(path: &str) -> (r: Result<ModuleKind, DebugEvalError>)
    ensures
        ends_with(path@, ".bzl"@) ==> r == Ok::<ModuleKind, DebugEvalError>(ModuleKind::LoadFile),
        !ends_with(path@, ".bzl"@) && ends_with(path@, ".bxl"@) ==> r == Ok::<
            ModuleKind,
            DebugEvalError,
        >(ModuleKind::BxlFile),
        !ends_with(path@, ".bzl"@) && !ends_with(path@, ".bxl"@) ==> (r matches Err(
            DebugEvalError::InvalidImportPath(named),
        ) && named@ == path@),
{
    if has_suffix(path, ".bzl") {
        Ok(ModuleKind::LoadFile)
    } else if has_suffix(path, ".bxl") {
        Ok(ModuleKind::BxlFile)
    } else {
        Err(DebugEvalError::InvalidImportPath(String::from_str(path)))
    }
}

/// The kinds of the modules that `paths` name, in their order; the
/// first path that names none is the error.
pub fn module_kinds(paths: &Vec<String>) -> (r: Result<Vec<ModuleKind>, DebugEvalError>)
    ensures
        match r {
            Ok(kinds) => kinds@.len() == paths@.len() && forall|i: int|
                0 <= i < paths@.len() ==> names(#[trigger] paths@[i]@, kinds@[i]),
            Err(DebugEvalError::InvalidImportPath(named)) => exists|i: int|
                0 <= i < paths@.len() && named@ == (#[trigger] paths@[i])@ && names_nothing(
                    paths@[i]@,
                ) && forall|j: int| 0 <= j < i ==> !names_nothing(#[trigger] paths@[j]@),
        },
{
    let mut kinds: Vec<ModuleKind> = Vec::new();
    let mut i: usize = 0;
    while i < paths.len()
        invariant
            i <= paths@.len(),
            kinds@.len() == i,
            forall|j: int| 0 <= j < i ==> names(#[trigger] paths@[j]@, kinds@[j]),
        decreases paths@.len() - i,
    {
        match module_kind(paths[i].as_str()) {
            Ok(kind) => {
                kinds.push(kind);
            },
            Err(e) => {
                proof {
                    assert(names_nothing(paths@[i as int]@));
                    assert forall|j: int| 0 <= j < i implies !names_nothing(
                        #[trigger] paths@[j]@,
                    ) by {
                        assert(names(paths@[j]@, kinds@[j]));
                    }
                }
                return Err(e);
            },
        }
        i = i + 1;
    }
    Ok(kinds)
}

/// The path names a module of this kind.
pub open spec fn names(path: Seq<char>, kind: ModuleKind) -> bool {
    match kind {
        ModuleKind::LoadFile => ends_with(path, ".bzl"@),
        ModuleKind::BxlFile => !ends_with(path, ".bzl"@) && ends_with(path, ".bxl"@),
    }
}

/// The path names no module.
pub open spec fn names_nothing(path: Seq<char>) -> bool {
    !ends_with(path, ".bzl"@) && !ends_with(path, ".bxl"@)
}

} // verus!
