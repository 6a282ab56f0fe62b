//! Key identity: how units of derivable state are named and told apart.

use vstd::prelude::*;

verus! {

/// Whether a key's value is supplied from outside or derived by a computation.
#[derive(Clone, Copy, Debug, PartialEq, Eq, Structural, Hash)]
pub enum KeyKind {
    /// The value is set through a transaction and has no dependencies.
    Injected,
    /// The value is produced by a computation that may read other keys.
    Computed,
}

/// The identity of one unit of derivable state: a kind, a stable type tag
/// and a value within that type. Two keys are the same key exactly when all
/// three agree.
#[derive(Clone, Copy, Debug, PartialEq, Eq, Structural, Hash)]
pub struct Key {
    pub kind: KeyKind,
    pub type_tag: u64,
    pub id: u64,
}

impl Key {
    /// A key whose value is supplied through transactions.
    pub fn injected(type_tag: u64, id: u64) -> (k: Key)
        ensures
            k == (Key { kind: KeyKind::Injected, type_tag, id }),
    {
        Key { kind: KeyKind::Injected, type_tag, id }
    }

    /// A key whose value is derived by a computation.
    pub fn computed(type_tag: u64, id: u64) -> (k: Key)
        ensures
            k == (Key { kind: KeyKind::Computed, type_tag, id }),
    {
        Key { kind: KeyKind::Computed, type_tag, id }
    }

    pub open spec fn spec_is_injected(&self) -> bool {
        self.kind == KeyKind::Injected
    }

    /// True for keys whose value is supplied through transactions.
    #[verifier::when_used_as_spec(spec_is_injected)]
    pub fn is_injected(&self) -> (b: bool)
        ensures
            b == self.spec_is_injected(),
    {
        self.kind == KeyKind::Injected
    }

    /// Identity test: same kind, same type tag, same value.
    pub fn same_key(&self, other: &Key) -> (b: bool)
        ensures
            b == (*self == *other),
    {
        self.kind == other.kind && self.type_tag == other.type_tag && self.id == other.id
    }
}

} // verus!
