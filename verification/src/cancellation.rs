//! The cooperative cancellation signal that accompanies a computation.

use vstd::prelude::*;

verus! {

/// A cancellation signal. It starts untripped; once tripped it stays so.
/// Work that carries one tests it at its suspension points and gives up
/// without publishing anything when it finds it tripped.
#[derive(Clone, Copy, Debug, PartialEq, Eq, Structural)]
pub struct CancellationContext {
    tripped: bool,
}

impl CancellationContext {
    /// Whether cancellation has been requested.
    pub closed spec fn spec_is_cancelled(&self) -> bool {
        self.tripped
    }

    /// A signal that has not been tripped.
    pub fn new() -> (c: Self)
        ensures
            !c.spec_is_cancelled(),
    {
        CancellationContext { tripped: false }
    }

    /// Requests cancellation. Asking twice is the same as asking once.
    pub fn cancel(&mut self)
        ensures
            final(self).spec_is_cancelled(),
    {
        self.tripped = true;
    }

    /// Whether cancellation has been requested.
    #[verifier::when_used_as_spec(spec_is_cancelled)]
    pub fn is_cancelled(&self) -> (b: bool)
        ensures
            b == self.spec_is_cancelled(),
    {
        self.tripped
    }
}

} // verus!
