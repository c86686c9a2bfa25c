//! A cooperative shutdown flag. The surrounding process keeps one where
//! the original design kept a process-global flag; the verified library
//! holds no global state, so the embedding program owns the value (and
//! shares it behind whatever lock or atomic its scheduler needs).

use vstd::prelude::*;

verus! {

/// Whether shutdown has been requested. Once requested it stays requested:
/// no operation clears the flag.
#[derive(Debug, Clone, Copy, PartialEq, Eq, Structural)]
pub struct ShutdownFlag {
    requested: bool,
}

impl ShutdownFlag {
    /// Whether shutdown has been requested.
    pub closed spec fn spec_requested(&self) -> bool {
        self.requested
    }

    /// A fresh flag: shutdown not requested.
    pub fn new() -> (r: ShutdownFlag)
        ensures
            !r.spec_requested(),
    {
        ShutdownFlag { requested: false }
    }

    /// Request shutdown.
    pub fn request_shutdown(&mut self)
        ensures
            final(self).spec_requested(),
    {
        self.requested = true;
    }

    /// Whether shutdown has been requested.
    pub fn is_shutdown_requested(&self) -> (r: bool)
        ensures
            r == self.spec_requested(),
    {
        self.requested
    }
}

} // verus!
