//! Lifetime tags that drive artifact reclamation.

use vstd::prelude::*;

verus! {

/// The scope governing when a registered artifact is reclaimed.
///
/// Identity is by value: two `Process(7)` values name the same lifetime.
/// `Process` lifetimes are reclaimed automatically once the process has
/// exited; `Session` and `Persistent` artifacts are removed only by an
/// explicit request.
#[derive(Clone, Copy, Debug, PartialEq, Eq, Structural)]
pub enum Lifetime {
    Process(u32),
    Session,
    Persistent,
}

impl Lifetime {
    /// The lifetime tied to the process with the given identifier.
    pub fn from_pid(pid: u32) -> (r: Result<Self, ()>)
        ensures
            r == Result::<Self, ()>::Ok(Lifetime::Process(pid)),
    {
        Ok(Lifetime::Process(pid))
    }
}

} // verus!
