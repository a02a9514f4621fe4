//! The reconciler's run state.
//!
//! The background loop that ties process-scoped artifacts to process
//! liveness runs until it is told to stop; the embedding program drives
//! the loop, probing liveness each tick and handing the dead processes to
//! [`crate::manager::EntryManager::reconcile_dead`].  The state machine
//! here is what the loop consults: once stopped, it never polls again.

use vstd::prelude::*;

verus! {

/// Whether the reconciliation loop keeps ticking.
#[derive(Clone, Copy, Debug, PartialEq, Eq, Structural)]
pub enum ReconcilerState {
    /// The loop probes liveness on every tick.
    Running,
    /// A shutdown signal arrived; the loop exits without further probing.
    Stopped,
}

/// The background reconciler's control state.
#[derive(Clone, Copy, Debug)]
pub struct LifetimeReconciler {
    pub state: ReconcilerState,
}

impl LifetimeReconciler {
    /// A reconciler starts running.
    pub fn new() -> (r: Self)
        ensures
            r.state == ReconcilerState::Running,
    {
        LifetimeReconciler { state: ReconcilerState::Running }
    }

    /// Whether the loop may run another tick.
    pub fn should_poll(&self) -> (r: bool)
        ensures
            r == (self.state == ReconcilerState::Running),
    {
        match self.state {
            ReconcilerState::Running => true,
            ReconcilerState::Stopped => false,
        }
    }

    /// Delivers the shutdown signal.  The transition is final: there is no
    /// way back to the running state.
    pub fn stop(&mut self)
        ensures
            final(self).state == ReconcilerState::Stopped,
    {
        self.state = ReconcilerState::Stopped;
    }
}

} // verus!
