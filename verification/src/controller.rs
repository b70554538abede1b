//! The scan controller: exclusive owner of the at-most-one live scan task.
//!
//! The controller holds the running task's handle. Replacing or shutting a
//! scan down first surrenders the old handle through [`ScanController::retire`],
//! so the surrounding program can cancel and await it; only then is a new
//! handle installed. No window exists in which two handles are held.

use vstd::prelude::*;

verus! {

/// The handle of a spawned background task, relied on for ownership only:
/// the library stores and surrenders it, the surrounding program spawns and
/// cancels.
#[verifier::external_type_specification]
#[verifier::external_body]
#[verifier::reject_recursive_types(T)]
pub struct ExJoinHandle<T>(async_std::task::JoinHandle<T>);

/// Owns at most one live scan task at a time.
pub struct ScanController {
    current: Option<async_std::task::JoinHandle<()>>,
}

impl ScanController {
    /// The handle of the live scan task, if one is held.
    pub closed spec fn task(&self) -> Option<async_std::task::JoinHandle<()>> {
        self.current
    }

    /// A controller with no scan running.
    pub fn new() -> (c: ScanController)
        ensures
            c.task() is None,
    {
        ScanController { current: None }
    }

    /// Whether a scan task is currently held.
    pub fn has_task(&self) -> (r: bool)
        ensures
            r == (self.task() is Some),
    {
        self.current.is_some()
    }

    /// Surrenders the live task's handle, leaving none held. Starting a scan
    /// and shutting down both begin here: the caller cancels and awaits the
    /// returned handle before anything else runs, so the old task is fully
    /// retired first.
    pub fn retire(&mut self) -> (prev: Option<async_std::task::JoinHandle<()>>)
        ensures
            final(self).task() is None,
            prev == old(self).task(),
    {
        self.current.take()
    }

    /// Records the newly launched task's handle. Any handle still held is
    /// surrendered to the caller, never silently dropped; after a `retire`
    /// there is none, so at most one task is ever live.
    pub fn install(&mut self, handle: async_std::task::JoinHandle<()>) -> (displaced: Option<
        async_std::task::JoinHandle<()>,
    >)
        ensures
            final(self).task() == Some(handle),
            displaced == old(self).task(),
    {
        let displaced = self.current.take();
        self.current = Some(handle);
        displaced
    }
}

} // verus!
