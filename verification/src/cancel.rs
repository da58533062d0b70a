//! Cancellation supervisor: one cancellation flag plus the last-spawned
//! archiving process id (0 = none in flight). The orchestrator and the
//! archive step share one supervisor by reference; the actual signal is
//! sent by the caller, to the process *group* of the returned id.

use vstd::prelude::*;

verus! {

/// The process-wide cancellation state.
#[derive(Clone, Copy, Debug, PartialEq, Eq, Structural)]
pub struct CancelSupervisor {
    /// Set by an external cancel request; consumed and reset by the
    /// orchestrator.
    pub cancelled: bool,
    /// The archiving process currently in flight, or 0.
    pub tracked_pid: u32,
}

impl CancelSupervisor {
    /// A fresh supervisor: not cancelled, nothing in flight.
    pub fn new() -> (r: CancelSupervisor)
        ensures
            !r.cancelled,
            r.tracked_pid == 0,
    {
        CancelSupervisor { cancelled: false, tracked_pid: 0 }
    }

    /// An external cancel request: raise the flag, clear the tracked id,
    /// and name the process group the caller must signal — exactly the one
    /// that was in flight, if any.
    pub fn request_cancel(&mut self) -> (signal: Option<u32>)
        ensures
            final(self).cancelled,
            final(self).tracked_pid == 0,
            old(self).tracked_pid > 0 ==> signal == Some(old(self).tracked_pid),
            old(self).tracked_pid == 0 ==> signal is None,
    {
        self.cancelled = true;
        let pid = self.tracked_pid;
        self.tracked_pid = 0;
        if pid > 0 {
            Some(pid)
        } else {
            None
        }
    }

    /// Read-only check of the flag.
    pub fn is_cancelled(&self) -> (r: bool)
        ensures
            r == self.cancelled,
    {
        self.cancelled
    }

    /// Reset the flag; called by the orchestrator at the start of handling
    /// a cancellation, before it returns its failure.
    pub fn clear(&mut self)
        ensures
            !final(self).cancelled,
            final(self).tracked_pid == old(self).tracked_pid,
    {
        self.cancelled = false;
    }

    /// Record the archiving process, immediately after spawn.
    pub fn track(&mut self, pid: u32)
        ensures
            final(self).tracked_pid == pid,
            final(self).cancelled == old(self).cancelled,
    {
        self.tracked_pid = pid;
    }

    /// Forget the archiving process, immediately after wait. A cancel
    /// request arriving after this is observed through the flag alone.
    pub fn untrack(&mut self)
        ensures
            final(self).tracked_pid == 0,
            final(self).cancelled == old(self).cancelled,
    {
        self.tracked_pid = 0;
    }
}

} // verus!
