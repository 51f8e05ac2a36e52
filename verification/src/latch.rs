//! The endpoint-update latch.
//!
//! STUN / endpoint refreshes are serialised by a single-slot latch: at
//! most one refresh runs at a time, and if more are requested while one
//! runs, only the most recent reason is remembered and served when the
//! running refresh completes.  This prevents both update stampedes and
//! lost requests under rapid network changes.

use vstd::prelude::*;

verus! {

/// Why an endpoint refresh was requested.
#[derive(Clone, Copy, PartialEq, Eq, Structural, Debug)]
pub enum UpdateReason {
    /// The periodic re-STUN timer fired.
    Periodic,
    /// The port mapper reported a changed mapping.
    PortmapChanged,
    /// A call-me-maybe wants fresh endpoints before it can be sent.
    RefreshForPeering,
    /// The embedding asked for a refresh.
    Requested,
}

/// The single-slot latch serialising endpoint refreshes: the reason of
/// the refresh now running, if any, and the most recent reason that
/// arrived while it ran, if any.
#[derive(Clone, Copy, PartialEq, Eq, Structural, Debug)]
pub struct EndpointUpdateState {
    pub running: Option<UpdateReason>,
    pub want_update: Option<UpdateReason>,
}

impl EndpointUpdateState {
    /// The latch after a refresh is requested: started at once when
    /// idle; remembered (displacing any earlier pending reason) when
    /// one is already running.
    pub open spec fn spec_request(self, why: UpdateReason) -> EndpointUpdateState {
        if self.running is Some {
            EndpointUpdateState { running: self.running, want_update: Some(why) }
        } else {
            EndpointUpdateState { running: Some(why), want_update: self.want_update }
        }
    }

    /// The latch after the running refresh completes: a pending reason,
    /// if any, starts at once; otherwise the latch empties.
    pub open spec fn spec_finish(self) -> EndpointUpdateState {
        EndpointUpdateState { running: self.want_update, want_update: None }
    }

    pub fn new() -> (r: EndpointUpdateState)
        ensures
            r.running.is_none(),
            r.want_update.is_none(),
    {
        EndpointUpdateState { running: None, want_update: None }
    }

    /// Whether a refresh is currently in progress.
    pub fn is_running(&self) -> (r: bool)
        ensures
            r == self.running.is_some(),
    {
        self.running.is_some()
    }

    /// Requests a refresh for `why`; reports whether one starts now.
    pub fn request(&mut self, why: UpdateReason) -> (started: bool)
        ensures
            *final(self) == old(self).spec_request(why),
            started == old(self).running.is_none(),
    {
        if self.running.is_some() {
            self.want_update = Some(why);
            false
        } else {
            self.running = Some(why);
            true
        }
    }

    /// Marks the running refresh complete; returns the reason of the
    /// next refresh, which is already marked running, if one was
    /// pending.
    pub fn finish(&mut self) -> (next: Option<UpdateReason>)
        ensures
            *final(self) == old(self).spec_finish(),
            next == old(self).want_update,
    {
        let next = self.want_update;
        self.running = next;
        self.want_update = None;
        next
    }
}

/// At any point at most one refresh is in flight — the latch holds one
/// `running` slot — and however many requests arrive while it runs,
/// the pending slot carries exactly one reason: the most recent.
/// Completing then starts exactly that refresh.
pub proof fn lemma_latch_keeps_most_recent(s: EndpointUpdateState, r1: UpdateReason, r2: UpdateReason)
    requires
        s.running is Some,
    ensures
        s.spec_request(r1).spec_request(r2).running == s.running,
        s.spec_request(r1).spec_request(r2).want_update == Some(r2),
        s.spec_request(r1).spec_request(r2).spec_finish().running == Some(r2),
        s.spec_request(r1).spec_request(r2).spec_finish().want_update is None,
{
}

} // verus!
