//! The result-forwarding decision of the draining loop that sits between the
//! lanes and the output sink. Envelopes arrive in nondeterministic lane
//! interleaving; the drainer forwards each one until it observes
//! cancellation, and from that moment on it forwards nothing more.

use vstd::prelude::*;

use crate::parcel::ParcelResponse;

verus! {

/// The drain side of the result conduit: forwards arriving envelopes to the
/// output sink until it observes cancellation.
pub struct ResultAggregator {
    /// Set the first time the drainer sees the batch cancelled; absorbing.
    pub stopped: bool,
    /// The `current_count` of every envelope forwarded, in arrival order.
    pub forwarded: Vec<usize>,
}

/// Whether one received envelope is forwarded: only while the drainer has
/// not stopped and the batch is not cancelled.
pub open spec fn forwards(a: ResultAggregator, cancelled: bool) -> bool {
    !a.stopped && !cancelled
}

impl ResultAggregator {
    pub fn new() -> (a: Self)
        ensures
            !a.stopped,
            a.forwarded@ == Seq::<usize>::empty(),
    {
        ResultAggregator { stopped: false, forwarded: Vec::new() }
    }

    /// Receives one envelope from the conduit. Returns whether the caller
    /// forwards it to the output sink; once cancellation was observed the
    /// answer is `false` forever after.
    pub fn receive(&mut self, cancelled: bool, env: &ParcelResponse) -> (forward: bool)
        ensures
            forward == forwards(*old(self), cancelled),
            final(self).stopped == (old(self).stopped || cancelled),
            forward ==> final(self).forwarded@ == old(self).forwarded@.push(env.current_count),
            !forward ==> final(self).forwarded@ == old(self).forwarded@,
    {
        if cancelled {
            self.stopped = true;
            return false;
        }
        if self.stopped {
            return false;
        }
        self.forwarded.push(env.current_count);
        true
    }
}

/// Law: once the drainer has observed cancellation, no later envelope is
/// forwarded, whatever else happens.
pub proof fn lemma_no_forward_after_stop(a: ResultAggregator, cancelled: bool)
    requires
        a.stopped,
    ensures
        !forwards(a, cancelled),
{
}

} // verus!
