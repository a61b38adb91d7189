//! When the event loop reads: back-pressure between the flows' sockets and
//! the control link.
use vstd::prelude::*;

use crate::packet::Address;
use crate::streams::{TokenStreams, QUEUE_HIGH_WATER};

verus! {

/// The reading that waits: the control link's input, held up by one flow's
/// backlog, and the flows whose sockets wait for room in the link's queue.
pub struct Pacing {
    blocked_on: Option<Address>,
    stalled: Vec<Address>,
}

/// The reading to take up again after the link's queue was written.
pub struct Resume {
    /// Read and dispatch the link's input again.
    pub link: bool,
    /// Read these flows' sockets again, in this order.
    pub flows: Vec<Address>,
}

impl Pacing {
    /// The flow whose backlog holds up the link's input, if one does.
    pub closed spec fn blocked(&self) -> Option<Address> {
        self.blocked_on
    }

    /// The flows whose reading waits for room in the link's queue, in the
    /// order they stopped.
    pub closed spec fn waiting(&self) -> Seq<Address> {
        self.stalled@
    }

    pub fn new() -> (r: Pacing)
        ensures
            r.blocked() == None::<Address>,
            r.waiting() == Seq::<Address>::empty(),
    {
        Pacing { blocked_on: None, stalled: Vec::new() }
    }

    /// Whether the link's input may be read: no flow's backlog holds it up.
    pub fn may_read_link(&self) -> (r: bool)
        ensures
            r == (self.blocked() is None),
    {
        self.blocked_on.is_none()
    }

    /// Takes note of where draining the link's input stopped: at a flow's
    /// backlog, or with no whole frame left.
    pub fn drained(&mut self, blocked_on: Option<Address>)
        ensures
            final(self).blocked() == blocked_on,
            final(self).waiting() == old(self).waiting(),
    {
        self.blocked_on = blocked_on;
    }

    /// Takes note of a flow whose reading stopped because the link's queue
    /// was full.
    pub fn stall(&mut self, id: Address)
        ensures
            final(self).blocked() == old(self).blocked(),
            final(self).waiting() == old(self).waiting().push(id),
    {
        self.stalled.push(id);
    }

    /// Decides what reading resumes once the link's queue was written: the
    /// link's input when the flow that held it up no longer holds a queue's
    /// worth of bytes (or is gone), and every waiting flow when the link's
    /// queue is below its high-water mark.
    pub fn resume(&mut self, streams: &TokenStreams) -> (r: Resume)
        ensures
            ({
                let unblocked = match old(self).blocked() {
                    Some(id) => !(streams.flows().contains_key(id)
                        && streams.flows()[id].pending().len() >= QUEUE_HIGH_WATER),
                    None => false,
                };
                &&& r.link == unblocked
                &&& final(self).blocked() == if unblocked {
                    None::<Address>
                } else {
                    old(self).blocked()
                }
            }),
            streams.output().len() < QUEUE_HIGH_WATER ==> r.flows@ == old(self).waiting()
                && final(self).waiting() == Seq::<Address>::empty(),
            streams.output().len() >= QUEUE_HIGH_WATER ==> r.flows@ == Seq::<Address>::empty()
                && final(self).waiting() == old(self).waiting(),
    {
        let link = match self.blocked_on {
            Some(id) => !streams.backlogged(id),
            None => false,
        };
        if link {
            self.blocked_on = None;
        }
        let flows = if streams.may_read_flows() {
            let mut taken: Vec<Address> = Vec::new();
            std::mem::swap(&mut taken, &mut self.stalled);
            taken
        } else {
            Vec::new()
        };
        Resume { link, flows }
    }
}

} // verus!
