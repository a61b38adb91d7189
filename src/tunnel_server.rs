//! What only the server decides: the ids of the flows it accepts.
use vstd::prelude::*;

use crate::error::{Error, Result};
use crate::packet::Address;
use crate::streams::{updated_at, ClientStream, TokenStreams};

verus! {

/// The server's source of flow ids: a counter, moved on at each accepted
/// connection.
pub struct FlowIds {
    next: u64,
}

/// The id after `id`, wrapping at the end of the `u64` range.
pub open spec fn id_after(id: u64) -> u64 {
    if id == u64::MAX {
        0
    } else {
        (id + 1) as u64
    }
}

impl FlowIds {
    /// The id that the next accepted connection gets.
    pub closed spec fn next_id(&self) -> u64 {
        self.next
    }

    pub fn new(first: u64) -> (r: FlowIds)
        ensures
            r.next_id() == first,
    {
        FlowIds { next: first }
    }
}

/// Registers a connection just accepted on the public listener under a new
/// flow id, and returns that id. An id that is still live is never given
/// twice: it is refused with `DuplicateFlowId`, and nothing changes.
pub fn accept_flow(streams: &mut TokenStreams, ids: &mut FlowIds) -> (r: Result<Address>)
    ensures
        final(streams).input() == old(streams).input(),
        final(streams).output() == old(streams).output(),
        ({
            let id = old(ids).next_id();
            if old(streams).flows().contains_key(id) {
                &&& r == Err::<Address, Error>(Error::DuplicateFlowId { addr: id })
                &&& final(streams).flows() == old(streams).flows()
                &&& final(ids).next_id() == id
            } else {
                &&& r == Ok::<Address, Error>(id)
                &&& updated_at(old(streams).flows(), final(streams).flows(), id)
                &&& final(streams).flows()[id].pending() == Seq::<u8>::empty()
                &&& final(streams).flows()[id].connected()
                &&& final(ids).next_id() == id_after(id)
            }
        }),
{
    let id = ids.next;
    if streams.contains_token(id) {
        return Err(Error::DuplicateFlowId { addr: id });
    }
    let client = ClientStream::new_connected();
    streams.add(id, client);
    ids.next = if id == u64::MAX {
        0
    } else {
        id + 1
    };
    proof {
        assert(final(streams).flows() =~= old(streams).flows().insert(id, final(streams).flows()[id]));
    }
    Ok(id)
}

} // verus!
