//! Sending a bus frame out on the CAN interface of its bus.
use vstd::prelude::*;

use crate::dep::errors::Error;

verus! {

/// The CAN interfaces of a bridge, one per bus, indexed by bus identifier.
#[derive(Clone)]
pub struct SocketCanMuxSender<S> {
    socketcans: Vec<S>,
}

impl<S> SocketCanMuxSender<S> {
    /// The interfaces, the one of bus `i` at position `i`.
    pub closed spec fn interfaces(&self) -> Seq<S> {
        self.socketcans@
    }

    /// A sender over the given interfaces.
    pub fn new(socketcans: Vec<S>) -> (r: Self)
        ensures
            r.interfaces() == socketcans@,
    {
        Self { socketcans }
    }

    /// The interface on which a frame of bus `bus_id` goes out; an unknown
    /// bus is an error that names it.
    pub fn interface_for(&self, bus_id: u32) -> (r: Result<&S, Error>)
        ensures
            bus_id < self.interfaces().len() ==> (r matches Ok(s) && *s == self.interfaces()[bus_id as int]),
            bus_id >= self.interfaces().len() ==> (r matches Err(Error::InvalidBusId { bus_id: b }) && b == bus_id),
    {
        let i = bus_id as usize;
        if i < self.socketcans.len() {
            Ok(&self.socketcans[i])
        } else {
            Err(Error::InvalidBusId { bus_id })
        }
    }
}

} // verus!
