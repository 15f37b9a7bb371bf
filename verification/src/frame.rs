use vstd::prelude::*;

verus! {

/// Number of nanoseconds in one second; the fractional part of a [`Timestamp`]
/// stays below it.
pub const NANOS_PER_SEC: u32 = 1_000_000_000;

/// `Duration` is `Copy`: its `clone`, documented as a copy, gives back the
/// same span. Nothing here is proved; the contract is taken from std's documentation.
pub assume_specification[ <std::time::Duration as Clone>::clone ](d: &std::time::Duration) -> (r: std::time::Duration)
    ensures
        r == *d,
;

/// A CAN frame as plain values: the identifier (flag bits included), the data
/// length code and the payload packed into a little-endian `u64`.
#[derive(Clone, Copy, Debug, PartialEq, Eq, Structural)]
pub struct CanFrame {
    pub id: u32,
    pub dlc: u8,
    pub data: u64,
}

/// Time elapsed since the start of a run, split into whole seconds and the
/// nanoseconds of the last, incomplete second.
#[derive(Clone, Copy, Debug, PartialEq, Eq, Structural)]
pub struct Timestamp {
    pub secs: u64,
    pub nanos: u32,
}

impl Timestamp {
    /// The fractional part is a proper fraction of a second.
    pub open spec fn wf(self) -> bool {
        self.nanos < NANOS_PER_SEC
    }

    /// Builds a timestamp, refusing a fractional part of a second or more.
    pub fn new(secs: u64, nanos: u32) -> (r: Option<Timestamp>)
        ensures
            nanos < NANOS_PER_SEC ==> r == Some(Timestamp { secs, nanos }),
            nanos >= NANOS_PER_SEC ==> r is None,
    {
        if nanos < NANOS_PER_SEC {
            Some(Timestamp { secs, nanos })
        } else {
            None
        }
    }
}

/// A value together with the time at which it was seen.
#[derive(Clone, Debug)]
pub struct Timestamped<T> {
    pub timestamp: Timestamp,
    pub value: T,
}

/// A CAN frame together with the index of the bus it travels on.
#[derive(Clone, Copy, Debug, PartialEq, Eq, Structural)]
pub struct NetworkFrame {
    pub bus_id: u32,
    pub can_frame: CanFrame,
}

/// A network frame with the time at which it was received.
pub type TNetworkFrame = Timestamped<NetworkFrame>;

/// The datagrams of the UDP discovery protocol.
#[derive(Clone, Debug)]
pub enum UdpDiscoverFrame {
    Hello(HelloFrame),
    NDF(NetworkDescriptionFrame),
}

/// Sent by a client that looks for a server of the named service.
#[derive(Clone, Debug)]
pub struct HelloFrame {
    pub service_name: String,
}

/// Sent by a server in answer to a hello: where its TCP welcome socket listens,
/// how long it has been running and what it is called.
#[derive(Clone, Debug)]
pub struct NetworkDescriptionFrame {
    pub service_name: String,
    pub service_port: u16,
    pub time_since_sor: std::time::Duration,
    pub server_name: String,
}

} // verus!
