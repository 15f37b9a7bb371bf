//! A server's side of the UDP discovery protocol: it answers each hello with
//! a description of itself.
use vstd::prelude::*;

use crate::frame::{NetworkDescriptionFrame, UdpDiscoverFrame};
use crate::text::str_equal;

verus! {

/// Largest datagram that the reflector reads.
pub const MAX_REFLECTOR_FRAME_SIZE: usize = 1024;

/// What the reflector does with a datagram.
#[derive(Debug)]
pub enum ReflectorAction {
    /// Nothing: the datagram was ill formed or not a hello.
    Ignore,
    /// Answer the sender with this description; `foreign_service` tells that
    /// the hello named another service, which is answered all the same.
    Respond { ndf: NetworkDescriptionFrame, foreign_service: bool },
}

/// The reflector's decision for one datagram, given what the server states
/// of itself: every hello is answered with the server's description, whatever
/// service it names; anything else is ignored.
pub fn reflect(
    received: Option<UdpDiscoverFrame>,
    service_name: &str,
    service_port: u16,
    time_since_sor: std::time::Duration,
    server_name: &str,
) -> (r: ReflectorAction)
    ensures
        match received {
            Some(UdpDiscoverFrame::Hello(hello)) => r matches ReflectorAction::Respond { ndf, foreign_service } && {
                &&& ndf.service_name@ == service_name@
                &&& ndf.service_port == service_port
                &&& ndf.time_since_sor == time_since_sor
                &&& ndf.server_name@ == server_name@
                &&& foreign_service == (hello.service_name@ != service_name@)
            },
            _ => r is Ignore,
        },
{
    match received {
        Some(UdpDiscoverFrame::Hello(hello)) => {
            let foreign_service = !str_equal(hello.service_name.as_str(), service_name);
            let ndf = NetworkDescriptionFrame {
                service_name: service_name.to_owned(),
                service_port,
                time_since_sor,
                server_name: server_name.to_owned(),
            };
            ReflectorAction::Respond { ndf, foreign_service }
        },
        _ => ReflectorAction::Ignore,
    }
}

} // verus!
