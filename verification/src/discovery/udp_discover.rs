//! A client's side of the UDP discovery protocol: it broadcasts a hello for a
//! service and listens until a server of that service describes itself or
//! the wait times out.
use vstd::prelude::*;

use crate::frame::{HelloFrame, NetworkDescriptionFrame, UdpDiscoverFrame};
use crate::text::str_equal;

verus! {

/// What happened while the client waited for an answer.
#[derive(Debug)]
pub enum DiscoverEvent {
    /// A datagram arrived; it held the frame, or nothing where it was ill formed.
    Received(Option<UdpDiscoverFrame>),
    /// Receiving failed.
    ReceiveFailed,
    /// No answer came in time.
    TimedOut,
}

/// What the client does next.
#[derive(Debug)]
pub enum DiscoverAction {
    /// Keep listening.
    Listen,
    /// A server of the service answered with this description: record it and stop.
    Accept(NetworkDescriptionFrame),
    /// Stop without a server.
    GiveUp,
}

/// The client's decision for each event: a description of the requested
/// service is accepted, a timeout ends the search, anything else is ignored.
pub open spec fn spec_discover_action(service_name: Seq<char>, event: DiscoverEvent) -> DiscoverAction {
    match event {
        DiscoverEvent::Received(Some(UdpDiscoverFrame::NDF(ndf))) => {
            if ndf.service_name@ == service_name {
                DiscoverAction::Accept(ndf)
            } else {
                DiscoverAction::Listen
            }
        },
        DiscoverEvent::Received(_) => DiscoverAction::Listen,
        DiscoverEvent::ReceiveFailed => DiscoverAction::Listen,
        DiscoverEvent::TimedOut => DiscoverAction::GiveUp,
    }
}

/// The hello that a client broadcasts for a service.
pub fn hello_frame(service_name: &str) -> (r: UdpDiscoverFrame)
    ensures
        r matches UdpDiscoverFrame::Hello(h) && h.service_name@ == service_name@,
{
    UdpDiscoverFrame::Hello(HelloFrame { service_name: service_name.to_owned() })
}

/// The client's decision for one event.
pub fn on_discover_event(service_name: &str, event: DiscoverEvent) -> (r: DiscoverAction)
    ensures
        r == spec_discover_action(service_name@, event),
{
    match event {
        DiscoverEvent::Received(Some(UdpDiscoverFrame::NDF(ndf))) => {
            if str_equal(ndf.service_name.as_str(), service_name) {
                DiscoverAction::Accept(ndf)
            } else {
                DiscoverAction::Listen
            }
        },
        DiscoverEvent::Received(_) => DiscoverAction::Listen,
        DiscoverEvent::ReceiveFailed => DiscoverAction::Listen,
        DiscoverEvent::TimedOut => DiscoverAction::GiveUp,
    }
}

/// A client only ever accepts the description it received, and only when
/// that description names the service it looks for.
pub proof fn lemma_accepts_only_requested_service(service_name: Seq<char>, event: DiscoverEvent)
    ensures
        spec_discover_action(service_name, event) matches DiscoverAction::Accept(ndf) ==> {
            &&& ndf.service_name@ == service_name
            &&& event == DiscoverEvent::Received(Some(UdpDiscoverFrame::NDF(ndf)))
        },
{
}

/// A hello, an ill-formed datagram or a failed receive never ends the search;
/// a timeout always does.
pub proof fn lemma_only_answers_and_timeouts_end(service_name: Seq<char>, event: DiscoverEvent)
    ensures
        spec_discover_action(service_name, event) is GiveUp <==> event is TimedOut,
        (event is ReceiveFailed || event == DiscoverEvent::Received(None)
            || event matches DiscoverEvent::Received(Some(UdpDiscoverFrame::Hello(_))))
            ==> spec_discover_action(service_name, event) is Listen,
{
}

/// A client finds a server of its own service: the description with which
/// a reflector answers carries the reflector's service name, and when that
/// is the service the client asked for, the client accepts it.
pub proof fn lemma_reflected_description_accepted(service_name: Seq<char>, ndf: NetworkDescriptionFrame)
    requires
        ndf.service_name@ == service_name,
    ensures
        spec_discover_action(service_name, DiscoverEvent::Received(Some(UdpDiscoverFrame::NDF(ndf))))
            == DiscoverAction::Accept(ndf),
{
}

} // verus!
