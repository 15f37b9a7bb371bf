use std::time::Duration;

use canzero_server::client::udp_discover::{hello_message, parse_response};
use canzero_server::discovery::udp_discover::{hello_frame, on_discover_event, DiscoverAction, DiscoverEvent};
use canzero_server::frame::{HelloFrame, NetworkDescriptionFrame, UdpDiscoverFrame};
use canzero_server::server::server_name;
use canzero_server::server::udp_reflector::{reflect, ReflectorAction};

fn ndf(service: &str) -> NetworkDescriptionFrame {
    NetworkDescriptionFrame {
        service_name: service.to_owned(),
        service_port: 4711,
        time_since_sor: Duration::from_millis(1500),
        server_name: "box@me".to_owned(),
    }
}

#[test]
fn hello_frame_names_service() {
    match hello_frame("CANzero") {
        UdpDiscoverFrame::Hello(h) => assert_eq!(h.service_name, "CANzero"),
        _ => panic!("not a hello"),
    }
}

#[test]
fn matching_description_is_accepted() {
    let event = DiscoverEvent::Received(Some(UdpDiscoverFrame::NDF(ndf("CANzero"))));
    match on_discover_event("CANzero", event) {
        DiscoverAction::Accept(d) => {
            assert_eq!(d.service_name, "CANzero");
            assert_eq!(d.service_port, 4711);
            assert_eq!(d.time_since_sor, Duration::from_millis(1500));
            assert_eq!(d.server_name, "box@me");
        }
        other => panic!("unexpected {other:?}"),
    }
}

#[test]
fn other_service_is_ignored() {
    let event = DiscoverEvent::Received(Some(UdpDiscoverFrame::NDF(ndf("Other"))));
    assert!(matches!(on_discover_event("CANzero", event), DiscoverAction::Listen));
}

#[test]
fn hello_ill_formed_and_failures_keep_listening() {
    let hello = UdpDiscoverFrame::Hello(HelloFrame { service_name: "CANzero".to_owned() });
    assert!(matches!(on_discover_event("CANzero", DiscoverEvent::Received(Some(hello))), DiscoverAction::Listen));
    assert!(matches!(on_discover_event("CANzero", DiscoverEvent::Received(None)), DiscoverAction::Listen));
    assert!(matches!(on_discover_event("CANzero", DiscoverEvent::ReceiveFailed), DiscoverAction::Listen));
}

#[test]
fn timeout_gives_up() {
    assert!(matches!(on_discover_event("CANzero", DiscoverEvent::TimedOut), DiscoverAction::GiveUp));
}

#[test]
fn reflector_answers_hello_with_description() {
    let hello = hello_frame("CANzero");
    match reflect(Some(hello), "CANzero", 4711, Duration::from_secs(3), "box@me") {
        ReflectorAction::Respond { ndf, foreign_service } => {
            assert!(!foreign_service);
            assert_eq!(ndf.service_name, "CANzero");
            assert_eq!(ndf.service_port, 4711);
            assert_eq!(ndf.time_since_sor, Duration::from_secs(3));
            assert_eq!(ndf.server_name, "box@me");
        }
        ReflectorAction::Ignore => panic!("hello ignored"),
    }
}

#[test]
fn reflector_answers_foreign_hello_too() {
    let hello = hello_frame("Other");
    match reflect(Some(hello), "CANzero", 1, Duration::ZERO, "s") {
        ReflectorAction::Respond { ndf, foreign_service } => {
            assert!(foreign_service);
            assert_eq!(ndf.service_name, "CANzero");
        }
        ReflectorAction::Ignore => panic!("hello ignored"),
    }
}

#[test]
fn reflector_ignores_other_datagrams() {
    assert!(matches!(reflect(None, "CANzero", 1, Duration::ZERO, "s"), ReflectorAction::Ignore));
    let d = UdpDiscoverFrame::NDF(ndf("CANzero"));
    assert!(matches!(reflect(Some(d), "CANzero", 1, Duration::ZERO, "s"), ReflectorAction::Ignore));
}

#[test]
fn client_finds_reflector_of_its_service() {
    let reply = match reflect(Some(hello_frame("CANzero")), "CANzero", 9000, Duration::from_secs(1), "srv") {
        ReflectorAction::Respond { ndf, .. } => ndf,
        ReflectorAction::Ignore => panic!("hello ignored"),
    };
    match on_discover_event("CANzero", DiscoverEvent::Received(Some(UdpDiscoverFrame::NDF(reply)))) {
        DiscoverAction::Accept(d) => assert_eq!(d.service_port, 9000),
        other => panic!("unexpected {other:?}"),
    }
}

#[test]
fn server_name_joins_device_and_user() {
    assert_eq!(server_name("box", "me"), "box@me");
    assert_eq!(server_name("", ""), "@");
}

#[test]
fn hello_message_bytes() {
    assert_eq!(hello_message("CANzero"), b"\x00CANzero".to_vec());
    assert_eq!(hello_message(""), vec![0u8]);
    assert_eq!(hello_message("é"), vec![0u8, 0xC3, 0xA9]);
}

#[test]
fn response_with_same_name_gives_port() {
    let mut packet = vec![1u8, 0x2A, 0x23];
    packet.extend_from_slice(b"CANzero");
    assert_eq!(parse_response(&packet, "CANzero"), Some(0x232A));
}

#[test]
fn response_with_other_name_or_type_is_refused() {
    let mut packet = vec![1u8, 0x2A, 0x23];
    packet.extend_from_slice(b"CANzerO");
    assert_eq!(parse_response(&packet, "CANzero"), None);
    let mut hello = vec![0u8, 0x2A, 0x23];
    hello.extend_from_slice(b"CANzero");
    assert_eq!(parse_response(&hello, "CANzero"), None);
    assert_eq!(parse_response(&[1u8, 0xFF, 0xFF], ""), Some(0xFFFF));
}
