use canzero_server::dep::bus_frame::BusFrame;
use canzero_server::dep::endpoint::Endpoint;
use canzero_server::dep::errors::Error;
use canzero_server::dep::socketcan_receiver::{
    closed_positions, dispatch_frame, open_endpoint, received_result, remove_closed_endpoints, Msg, SocketCanSingleReceiver,
};
use canzero_server::dep::socketcan_sender::SocketCanMuxSender;
use canzero_server::dep::tcp_stream::{decode_bus_frame, encode_bus_frame, BUS_FRAME_SIZE};
use canzero_server::frame::CanFrame;

fn bus_frame() -> BusFrame {
    BusFrame { can_frame: CanFrame { id: 0x123, dlc: 2, data: 0xBEEF }, bus_id: 1 }
}

#[test]
fn bus_frame_exact_bytes() {
    let bytes = encode_bus_frame(&bus_frame());
    assert_eq!(bytes.len(), BUS_FRAME_SIZE);
    assert_eq!(
        bytes,
        vec![0x23, 0x01, 0, 0, 2, 0xEF, 0xBE, 0, 0, 0, 0, 0, 0, 1, 0, 0, 0]
    );
}

#[test]
fn bus_frame_roundtrip() {
    let f = bus_frame();
    assert_eq!(decode_bus_frame(&encode_bus_frame(&f)), Some(f));
    let bytes: Vec<u8> = (100u8..117).collect();
    let g = decode_bus_frame(&bytes).unwrap();
    assert_eq!(encode_bus_frame(&g), bytes);
    assert_eq!(decode_bus_frame(&bytes[1..]), None);
}

#[test]
fn received_messages_map_to_results() {
    assert_eq!(received_result(Some(Msg::Frame(bus_frame()))).unwrap(), bus_frame());
    assert!(matches!(received_result(Some(Msg::Poison)), Err(Error::ChannelPoison)));
    assert!(matches!(received_result(None), Err(Error::CrossbeamChannelClosed)));
}

#[test]
fn mux_sender_selects_interface_by_bus() {
    let mux = SocketCanMuxSender::new(vec!["can0", "can1"]);
    assert_eq!(*mux.interface_for(0).unwrap(), "can0");
    assert_eq!(*mux.interface_for(1).unwrap(), "can1");
    assert!(matches!(mux.interface_for(2), Err(Error::InvalidBusId { bus_id: 2 })));
}

#[test]
fn remove_closed_keeps_others_in_order() {
    let mut v = vec!['a', 'b', 'c', 'd', 'e'];
    remove_closed_endpoints(&mut v, &vec![0, 2, 4]);
    assert_eq!(v, vec!['b', 'd']);
    let mut w = vec![1, 2, 3];
    remove_closed_endpoints(&mut w, &vec![]);
    assert_eq!(w, vec![1, 2, 3]);
    remove_closed_endpoints(&mut w, &vec![0, 1, 2]);
    assert!(w.is_empty());
}

#[test]
fn endpoints_receive_and_close() {
    let mut endpoints: Vec<Endpoint> = Vec::new();
    let (rx_a, _shutdown_a) = open_endpoint(&mut endpoints);
    let (rx_b, shutdown_b) = open_endpoint(&mut endpoints);
    assert_eq!(endpoints.len(), 2);
    let closed = dispatch_frame(&mut endpoints, bus_frame());
    assert!(closed.is_empty());
    assert_eq!(rx_a.recv().unwrap(), bus_frame());
    assert_eq!(rx_b.recv().unwrap(), bus_frame());
    shutdown_b.shutdown();
    assert!(matches!(rx_b.recv(), Err(Error::ChannelPoison)));
    drop(rx_a);
    let closed = dispatch_frame(&mut endpoints, bus_frame());
    assert_eq!(closed, vec![0]);
    remove_closed_endpoints(&mut endpoints, &closed);
    assert_eq!(endpoints.len(), 1);
}

#[test]
fn single_receiver_gathers_and_shuts_down() {
    let r = SocketCanSingleReceiver::new();
    let tx = r.frame_sender();
    tx.send(Msg::Frame(bus_frame())).unwrap();
    assert_eq!(r.receive().unwrap(), bus_frame());
    r.shutdown_handle().shutdown();
    assert!(matches!(r.receive(), Err(Error::ChannelPoison)));
}

#[test]
fn closed_positions_lists_undelivered_sends() {
    assert_eq!(closed_positions(&vec![true, false, true, false, false]), vec![1, 3, 4]);
    assert_eq!(closed_positions(&vec![true, true]), Vec::<usize>::new());
    assert_eq!(closed_positions(&vec![]), Vec::<usize>::new());
}

#[test]
fn dispatch_then_remove_keeps_live_endpoints_in_order() {
    let mut endpoints: Vec<Endpoint> = Vec::new();
    let (rx0, _h0) = open_endpoint(&mut endpoints);
    let (rx1, _h1) = open_endpoint(&mut endpoints);
    let (rx2, _h2) = open_endpoint(&mut endpoints);
    let (rx3, _h3) = open_endpoint(&mut endpoints);
    drop(rx1);
    drop(rx3);
    let closed = dispatch_frame(&mut endpoints, bus_frame());
    assert_eq!(closed, vec![1, 3]);
    remove_closed_endpoints(&mut endpoints, &closed);
    assert_eq!(endpoints.len(), 2);
    assert_eq!(rx0.recv().unwrap(), bus_frame());
    assert_eq!(rx2.recv().unwrap(), bus_frame());
    let second = BusFrame { can_frame: CanFrame { id: 7, dlc: 0, data: 0 }, bus_id: 0 };
    assert!(dispatch_frame(&mut endpoints, second).is_empty());
    assert_eq!(rx0.recv().unwrap(), second);
    assert_eq!(rx2.recv().unwrap(), second);
}

#[test]
fn single_receiver_handles_share_its_channel() {
    let r = SocketCanSingleReceiver::new();
    r.frame_sender().send(Msg::Frame(bus_frame())).unwrap();
    r.frame_sender().send(Msg::Frame(bus_frame())).unwrap();
    assert_eq!(r.receive().unwrap(), bus_frame());
    assert_eq!(r.receive().unwrap(), bus_frame());
    let h = r.shutdown_handle();
    h.shutdown();
    h.shutdown();
    assert!(matches!(r.receive(), Err(Error::ChannelPoison)));
    assert!(matches!(r.receive(), Err(Error::ChannelPoison)));
}
