pub mod bus_frame;
pub mod endpoint;
pub mod errors;
pub mod socketcan_receiver;
pub mod socketcan_sender;
pub mod tcp_stream;
