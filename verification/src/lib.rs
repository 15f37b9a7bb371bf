//! Verified core of the CANzero network bridge: the frames that travel between
//! servers and clients, their byte encodings, the discovery protocol's decisions
//! and the routing state of a server.

pub mod frame;
pub mod tcpcan;
pub mod text;
pub mod client;
pub mod discovery;
pub mod server;
pub mod network;
pub mod dep;
