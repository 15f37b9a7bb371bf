use vstd::prelude::*;

use crate::frame::CanFrame;

verus! {

/// `std::io::Error`, carried through unread in the errors below.
#[verifier::external_type_specification]
#[verifier::external_body]
pub struct ExIoError(std::io::Error);

/// Everything that can go wrong between the CAN interfaces and the TCP peers.
#[derive(Debug)]
pub enum Error {
    InvalidBusId { bus_id: u32 },
    FailedToCreateSocketCanSocket { interface: String, io_error: std::io::Error },
    FailedToWriteToSocketCan { interface: String, io_error: std::io::Error },
    /// The interface reported a fault; the error frame it sent is kept.
    SocketCanDisconnected { interface: String, socketcan_error: CanFrame },
    FailedToReadFromSocketCan { interface: String, io_error: std::io::Error },
    TcpConnectionClosed,
    FailedToWriteToTcpStream,
    FailedToAcquireLock { name: String },
    FailedToCloneTcpStream,
    FailedToConnectToTcpServer { address: String },
    FailedToCreateTcpListener { address: String },
    CrossbeamChannelClosed,
    ChannelPoison,
}

/// The result of the bridge's operations.
pub type Result<T> = core::result::Result<T, Error>;

} // verus!
