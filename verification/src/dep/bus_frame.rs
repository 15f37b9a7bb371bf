use vstd::prelude::*;

use crate::frame::CanFrame;

verus! {

/// A CAN frame together with the index of the bus it travels on.
#[derive(Clone, Copy, Debug, PartialEq, Eq, Structural)]
pub struct BusFrame {
    pub can_frame: CanFrame,
    pub bus_id: u32,
}

} // verus!
