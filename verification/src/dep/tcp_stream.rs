//! The fixed-size byte image of a bus frame that the plain TCP bridge
//! carries, one frame after another.
use vstd::prelude::*;
use vstd::bytes::*;
use vstd::slice::slice_subrange;

use crate::dep::bus_frame::BusFrame;
use crate::tcpcan::{can_frame_from_bytes, push_can_frame_bytes, spec_can_frame_bytes, spec_can_frame_from_bytes, CAN_FRAME_SIZE};

verus! {

/// Number of bytes of one encoded [`BusFrame`].
pub const BUS_FRAME_SIZE: usize = 17;

/// Bytes of a bus frame: the CAN frame (13), then the bus index (4, little endian).
pub open spec fn spec_encode_bus_frame(f: BusFrame) -> Seq<u8> {
    spec_can_frame_bytes(f.can_frame) + spec_u32_to_le_bytes(f.bus_id)
}

/// The frame that a byte string encodes: none unless it has exactly
/// [`BUS_FRAME_SIZE`] bytes.
pub open spec fn spec_decode_bus_frame(b: Seq<u8>) -> Option<BusFrame> {
    if b.len() != BUS_FRAME_SIZE {
        None
    } else {
        Some(
            BusFrame {
                can_frame: spec_can_frame_from_bytes(b.subrange(0, 13)),
                bus_id: spec_u32_from_le_bytes(b.subrange(13, 17)),
            },
        )
    }
}

/// The bytes that the TCP bridge sends for one frame.
pub fn encode_bus_frame(frame: &BusFrame) -> (r: Vec<u8>)
    ensures
        r@ == spec_encode_bus_frame(*frame),
        r@.len() == BUS_FRAME_SIZE,
        spec_decode_bus_frame(r@) == Some(*frame),
{
    proof {
        lemma_decode_encode_bus_frame(*frame);
    }
    proof {
        lemma_auto_spec_u64_to_from_le_bytes();
        lemma_auto_spec_u32_to_from_le_bytes();
    }
    let mut out: Vec<u8> = Vec::new();
    push_can_frame_bytes(&mut out, &frame.can_frame);
    let mut bus = u32_to_le_bytes(frame.bus_id);
    out.append(&mut bus);
    assert(out@ =~= spec_encode_bus_frame(*frame));
    out
}

/// The frame that the bytes received for one frame encode; none unless
/// exactly one frame's worth of bytes is given.
pub fn decode_bus_frame(b: &[u8]) -> (r: Option<BusFrame>)
    ensures
        r == spec_decode_bus_frame(b@),
        b@.len() == BUS_FRAME_SIZE ==> (r matches Some(f) && spec_encode_bus_frame(f) == b@),
{
    proof {
        if b@.len() == BUS_FRAME_SIZE {
            lemma_encode_decode_bus_frame(b@);
        }
    }
    if b.len() != BUS_FRAME_SIZE {
        return None;
    }
    let can_frame = can_frame_from_bytes(slice_subrange(b, 0, CAN_FRAME_SIZE));
    let bus_id = u32_from_le_bytes(slice_subrange(b, 13, 17));
    Some(BusFrame { can_frame, bus_id })
}

/// Reading back a written frame gives that frame.
pub proof fn lemma_decode_encode_bus_frame(f: BusFrame)
    ensures
        spec_encode_bus_frame(f).len() == BUS_FRAME_SIZE,
        spec_decode_bus_frame(spec_encode_bus_frame(f)) == Some(f),
{
    lemma_auto_spec_u64_to_from_le_bytes();
    lemma_auto_spec_u32_to_from_le_bytes();
    let b = spec_encode_bus_frame(f);
    let c = spec_can_frame_bytes(f.can_frame);
    assert(b.subrange(0, 13) =~= c);
    assert(b.subrange(13, 17) =~= spec_u32_to_le_bytes(f.bus_id));
    assert(c.subrange(0, 4) =~= spec_u32_to_le_bytes(f.can_frame.id));
    assert(c.subrange(5, 13) =~= spec_u64_to_le_bytes(f.can_frame.data));
}

/// Every string of [`BUS_FRAME_SIZE`] bytes is the image of exactly the frame it decodes to.
pub proof fn lemma_encode_decode_bus_frame(b: Seq<u8>)
    requires
        b.len() == BUS_FRAME_SIZE,
    ensures
        spec_decode_bus_frame(b) is Some,
        spec_encode_bus_frame(spec_decode_bus_frame(b).unwrap()) == b,
{
    lemma_auto_spec_u64_to_from_le_bytes();
    lemma_auto_spec_u32_to_from_le_bytes();
    let f = spec_decode_bus_frame(b).unwrap();
    let c = b.subrange(0, 13);
    assert(spec_u32_to_le_bytes(spec_u32_from_le_bytes(c.subrange(0, 4))) == c.subrange(0, 4));
    assert(spec_u64_to_le_bytes(spec_u64_from_le_bytes(c.subrange(5, 13))) == c.subrange(5, 13));
    assert(spec_u32_to_le_bytes(spec_u32_from_le_bytes(b.subrange(13, 17))) == b.subrange(13, 17));
    assert(spec_can_frame_bytes(f.can_frame) =~= c);
    assert(spec_encode_bus_frame(f) =~= b);
}

} // verus!
