//! The fixed-size byte image of a timestamped network frame that a TCP
//! connection between server and client carries, one frame after another.
use vstd::prelude::*;
use vstd::bytes::*;
use vstd::slice::slice_subrange;

use crate::frame::{CanFrame, NetworkFrame, TNetworkFrame, Timestamp, Timestamped};

verus! {

/// Number of bytes of one encoded [`TNetworkFrame`].
pub const TNETWORK_FRAME_SIZE: usize = 29;

/// Number of bytes of one encoded [`CanFrame`].
pub const CAN_FRAME_SIZE: usize = 13;

/// Bytes of a CAN frame: identifier (4, little endian), data length code (1),
/// payload (8, little endian).
pub open spec fn spec_can_frame_bytes(f: CanFrame) -> Seq<u8> {
    spec_u32_to_le_bytes(f.id) + seq![f.dlc] + spec_u64_to_le_bytes(f.data)
}

/// The CAN frame that 13 bytes describe.
pub open spec fn spec_can_frame_from_bytes(b: Seq<u8>) -> CanFrame {
    CanFrame {
        id: spec_u32_from_le_bytes(b.subrange(0, 4)),
        dlc: b[4],
        data: spec_u64_from_le_bytes(b.subrange(5, 13)),
    }
}

/// Bytes of a timestamped network frame: seconds (8) and nanoseconds (4) of the
/// timestamp, bus index (4), then the CAN frame (13); integers little endian.
pub open spec fn spec_encode_tnetwork_frame(f: TNetworkFrame) -> Seq<u8> {
    spec_u64_to_le_bytes(f.timestamp.secs) + spec_u32_to_le_bytes(f.timestamp.nanos)
        + spec_u32_to_le_bytes(f.value.bus_id) + spec_can_frame_bytes(f.value.can_frame)
}

/// The frame that a byte string encodes: none unless it has exactly
/// [`TNETWORK_FRAME_SIZE`] bytes.
pub open spec fn spec_decode_tnetwork_frame(b: Seq<u8>) -> Option<TNetworkFrame> {
    if b.len() != TNETWORK_FRAME_SIZE {
        None
    } else {
        Some(
            Timestamped {
                timestamp: Timestamp {
                    secs: spec_u64_from_le_bytes(b.subrange(0, 8)),
                    nanos: spec_u32_from_le_bytes(b.subrange(8, 12)),
                },
                value: NetworkFrame {
                    bus_id: spec_u32_from_le_bytes(b.subrange(12, 16)),
                    can_frame: spec_can_frame_from_bytes(b.subrange(16, 29)),
                },
            },
        )
    }
}

/// Appends the bytes of a CAN frame.
pub fn push_can_frame_bytes(out: &mut Vec<u8>, f: &CanFrame)
    ensures
        final(out)@ == old(out)@ + spec_can_frame_bytes(*f),
{
    let mut id = u32_to_le_bytes(f.id);
    let mut data = u64_to_le_bytes(f.data);
    out.append(&mut id);
    out.push(f.dlc);
    out.append(&mut data);
}

/// Reads a CAN frame from exactly [`CAN_FRAME_SIZE`] bytes.
pub fn can_frame_from_bytes(b: &[u8]) -> (r: CanFrame)
    requires
        b@.len() == CAN_FRAME_SIZE,
    ensures
        r == spec_can_frame_from_bytes(b@),
{
    CanFrame {
        id: u32_from_le_bytes(slice_subrange(b, 0, 4)),
        dlc: b[4],
        data: u64_from_le_bytes(slice_subrange(b, 5, 13)),
    }
}

/// The bytes that a TCP connection carries for one frame.
pub fn encode_tnetwork_frame(frame: &TNetworkFrame) -> (r: Vec<u8>)
    ensures
        r@ == spec_encode_tnetwork_frame(*frame),
        r@.len() == TNETWORK_FRAME_SIZE,
        spec_decode_tnetwork_frame(r@) == Some(*frame),
{
    proof {
        lemma_auto_spec_u64_to_from_le_bytes();
        lemma_auto_spec_u32_to_from_le_bytes();
    }
    let mut out = u64_to_le_bytes(frame.timestamp.secs);
    let mut nanos = u32_to_le_bytes(frame.timestamp.nanos);
    let mut bus = u32_to_le_bytes(frame.value.bus_id);
    out.append(&mut nanos);
    out.append(&mut bus);
    push_can_frame_bytes(&mut out, &frame.value.can_frame);
    proof {
        lemma_decode_encode_tnetwork_frame(*frame);
    }
    out
}

/// The frame that the bytes received for one frame encode, or none where they
/// are not the image of a frame.
pub fn decode_tnetwork_frame(b: &[u8]) -> (r: Option<TNetworkFrame>)
    ensures
        r == spec_decode_tnetwork_frame(b@),
        b@.len() == TNETWORK_FRAME_SIZE ==> (r matches Some(f) && spec_encode_tnetwork_frame(f) == b@),
{
    proof {
        if b@.len() == TNETWORK_FRAME_SIZE {
            lemma_encode_decode_tnetwork_frame(b@);
        }
    }
    if b.len() != TNETWORK_FRAME_SIZE {
        return None;
    }
    let secs = u64_from_le_bytes(slice_subrange(b, 0, 8));
    let nanos = u32_from_le_bytes(slice_subrange(b, 8, 12));
    let bus_id = u32_from_le_bytes(slice_subrange(b, 12, 16));
    let can_frame = can_frame_from_bytes(slice_subrange(b, 16, 29));
    Some(
        Timestamped {
            timestamp: Timestamp { secs, nanos },
            value: NetworkFrame { bus_id, can_frame },
        },
    )
}

/// Reading back a written frame: decoding the bytes of a frame gives that frame.
pub proof fn lemma_decode_encode_tnetwork_frame(f: TNetworkFrame)
    ensures
        spec_encode_tnetwork_frame(f).len() == TNETWORK_FRAME_SIZE,
        spec_decode_tnetwork_frame(spec_encode_tnetwork_frame(f)) == Some(f),
{
    lemma_auto_spec_u64_to_from_le_bytes();
    lemma_auto_spec_u32_to_from_le_bytes();
    let b = spec_encode_tnetwork_frame(f);
    let c = spec_can_frame_bytes(f.value.can_frame);
    assert(b.subrange(0, 8) =~= spec_u64_to_le_bytes(f.timestamp.secs));
    assert(b.subrange(8, 12) =~= spec_u32_to_le_bytes(f.timestamp.nanos));
    assert(b.subrange(12, 16) =~= spec_u32_to_le_bytes(f.value.bus_id));
    assert(b.subrange(16, 29) =~= c);
    assert(c.subrange(0, 4) =~= spec_u32_to_le_bytes(f.value.can_frame.id));
    assert(c.subrange(5, 13) =~= spec_u64_to_le_bytes(f.value.can_frame.data));
}

/// Every string of [`TNETWORK_FRAME_SIZE`] bytes is exactly the image of the
/// frame it decodes to.
pub proof fn lemma_encode_decode_tnetwork_frame(b: Seq<u8>)
    requires
        b.len() == TNETWORK_FRAME_SIZE,
    ensures
        spec_decode_tnetwork_frame(b) is Some,
        spec_encode_tnetwork_frame(spec_decode_tnetwork_frame(b).unwrap()) == b,
{
    lemma_auto_spec_u64_to_from_le_bytes();
    lemma_auto_spec_u32_to_from_le_bytes();
    let f = spec_decode_tnetwork_frame(b).unwrap();
    let c = b.subrange(16, 29);
    assert(spec_u64_to_le_bytes(spec_u64_from_le_bytes(b.subrange(0, 8))) == b.subrange(0, 8));
    assert(spec_u32_to_le_bytes(spec_u32_from_le_bytes(b.subrange(8, 12))) == b.subrange(8, 12));
    assert(spec_u32_to_le_bytes(spec_u32_from_le_bytes(b.subrange(12, 16))) == b.subrange(12, 16));
    assert(spec_u32_to_le_bytes(spec_u32_from_le_bytes(c.subrange(0, 4))) == c.subrange(0, 4));
    assert(spec_u64_to_le_bytes(spec_u64_from_le_bytes(c.subrange(5, 13))) == c.subrange(5, 13));
    assert(spec_can_frame_bytes(f.value.can_frame) =~= c);
    assert(spec_encode_tnetwork_frame(f) =~= b);
}

/// The bytes that a TCP connection carries for a run of frames sent one
/// after another.
pub open spec fn spec_encode_tnetwork_stream(frames: Seq<TNetworkFrame>) -> Seq<u8>
    decreases frames.len(),
{
    if frames.len() == 0 {
        Seq::empty()
    } else {
        spec_encode_tnetwork_stream(frames.drop_last()) + spec_encode_tnetwork_frame(frames.last())
    }
}

/// Reading a connection frame by frame gives back what was sent: in the
/// bytes of frames sent one after another, the `i`-th block of
/// [`TNETWORK_FRAME_SIZE`] bytes decodes to the `i`-th frame.
pub proof fn lemma_stream_reads_back_frames(frames: Seq<TNetworkFrame>)
    ensures
        spec_encode_tnetwork_stream(frames).len() == frames.len() * TNETWORK_FRAME_SIZE,
        forall|i: int|
            0 <= i < frames.len() ==> spec_decode_tnetwork_frame(
                #[trigger] spec_encode_tnetwork_stream(frames).subrange(
                    i * TNETWORK_FRAME_SIZE,
                    i * TNETWORK_FRAME_SIZE + TNETWORK_FRAME_SIZE,
                ),
            ) == Some(frames[i]),
    decreases frames.len(),
{
    if frames.len() > 0 {
        let front = frames.drop_last();
        let last = frames.last();
        lemma_stream_reads_back_frames(front);
        lemma_decode_encode_tnetwork_frame(last);
        let a = spec_encode_tnetwork_stream(front);
        let b = spec_encode_tnetwork_frame(last);
        let n = front.len() as int;
        assert forall|i: int| 0 <= i < frames.len() implies spec_decode_tnetwork_frame(
            #[trigger] spec_encode_tnetwork_stream(frames).subrange(
                i * TNETWORK_FRAME_SIZE,
                i * TNETWORK_FRAME_SIZE + TNETWORK_FRAME_SIZE,
            ),
        ) == Some(frames[i]) by {
            let lo = i * TNETWORK_FRAME_SIZE;
            let hi = lo + TNETWORK_FRAME_SIZE;
            if i < n {
                assert((a + b).subrange(lo, hi) =~= a.subrange(lo, hi));
                assert(frames[i] == front[i]);
            } else {
                assert((a + b).subrange(lo, hi) =~= b);
            }
        }
    }
}

} // verus!
