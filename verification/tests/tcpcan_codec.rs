use canzero_server::frame::{CanFrame, NetworkFrame, TNetworkFrame, Timestamp, Timestamped};
use canzero_server::tcpcan::{decode_tnetwork_frame, encode_tnetwork_frame, TNETWORK_FRAME_SIZE};

fn sample() -> TNetworkFrame {
    Timestamped {
        timestamp: Timestamp { secs: 0x0102030405060708, nanos: 999_999_999 },
        value: NetworkFrame {
            bus_id: 3,
            can_frame: CanFrame { id: 0x1ABC_DEF0, dlc: 8, data: 0x1122334455667788 },
        },
    }
}

#[test]
fn encoded_frame_has_fixed_size() {
    assert_eq!(encode_tnetwork_frame(&sample()).len(), TNETWORK_FRAME_SIZE);
    assert_eq!(TNETWORK_FRAME_SIZE, 29);
}

#[test]
fn encoded_frame_exact_bytes() {
    let bytes = encode_tnetwork_frame(&sample());
    let expected: Vec<u8> = vec![
        0x08, 0x07, 0x06, 0x05, 0x04, 0x03, 0x02, 0x01, // secs
        0xFF, 0xC9, 0x9A, 0x3B, // nanos = 999_999_999
        0x03, 0x00, 0x00, 0x00, // bus id
        0xF0, 0xDE, 0xBC, 0x1A, // can id
        0x08, // dlc
        0x88, 0x77, 0x66, 0x55, 0x44, 0x33, 0x22, 0x11, // data
    ];
    assert_eq!(bytes, expected);
}

#[test]
fn decode_gives_back_encoded_frame() {
    let f = sample();
    let back = decode_tnetwork_frame(&encode_tnetwork_frame(&f)).expect("decodes");
    assert_eq!(back.timestamp, f.timestamp);
    assert_eq!(back.value, f.value);
}

#[test]
fn decode_refuses_wrong_length() {
    let bytes = encode_tnetwork_frame(&sample());
    assert!(decode_tnetwork_frame(&bytes[..28]).is_none());
    let mut longer = bytes.clone();
    longer.push(0);
    assert!(decode_tnetwork_frame(&longer).is_none());
    assert!(decode_tnetwork_frame(&[]).is_none());
}

#[test]
fn decode_reads_any_nanos_field() {
    let mut bytes = encode_tnetwork_frame(&sample());
    // nanos = 1_000_000_000
    bytes[8] = 0x00;
    bytes[9] = 0xCA;
    bytes[10] = 0x9A;
    bytes[11] = 0x3B;
    let f = decode_tnetwork_frame(&bytes).expect("every 29 bytes decode");
    assert_eq!(f.timestamp.nanos, 1_000_000_000);
    assert_eq!(encode_tnetwork_frame(&f), bytes);
}

#[test]
fn decode_then_encode_gives_back_bytes() {
    let bytes: Vec<u8> = (0u8..29).collect();
    let f = decode_tnetwork_frame(&bytes).expect("every 29 bytes decode");
    assert_eq!(f.timestamp.nanos, 0x0B0A0908);
    assert_eq!(encode_tnetwork_frame(&f), bytes);
}

#[test]
fn timestamp_new_checks_nanos() {
    assert_eq!(Timestamp::new(5, 7), Some(Timestamp { secs: 5, nanos: 7 }));
    assert_eq!(Timestamp::new(5, 1_000_000_000), None);
    assert_eq!(Timestamp::new(u64::MAX, 999_999_999), Some(Timestamp { secs: u64::MAX, nanos: 999_999_999 }));
}

#[test]
fn stream_of_frames_reads_back_in_order() {
    let frames: Vec<TNetworkFrame> = (0u32..4)
        .map(|k| Timestamped {
            timestamp: Timestamp { secs: k as u64 * 10, nanos: k * 1000 },
            value: NetworkFrame {
                bus_id: k,
                can_frame: CanFrame { id: 0x100 + k, dlc: k as u8, data: (k as u64) << 40 },
            },
        })
        .collect();
    let mut stream: Vec<u8> = Vec::new();
    for f in &frames {
        stream.extend_from_slice(&encode_tnetwork_frame(f));
    }
    assert_eq!(stream.len(), frames.len() * TNETWORK_FRAME_SIZE);
    for (i, chunk) in stream.chunks(TNETWORK_FRAME_SIZE).enumerate() {
        let f = decode_tnetwork_frame(chunk).expect("a whole frame");
        assert_eq!(f.timestamp, frames[i].timestamp);
        assert_eq!(f.value, frames[i].value);
    }
}
