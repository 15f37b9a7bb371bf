//! The plain byte protocol by which a client finds a server: a hello packet
//! of type 0 that names the service, answered by a packet of type 1 that
//! carries the server's port and repeats the service name.
use vstd::prelude::*;
use vstd::slice::{slice_subrange, slice_to_vec};
use vstd::utf8::*;

use crate::text::bytes_equal;

verus! {

/// Type byte of a hello packet.
pub const HELLO_PACKET_TYPE: u8 = 0;

/// Type byte of a server's answer.
pub const RESPONSE_PACKET_TYPE: u8 = 1;

/// A hello packet: the type byte, then the service name in UTF-8.
pub open spec fn spec_hello_message(service_name: Seq<char>) -> Seq<u8> {
    seq![HELLO_PACKET_TYPE] + encode_utf8(service_name)
}

/// The port that an answer announces: bytes 1 and 2, little endian.
pub open spec fn spec_response_port(packet: Seq<u8>) -> u16 {
    (packet[1] as int + 256 * (packet[2] as int)) as u16
}

/// What a client makes of an answer of at least three bytes: the announced
/// port when the type byte is that of an answer and the rest of the packet
/// names the service it looks for, else nothing.
pub open spec fn spec_parse_response(packet: Seq<u8>, service_name: Seq<char>) -> Option<u16> {
    if packet[0] == RESPONSE_PACKET_TYPE && decode_utf8(packet.skip(3)) == service_name {
        Some(spec_response_port(packet))
    } else {
        None
    }
}

/// The hello packet that a client broadcasts for a service: the hello type
/// byte, then every byte of the service name's UTF-8 encoding, so that the
/// name reads back whole from the packet.
pub fn hello_message(service_name: &str) -> (r: Vec<u8>)
    ensures
        r@ == spec_hello_message(service_name@),
        r@.len() == 1 + encode_utf8(service_name@).len(),
        r@[0] == HELLO_PACKET_TYPE,
        r@.skip(1) == encode_utf8(service_name@),
        decode_utf8(r@.skip(1)) == service_name@,
{
    let mut msg: Vec<u8> = Vec::new();
    msg.push(HELLO_PACKET_TYPE);
    let mut name = slice_to_vec(service_name.as_bytes());
    msg.append(&mut name);
    assert(msg@ =~= spec_hello_message(service_name@));
    proof {
        lemma_hello_message_names_service(service_name@);
    }
    msg
}

/// A hello packet is the hello type byte followed by the whole UTF-8
/// encoding of the service name, no byte of it left out: it is one byte
/// longer than the encoded name, and what follows its first byte decodes to
/// exactly that name.
pub proof fn lemma_hello_message_names_service(service_name: Seq<char>)
    ensures
        spec_hello_message(service_name).len() == 1 + encode_utf8(service_name).len(),
        spec_hello_message(service_name)[0] == HELLO_PACKET_TYPE,
        spec_hello_message(service_name).skip(1) == encode_utf8(service_name),
        valid_utf8(spec_hello_message(service_name).skip(1)),
        decode_utf8(spec_hello_message(service_name).skip(1)) == service_name,
{
    assert(spec_hello_message(service_name).skip(1) =~= encode_utf8(service_name));
    encode_utf8_valid_utf8(service_name);
    encode_utf8_decode_utf8(service_name);
}

/// Hellos of two services are the same packet only when the services have
/// the same name: a server can tell every service apart from the packet.
pub proof fn lemma_hello_message_injective(a: Seq<char>, b: Seq<char>)
    ensures
        spec_hello_message(a) == spec_hello_message(b) <==> a == b,
{
    lemma_hello_message_names_service(a);
    lemma_hello_message_names_service(b);
}

/// A server that answers a hello by repeating what follows its type byte
/// is accepted by the client that sent it, with the port it announces.
pub proof fn lemma_answer_to_own_hello_accepted(service_name: Seq<char>, lo: u8, hi: u8)
    ensures
        spec_parse_response(
            seq![RESPONSE_PACKET_TYPE, lo, hi] + spec_hello_message(service_name).skip(1),
            service_name,
        ) == Some((lo as int + 256 * (hi as int)) as u16),
{
    lemma_hello_message_names_service(service_name);
    lemma_echoed_name_accepted(service_name, lo, hi);
}

/// Reads a server's answer. The packet holds at least the type byte and the
/// two port bytes, and what follows them is UTF-8 text.
pub fn parse_response(packet: &[u8], service_name: &str) -> (r: Option<u16>)
    requires
        packet@.len() >= 3,
        valid_utf8(packet@.skip(3)),
    ensures
        r == spec_parse_response(packet@, service_name@),
{
    let ty = packet[0];
    let lo = packet[1];
    let hi = packet[2];
    let port: u16 = (lo as u16) | ((hi as u16) << 8u16);
    assert(port == lo as int + 256 * (hi as int)) by (bit_vector)
        requires
            port == (lo as u16) | ((hi as u16) << 8u16),
    ;
    let rest = slice_subrange(packet, 3, packet.len());
    let same_name = bytes_equal(rest, service_name.as_bytes());
    proof {
        assert(rest@ == packet@.skip(3));
        decode_utf8_encode_utf8(packet@.skip(3));
        encode_utf8_decode_utf8(service_name@);
    }
    if ty == RESPONSE_PACKET_TYPE && same_name {
        Some(port)
    } else {
        None
    }
}

/// An answer that repeats the service name of a hello is accepted, and
/// announces the port written in its second and third bytes.
pub proof fn lemma_echoed_name_accepted(service_name: Seq<char>, lo: u8, hi: u8)
    ensures
        spec_parse_response(seq![RESPONSE_PACKET_TYPE, lo, hi] + encode_utf8(service_name), service_name)
            == Some((lo as int + 256 * (hi as int)) as u16),
{
    let p = seq![RESPONSE_PACKET_TYPE, lo, hi] + encode_utf8(service_name);
    assert(p.skip(3) =~= encode_utf8(service_name));
    encode_utf8_decode_utf8(service_name);
}

/// An answer that names another service is refused.
pub proof fn lemma_other_name_refused(packet: Seq<u8>, service_name: Seq<char>)
    requires
        packet.len() >= 3,
        valid_utf8(packet.skip(3)),
        packet.skip(3) != encode_utf8(service_name),
    ensures
        spec_parse_response(packet, service_name) is None,
{
    decode_utf8_encode_utf8(packet.skip(3));
}

} // verus!
