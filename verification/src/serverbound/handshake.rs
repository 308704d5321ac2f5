//! The first packet of every connection.
use vstd::prelude::*;

use crate::datatype::laws::{lemma_big_endian_prefix, lemma_string_round_trip, lemma_var_int_round_trip};
use crate::datatype::{
    big_endian, string_decodable, string_decode, string_encoding, var_int_decode, var_int_encoding,
    Decode, UnsignedShort, VarInt,
};
use vstd::utf8::encode_utf8;
use crate::packet::BytesParser;
use crate::Error;

use super::Serverbound;

verus! {

/// Opens a connection and names the state the client wants next.
#[derive(Debug)]
pub struct Handshake {
    pub protocol_version: VarInt,
    pub server_address: String,
    pub server_port: UnsignedShort,
    pub next_state: VarInt,
}

/// What a handshake says, as plain values.
pub struct HandshakeView {
    pub protocol_version: i32,
    pub server_address: Seq<char>,
    pub server_port: u16,
    pub next_state: i32,
}

impl View for Handshake {
    type V = HandshakeView;

    open spec fn view(&self) -> HandshakeView {
        HandshakeView {
            protocol_version: self.protocol_version.0,
            server_address: self.server_address@,
            server_port: self.server_port,
            next_state: self.next_state.0,
        }
    }
}

/// The unread bytes that a handshake can be read from without panicking:
/// when the protocol version and the address decode, the address's length
/// prefix is sound and two bytes of port follow.
pub open spec fn handshake_decodable(bytes: Seq<u8>) -> bool {
    match var_int_decode(bytes) {
        Ok((n1, _)) => {
            let after_version = bytes.skip(n1 as int);
            &&& string_decodable(after_version)
            &&& match string_decode(after_version) {
                Ok((n2, _)) => bytes.len() >= n1 + n2 + 2,
                Err(_) => true,
            }
        },
        Err(_) => true,
    }
}

/// Reading a handshake: a VarInt protocol version, a string address, a
/// big-endian unsigned short port and a VarInt next state, in that order; the
/// first error stops the reading, after the fields read before it.
pub open spec fn handshake_decode(bytes: Seq<u8>) -> (nat, Result<HandshakeView, Error>) {
    match var_int_decode(bytes) {
        Err(e) => (0, Err(e)),
        Ok((n1, protocol_version)) => match string_decode(bytes.skip(n1 as int)) {
            Err(e) => (n1, Err(e)),
            Ok((n2, server_address)) => {
                let port_at: int = n1 as int + n2 as int;
                let server_port = big_endian(bytes.skip(port_at).take(2)) as u16;
                match var_int_decode(bytes.skip(port_at + 2)) {
                    Err(e) => ((port_at + 2) as nat, Err(e)),
                    Ok((n4, next_state)) => (
                        (port_at + 2 + n4) as nat,
                        Ok(HandshakeView { protocol_version, server_address, server_port, next_state }),
                    ),
                }
            },
        },
    }
}

/// The two big-endian bytes of a port.
pub open spec fn port_bytes(port: u16) -> Seq<u8> {
    seq![(port / 256) as u8, (port % 256) as u8]
}

/// The bytes of a handshake's fields, in the order the decoder reads them.
pub open spec fn handshake_encoding(h: HandshakeView) -> Seq<u8> {
    var_int_encoding(h.protocol_version) + string_encoding(h.server_address) + port_bytes(
        h.server_port,
    ) + var_int_encoding(h.next_state)
}

/// A handshake whose address fits an `i32` length reads back from the bytes
/// of its fields, whatever follows them, and the decoder reads exactly those
/// bytes.
pub proof fn lemma_handshake_round_trip(h: HandshakeView, rest: Seq<u8>)
    requires
        encode_utf8(h.server_address).len() <= i32::MAX,
    ensures
        handshake_decodable(handshake_encoding(h) + rest),
        handshake_decode(handshake_encoding(h) + rest) == (
            handshake_encoding(h).len(),
            Ok::<HandshakeView, Error>(h),
        ),
{
    let v = var_int_encoding(h.protocol_version);
    let a = string_encoding(h.server_address);
    let p = port_bytes(h.server_port);
    let ns = var_int_encoding(h.next_state);
    let bytes = handshake_encoding(h) + rest;
    lemma_var_int_round_trip(h.protocol_version, a + p + ns + rest);
    assert(bytes =~= v + (a + p + ns + rest));
    let after_version = bytes.skip(v.len() as int);
    assert(after_version =~= a + (p + ns + rest));
    lemma_string_round_trip(h.server_address, p + ns + rest);
    let port_at: int = v.len() as int + a.len() as int;
    assert(bytes.skip(port_at).take(2) =~= p);
    lemma_big_endian_prefix(p, 1);
    lemma_big_endian_prefix(p, 2);
    assert(p.take(2) =~= p);
    assert(bytes.skip(port_at + 2) =~= ns + rest);
    lemma_var_int_round_trip(h.next_state, rest);
}

impl Serverbound for Handshake {
    open spec fn decodable(bytes: Seq<u8>) -> bool {
        handshake_decodable(bytes)
    }

    open spec fn spec_decoder(bytes: Seq<u8>) -> (nat, Result<HandshakeView, Error>) {
        handshake_decode(bytes)
    }

    fn check_decodable(bytes: &[u8]) -> (ok: bool) {
        let mut parser = BytesParser::new(bytes);
        proof {
            assert(parser.rest() =~= bytes@);
        }
        match parser.next::<VarInt>() {
            Ok(_) => {},
            Err(_) => return true,
        }
        if !String::check_decodable(parser.remaining()) {
            return false;
        }
        match parser.next::<String>() {
            Ok(_) => {},
            Err(_) => return true,
        }
        let ok = UnsignedShort::check_decodable(parser.remaining());
        proof {
            assert(parser.rest() =~= bytes@.skip(parser.position() as int));
        }
        ok
    }

    fn decoder(parser: &mut BytesParser) -> (r: Result<Self, Error>) {
        let ghost bytes = parser.rest();
        let ghost start = parser.position();
        let protocol_version = match parser.next::<VarInt>() {
            Ok(v) => v,
            Err(e) => return Err(e),
        };
        proof {
            assert(parser.rest() =~= bytes.skip(parser.position() - start));
        }
        let server_address = match parser.next::<String>() {
            Ok(v) => v,
            Err(e) => return Err(e),
        };
        proof {
            assert(parser.rest() =~= bytes.skip(parser.position() - start));
        }
        let server_port = match parser.next::<UnsignedShort>() {
            Ok(v) => v,
            Err(e) => return Err(e),
        };
        proof {
            assert(parser.rest() =~= bytes.skip(parser.position() - start));
        }
        let next_state = match parser.next::<VarInt>() {
            Ok(v) => v,
            Err(e) => return Err(e),
        };
        Ok(Handshake { protocol_version, server_address, server_port, next_state })
    }
}

} // verus!
