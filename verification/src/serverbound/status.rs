//! The status request and the ping that a client sends while in the status state.
use vstd::prelude::*;

use crate::datatype::laws::lemma_big_endian_8;
use crate::datatype::{big_endian, Decode, Long};
use crate::packet::BytesParser;
use crate::Error;

use super::Serverbound;

verus! {

/// Asks for the server's status; it carries no data.
#[derive(Debug)]
pub struct StatusRequest;

impl View for StatusRequest {
    type V = ();

    open spec fn view(&self) -> () {
        ()
    }
}

impl Serverbound for StatusRequest {
    open spec fn decodable(bytes: Seq<u8>) -> bool {
        true
    }

    /// Reads nothing and never fails.
    open spec fn spec_decoder(bytes: Seq<u8>) -> (nat, Result<(), Error>) {
        (0, Ok(()))
    }

    fn check_decodable(bytes: &[u8]) -> (ok: bool) {
        true
    }

    fn decoder(parser: &mut BytesParser) -> (r: Result<Self, Error>) {
        Ok(Self)
    }
}

/// A ping whose payload the server echoes.
#[derive(Debug)]
pub struct StatusPingRequest {
    pub payload: Long,
}

impl View for StatusPingRequest {
    type V = i64;

    open spec fn view(&self) -> i64 {
        self.payload
    }
}

impl Serverbound for StatusPingRequest {
    open spec fn decodable(bytes: Seq<u8>) -> bool {
        bytes.len() >= 8
    }

    /// The payload is the first eight bytes, big-endian.
    open spec fn spec_decoder(bytes: Seq<u8>) -> (nat, Result<i64, Error>) {
        (8, Ok(big_endian(bytes.take(8)) as i64))
    }

    fn check_decodable(bytes: &[u8]) -> (ok: bool) {
        Long::check_decodable(bytes)
    }

    fn decoder(parser: &mut BytesParser) -> (r: Result<Self, Error>) {
        let payload = match parser.next::<Long>() {
            Ok(v) => v,
            Err(e) => return Err(e),
        };
        Ok(Self { payload })
    }
}

/// The eight bytes of `x` in two's complement, most significant first.
pub open spec fn i64_be_bytes(x: i64) -> Seq<u8> {
    let u = x as u64;
    seq![
        (u >> 56u64) as u8,
        (u >> 48u64) as u8,
        (u >> 40u64) as u8,
        (u >> 32u64) as u8,
        (u >> 24u64) as u8,
        (u >> 16u64) as u8,
        (u >> 8u64) as u8,
        u as u8,
    ]
}

/// A ping whose data starts with the eight big-endian bytes of any `x` reads
/// back exactly `x` as its payload, after those eight bytes, whatever follows;
/// a `Long` reads them the same way.
pub proof fn lemma_ping_payload_round_trip(x: i64, rest: Seq<u8>)
    ensures
        StatusPingRequest::decodable(i64_be_bytes(x) + rest),
        StatusPingRequest::spec_decoder(i64_be_bytes(x) + rest) == (8nat, Ok::<i64, Error>(x)),
        Long::decodable(i64_be_bytes(x) + rest),
        Long::spec_decode(i64_be_bytes(x) + rest) == Ok::<(nat, i64), Error>((8nat, x)),
{
    let bytes = i64_be_bytes(x) + rest;
    lemma_big_endian_8(bytes);
    let u = x as u64;
    let (b0, b1, b2, b3) = ((u >> 56u64) as u8, (u >> 48u64) as u8, (u >> 40u64) as u8, (u >> 32u64) as u8);
    let (b4, b5, b6, b7) = ((u >> 24u64) as u8, (u >> 16u64) as u8, (u >> 8u64) as u8, u as u8);
    assert(bytes[0] == b0 && bytes[1] == b1 && bytes[2] == b2 && bytes[3] == b3);
    assert(bytes[4] == b4 && bytes[5] == b5 && bytes[6] == b6 && bytes[7] == b7);
    assert(b0 as u64 * 0x100000000000000u64 + b1 as u64 * 0x1000000000000u64 + b2 as u64 * 0x10000000000u64
        + b3 as u64 * 0x100000000u64 + b4 as u64 * 0x1000000u64 + b5 as u64 * 0x10000u64
        + b6 as u64 * 0x100u64 + b7 as u64 == u) by (bit_vector)
        requires
            b0 == (u >> 56u64) as u8,
            b1 == (u >> 48u64) as u8,
            b2 == (u >> 40u64) as u8,
            b3 == (u >> 32u64) as u8,
            b4 == (u >> 24u64) as u8,
            b5 == (u >> 16u64) as u8,
            b6 == (u >> 8u64) as u8,
            b7 == u as u8,
    ;
    assert((u as i64) == x) by (bit_vector)
        requires
            u == x as u64,
    ;
}

} // verus!
