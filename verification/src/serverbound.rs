//! Packets that a client sends to the server.
use vstd::prelude::*;

use crate::packet::BytesParser;
use crate::Error;

pub mod handshake;
pub mod login;
pub mod status;

verus! {

/// Packet data that the server reads from a client.
pub trait Serverbound: Sized + View {
    /// The unread bytes on which `decoder` returns instead of panicking.
    spec fn decodable(bytes: Seq<u8>) -> bool;

    /// What `decoder` does to the unread bytes `bytes`: how many of them it
    /// reads, and the data, or the error it stops at.
    spec fn spec_decoder(bytes: Seq<u8>) -> (nat, Result<Self::V, Error>);

    /// Tests whether `decoder` may be run on the unread bytes `bytes`.
    fn check_decodable(bytes: &[u8]) -> (ok: bool)
        ensures
            ok == Self::decodable(bytes@),
    ;

    fn decoder(parser: &mut BytesParser) -> (r: Result<Self, Error>)
        requires
            old(parser).wf(),
            Self::decodable(old(parser).rest()),
        ensures
            final(parser).wf(),
            final(parser).input() == old(parser).input(),
            final(parser).position() == old(parser).position() + Self::spec_decoder(old(parser).rest()).0,
            match Self::spec_decoder(old(parser).rest()).1 {
                Ok(v) => r matches Ok(x) && x@ == v,
                Err(e) => r matches Err(f) && f == e,
            },
    ;
}

} // verus!
