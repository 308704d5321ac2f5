//! Wire types and packet framing for a small Minecraft-protocol server.
use vstd::prelude::*;

pub use serde_json;

pub mod clientbound;
pub mod conn;
pub mod datatype;
pub mod handler;
pub mod packet;
pub mod serverbound;

verus! {

/// The largest packet the protocol allows, in bytes.
pub const MAX_PACKET_SIZE: usize = 2097151;

/// The errors that decoding can report.
#[derive(Debug)]
pub enum Error {
    DecodeError(&'static str),
}

} // verus!
