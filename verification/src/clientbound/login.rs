//! What the server sends in the login state.
use vstd::prelude::*;

use crate::datatype::{string_encoding, Encode, Length, VarInt};

use super::{json_text, json_to_string, Clientbound};

verus! {

/// Ends the connection, with a JSON text component that says why.
#[derive(Debug)]
pub struct Disconnect {
    pub reason: serde_json::Value,
}

impl Encode for Disconnect {
    /// The reason's JSON text, written as a string.
    open spec fn spec_encode(&self) -> Seq<u8> {
        string_encoding(json_text(self.reason))
    }

    fn encode(&self) -> (bytes: Vec<u8>) {
        let json_str = json_to_string(&self.reason);
        json_str.encode()
    }
}

impl Length<i32> for Disconnect {
    /// The number of bytes of the encoding, cast to `i32`.
    open spec fn spec_length(&self) -> i32 {
        string_encoding(json_text(self.reason)).len() as i32
    }

    fn length(&self) -> (len: i32) {
        #[verifier::truncate]
        (self.encode().len() as i32)
    }
}

impl Clientbound for Disconnect {
    open spec fn spec_packet_id() -> VarInt {
        VarInt(0x00)
    }

    fn packet_id() -> (id: VarInt) {
        VarInt(0x00)
    }
}

} // verus!
