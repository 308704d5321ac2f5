//! What the server sends in the status state.
use vstd::prelude::*;

use crate::datatype::{string_encoding, Encode, Length, VarInt};

use super::{json_text, json_to_string, Clientbound};

verus! {

/// The status the server reports, as JSON.
#[derive(Debug)]
pub struct StatusResponse {
    pub json_response: serde_json::Value,
}

impl Encode for StatusResponse {
    /// The JSON text, written as a string.
    open spec fn spec_encode(&self) -> Seq<u8> {
        string_encoding(json_text(self.json_response))
    }

    fn encode(&self) -> (bytes: Vec<u8>) {
        let json_str = json_to_string(&self.json_response);
        json_str.encode()
    }
}

impl Length<i32> for StatusResponse {
    /// The number of bytes of the encoding, cast to `i32`.
    open spec fn spec_length(&self) -> i32 {
        string_encoding(json_text(self.json_response)).len() as i32
    }

    fn length(&self) -> (len: i32) {
        #[verifier::truncate]
        (self.encode().len() as i32)
    }
}

impl Clientbound for StatusResponse {
    open spec fn spec_packet_id() -> VarInt {
        VarInt(0x00)
    }

    fn packet_id() -> (id: VarInt) {
        VarInt(0x00)
    }
}

} // verus!
