//! Packets that the server sends to a client.
use vstd::prelude::*;

use crate::datatype::VarInt;

pub mod login;
pub mod status;

verus! {

/// Packet data that the server sends, with the id that frames it.
pub trait Clientbound: Sized {
    spec fn spec_packet_id() -> VarInt;

    fn packet_id() -> (id: VarInt)
        ensures
            id == Self::spec_packet_id(),
    ;
}

#[verifier::external_type_specification]
#[verifier::external_body]
pub struct ExValue(serde_json::Value);

/// The text that serde_json writes for a JSON value.
pub uninterp spec fn json_text(value: serde_json::Value) -> Seq<char>;

/// `serde_json::to_string` on a `serde_json::Value`: the value's JSON text.
/// Writing a `Value` never fails (its object keys are strings and it is written
/// to memory), so the `expect` never fires; what the text is, is left to the
/// name `json_text`.
#[verifier::external_body]
pub(crate) fn json_to_string(value: &serde_json::Value) -> (text: String)
    ensures
        text@ == json_text(*value),
{
    serde_json::to_string(value).expect("Parsing JSON failed")
}

} // verus!
