//! The first packet of the login state.
use vstd::prelude::*;

use crate::datatype::{string_decodable, string_decode, Decode};
use crate::packet::BytesParser;
use crate::Error;

use super::Serverbound;

verus! {

/// A client that wants to log in, with the player's name.
#[derive(Debug)]
pub struct LoginStart {
    pub name: String,
}

impl View for LoginStart {
    type V = Seq<char>;

    open spec fn view(&self) -> Seq<char> {
        self.name@
    }
}

impl Serverbound for LoginStart {
    open spec fn decodable(bytes: Seq<u8>) -> bool {
        string_decodable(bytes)
    }

    /// The name is a string.
    open spec fn spec_decoder(bytes: Seq<u8>) -> (nat, Result<Seq<char>, Error>) {
        match string_decode(bytes) {
            Ok((n, name)) => (n, Ok(name)),
            Err(e) => (0, Err(e)),
        }
    }

    fn check_decodable(bytes: &[u8]) -> (ok: bool) {
        String::check_decodable(bytes)
    }

    fn decoder(parser: &mut BytesParser) -> (r: Result<Self, Error>) {
        let name = match parser.next::<String>() {
            Ok(v) => v,
            Err(e) => return Err(e),
        };
        Ok(Self { name })
    }
}

} // verus!
