//! What the server decides at each step of a connection, from the bytes it
//! received to the bytes it sends back.
use vstd::prelude::*;

use crate::clientbound::login::Disconnect;
use crate::clientbound::status::StatusResponse;
use crate::clientbound::{json_text, Clientbound};
use crate::conn::State;
use crate::datatype::laws::{lemma_string_round_trip, lemma_var_int_encoding_len, lemma_var_int_round_trip};
use crate::datatype::{string_decode, string_encoding, var_int_encoding, Encode, Length, VarInt};
use crate::packet::{lemma_header_round_trip, packet_encoding, packet_header, Packet, PacketParser};
use crate::serverbound::handshake::{
    handshake_decode, handshake_encoding, lemma_handshake_round_trip, Handshake, HandshakeView,
};
use crate::serverbound::login::LoginStart;
use crate::serverbound::status::StatusRequest;
use crate::serverbound::Serverbound;
use crate::Error;
use vstd::utf8::encode_utf8;

verus! {

/// The first byte of a legacy server-list ping, which is not a handshake.
pub const LEGACY_PING: u8 = 0xfe;

/// What a connection does after its first packet.
#[derive(Debug)]
pub enum HandshakeOutcome {
    /// A legacy server-list ping, which is ignored.
    Legacy,
    /// The state the client asked for.
    NextState(State),
    /// A next-state number that names no state.
    UnknownState(i32),
}

/// What the first packet `buf` leads to.
pub open spec fn spec_handshake_outcome(buf: Seq<u8>) -> Result<HandshakeOutcome, Error> {
    if buf[0] == LEGACY_PING {
        Ok(HandshakeOutcome::Legacy)
    } else {
        match packet_header(buf) {
            (_, Err(e)) => Err(e),
            (n, Ok(_)) => match handshake_decode(buf.skip(n as int)).1 {
                Err(e) => Err(e),
                Ok(h) => Ok(
                    match State::from_number(h.next_state) {
                        Ok(s) => HandshakeOutcome::NextState(s),
                        Err(v) => HandshakeOutcome::UnknownState(v),
                    },
                ),
            },
        }
    }
}

/// Reads the first packet of a connection: a legacy ping is ignored, and a
/// handshake names the next state.
pub fn handshake_outcome(buf: &[u8]) -> (r: Result<HandshakeOutcome, Error>)
    requires
        buf@.len() > 0,
        buf@[0] != LEGACY_PING ==> Packet::<Handshake>::decodable(buf@),
    ensures
        r == spec_handshake_outcome(buf@),
{
    if buf[0] == LEGACY_PING {
        return Ok(HandshakeOutcome::Legacy);
    }
    assert(buf@.skip(0) =~= buf@);
    let handshake = match Packet::from_bytes(buf, Handshake::decoder) {
        Ok(p) => p,
        Err(e) => return Err(e),
    };
    let next_state: i32 = handshake.data.next_state.into();
    match State::try_from(next_state) {
        Ok(s) => Ok(HandshakeOutcome::NextState(s)),
        Err(v) => Ok(HandshakeOutcome::UnknownState(v)),
    }
}

/// A first packet that starts with the byte 0xfe is a legacy ping, and is
/// ignored whatever follows.
pub proof fn lemma_legacy_ping_ignored(buf: Seq<u8>)
    requires
        buf.len() > 0,
        buf[0] == 0xfeu8,
    ensures
        spec_handshake_outcome(buf) == Ok::<HandshakeOutcome, Error>(HandshakeOutcome::Legacy),
{
}

/// The handshake decides by its next-state number alone: for any buffer not
/// starting with the legacy-ping byte whose header and handshake read, the
/// outcome is the state with that number (0, 1 or 2), or that number as
/// unknown, whatever the protocol version, address, port and packet id.
pub proof fn lemma_handshake_outcome_by_next_state(buf: Seq<u8>, h: HandshakeView)
    requires
        buf.len() > 0,
        buf[0] != LEGACY_PING,
        packet_header(buf).1 is Ok,
        handshake_decode(buf.skip(packet_header(buf).0 as int)).1 == Ok::<HandshakeView, Error>(h),
    ensures
        0 <= h.next_state <= 2 ==> (spec_handshake_outcome(buf) matches Ok(
            HandshakeOutcome::NextState(s),
        ) && s.number() == h.next_state),
        !(0 <= h.next_state <= 2) ==> spec_handshake_outcome(buf) == Ok::<HandshakeOutcome, Error>(
            HandshakeOutcome::UnknownState(h.next_state),
        ),
{
}

/// The same, for a handshake packet written out: a header with any length
/// and id, then the fields of any handshake, then any bytes; unless its first
/// byte is the legacy-ping byte, the outcome is given by the next state.
pub proof fn lemma_handshake_packet_outcome(length: i32, id: i32, h: HandshakeView, rest: Seq<u8>)
    requires
        encode_utf8(h.server_address).len() <= i32::MAX,
        packet_encoding(length, id, handshake_encoding(h) + rest)[0] != LEGACY_PING,
    ensures
        ({
            let buf = packet_encoding(length, id, handshake_encoding(h) + rest);
            &&& 0 <= h.next_state <= 2 ==> (spec_handshake_outcome(buf) matches Ok(
                HandshakeOutcome::NextState(s),
            ) && s.number() == h.next_state)
            &&& !(0 <= h.next_state <= 2) ==> spec_handshake_outcome(buf) == Ok::<
                HandshakeOutcome,
                Error,
            >(HandshakeOutcome::UnknownState(h.next_state))
        }),
{
    let data = handshake_encoding(h) + rest;
    let buf = packet_encoding(length, id, data);
    lemma_header_round_trip(length, id, data);
    let n = var_int_encoding(length).len() + var_int_encoding(id).len();
    assert(buf.skip(n as int) =~= handshake_encoding(h) + rest);
    lemma_handshake_round_trip(h, rest);
    lemma_handshake_outcome_by_next_state(buf, h);
}

/// What a login packet `buf` asks for: nothing unless its id is 0, and then
/// the player's name.
pub open spec fn spec_login_start(buf: Seq<u8>) -> Result<Option<Seq<char>>, Error> {
    match packet_header(buf) {
        (_, Err(e)) => Err(e),
        (n, Ok((_, id))) => if id != 0 {
            Ok(None)
        } else {
            match LoginStart::spec_decoder(buf.skip(n as int)).1 {
                Ok(name) => Ok(Some(name)),
                Err(e) => Err(e),
            }
        },
    }
}

/// Reads the first packet of the login state: a login start (id 0) gives the
/// packet, any other id gives nothing.
pub fn login_start(buf: &[u8]) -> (r: Result<Option<Packet<LoginStart>>, Error>)
    requires
        packet_header(buf@).1 matches Ok((_, id)) && id == 0 ==> Packet::<LoginStart>::decodable(buf@),
    ensures
        match spec_login_start(buf@) {
            Ok(Some(name)) => r matches Ok(Some(p)) && {
                &&& p.data@ == name
                &&& p.packet_id == VarInt(0)
                &&& p.length == VarInt(packet_header(buf@).1->Ok_0.0)
            },
            Ok(None) => r matches Ok(None),
            Err(e) => r matches Err(f) && f == e,
        },
{
    let mut parser = PacketParser::new(buf);
    proof {
        assert(parser.parser().rest() =~= buf@);
    }
    let packet_id = match parser.packet_id() {
        Ok(id) => id,
        Err(e) => return Err(e),
    };
    if packet_id == 0x00 {
        assert(buf@.skip(0) =~= buf@);
        match Packet::from_bytes(buf, LoginStart::decoder) {
            Ok(p) => Ok(Some(p)),
            Err(e) => Err(e),
        }
    } else {
        Ok(None)
    }
}

/// A login packet with id 0 gives the name that its data reads as a string,
/// whatever its length field says and whatever bytes follow the name; any
/// other id gives nothing.
pub proof fn lemma_login_start_reads_name(buf: Seq<u8>)
    requires
        packet_header(buf).1 is Ok,
    ensures
        ({
            let (n, header) = packet_header(buf);
            let id = header->Ok_0.1;
            &&& id != 0 ==> spec_login_start(buf) == Ok::<Option<Seq<char>>, Error>(None)
            &&& id == 0 ==> match string_decode(buf.skip(n as int)) {
                Ok((_, name)) => spec_login_start(buf) == Ok::<Option<Seq<char>>, Error>(Some(name)),
                Err(e) => spec_login_start(buf) == Err::<Option<Seq<char>>, Error>(e),
            }
        }),
{
}

/// A login start written out, with any length field, id 0, the name's string
/// and then any bytes (a UUID, say), gives that name.
pub proof fn lemma_login_start_packet(length: i32, name: Seq<char>, rest: Seq<u8>)
    requires
        encode_utf8(name).len() <= i32::MAX,
    ensures
        spec_login_start(packet_encoding(length, 0, string_encoding(name) + rest)) == Ok::<
            Option<Seq<char>>,
            Error,
        >(Some(name)),
{
    let data = string_encoding(name) + rest;
    let buf = packet_encoding(length, 0, data);
    lemma_header_round_trip(length, 0, data);
    let n = var_int_encoding(length).len() + var_int_encoding(0).len();
    assert(buf.skip(n as int) =~= data);
    lemma_string_round_trip(name, rest);
    lemma_login_start_reads_name(buf);
}

/// The text of the message that refuses a login by `name`.
pub open spec fn refusal_text(name: Seq<char>) -> Seq<char> {
    "Sorry "@ + name + ", this server is not yet prepared to connect."@
}

/// The message that refuses a login by `name`.
pub fn refusal_message(name: &str) -> (msg: String)
    ensures
        msg@ == refusal_text(name@),
{
    let mut msg = String::from_str("Sorry ");
    msg.append(name);
    msg.append(", this server is not yet prepared to connect.");
    msg
}

/// The refusal holds the whole name: "Sorry ", then the name as given, then
/// ", this server is not yet prepared to connect.", 51 characters besides
/// the name.
pub proof fn lemma_refusal_text_holds_name(name: Seq<char>)
    ensures
        refusal_text(name).len() == 51 + name.len(),
        refusal_text(name).subrange(0, 6) == "Sorry "@,
        refusal_text(name).subrange(6, 6 + name.len() as int) == name,
        refusal_text(name).subrange(6 + name.len() as int, 51 + name.len() as int)
            == ", this server is not yet prepared to connect."@,
{
    reveal_strlit("Sorry ");
    reveal_strlit(", this server is not yet prepared to connect.");
    let t = refusal_text(name);
    assert(t.subrange(0, 6) =~= "Sorry "@);
    assert(t.subrange(6, 6 + name.len() as int) =~= name);
    assert(t.subrange(6 + name.len() as int, 51 + name.len() as int)
        =~= ", this server is not yet prepared to connect."@);
}

/// The bytes of a packet with id `id` whose data is the string `text`: its
/// length is the size of the id's VarInt plus the size of the string's
/// encoding cast to `i32`, as `Packet::new` computes it.
pub open spec fn json_packet(id: i32, text: Seq<char>) -> Seq<u8> {
    let data = string_encoding(text);
    packet_encoding(
        (var_int_encoding(id).len() as i32 + data.len() as i32) as i32,
        id,
        data,
    )
}

/// A JSON text whose packet length, one byte of packet id plus the size of
/// the string, does not overflow an `i32`.
pub open spec fn json_fits(text: Seq<char>) -> bool {
    1 + (string_encoding(text).len() as i32) <= i32::MAX
}

/// A client reads back what the server sends in a JSON packet whose size fits
/// an `i32`: the header gives the length, which counts the bytes after it,
/// and the id, and the data that follows is the JSON text.
pub proof fn lemma_json_packet_round_trip(id: i32, text: Seq<char>)
    requires
        var_int_encoding(id).len() + string_encoding(text).len() <= i32::MAX,
    ensures
        ({
            let bytes = json_packet(id, text);
            let length = var_int_encoding(id).len() + string_encoding(text).len();
            let n = var_int_encoding(length as i32).len() + var_int_encoding(id).len();
            &&& packet_header(bytes) == (n, Ok::<(i32, i32), Error>((length as i32, id)))
            &&& bytes.len() == var_int_encoding(length as i32).len() + length
            &&& string_decode(bytes.skip(n as int)) == Ok::<(nat, Seq<char>), Error>(
                (string_encoding(text).len(), text),
            )
        }),
{
    let data = string_encoding(text);
    let length = var_int_encoding(id).len() + data.len();
    lemma_var_int_encoding_len(id);
    lemma_var_int_encoding_len(length as i32);
    assert(encode_utf8(text).len() <= data.len());
    lemma_header_round_trip(length as i32, id, data);
    let n = var_int_encoding(length as i32).len() + var_int_encoding(id).len();
    assert(json_packet(id, text).skip(n as int) =~= data + Seq::<u8>::empty());
    lemma_string_round_trip(text, Seq::empty());
}

/// The status packet that answers a status request, carrying
/// `json_response`; none when the packet's length would overflow an `i32`.
pub fn status_response(json_response: serde_json::Value) -> (r: Option<Vec<u8>>)
    ensures
        r is Some <==> json_fits(json_text(json_response)),
        r matches Some(bytes) ==> bytes@ == json_packet(0, json_text(json_response)),
{
    let data = StatusResponse { json_response };
    let data_len = data.length();
    let packet_id = StatusResponse::packet_id();
    let id_len = packet_id.length();
    if data_len > i32::MAX - id_len {
        return None;
    }
    let packet = Packet::new(packet_id.0, data);
    Some(packet.encode())
}

/// What the server sends for the status request `request`: the header's
/// error, or else the status packet with the JSON text `text`, none when its
/// length would overflow an `i32`. Nothing else of the request counts.
pub open spec fn spec_status_reply(request: Seq<u8>, text: Seq<char>) -> Result<Option<Seq<u8>>, Error> {
    match packet_header(request).1 {
        Err(e) => Err(e),
        Ok(_) => Ok(
            if json_fits(text) {
                Some(json_packet(0, text))
            } else {
                None
            },
        ),
    }
}

/// Reads the status request in `request` and answers it with the status
/// packet carrying `json_response`.
pub fn status_reply(request: &[u8], json_response: serde_json::Value) -> (r: Result<
    Option<Vec<u8>>,
    Error,
>)
    ensures
        match spec_status_reply(request@, json_text(json_response)) {
            Ok(Some(bytes)) => r matches Ok(Some(v)) && v@ == bytes,
            Ok(None) => r matches Ok(None),
            Err(e) => r matches Err(f) && f == e,
        },
{
    assert(request@.skip(0) =~= request@);
    match Packet::from_bytes(request, StatusRequest::decoder) {
        Ok(_) => Ok(status_response(json_response)),
        Err(e) => Err(e),
    }
}

/// The answer to a status request does not depend on the request: any two
/// requests whose headers read get the same reply.
pub proof fn lemma_status_reply_ignores_request(a: Seq<u8>, b: Seq<u8>, text: Seq<char>)
    requires
        packet_header(a).1 is Ok,
        packet_header(b).1 is Ok,
    ensures
        spec_status_reply(a, text) == spec_status_reply(b, text),
{
}

/// A status or disconnect packet is made whenever its length, one byte of id
/// plus the string, fits an `i32`: its bytes are then that length as a
/// VarInt, the id 0, and the string; a status request whose header reads is
/// answered with exactly these bytes.
pub proof fn lemma_json_packet_when_it_fits(request: Seq<u8>, text: Seq<char>)
    requires
        1 + string_encoding(text).len() <= i32::MAX,
    ensures
        json_fits(text),
        json_packet(0, text) == var_int_encoding((1 + string_encoding(text).len()) as i32) + seq![0u8]
            + string_encoding(text),
        packet_header(request).1 is Ok ==> spec_status_reply(request, text) == Ok::<
            Option<Seq<u8>>,
            Error,
        >(
            Some(
                var_int_encoding((1 + string_encoding(text).len()) as i32) + seq![0u8]
                    + string_encoding(text),
            ),
        ),
{
    assert(var_int_encoding(0) =~= seq![0u8]);
}

/// The packet that refuses a login with `reason`; none when the packet's
/// length would overflow an `i32`.
pub fn disconnect_response(reason: serde_json::Value) -> (r: Option<Vec<u8>>)
    ensures
        r is Some <==> json_fits(json_text(reason)),
        r matches Some(bytes) ==> bytes@ == json_packet(0, json_text(reason)),
{
    let data = Disconnect { reason };
    let data_len = data.length();
    let packet_id = Disconnect::packet_id();
    let id_len = packet_id.length();
    if data_len > i32::MAX - id_len {
        return None;
    }
    let packet = Packet::new(packet_id.0, data);
    Some(packet.encode())
}

} // verus!
