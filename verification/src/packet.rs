//! Reading values one after another from a byte slice, and the packet frame:
//! a VarInt length, a VarInt packet id, then the data.
use vstd::prelude::*;

use crate::datatype::laws::{lemma_var_int_encoding_len, lemma_var_int_round_trip};
use crate::datatype::{var_int_decode, var_int_encoding, Decode, Encode, Length, VarInt};
use crate::serverbound::Serverbound;
use crate::Error;
use vstd::std_specs::convert::IntoSpec;

verus! {

/// Reads values from a byte slice, front to back.
pub struct BytesParser<'b> {
    cur_start: usize,
    bytes: &'b [u8],
}

impl<'b> BytesParser<'b> {
    /// The whole input.
    pub closed spec fn input(&self) -> Seq<u8> {
        self.bytes@
    }

    /// How many bytes have been read so far.
    pub closed spec fn position(&self) -> nat {
        self.cur_start as nat
    }

    pub open spec fn wf(&self) -> bool {
        self.position() <= self.input().len()
    }

    /// The bytes not read yet.
    pub open spec fn rest(&self) -> Seq<u8> {
        self.input().skip(self.position() as int)
    }

    pub fn new(bytes: &'b [u8]) -> (parser: Self)
        ensures
            parser.wf(),
            parser.input() == bytes@,
            parser.position() == 0,
    {
        Self { cur_start: 0, bytes }
    }

    /// The bytes not read yet.
    pub(crate) fn remaining(&self) -> (rest: &'b [u8])
        requires
            self.wf(),
        ensures
            rest@ == self.rest(),
    {
        vstd::slice::slice_subrange(self.bytes, self.cur_start, self.bytes.len())
    }

    /// Decodes a `T` from the bytes not read yet, and on success moves past
    /// the bytes it read; on failure nothing moves.
    pub fn next<T>(&mut self) -> (r: Result<T, <T as Decode>::Error>)
        where
            T: Decode,
        requires
            old(self).wf(),
            T::decodable(old(self).rest()),
        ensures
            final(self).wf(),
            final(self).input() == old(self).input(),
            match T::spec_decode(old(self).rest()) {
                Ok((n, v)) => r matches Ok(x) && x.repr() == v && final(self).position() == old(self).position() + n,
                Err(e) => r matches Err(f) && f == e && final(self).position() == old(self).position(),
            },
    {
        match T::decode_streaming(self.remaining()) {
            Ok((idx, val)) => {
                assert(self.bytes@.len() == self.bytes.len());
                self.cur_start += idx;
                Ok(val)
            },
            Err(e) => Err(e),
        }
    }
}

/// Reading a frame header from `bytes`: how many bytes it reads, and the
/// length and packet id, or the error of the first VarInt that fails.
pub open spec fn packet_header(bytes: Seq<u8>) -> (nat, Result<(i32, i32), Error>) {
    match var_int_decode(bytes) {
        Err(e) => (0, Err(e)),
        Ok((n1, length)) => match var_int_decode(bytes.skip(n1 as int)) {
            Err(e) => (n1, Err(e)),
            Ok((n2, id)) => (n1 + n2, Ok((length, id))),
        },
    }
}

/// A data reader may be run on the bytes just after the header of the packet
/// that starts at byte `start` of `input`, when that header reads.
pub open spec fn packet_readable<'p, T, F>(input: Seq<u8>, start: nat, read_data: F) -> bool
    where
        F: FnOnce(&mut BytesParser<'p>) -> Result<T, Error>,
{
    packet_header(input.skip(start as int)).1 is Ok ==> forall|p: &mut BytesParser<'p>|
        p.wf() && p.input() == input && p.position() == start + packet_header(
            input.skip(start as int),
        ).0 ==> read_data.requires((p,))
}

/// What reading the packet that starts at byte `start` of `input` gives: the
/// header's error, or `read_data` run once on a parser just after the header,
/// whose error is passed on, and whose data makes the packet with the header's
/// length and id.
pub open spec fn packet_read<'p, T, F>(
    input: Seq<u8>,
    start: nat,
    read_data: F,
    r: Result<Packet<T>, Error>,
) -> bool
    where
        F: FnOnce(&mut BytesParser<'p>) -> Result<T, Error>,
{
    match packet_header(input.skip(start as int)) {
        (_, Err(e)) => r matches Err(f) && f == e,
        (n, Ok((length, id))) => exists|p: &mut BytesParser<'p>, d: Result<T, Error>|
            {
                &&& p.wf()
                &&& p.input() == input
                &&& p.position() == start + n
                &&& read_data.ensures((p,), d)
                &&& match d {
                    Ok(data) => r matches Ok(pkt) && pkt == (Packet {
                        length: VarInt(length),
                        packet_id: VarInt(id),
                        data,
                    }),
                    Err(e) => r matches Err(f) && f == e,
                }
            },
    }
}

/// A packet: its length, its id and its data.
#[derive(Debug)]
pub struct Packet<T> {
    pub length: VarInt,
    pub packet_id: VarInt,
    pub data: T,
}

impl<T> Packet<T> where T: Serverbound {
    /// The inputs on which `T::decoder`, run after the header, returns
    /// instead of panicking.
    pub open spec fn decodable(bytes: Seq<u8>) -> bool {
        match packet_header(bytes) {
            (n, Ok(_)) => T::decodable(bytes.skip(n as int)),
            (_, Err(_)) => true,
        }
    }

    /// Tests whether `T::decoder` may be run on what follows the header.
    pub fn check_decodable(bytes: &[u8]) -> (ok: bool)
        ensures
            ok == Self::decodable(bytes@),
    {
        let mut parser = PacketParser::new(bytes);
        proof {
            assert(parser.parser().rest() =~= bytes@);
        }
        match parser.parse_header() {
            Ok(_) => {
                proof {
                    assert(parser.parser().rest() =~= bytes@.skip(packet_header(bytes@).0 as int));
                }
                T::check_decodable(parser.bytes_parser.remaining())
            },
            Err(_) => true,
        }
    }

    /// Reads a packet: the header, then the data by `data_decoder`, which is
    /// handed a parser that stands just after the header.
    pub fn decode<'b, F>(bytes: &'b [u8], data_decoder: F) -> (r: Result<Self, Error>)
        where
            F: FnOnce(&mut BytesParser) -> Result<T, Error>,
        requires
            packet_readable(bytes@, 0, data_decoder),
        ensures
            packet_read(bytes@, 0, data_decoder, r),
    {
        let mut parser = PacketParser::new(bytes);
        proof {
            assert(parser.parser().rest() =~= bytes@);
        }
        parser.parse(data_decoder)
    }
}

impl<T> Packet<T> where T: Serverbound {
    /// Reads a packet as `decode` does.
    pub fn from_bytes<'b, F>(bytes: &'b [u8], data_decoder: F) -> (r: Result<Self, Error>)
        where
            F: FnOnce(&mut BytesParser) -> Result<T, Error>,
        requires
            packet_readable(bytes@, 0, data_decoder),
        ensures
            packet_read(bytes@, 0, data_decoder, r),
    {
        Self::decode(bytes, data_decoder)
    }
}

impl<T> Packet<T> where T: Length<i32> {
    /// A packet whose length field counts the bytes of its id and its data.
    /// What the id converts to is known where `Into` has a specification
    /// (an `i32` id); for any other id the length is still that of the id
    /// stored, which takes one to five bytes.
    pub fn new<I: Into<VarInt>>(packet_id: I, data: T) -> (p: Self)
        requires
            I::obeys_into_spec() ==> i32::MIN <= packet_id.into_spec().spec_length()
                + data.spec_length() <= i32::MAX,
            !I::obeys_into_spec() ==> i32::MIN <= data.spec_length() <= i32::MAX - 5,
        ensures
            I::obeys_into_spec() ==> p.packet_id == packet_id.into_spec(),
            p.length == VarInt((p.packet_id.spec_length() + data.spec_length()) as i32),
            p.data == data,
    {
        let packet_id = packet_id.into();
        proof {
            lemma_var_int_encoding_len(packet_id.0);
        }
        let length = VarInt(packet_id.length() + data.length());
        Self { length, packet_id, data }
    }
}

/// The bytes of a packet: its length, its id, then its data.
pub open spec fn packet_encoding(length: i32, packet_id: i32, data: Seq<u8>) -> Seq<u8> {
    var_int_encoding(length) + var_int_encoding(packet_id) + data
}

impl<T> Encode for Packet<T> where T: Encode {
    open spec fn spec_encode(&self) -> Seq<u8> {
        packet_encoding(self.length.0, self.packet_id.0, self.data.spec_encode())
    }

    fn encode(&self) -> (bytes: Vec<u8>) {
        let mut buf: Vec<u8> = Vec::new();
        let mut length = self.length.encode();
        buf.append(&mut length);
        let mut packet_id = self.packet_id.encode();
        buf.append(&mut packet_id);
        let mut data = self.data.encode();
        buf.append(&mut data);
        buf
    }
}

/// When a packet's length is the size of its id and data together, as `new`
/// makes it for data whose length is the size of its encoding, the length
/// field counts exactly the bytes that follow it.
pub proof fn lemma_length_counts_rest(id: i32, data: Seq<u8>)
    requires
        var_int_encoding(id).len() + data.len() <= i32::MAX,
    ensures
        ({
            let length = (var_int_encoding(id).len() + data.len()) as i32;
            let rest = var_int_encoding(id) + data;
            &&& packet_encoding(length, id, data) == var_int_encoding(length) + rest
            &&& rest.len() == length
        }),
{
    let length = (var_int_encoding(id).len() + data.len()) as i32;
    assert(packet_encoding(length, id, data) =~= var_int_encoding(length) + (var_int_encoding(id) + data));
}

/// Reading the header of an encoded packet gives back its length and id,
/// after exactly their bytes.
pub proof fn lemma_header_round_trip(length: i32, id: i32, data: Seq<u8>)
    ensures
        packet_header(packet_encoding(length, id, data)) == (
            var_int_encoding(length).len() + var_int_encoding(id).len(),
            Ok::<(i32, i32), Error>((length, id)),
        ),
{
    let bytes = packet_encoding(length, id, data);
    let after_length = var_int_encoding(id) + data;
    assert(bytes =~= var_int_encoding(length) + after_length);
    lemma_var_int_round_trip(length, after_length);
    assert(bytes.skip(var_int_encoding(length).len() as int) =~= after_length);
    lemma_var_int_round_trip(id, data);
}

/// A packet whose length is what `new` makes it, for data whose length is the
/// size of its encoding: its encoding starts with the length, which counts
/// exactly the bytes after it, and reading its header gives back the length
/// and the packet id.
pub proof fn lemma_new_packet_frame<T: Encode + Length<i32>>(p: Packet<T>)
    requires
        p.length.0 == p.packet_id.spec_length() + p.data.spec_length(),
        p.data.spec_length() == p.data.spec_encode().len(),
    ensures
        ({
            let rest = var_int_encoding(p.packet_id.0) + p.data.spec_encode();
            &&& p.spec_encode() == var_int_encoding(p.length.0) + rest
            &&& rest.len() == p.length.0
            &&& packet_header(p.spec_encode()) == (
                var_int_encoding(p.length.0).len() + var_int_encoding(p.packet_id.0).len(),
                Ok::<(i32, i32), Error>((p.length.0, p.packet_id.0)),
            )
        }),
{
    lemma_var_int_encoding_len(p.packet_id.0);
    let rest = var_int_encoding(p.packet_id.0) + p.data.spec_encode();
    assert(p.spec_encode() =~= var_int_encoding(p.length.0) + rest);
    lemma_header_round_trip(p.length.0, p.packet_id.0, p.data.spec_encode());
}

/// Reads packets; it remembers the packet id once it has read one.
pub struct PacketParser<'p> {
    bytes_parser: BytesParser<'p>,
    packet_id: Option<VarInt>,
}

impl<'p> PacketParser<'p> {
    /// The parser over the packet's bytes.
    pub closed spec fn parser(&self) -> BytesParser<'p> {
        self.bytes_parser
    }

    /// The packet id read by an earlier call of `packet_id`.
    pub closed spec fn cached_id(&self) -> Option<VarInt> {
        self.packet_id
    }

    pub open spec fn wf(&self) -> bool {
        self.parser().wf()
    }

    pub fn new(bytes: &'p [u8]) -> (p: Self)
        ensures
            p.wf(),
            p.parser().input() == bytes@,
            p.parser().position() == 0,
            p.cached_id() is None,
    {
        Self { bytes_parser: BytesParser::new(bytes), packet_id: None }
    }

    /// Reads a packet from where the parser stands: the header, then the data
    /// by `parse_data`, which is handed the parser just after the header.
    pub(crate) fn parse<T, F>(&mut self, parse_data: F) -> (r: Result<Packet<T>, Error>)
        where
            F: FnOnce(&mut BytesParser<'p>) -> Result<T, Error>,
        requires
            old(self).wf(),
            packet_readable(old(self).parser().input(), old(self).parser().position(), parse_data),
        ensures
            final(self).cached_id() == old(self).cached_id(),
            packet_read(old(self).parser().input(), old(self).parser().position(), parse_data, r),
            packet_header(old(self).parser().rest()).1 is Ok ==> exists|
                p: &mut BytesParser<'p>,
                d: Result<T, Error>,
            |
                {
                    &&& p.wf()
                    &&& p.input() == old(self).parser().input()
                    &&& p.position() == old(self).parser().position() + packet_header(
                        old(self).parser().rest(),
                    ).0
                    &&& parse_data.ensures((p,), d)
                    &&& *final(p) == final(self).parser()
                    &&& d is Ok <==> r is Ok
                },
            packet_header(old(self).parser().rest()).1 is Err ==> {
                &&& final(self).parser().input() == old(self).parser().input()
                &&& final(self).parser().position() == old(self).parser().position()
                    + packet_header(old(self).parser().rest()).0
            },
    {
        let (length, packet_id) = match self.parse_header() {
            Ok(h) => h,
            Err(e) => return Err(e),
        };
        let data = match parse_data(&mut self.bytes_parser) {
            Ok(d) => d,
            Err(e) => return Err(e),
        };
        Ok(Packet { length, packet_id, data })
    }

    /// Reads the header: the length, then the packet id.
    pub(crate) fn parse_header(&mut self) -> (r: Result<(VarInt, VarInt), Error>)
        requires
            old(self).wf(),
        ensures
            final(self).wf(),
            final(self).cached_id() == old(self).cached_id(),
            final(self).parser().input() == old(self).parser().input(),
            final(self).parser().position() == old(self).parser().position() + packet_header(
                old(self).parser().rest(),
            ).0,
            match packet_header(old(self).parser().rest()).1 {
                Ok((length, id)) => r matches Ok((l, i)) && l == VarInt(length) && i == VarInt(id),
                Err(e) => r matches Err(f) && f == e,
            },
    {
        let ghost bytes = self.bytes_parser.rest();
        let ghost start = self.bytes_parser.position();
        let length = match self.bytes_parser.next::<VarInt>() {
            Ok(v) => v,
            Err(e) => return Err(e),
        };
        proof {
            assert(self.bytes_parser.rest() =~= bytes.skip(self.bytes_parser.position() - start));
        }
        let packet_id = match self.bytes_parser.next::<VarInt>() {
            Ok(v) => v,
            Err(e) => return Err(e),
        };
        Ok((length, packet_id))
    }

    /// What a call of `packet_id` does: with an id remembered, it gives it and
    /// changes nothing; else it reads the header, remembers the id it reads,
    /// and gives it or the header's error.
    pub open spec fn packet_id_post(before: Self, after: Self, r: Result<VarInt, Error>) -> bool {
        match before.cached_id() {
            Some(id) => after == before && r == Ok::<VarInt, Error>(id),
            None => {
                &&& after.wf()
                &&& after.parser().input() == before.parser().input()
                &&& after.parser().position() == before.parser().position() + packet_header(
                    before.parser().rest(),
                ).0
                &&& match packet_header(before.parser().rest()).1 {
                    Ok((_, id)) => r == Ok::<VarInt, Error>(VarInt(id)) && after.cached_id()
                        == Some(VarInt(id)),
                    Err(e) => r == Err::<VarInt, Error>(e) && after.cached_id() is None,
                }
            },
        }
    }

    /// The id of the packet, read from the header on the first call.
    pub fn packet_id(&mut self) -> (r: Result<VarInt, Error>)
        requires
            old(self).wf(),
        ensures
            final(self).wf(),
            Self::packet_id_post(*old(self), *final(self), r),
    {
        let Some(packet_id) = self.packet_id else {
            let (_, packet_id) = match self.parse_header() {
                Ok(h) => h,
                Err(e) => return Err(e),
            };
            self.packet_id = Some(packet_id);
            return Ok(packet_id);
        };
        Ok(packet_id)
    }
}

/// A parser that has read nothing stands at the start of its input: the bytes
/// before it are the whole input, so its first `next` decodes exactly what
/// `decode` decodes from that input, and may be called where `decode` may.
pub proof fn lemma_fresh_parser_reads_input<'b, T: Decode>(p: BytesParser<'b>)
    requires
        p.position() == 0,
    ensures
        p.wf(),
        p.rest() == p.input(),
        T::decodable(p.rest()) == T::decodable(p.input()),
        T::spec_decode(p.rest()) == T::spec_decode(p.input()),
{
    assert(p.rest() =~= p.input());
}

/// Once `packet_id` has given an id, calling it again gives the same id and
/// leaves the parser as it is.
pub proof fn lemma_packet_id_remembered(
    p0: PacketParser,
    p1: PacketParser,
    p2: PacketParser,
    r1: Result<VarInt, Error>,
    r2: Result<VarInt, Error>,
)
    requires
        PacketParser::packet_id_post(p0, p1, r1),
        PacketParser::packet_id_post(p1, p2, r2),
        r1 is Ok,
    ensures
        r2 == r1,
        p2 == p1,
{
}

} // verus!
