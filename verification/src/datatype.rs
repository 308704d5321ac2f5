//! The protocol's primitive data types and how they travel as bytes.
use vstd::prelude::*;

use crate::Error;
use vstd::utf8::{decode_utf8, encode_utf8, valid_utf8};

pub use uuid::Uuid;

pub mod laws;

verus! {

pub type Boolean = bool;
pub type Byte = i8;
pub type UnsignedByte = u8;
pub type Short = i16;
pub type UnsignedShort = u16;
pub type Int = i32;
pub type Long = i64;

/// The payload bits of a VarInt byte.
pub const SEGMENT_BITS: u8 = 0x7f;
/// The bit that says another VarInt byte follows.
pub const CONTINUE_BIT: u8 = 0x80;

/// The message of the error reported for a VarInt longer than five bytes.
pub const VAR_INT_TOO_BIG: &'static str = "VarInt is too big";

/// Values that can be written as bytes.
pub trait Encode {
    /// The bytes that encode this value.
    spec fn spec_encode(&self) -> Seq<u8>;

    fn encode(&self) -> (bytes: Vec<u8>)
        ensures
            bytes@ == self.spec_encode(),
    ;
}

/// Values that can be read from the front of a byte slice.
pub trait Decode: Sized {
    type Error;

    /// The mathematical value that a decoded value stands for.
    type Repr;

    spec fn repr(&self) -> Self::Repr;

    /// The inputs on which decoding returns instead of panicking.
    spec fn decodable(bytes: Seq<u8>) -> bool;

    /// What decoding the front of `bytes` gives: the number of bytes read and
    /// the value, or the error.
    spec fn spec_decode(bytes: Seq<u8>) -> Result<(nat, Self::Repr), Self::Error>;

    /// Tests whether `decode_streaming` may be called on `bytes`.
    fn check_decodable(bytes: &[u8]) -> (ok: bool)
        ensures
            ok == Self::decodable(bytes@),
    ;

    fn decode(bytes: &[u8]) -> (r: Result<Self, Self::Error>)
        requires
            Self::decodable(bytes@),
        ensures
            match Self::spec_decode(bytes@) {
                Ok((_, v)) => r matches Ok(x) && x.repr() == v,
                Err(e) => r matches Err(f) && f == e,
            },
    {
        match Self::decode_streaming(bytes) {
            Ok((_, val)) => Ok(val),
            Err(e) => Err(e),
        }
    }

    /// Returns the number of bytes this decoder ate, with the value, or the error.
    fn decode_streaming(bytes: &[u8]) -> (r: Result<(usize, Self), Self::Error>)
        requires
            Self::decodable(bytes@),
        ensures
            match Self::spec_decode(bytes@) {
                Ok((n, v)) => r matches Ok((m, x)) && m == n && x.repr() == v && n <= bytes@.len(),
                Err(e) => r matches Err(f) && f == e,
            },
    ;
}

/// Values that know a length of type `T`.
pub trait Length<T> {
    spec fn spec_length(&self) -> T;

    fn length(&self) -> (len: T)
        ensures
            len == self.spec_length(),
    ;
}

/// The number that `bytes` write in base 256, most significant byte first.
pub open spec fn big_endian(bytes: Seq<u8>) -> nat
    decreases bytes.len(),
{
    if bytes.len() == 0 {
        0
    } else {
        big_endian(bytes.drop_last()) * 256 + bytes.last() as nat
    }
}

impl Decode for UnsignedShort {
    type Error = Error;

    type Repr = u16;

    open spec fn repr(&self) -> u16 {
        *self
    }

    open spec fn decodable(bytes: Seq<u8>) -> bool {
        bytes.len() >= 2
    }

    /// Two bytes, big-endian.
    open spec fn spec_decode(bytes: Seq<u8>) -> Result<(nat, u16), Error> {
        Ok((2, big_endian(bytes.take(2)) as u16))
    }

    fn check_decodable(bytes: &[u8]) -> (ok: bool) {
        bytes.len() >= 2
    }

    fn decode_streaming(bytes: &[u8]) -> (r: Result<(usize, Self), Error>) {
        let unsigned_short = ((bytes[0] as u16) << 8) | (bytes[1] as u16);
        proof {
            laws::lemma_big_endian_prefix(bytes@, 1);
            laws::lemma_big_endian_prefix(bytes@, 2);
            assert(big_endian(bytes@.take(2)) == (bytes@[0] as nat) * 256 + bytes@[1]);
            let (b0, b1) = (bytes@[0], bytes@[1]);
            assert(((b0 as u16) << 8) | (b1 as u16) == (b0 * 256 + b1) as u16) by (bit_vector);
        }
        Ok((2, unsigned_short))
    }
}

impl Decode for Long {
    type Error = Error;

    type Repr = i64;

    open spec fn repr(&self) -> i64 {
        *self
    }

    open spec fn decodable(bytes: Seq<u8>) -> bool {
        bytes.len() >= 8
    }

    /// Eight bytes, big-endian, in two's complement.
    open spec fn spec_decode(bytes: Seq<u8>) -> Result<(nat, i64), Error> {
        Ok((8, big_endian(bytes.take(8)) as i64))
    }

    fn check_decodable(bytes: &[u8]) -> (ok: bool) {
        bytes.len() >= 8
    }

    fn decode_streaming(bytes: &[u8]) -> (r: Result<(usize, Self), Error>) {
        let long = ((bytes[0] as i64) << 56)
            | ((bytes[1] as i64) << 48)
            | ((bytes[2] as i64) << 40)
            | ((bytes[3] as i64) << 32)
            | ((bytes[4] as i64) << 24)
            | ((bytes[5] as i64) << 16)
            | ((bytes[6] as i64) << 8)
            | (bytes[7] as i64);
        proof {
            laws::lemma_big_endian_8(bytes@);
            let (b0, b1, b2, b3) = (bytes@[0], bytes@[1], bytes@[2], bytes@[3]);
            let (b4, b5, b6, b7) = (bytes@[4], bytes@[5], bytes@[6], bytes@[7]);
            assert(((b0 as i64) << 56) | ((b1 as i64) << 48) | ((b2 as i64) << 40) | ((b3 as i64) << 32)
                | ((b4 as i64) << 24) | ((b5 as i64) << 16) | ((b6 as i64) << 8) | (b7 as i64)
                == (b0 * 0x100000000000000 + b1 * 0x1000000000000 + b2 * 0x10000000000
                + b3 * 0x100000000 + b4 * 0x1000000 + b5 * 0x10000 + b6 * 0x100 + b7) as i64)
                by (bit_vector);
        }
        Ok((8, long))
    }
}

/// A 32-bit integer written in groups of seven bits, lowest group first.
#[derive(Debug, Clone, Copy)]
pub struct VarInt(pub i32);

/// The VarInt bytes of the unsigned number `u`: its seven-bit groups, lowest
/// first, each but the last with bit 7 set.
pub open spec fn var_int_groups(u: nat) -> Seq<u8>
    decreases u,
{
    if u < 0x80 {
        seq![u as u8]
    } else {
        seq![(u % 0x80 + 0x80) as u8] + var_int_groups(u / 0x80)
    }
}

/// The bytes written for `x`: the groups of its 32 bits read as unsigned, so
/// that a negative value takes five bytes.
pub open spec fn var_int_encoding(x: i32) -> Seq<u8> {
    var_int_groups((x as u32) as nat)
}

/// Decoding a VarInt from byte `i` on, with the groups before `i` already in `acc`.
pub open spec fn var_int_decode_from(bytes: Seq<u8>, i: nat, acc: i32) -> Result<(nat, i32), Error>
    decreases bytes.len() - i,
{
    if i < bytes.len() && i < 5 {
        let b = bytes[i as int];
        let acc = acc | (((b as i32) & 0x7f) << ((7 * i) as i32));
        if b & 0x80 == 0 {
            Ok((i + 1, acc))
        } else if i == 4 {
            Err(Error::DecodeError(VAR_INT_TOO_BIG))
        } else {
            var_int_decode_from(bytes, i + 1, acc)
        }
    } else {
        Ok((i, acc))
    }
}

/// Decoding a VarInt from the front of `bytes`: its bytes are read up to the
/// first one whose bit 7 is clear, or to the end of the input; a sixth byte is
/// never read.
pub open spec fn var_int_decode(bytes: Seq<u8>) -> Result<(nat, i32), Error> {
    var_int_decode_from(bytes, 0, 0)
}

impl Encode for VarInt {
    open spec fn spec_encode(&self) -> Seq<u8> {
        var_int_encoding(self.0)
    }

    fn encode(&self) -> (bytes: Vec<u8>) {
        let mut bytes: Vec<u8> = Vec::new();
        let mut value: u32 = self.0 as u32;
        loop
            invariant
                bytes@ + var_int_groups(value as nat) == var_int_encoding(self.0),
            decreases value,
        {
            assert(((value & !(0x7fu32)) == 0) == (value < 0x80)
                && ((value & 0x7f) | 0x80) == value % 0x80 + 0x80
                && (value >> 7) == value / 0x80) by (bit_vector);
            if (value & !(SEGMENT_BITS as u32)) == 0 {
                bytes.push(value as u8);
                assert(bytes@ == var_int_encoding(self.0));
                return bytes;
            }
            let ghost before = bytes@;
            let ghost v = value as nat;
            bytes.push(((value & SEGMENT_BITS as u32) | CONTINUE_BIT as u32) as u8);
            value >>= 7;
            assert(before + var_int_groups(v) == bytes@ + var_int_groups(value as nat));
        }
    }
}

impl Decode for VarInt {
    type Error = Error;

    type Repr = i32;

    open spec fn repr(&self) -> i32 {
        self.0
    }

    open spec fn decodable(bytes: Seq<u8>) -> bool {
        true
    }

    open spec fn spec_decode(bytes: Seq<u8>) -> Result<(nat, i32), Error> {
        var_int_decode(bytes)
    }

    fn check_decodable(bytes: &[u8]) -> (ok: bool) {
        true
    }

    fn decode_streaming(bytes: &[u8]) -> (r: Result<(usize, Self), Error>) {
        let mut idx: usize = 0;
        let mut pos: i32 = 0;
        let mut result: i32 = 0;
        let mut current_byte: i32;
        while idx < bytes.len()
            invariant
                idx <= bytes@.len(),
                idx < 5,
                pos == 7 * idx,
                var_int_decode_from(bytes@, idx as nat, result) == var_int_decode(bytes@),
            decreases bytes@.len() - idx,
        {
            let byte = bytes[idx];
            let ghost i = idx;
            idx += 1;
            current_byte = byte as i32;
            result |= (current_byte & SEGMENT_BITS as i32) << pos;
            assert((byte as i32) & 0x80 == 0 <==> byte & 0x80 == 0) by (bit_vector);
            if (current_byte & CONTINUE_BIT as i32) == 0 {
                return Ok((idx, Self(result)));
            }
            pos += 7;
            if pos >= 32 {
                return Err(Error::DecodeError(VAR_INT_TOO_BIG));
            }
        }
        Ok((idx, Self(result)))
    }
}

/// The number of bytes of the VarInt `x`: one for each seven bits that its
/// 32 bits, read as unsigned, need.
pub open spec fn var_int_size(x: i32) -> nat {
    let u = x as u32;
    if u < 0x80 {
        1
    } else if u < 0x4000 {
        2
    } else if u < 0x200000 {
        3
    } else if u < 0x10000000 {
        4
    } else {
        5
    }
}

impl Length<i32> for VarInt {
    /// The number of bytes of the encoding.
    open spec fn spec_length(&self) -> i32 {
        var_int_size(self.0) as i32
    }

    fn length(&self) -> (len: i32) {
        proof {
            laws::lemma_var_int_encoding_len(self.0);
        }
        self.encode().len() as i32
    }
}

/// The error reported for string bytes that are not UTF-8.
pub const UTF8_ERROR: &'static str = "Utf8Error while decoding string";

/// The length prefix of a string: the number of its UTF-8 bytes, cast to `i32`.
pub open spec fn string_length_prefix(s: Seq<char>) -> i32 {
    encode_utf8(s).len() as i32
}

/// The bytes written for a string: the number of its UTF-8 bytes as a VarInt,
/// then those bytes.
pub open spec fn string_encoding(s: Seq<char>) -> Seq<u8> {
    var_int_encoding(string_length_prefix(s)) + encode_utf8(s)
}

/// The string bytes that `decode_streaming` may be run on: the length prefix,
/// when it decodes, is not negative and does not point past the end.
pub open spec fn string_decodable(bytes: Seq<u8>) -> bool {
    match var_int_decode(bytes) {
        Ok((n, l)) => 0 <= l && n + l <= bytes.len(),
        Err(_) => true,
    }
}

/// Decoding a string: a VarInt length, then that many bytes, which must be UTF-8.
pub open spec fn string_decode(bytes: Seq<u8>) -> Result<(nat, Seq<char>), Error> {
    match var_int_decode(bytes) {
        Ok((n, l)) => {
            let body = bytes.subrange(n as int, n + l);
            if valid_utf8(body) {
                Ok(((n + l) as nat, decode_utf8(body)))
            } else {
                Err(Error::DecodeError(UTF8_ERROR))
            }
        },
        Err(e) => Err(e),
    }
}

impl Encode for String {
    open spec fn spec_encode(&self) -> Seq<u8> {
        string_encoding(self@)
    }

    fn encode(&self) -> (bytes: Vec<u8>) {
        let utf8 = self.as_str().as_bytes();
        let len: usize = utf8.len();
        let mut bytes: Vec<u8> = Vec::new();
        let mut prefix = VarInt(#[verifier::truncate] (len as i32)).encode();
        bytes.append(&mut prefix);
        let mut body = vstd::slice::slice_to_vec(utf8);
        bytes.append(&mut body);
        bytes
    }
}

impl Decode for String {
    type Error = Error;

    type Repr = Seq<char>;

    open spec fn repr(&self) -> Seq<char> {
        self@
    }

    open spec fn decodable(bytes: Seq<u8>) -> bool {
        string_decodable(bytes)
    }

    open spec fn spec_decode(bytes: Seq<u8>) -> Result<(nat, Seq<char>), Error> {
        string_decode(bytes)
    }

    fn check_decodable(bytes: &[u8]) -> (ok: bool) {
        match VarInt::decode_streaming(bytes) {
            Ok((str_start, str_len)) => 0 <= str_len.0 && str_len.0 as usize <= bytes.len() - str_start,
            Err(_) => true,
        }
    }

    fn decode_streaming(bytes: &[u8]) -> (r: Result<(usize, Self), Error>) {
        let (str_start, str_len) = match VarInt::decode_streaming(bytes) {
            Ok(v) => v,
            Err(e) => return Err(e),
        };
        assert(str_len.0 >= 0 && str_start + str_len.0 <= bytes@.len());
        let body_len: usize = str_len.0 as usize;
        assert(body_len == str_len.0);
        assert(bytes@.len() == bytes.len());
        let str_end = str_start + body_len;
        let string = match str_from_utf8(vstd::slice::slice_subrange(bytes, str_start, str_end)) {
            Some(s) => s,
            None => return Err(Error::DecodeError(UTF8_ERROR)),
        };
        proof {
            vstd::utf8::encode_utf8_decode_utf8(string@);
        }
        Ok((str_end, string.to_owned()))
    }
}

/// `std::str::from_utf8`: the bytes come back as a string slice exactly when
/// they are valid UTF-8, and then the slice's bytes are the input bytes.
#[verifier::external_body]
fn str_from_utf8(bytes: &[u8]) -> (r: Option<&str>)
    ensures
        r is Some <==> valid_utf8(bytes@),
        r matches Some(s) ==> encode_utf8(s@) == bytes@,
{
    std::str::from_utf8(bytes).ok()
}

#[verifier::external_type_specification]
#[verifier::external_body]
pub struct ExUuid(uuid::Uuid);

/// The sixteen bytes that a UUID holds.
pub uninterp spec fn uuid_octets(u: uuid::Uuid) -> Seq<u8>;

/// `uuid::Uuid::from_bytes`: the UUID that holds exactly the given bytes, in order.
#[verifier::external_body]
fn uuid_from_bytes(bytes: [u8; 16]) -> (u: uuid::Uuid)
    ensures
        uuid_octets(u) == bytes@,
{
    uuid::Uuid::from_bytes(bytes)
}

impl Decode for Uuid {
    type Error = Error;

    type Repr = Seq<u8>;

    open spec fn repr(&self) -> Seq<u8> {
        uuid_octets(*self)
    }

    open spec fn decodable(bytes: Seq<u8>) -> bool {
        bytes.len() >= 16
    }

    /// The first sixteen bytes, as they stand.
    open spec fn spec_decode(bytes: Seq<u8>) -> Result<(nat, Seq<u8>), Error> {
        Ok((16, bytes.take(16)))
    }

    fn check_decodable(bytes: &[u8]) -> (ok: bool) {
        bytes.len() >= 16
    }

    fn decode_streaming(bytes: &[u8]) -> (r: Result<(usize, Self), Error>) {
        let mut uuid_bytes = [0u8; 16];
        let mut i: usize = 0;
        while i < 16
            invariant
                i <= 16,
                bytes@.len() >= 16,
                forall|j: int| 0 <= j < i ==> uuid_bytes@[j] == bytes@[j],
            decreases 16 - i,
        {
            uuid_bytes[i] = bytes[i];
            i += 1;
        }
        assert(uuid_bytes@ =~= bytes@.take(16));
        let uuid = uuid_from_bytes(uuid_bytes);
        Ok((16, uuid))
    }
}

/// The decimal digits of `n`, most significant first.
pub open spec fn decimal_digits(n: nat) -> Seq<char>
    decreases n,
{
    if n < 10 {
        seq![(48 + n) as char]
    } else {
        decimal_digits(n / 10).push((48 + n % 10) as char)
    }
}

/// How Rust writes the integer `x` in decimal: a minus sign when negative,
/// then the digits of its magnitude.
pub open spec fn decimal(x: int) -> Seq<char> {
    if x < 0 {
        seq!['-'] + decimal_digits((-x) as nat)
    } else {
        decimal_digits(x as nat)
    }
}

/// The text of the decimal digit `d`.
fn digit_text(d: u32) -> (s: &'static str)
    requires
        d < 10,
    ensures
        s@ == seq![(48 + d) as char],
{
    proof {
        reveal_strlit("0");
        reveal_strlit("1");
        reveal_strlit("2");
        reveal_strlit("3");
        reveal_strlit("4");
        reveal_strlit("5");
        reveal_strlit("6");
        reveal_strlit("7");
        reveal_strlit("8");
        reveal_strlit("9");
    }
    if d == 0 {
        "0"
    } else if d == 1 {
        "1"
    } else if d == 2 {
        "2"
    } else if d == 3 {
        "3"
    } else if d == 4 {
        "4"
    } else if d == 5 {
        "5"
    } else if d == 6 {
        "6"
    } else if d == 7 {
        "7"
    } else if d == 8 {
        "8"
    } else {
        "9"
    }
}

/// Appends the decimal digits of `n` to `s`, most significant first.
fn append_digits(s: &mut String, n: u32)
    ensures
        final(s)@ == old(s)@ + decimal_digits(n as nat),
    decreases n,
{
    if n >= 10 {
        append_digits(s, n / 10);
    }
    s.append(digit_text(n % 10));
    assert(s@ =~= old(s)@ + decimal_digits(n as nat));
}

/// The integer written in decimal, with a leading minus sign when it is
/// negative, as `i32::to_string` writes it.
fn i32_to_string(x: i32) -> (s: String)
    ensures
        s@ == decimal(x as int),
{
    if x < 0 {
        let mut s = String::from_str("-");
        proof {
            reveal_strlit("-");
        }
        let magnitude: u32 = (0i64 - x as i64) as u32;
        append_digits(&mut s, magnitude);
        assert(s@ =~= decimal(x as int));
        s
    } else {
        let mut s = String::new();
        append_digits(&mut s, x as u32);
        assert(s@ =~= decimal(x as int));
        s
    }
}

impl VarInt {
    /// The value written in decimal.
    pub fn to_string(&self) -> (s: String)
        ensures
            s@ == decimal(self.0 as int),
    {
        i32_to_string(self.0)
    }
}

impl PartialEq<i32> for VarInt {
    fn eq(&self, other: &i32) -> (r: bool) {
        self.0 == *other
    }
}

impl vstd::std_specs::cmp::PartialEqSpecImpl<i32> for VarInt {
    open spec fn obeys_eq_spec() -> bool {
        true
    }

    open spec fn eq_spec(&self, other: &i32) -> bool {
        self.0 == *other
    }
}

impl From<i32> for VarInt {
    fn from(value: i32) -> (r: Self) {
        Self(value)
    }
}

impl vstd::std_specs::convert::FromSpecImpl<i32> for VarInt {
    open spec fn obeys_from_spec() -> bool {
        true
    }

    open spec fn from_spec(value: i32) -> Self {
        VarInt(value)
    }
}

impl From<VarInt> for i32 {
    fn from(value: VarInt) -> (r: Self) {
        value.0
    }
}

impl vstd::std_specs::convert::FromSpecImpl<VarInt> for i32 {
    open spec fn obeys_from_spec() -> bool {
        true
    }

    open spec fn from_spec(value: VarInt) -> i32 {
        value.0
    }
}

} // verus!
