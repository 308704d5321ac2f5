//! What the encodings of the primitive types promise: VarInts and strings
//! read back what was written, their decoders look no further than the bytes
//! they report, and a VarInt takes one to five bytes.
use vstd::prelude::*;

use super::{
    var_int_size, big_endian, string_decodable, string_decode, string_encoding, string_length_prefix,
    var_int_decode, var_int_decode_from, var_int_encoding, var_int_groups,
};
use crate::Error;
use vstd::utf8::encode_utf8;

verus! {

/// The weight of group `k`: 128 to the power `k`.
pub open spec fn group_weight(k: nat) -> nat
    decreases k,
{
    if k == 0 {
        1
    } else {
        128 * group_weight((k - 1) as nat)
    }
}

/// A VarInt takes between one and five bytes: as many as its 32 bits, read
/// as unsigned, need groups of seven.
pub proof fn lemma_var_int_encoding_len(x: i32)
    ensures
        var_int_encoding(x).len() == var_int_size(x),
        1 <= var_int_size(x) <= 5,
{
    let u = (x as u32) as nat;
    reveal_with_fuel(var_int_groups, 6);
    if u >= 0x80 {
        assert(var_int_groups(u).len() == 1 + var_int_groups(u / 0x80).len());
        if u / 0x80 >= 0x80 {
            assert(var_int_groups(u / 0x80).len() == 1 + var_int_groups(u / 0x80 / 0x80).len());
        }
    }
}

/// The weights of the five groups of a VarInt.
proof fn lemma_group_weights()
    ensures
        group_weight(0) == 1,
        group_weight(1) == 0x80,
        group_weight(2) == 0x4000,
        group_weight(3) == 0x200000,
        group_weight(4) == 0x10000000,
        group_weight(5) == 0x800000000,
{
    reveal_with_fuel(group_weight, 6);
}

/// Bit facts about a middle group `c` of a VarInt, written with bit 7 set at
/// byte `i`: it has bit 7 set, and the decoder adds it above the lower groups.
proof fn lemma_middle_group_byte(i: nat, low: u32, c: u32)
    requires
        i < 4,
        low < group_weight(i),
        c < 0x80,
    ensures
        (((c + 0x80) as u8) & 0x80) != 0,
        ((low as i32) | (((((c + 0x80) as u8) as i32) & 0x7f) << ((7 * i) as i32)))
            == (low + c * group_weight(i)) as i32,
{
    lemma_group_weights();
    assert((((c + 0x80) as u8) & 0x80) != 0) by (bit_vector)
        requires
            c < 0x80,
    ;
    if i == 0 {
        assert(((low as i32) | (((((c + 0x80) as u8) as i32) & 0x7f) << 0i32)) == (low + c) as i32)
            by (bit_vector)
            requires
                low < 1,
                c < 0x80,
        ;
    } else if i == 1 {
        assert(((low as i32) | (((((c + 0x80) as u8) as i32) & 0x7f) << 7i32)) == (low + c * 0x80) as i32)
            by (bit_vector)
            requires
                low < 0x80,
                c < 0x80,
        ;
    } else if i == 2 {
        assert(((low as i32) | (((((c + 0x80) as u8) as i32) & 0x7f) << 14i32)) == (low + c * 0x4000) as i32)
            by (bit_vector)
            requires
                low < 0x4000,
                c < 0x80,
        ;
    } else {
        assert(((low as i32) | (((((c + 0x80) as u8) as i32) & 0x7f) << 21i32)) == (low + c * 0x200000) as i32)
            by (bit_vector)
            requires
                low < 0x200000,
                c < 0x80,
        ;
    }
}

/// Bit facts about the last group `r` of a VarInt `x`, written as it is at
/// byte `i`: it has bit 7 clear, and with the lower groups it gives `x`.
proof fn lemma_last_group_byte(x: i32, i: nat, low: u32, r: u32)
    requires
        i < 5,
        low < group_weight(i),
        r < 0x80,
        (x as u32) as nat == low + r * group_weight(i),
    ensures
        ((r as u8) & 0x80) == 0,
        ((low as i32) | ((((r as u8) as i32) & 0x7f) << ((7 * i) as i32))) == x,
{
    lemma_group_weights();
    assert(((r as u8) & 0x80) == 0) by (bit_vector)
        requires
            r < 0x80,
    ;
    if i == 0 {
        assert(r * group_weight(0) == r);
        assert(((low as i32) | ((((r as u8) as i32) & 0x7f) << 0i32)) == x) by (bit_vector)
            requires
                low < 1,
                r < 0x80,
                (x as u32) == low + r,
        ;
    } else if i == 1 {
        assert(((low as i32) | ((((r as u8) as i32) & 0x7f) << 7i32)) == x) by (bit_vector)
            requires
                low < 0x80,
                r < 0x80,
                (x as u32) == low + r * 0x80,
        ;
    } else if i == 2 {
        assert(((low as i32) | ((((r as u8) as i32) & 0x7f) << 14i32)) == x) by (bit_vector)
            requires
                low < 0x4000,
                r < 0x80,
                (x as u32) == low + r * 0x4000,
        ;
    } else if i == 3 {
        assert(((low as i32) | ((((r as u8) as i32) & 0x7f) << 21i32)) == x) by (bit_vector)
            requires
                low < 0x200000,
                r < 0x80,
                (x as u32) == low + r * 0x200000,
        ;
    } else {
        assert(r < 16);
        assert(((low as i32) | ((((r as u8) as i32) & 0x7f) << 28i32)) == x) by (bit_vector)
            requires
                low < 0x10000000,
                r < 16,
                (x as u32) == low + r * 0x10000000,
        ;
    }
}

/// Decoding the groups of `x` from group `i` on, after a prefix of `i` bytes
/// that gave the lowest `i` groups, `low`, and before any other bytes; `r` is
/// what is left of `x` above them.
proof fn lemma_var_int_decode_groups(
    x: i32,
    i: nat,
    low: nat,
    r: nat,
    prefix: Seq<u8>,
    rest: Seq<u8>,
)
    requires
        i < 5,
        prefix.len() == i,
        low < group_weight(i),
        (x as u32) as nat == low + r * group_weight(i),
    ensures
        var_int_decode_from(prefix + var_int_groups(r) + rest, i, low as i32) == Ok::<(nat, i32), Error>(
            (prefix.len() + var_int_groups(r).len(), x),
        ),
    decreases 5 - i,
{
    lemma_group_weights();
    let w = group_weight(i);
    let bytes = prefix + var_int_groups(r) + rest;
    assert(low + r * w <= 0xffff_ffff);
    if i == 4 {
        assert(r < 16) by (nonlinear_arith)
            requires
                low + r * w <= 0xffff_ffff,
                w == 0x10000000,
        ;
    }
    if r < 0x80 {
        lemma_last_group_byte(x, i, low as u32, r as u32);
        assert(bytes[i as int] == r as u8);
    } else {
        let c = r % 0x80;
        let b = (c + 0x80) as u8;
        assert(i < 4);
        lemma_middle_group_byte(i, low as u32, c as u32);
        assert(bytes[i as int] == b);
        let prefix2 = prefix.push(b);
        assert(bytes == prefix2 + var_int_groups(r / 0x80) + rest);
        assert(group_weight(i + 1) == 128 * w);
        let q = r / 0x80;
        assert(r == c + 0x80 * q);
        assert(low + c * w < 128 * w) by (nonlinear_arith)
            requires
                low < w,
                c < 0x80,
        ;
        assert(low + r * w == (low + c * w) + q * (128 * w)) by (nonlinear_arith)
            requires
                r == c + 0x80 * q,
        ;
        lemma_var_int_decode_groups(x, i + 1, low + c * w, r / 0x80, prefix2, rest);
    }
}

/// Decoding reads back every VarInt that `encode` wrote, and exactly its
/// bytes, whatever follows them.
pub proof fn lemma_var_int_round_trip(x: i32, rest: Seq<u8>)
    ensures
        var_int_decode(var_int_encoding(x) + rest) == Ok::<(nat, i32), Error>(
            (var_int_encoding(x).len(), x),
        ),
{
    let u = (x as u32) as nat;
    lemma_group_weights();
    assert(u * group_weight(0) == u);
    lemma_var_int_decode_groups(x, 0, 0, u, Seq::empty(), rest);
    assert(Seq::<u8>::empty() + var_int_encoding(x) + rest == var_int_encoding(x) + rest);
}

/// The number that the first `n` bytes of a VarInt give: the low seven bits
/// of byte `j` count `group_weight(j)` times.
pub open spec fn group_sum(bytes: Seq<u8>, n: nat) -> nat
    decreases n,
{
    if n == 0 {
        0
    } else {
        group_sum(bytes, (n - 1) as nat) + (bytes[n - 1] % 0x80) as nat * group_weight((n - 1) as nat)
    }
}

/// The first `n` groups stay below `group_weight(n)`.
proof fn lemma_group_sum_bound(bytes: Seq<u8>, n: nat)
    ensures
        group_sum(bytes, n) < group_weight(n),
    decreases n,
{
    if n > 0 {
        lemma_group_sum_bound(bytes, (n - 1) as nat);
        let w = group_weight((n - 1) as nat);
        let c = (bytes[n - 1] % 0x80) as nat;
        assert(group_weight(n) == 128 * w);
        assert(group_sum(bytes, (n - 1) as nat) + c * w < 128 * w) by (nonlinear_arith)
            requires
                group_sum(bytes, (n - 1) as nat) < w,
                c < 0x80,
        ;
    }
}

/// Adding the group of byte `b` at place `i` to the lower groups `sum`, as
/// the decoder does with bit operations, is adding its weight, cut to 32 bits.
proof fn lemma_add_group(i: nat, sum: u32, b: u8)
    requires
        i < 5,
        sum < group_weight(i),
    ensures
        ((sum as i32) | (((b as i32) & 0x7f) << ((7 * i) as i32)))
            == ((sum + (b % 0x80) as nat * group_weight(i)) as u32) as i32,
{
    lemma_group_weights();
    if i == 0 {
        assert(((sum as i32) | (((b as i32) & 0x7f) << 0i32)) == ((sum + (b % 0x80)) as u32) as i32)
            by (bit_vector)
            requires
                sum < 1,
        ;
    } else if i == 1 {
        assert(((sum as i32) | (((b as i32) & 0x7f) << 7i32)) == ((sum + (b % 0x80) * 0x80) as u32) as i32)
            by (bit_vector)
            requires
                sum < 0x80,
        ;
    } else if i == 2 {
        assert(((sum as i32) | (((b as i32) & 0x7f) << 14i32)) == ((sum + (b % 0x80) * 0x4000) as u32) as i32)
            by (bit_vector)
            requires
                sum < 0x4000,
        ;
    } else if i == 3 {
        assert(((sum as i32) | (((b as i32) & 0x7f) << 21i32)) == ((sum + (b % 0x80) * 0x200000) as u32) as i32)
            by (bit_vector)
            requires
                sum < 0x200000,
        ;
    } else {
        assert(((sum as i32) | (((b as i32) & 0x7f) << 28i32)) == ((sum + (b % 0x80) * 0x10000000) as u32) as i32)
            by (bit_vector)
            requires
                sum < 0x10000000,
        ;
    }
}

/// Decoding from byte `i` on, with the lower groups already summed in `acc`.
proof fn lemma_var_int_decode_from_value(bytes: Seq<u8>, i: nat, acc: i32)
    requires
        i <= 5,
        acc == (group_sum(bytes, i) as u32) as i32,
    ensures
        var_int_decode_from(bytes, i, acc) matches Ok((n, v)) ==> i <= n <= 5 && v == (group_sum(
            bytes,
            n,
        ) as u32) as i32,
    decreases bytes.len() - i,
{
    if i < bytes.len() && i < 5 {
        lemma_group_weights();
        lemma_group_sum_bound(bytes, i);
        let sum = group_sum(bytes, i);
        assert(sum < 0x10000000);
        let b = bytes[i as int];
        lemma_add_group(i, sum as u32, b);
        assert((sum as u32) as i32 == acc);
        let next = acc | (((b as i32) & 0x7f) << ((7 * i) as i32));
        assert(next == (group_sum(bytes, i + 1) as u32) as i32);
        if b & 0x80 != 0 && i != 4 {
            lemma_var_int_decode_from_value(bytes, i + 1, next);
        }
    }
}

/// What a successful VarInt decode gives, said directly: it read at most five
/// bytes, and the value is the sum of their seven-bit groups, each times 128
/// to the power of its place, cut to 32 bits.
pub proof fn lemma_var_int_decode_value(bytes: Seq<u8>)
    ensures
        var_int_decode(bytes) matches Ok((n, v)) ==> n <= 5 && v == (group_sum(bytes, n) as u32) as i32,
{
    assert(group_sum(bytes, 0) == 0);
    lemma_var_int_decode_from_value(bytes, 0, 0);
}

/// Decoding from byte `i` reads no byte past the end.
proof fn lemma_var_int_decode_len(b: Seq<u8>, i: nat, acc: i32)
    requires
        i <= b.len(),
    ensures
        var_int_decode_from(b, i, acc) matches Ok((n, _)) ==> i <= n <= b.len(),
    decreases b.len() - i,
{
    if i < b.len() && i < 5 {
        let b_i = b[i as int];
        let next = acc | (((b_i as i32) & 0x7f) << ((7 * i) as i32));
        if b_i & 0x80 != 0 && i != 4 {
            lemma_var_int_decode_len(b, i + 1, next);
        }
    }
}

/// Decoding from byte `i` on looks only at the bytes up to the one it stops at.
proof fn lemma_var_int_decode_from_prefix(b: Seq<u8>, c: Seq<u8>, i: nat, acc: i32)
    requires
        var_int_decode_from(b, i, acc) matches Ok((n, _)) && i < n && b[n - 1] & 0x80 == 0
            && n <= c.len() && c.take(n as int) == b.take(n as int),
    ensures
        var_int_decode_from(c, i, acc) == var_int_decode_from(b, i, acc),
    decreases b.len() - i,
{
    let n = var_int_decode_from(b, i, acc)->Ok_0.0;
    assert(i < b.len());
    lemma_var_int_decode_len(b, i, acc);
    assert(b[i as int] == b.take(n as int)[i as int]);
    assert(c[i as int] == c.take(n as int)[i as int]);
    if i < b.len() && i < 5 {
        let b_i = b[i as int];
        let next = acc | (((b_i as i32) & 0x7f) << ((7 * i) as i32));
        if b_i & 0x80 != 0 && i != 4 {
            lemma_var_int_decode_from_prefix(b, c, i + 1, next);
        }
    }
}

/// Decoding a VarInt that ended on a byte with bit 7 clear reads the same
/// value from those bytes whatever follows them.
pub proof fn lemma_var_int_decode_prefix(b: Seq<u8>, rest: Seq<u8>)
    requires
        var_int_decode(b) matches Ok((n, _)) && 0 < n && b[n - 1] & 0x80 == 0,
    ensures
        var_int_decode(b.take(var_int_decode(b)->Ok_0.0 as int) + rest) == var_int_decode(b),
{
    let n = var_int_decode(b)->Ok_0.0;
    lemma_var_int_decode_len(b, 0, 0);
    let c = b.take(n as int) + rest;
    assert(c.take(n as int) =~= b.take(n as int));
    lemma_var_int_decode_from_prefix(b, c, 0, 0);
}

/// Decoding reads back the string that `encode` wrote, and exactly its bytes,
/// whatever follows, for every string whose length fits an `i32`.
pub proof fn lemma_string_round_trip(s: Seq<char>, rest: Seq<u8>)
    requires
        encode_utf8(s).len() <= i32::MAX,
    ensures
        string_decodable(string_encoding(s) + rest),
        string_decode(string_encoding(s) + rest) == Ok::<(nat, Seq<char>), Error>(
            (string_encoding(s).len(), s),
        ),
{
    let len = string_length_prefix(s);
    let body = encode_utf8(s);
    assert(len == body.len());
    let prefix = var_int_encoding(len);
    let bytes = string_encoding(s) + rest;
    assert(bytes == prefix + (body + rest));
    lemma_var_int_round_trip(len, body + rest);
    assert(bytes.subrange(prefix.len() as int, prefix.len() + len) =~= body);
    vstd::utf8::encode_utf8_valid_utf8(s);
    vstd::utf8::encode_utf8_decode_utf8(s);
}

/// Decoding a string whose length prefix ended on a byte with bit 7 clear
/// reads the same string from the bytes it ate whatever follows them.
pub proof fn lemma_string_decode_prefix(b: Seq<u8>, rest: Seq<u8>)
    requires
        string_decodable(b),
        string_decode(b) is Ok,
        var_int_decode(b) matches Ok((m, _)) && 0 < m && b[m - 1] & 0x80 == 0,
    ensures
        string_decodable(b.take(string_decode(b)->Ok_0.0 as int) + rest),
        string_decode(b.take(string_decode(b)->Ok_0.0 as int) + rest) == string_decode(b),
{
    let (m, l) = var_int_decode(b)->Ok_0;
    let n = string_decode(b)->Ok_0.0;
    assert(n == m + l);
    let c = b.take(n as int) + rest;
    let after = b.skip(m as int).take(l as int) + rest;
    assert(c =~= b.take(m as int) + after);
    lemma_var_int_decode_prefix(b, after);
    assert(c.subrange(m as int, m + l) =~= b.subrange(m as int, m + l));
}

/// The first eight bytes, read big-endian, as a sum.
pub(crate) proof fn lemma_big_endian_8(bytes: Seq<u8>)
    requires
        bytes.len() >= 8,
    ensures
        big_endian(bytes.take(8)) == bytes[0] * 0x100000000000000 + bytes[1] * 0x1000000000000
            + bytes[2] * 0x10000000000 + bytes[3] * 0x100000000 + bytes[4] * 0x1000000
            + bytes[5] * 0x10000 + bytes[6] * 0x100 + bytes[7],
{
    lemma_big_endian_prefix(bytes, 1);
    lemma_big_endian_prefix(bytes, 2);
    lemma_big_endian_prefix(bytes, 3);
    lemma_big_endian_prefix(bytes, 4);
    lemma_big_endian_prefix(bytes, 5);
    lemma_big_endian_prefix(bytes, 6);
    lemma_big_endian_prefix(bytes, 7);
    lemma_big_endian_prefix(bytes, 8);
}

/// Reading one more byte shifts what was read by a byte.
pub proof fn lemma_big_endian_prefix(bytes: Seq<u8>, k: int)
    requires
        0 < k <= bytes.len(),
    ensures
        big_endian(bytes.take(k)) == big_endian(bytes.take(k - 1)) * 256 + bytes[k - 1] as nat,
        big_endian(bytes.take(0)) == 0,
{
    assert(bytes.take(k).drop_last() =~= bytes.take(k - 1));
    assert(bytes.take(0) =~= Seq::<u8>::empty());
}

} // verus!
