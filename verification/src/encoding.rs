//! The mathematical model of the wire format: specification-level
//! encoders and parsers for the primitive constructs, and the lemmas
//! that relate them.

use vstd::prelude::*;

verus! {

// ---------------------------------------------------------------------
// Variable-length integers.
//
// A VarInt / VarLong stores seven payload bits per byte, least
// significant group first; the high bit of a byte is set exactly when
// another byte follows.
// ---------------------------------------------------------------------

/// The encoded form of the raw (unsigned) value `u`: its base-128
/// digits, least significant first, each carrying a continuation bit
/// except the last.
pub open spec fn leb_encode(u: nat) -> Seq<u8>
    decreases u,
{
    if u < 0x80 {
        seq![u as u8]
    } else {
        seq![(u % 0x80 + 0x80) as u8] + leb_encode(u / 0x80)
    }
}

/// Reads base-128 groups until the first byte with a clear high bit,
/// consuming at most `max` bytes; yields the raw accumulated value and
/// the number of bytes consumed. `None` when no terminator byte occurs
/// among the first `max` bytes present.
pub open spec fn leb_parse(s: Seq<u8>, max: nat) -> Option<(nat, nat)>
    decreases max,
{
    if max == 0 || s.len() == 0 {
        None
    } else if s[0] < 0x80 {
        Some((s[0] as nat, 1nat))
    } else {
        match leb_parse(s.skip(1), (max - 1) as nat) {
            None => None,
            Some((v, n)) => Some(((s[0] - 0x80) as nat + v * 0x80, (n + 1) as nat)),
        }
    }
}

/// The wire bytes of a VarInt: the base-128 groups of the value's
/// 32-bit two's-complement bit pattern.
pub open spec fn var_int_bytes(v: i32) -> Seq<u8> {
    leb_encode((v as u32) as nat)
}

/// The wire bytes of a VarLong.
pub open spec fn var_long_bytes(v: i64) -> Seq<u8> {
    leb_encode((v as u64) as nat)
}

/// Decodes a VarInt from the front of `s`: at most five bytes, the
/// accumulated groups truncated to 32 bits. Yields the value and the
/// number of bytes consumed.
pub open spec fn parse_var_int(s: Seq<u8>) -> Option<(i32, nat)> {
    match leb_parse(s, 5) {
        None => None,
        Some((v, n)) => Some((((v % 0x1_0000_0000) as u32) as i32, n)),
    }
}

/// Decodes a VarLong from the front of `s`: at most ten bytes, the
/// accumulated groups truncated to 64 bits.
pub open spec fn parse_var_long(s: Seq<u8>) -> Option<(i64, nat)> {
    match leb_parse(s, 10) {
        None => None,
        Some((v, n)) => Some((((v % 0x1_0000_0000_0000_0000) as u64) as i64, n)),
    }
}

/// 128 raised to `k`: the number of raw values whose encoding fits in
/// `k` bytes.
pub open spec fn pow128(k: nat) -> nat
    decreases k,
{
    if k == 0 {
        1
    } else {
        128 * pow128((k - 1) as nat)
    }
}

/// An encoding never has more bytes than the value has base-128 digits.
pub proof fn lemma_leb_encode_len(u: nat, k: nat)
    requires
        1 <= k,
        u < pow128(k),
    ensures
        1 <= leb_encode(u).len() <= k,
    decreases k,
{
    if u < 0x80 {
    } else {
        assert(pow128(k) == 128 * pow128((k - 1) as nat));
        assert(u / 0x80 < pow128((k - 1) as nat)) by (nonlinear_arith)
            requires
                u < 128 * pow128((k - 1) as nat),
        ;
        assert(k >= 2) by {
            if k == 1 {
                assert(pow128(1nat) == 128 * pow128(0nat));
            }
        }
        lemma_leb_encode_len(u / 0x80, (k - 1) as nat);
    }
}

pub proof fn lemma_pow128_values()
    ensures
        pow128(5) == 0x8_0000_0000,
        pow128(10) == 0x40_0000_0000_0000_0000,
{
    assert(pow128(0) == 1nat);
    assert(pow128(1) == 0x80nat);
    assert(pow128(2) == 0x4000nat);
    assert(pow128(3) == 0x20_0000nat);
    assert(pow128(4) == 0x1000_0000nat);
    assert(pow128(5) == 0x8_0000_0000nat);
    assert(pow128(6) == 0x400_0000_0000nat);
    assert(pow128(7) == 0x2_0000_0000_0000nat);
    assert(pow128(8) == 0x100_0000_0000_0000nat);
    assert(pow128(9) == 0x8000_0000_0000_0000nat);
    assert(pow128(10) == 0x40_0000_0000_0000_0000nat);
}

/// A VarInt encodes in one to five bytes.
pub proof fn lemma_var_int_bytes_len(v: i32)
    ensures
        1 <= var_int_bytes(v).len() <= 5,
{
    lemma_pow128_values();
    lemma_leb_encode_len((v as u32) as nat, 5);
}

/// A VarLong encodes in one to ten bytes.
pub proof fn lemma_var_long_bytes_len(v: i64)
    ensures
        1 <= var_long_bytes(v).len() <= 10,
{
    lemma_pow128_values();
    lemma_leb_encode_len((v as u64) as nat, 10);
}

/// Parsing an encoding, with anything at all appended, yields exactly
/// the encoded value and consumes exactly the encoding.
pub proof fn lemma_leb_parse_encode(u: nat, rest: Seq<u8>, max: nat)
    requires
        leb_encode(u).len() <= max,
    ensures
        leb_parse(leb_encode(u) + rest, max) == Some((u, leb_encode(u).len())),
    decreases u,
{
    let s = leb_encode(u) + rest;
    if u < 0x80 {
        assert(s[0] == u as u8);
        assert((u as u8) as nat == u);
    } else {
        assert(s[0] == (u % 0x80 + 0x80) as u8);
        assert(u % 0x80 + 0x80 < 0x100);
        assert(s[0] >= 0x80);
        assert(s.skip(1) =~= leb_encode(u / 0x80) + rest);
        assert(u / 0x80 < u) by (nonlinear_arith)
            requires
                u >= 0x80,
        ;
        lemma_leb_parse_encode(u / 0x80, rest, (max - 1) as nat);
        let n = leb_encode(u / 0x80).len();
        assert(leb_parse(s.skip(1), (max - 1) as nat) == Some((u / 0x80, n)));
        assert((s[0] - 0x80) as nat == u % 0x80);
        assert(u % 0x80 + (u / 0x80) * 0x80 == u) by (nonlinear_arith);
        assert(leb_parse(s, max) == Some((u, (n + 1) as nat)));
    }
}

/// `leb_parse` fails exactly when no terminator byte stands among the
/// first `max` bytes present.
pub proof fn lemma_leb_parse_none(s: Seq<u8>, max: nat)
    ensures
        leb_parse(s, max) is None <==> (forall|i: int|
            0 <= i < s.len() && i < max ==> s[i] >= 0x80),
    decreases max,
{
    if max == 0 || s.len() == 0 {
    } else if s[0] < 0x80 {
    } else {
        lemma_leb_parse_none(s.skip(1), (max - 1) as nat);
        if leb_parse(s, max) is None {
            assert forall|i: int| 0 <= i < s.len() && i < max implies s[i] >= 0x80 by {
                if i > 0 {
                    assert(s.skip(1)[i - 1] == s[i]);
                }
            }
        } else {
            assert(leb_parse(s.skip(1), (max - 1) as nat) is Some);
            let j = choose|j: int|
                0 <= j < s.skip(1).len() && j < max - 1 && !(s.skip(1)[j] >= 0x80);
            assert(s[j + 1] == s.skip(1)[j]);
            assert(!(forall|i: int| 0 <= i < s.len() && i < max ==> s[i] >= 0x80));
        }
    }
}

/// A successful parse is unaffected by appending further bytes.
pub proof fn lemma_leb_parse_extend(s: Seq<u8>, ext: Seq<u8>, max: nat)
    requires
        leb_parse(s, max) is Some,
    ensures
        leb_parse(s + ext, max) == leb_parse(s, max),
    decreases max,
{
    if max == 0 || s.len() == 0 {
    } else if s[0] < 0x80 {
        assert((s + ext)[0] == s[0]);
    } else {
        assert((s + ext)[0] == s[0]);
        assert((s + ext).skip(1) =~= s.skip(1) + ext);
        lemma_leb_parse_extend(s.skip(1), ext, (max - 1) as nat);
    }
}

/// A successful parse consumes no more than `max` bytes, at least one,
/// and never more than the input holds.
pub proof fn lemma_leb_parse_consumed(s: Seq<u8>, max: nat)
    requires
        leb_parse(s, max) is Some,
    ensures
        1 <= leb_parse(s, max)->Some_0.1 <= max,
        leb_parse(s, max)->Some_0.1 <= s.len(),
    decreases max,
{
    if max == 0 || s.len() == 0 {
    } else if s[0] < 0x80 {
    } else {
        lemma_leb_parse_consumed(s.skip(1), (max - 1) as nat);
    }
}

/// A parse that succeeds never reads past its terminator: it gives the
/// same answer on any prefix that still holds the consumed bytes.
pub proof fn lemma_leb_parse_take(s: Seq<u8>, k: int, max: nat)
    requires
        leb_parse(s, max) is Some,
        leb_parse(s, max)->Some_0.1 <= k <= s.len(),
    ensures
        leb_parse(s.take(k), max) == leb_parse(s, max),
    decreases max,
{
    if max == 0 || s.len() == 0 {
    } else if s[0] < 0x80 {
        assert(s.take(k)[0] == s[0]);
    } else {
        assert(s.take(k)[0] == s[0]);
        lemma_leb_parse_consumed(s.skip(1), (max - 1) as nat);
        assert(s.take(k).skip(1) =~= s.skip(1).take(k - 1));
        lemma_leb_parse_take(s.skip(1), k - 1, (max - 1) as nat);
    }
}

// ---------------------------------------------------------------------
// VarInt / VarLong round trips.
// ---------------------------------------------------------------------

/// Decoding the encoding of a VarInt value, with anything appended,
/// yields the value back and consumes exactly the encoded length.
pub proof fn lemma_parse_var_int_encode(v: i32, rest: Seq<u8>)
    ensures
        parse_var_int(var_int_bytes(v) + rest) == Some((v, var_int_bytes(v).len())),
{
    lemma_var_int_bytes_len(v);
    let u = (v as u32) as nat;
    lemma_leb_parse_encode(u, rest, 5);
    assert(u % 0x1_0000_0000 == u);
    assert((v as u32) as i32 == v) by (bit_vector);
}

/// Decoding the encoding of a VarLong value, with anything appended,
/// yields the value back and consumes exactly the encoded length.
pub proof fn lemma_parse_var_long_encode(v: i64, rest: Seq<u8>)
    ensures
        parse_var_long(var_long_bytes(v) + rest) == Some((v, var_long_bytes(v).len())),
{
    lemma_var_long_bytes_len(v);
    let u = (v as u64) as nat;
    lemma_leb_parse_encode(u, rest, 10);
    assert(u % 0x1_0000_0000_0000_0000 == u);
    assert((v as u64) as i64 == v) by (bit_vector);
}

/// A successful VarInt parse consumes one to five bytes, never more
/// than the input holds, and ignores anything appended after it.
pub proof fn lemma_parse_var_int_props(s: Seq<u8>, ext: Seq<u8>)
    requires
        parse_var_int(s) is Some,
    ensures
        1 <= parse_var_int(s)->Some_0.1 <= 5,
        parse_var_int(s)->Some_0.1 <= s.len(),
        parse_var_int(s + ext) == parse_var_int(s),
{
    lemma_leb_parse_consumed(s, 5);
    lemma_leb_parse_extend(s, ext, 5);
}

// ---------------------------------------------------------------------
// Fixed-width big-endian integers.
// ---------------------------------------------------------------------

/// The two big-endian bytes of a 16-bit unsigned integer.
pub open spec fn u16_be_bytes(v: u16) -> Seq<u8> {
    seq![(v >> 8) as u8, v as u8]
}

/// The eight big-endian bytes of a 64-bit unsigned integer.
pub open spec fn u64_be_bytes(v: u64) -> Seq<u8> {
    seq![
        (v >> 56) as u8,
        (v >> 48) as u8,
        (v >> 40) as u8,
        (v >> 32) as u8,
        (v >> 24) as u8,
        (v >> 16) as u8,
        (v >> 8) as u8,
        v as u8,
    ]
}

/// The four big-endian bytes of a 32-bit unsigned integer.
pub open spec fn u32_be_bytes(v: u32) -> Seq<u8> {
    seq![(v >> 24) as u8, (v >> 16) as u8, (v >> 8) as u8, v as u8]
}

/// The four big-endian bytes of a 32-bit signed integer.
pub open spec fn i32_be_bytes(v: i32) -> Seq<u8> {
    u32_be_bytes(v as u32)
}

/// The eight big-endian bytes of a 64-bit signed integer.
pub open spec fn i64_be_bytes(v: i64) -> Seq<u8> {
    u64_be_bytes(v as u64)
}

/// Reads a big-endian 16-bit unsigned integer.
pub open spec fn parse_u16(s: Seq<u8>) -> Option<(u16, nat)> {
    if s.len() < 2 {
        None
    } else {
        Some((((s[0] as u16) << 8 | (s[1] as u16)) as u16, 2nat))
    }
}

/// Reads a big-endian 64-bit unsigned integer.
pub open spec fn parse_u64(s: Seq<u8>) -> Option<(u64, nat)> {
    if s.len() < 8 {
        None
    } else {
        Some(
            (
                ((s[0] as u64) << 56 | (s[1] as u64) << 48 | (s[2] as u64) << 40 | (s[3] as u64)
                    << 32 | (s[4] as u64) << 24 | (s[5] as u64) << 16 | (s[6] as u64) << 8 | (
                s[7] as u64)) as u64,
                8nat,
            ),
        )
    }
}

/// Reads a big-endian 64-bit signed integer.
pub open spec fn parse_i64(s: Seq<u8>) -> Option<(i64, nat)> {
    match parse_u64(s) {
        None => None,
        Some((v, n)) => Some((v as i64, n)),
    }
}

/// Reads a big-endian 32-bit signed integer.
pub open spec fn parse_i32(s: Seq<u8>) -> Option<(i32, nat)> {
    if s.len() < 4 {
        None
    } else {
        Some(
            (
                (((s[0] as u32) << 24 | (s[1] as u32) << 16 | (s[2] as u32) << 8 | (
                s[3] as u32)) as u32) as i32,
                4nat,
            ),
        )
    }
}

pub proof fn lemma_parse_u16_encode(v: u16, rest: Seq<u8>)
    ensures
        parse_u16(u16_be_bytes(v) + rest) == Some((v, 2nat)),
{
    let s = u16_be_bytes(v) + rest;
    assert(s[0] == (v >> 8) as u8 && s[1] == v as u8);
    assert(((((v >> 8) as u8) as u16) << 8 | ((v as u8) as u16)) == v) by (bit_vector);
}

pub proof fn lemma_parse_u64_encode(v: u64, rest: Seq<u8>)
    ensures
        parse_u64(u64_be_bytes(v) + rest) == Some((v, 8nat)),
{
    let s = u64_be_bytes(v) + rest;
    assert(s[0] == (v >> 56) as u8);
    assert(s[1] == (v >> 48) as u8);
    assert(s[2] == (v >> 40) as u8);
    assert(s[3] == (v >> 32) as u8);
    assert(s[4] == (v >> 24) as u8);
    assert(s[5] == (v >> 16) as u8);
    assert(s[6] == (v >> 8) as u8);
    assert(s[7] == v as u8);
    assert((((v >> 56) as u8) as u64) << 56 | (((v >> 48) as u8) as u64) << 48 | (((v
        >> 40) as u8) as u64) << 40 | (((v >> 32) as u8) as u64) << 32 | (((v
        >> 24) as u8) as u64) << 24 | (((v >> 16) as u8) as u64) << 16 | (((v
        >> 8) as u8) as u64) << 8 | ((v as u8) as u64) == v) by (bit_vector);
}

pub proof fn lemma_parse_i64_encode(v: i64, rest: Seq<u8>)
    ensures
        parse_i64(i64_be_bytes(v) + rest) == Some((v, 8nat)),
{
    lemma_parse_u64_encode(v as u64, rest);
    assert((v as u64) as i64 == v) by (bit_vector);
}

pub proof fn lemma_parse_i32_encode(v: i32, rest: Seq<u8>)
    ensures
        parse_i32(i32_be_bytes(v) + rest) == Some((v, 4nat)),
{
    let u = v as u32;
    let s = i32_be_bytes(v) + rest;
    assert(s[0] == (u >> 24) as u8);
    assert(s[1] == (u >> 16) as u8);
    assert(s[2] == (u >> 8) as u8);
    assert(s[3] == u as u8);
    assert(((((u >> 24) as u8) as u32) << 24 | (((u >> 16) as u8) as u32) << 16 | (((u
        >> 8) as u8) as u32) << 8 | ((u as u8) as u32)) == u) by (bit_vector);
    assert((v as u32) as i32 == v) by (bit_vector);
}

// ---------------------------------------------------------------------
// Booleans, single bytes, strings, byte sequences, UUIDs.
// ---------------------------------------------------------------------

/// A boolean is one byte: `0x01` reads back as true, anything else as
/// false; `0x00` is the canonical false on the wire.
pub open spec fn bool_byte(v: bool) -> u8 {
    if v {
        1
    } else {
        0
    }
}

pub open spec fn parse_bool(s: Seq<u8>) -> Option<(bool, nat)> {
    if s.len() < 1 {
        None
    } else {
        Some(((s[0] == 1), 1nat))
    }
}

pub open spec fn parse_u8(s: Seq<u8>) -> Option<(u8, nat)> {
    if s.len() < 1 {
        None
    } else {
        Some((s[0], 1nat))
    }
}

/// The wire form of a string: a VarInt byte count followed by the
/// UTF-8 bytes. Faithful only when the byte count fits an `i32`.
pub open spec fn string_bytes(s: Seq<char>) -> Seq<u8> {
    var_int_bytes(vstd::utf8::encode_utf8(s).len() as i32) + vstd::utf8::encode_utf8(s)
}

/// Reads a string: a VarInt byte count, which must be non-negative and
/// covered by the input, then that many bytes decoded as UTF-8.
pub open spec fn parse_string(s: Seq<u8>) -> Option<(Seq<char>, nat)> {
    match parse_var_int(s) {
        None => None,
        Some((l, n)) => if l < 0 || s.len() < n + l {
            None
        } else {
            let body = s.subrange(n as int, n + l);
            if vstd::utf8::valid_utf8(body) {
                Some((vstd::utf8::decode_utf8(body), (n + l) as nat))
            } else {
                None
            }
        },
    }
}

/// Every string whose UTF-8 form fits the length prefix round-trips,
/// whatever follows it on the wire.
pub proof fn lemma_parse_string_encode(cs: Seq<char>, rest: Seq<u8>)
    requires
        vstd::utf8::encode_utf8(cs).len() <= 0x7fff_ffff,
    ensures
        parse_string(string_bytes(cs) + rest) == Some((cs, string_bytes(cs).len())),
{
    let body = vstd::utf8::encode_utf8(cs);
    let l = body.len() as i32;
    let s = string_bytes(cs) + rest;
    assert(s =~= var_int_bytes(l) + (body + rest));
    lemma_parse_var_int_encode(l, body + rest);
    let n = var_int_bytes(l).len() as int;
    assert(s.subrange(n, n + l) =~= body);
    vstd::utf8::encode_utf8_valid_utf8(cs);
    vstd::utf8::encode_utf8_decode_utf8(cs);
}

/// The wire form of a length-prefixed byte sequence: a VarInt count of
/// the bytes, then the bytes themselves.
pub open spec fn byte_vec_bytes(b: Seq<u8>) -> Seq<u8> {
    var_int_bytes(b.len() as i32) + b
}

/// Reads a length-prefixed byte sequence.
pub open spec fn parse_byte_vec(s: Seq<u8>) -> Option<(Seq<u8>, nat)> {
    match parse_var_int(s) {
        None => None,
        Some((l, n)) => if l < 0 || s.len() < n + l {
            None
        } else {
            Some((s.subrange(n as int, n + l), (n + l) as nat))
        },
    }
}

/// Every byte sequence that fits the length prefix round-trips.
pub proof fn lemma_parse_byte_vec_encode(b: Seq<u8>, rest: Seq<u8>)
    requires
        b.len() <= 0x7fff_ffff,
    ensures
        parse_byte_vec(byte_vec_bytes(b) + rest) == Some((b, byte_vec_bytes(b).len())),
{
    let l = b.len() as i32;
    let s = byte_vec_bytes(b) + rest;
    assert(s =~= var_int_bytes(l) + (b + rest));
    lemma_parse_var_int_encode(l, b + rest);
    let n = var_int_bytes(l).len() as int;
    assert(s.subrange(n, n + l) =~= b);
}

/// The sixteen raw bytes of a UUID: the most significant half first,
/// each half big-endian.
pub open spec fn uuid_bytes(most: u64, least: u64) -> Seq<u8> {
    u64_be_bytes(most) + u64_be_bytes(least)
}

pub open spec fn parse_uuid(s: Seq<u8>) -> Option<((u64, u64), nat)> {
    if s.len() < 16 {
        None
    } else {
        let most = parse_u64(s)->Some_0.0;
        let least = parse_u64(s.skip(8))->Some_0.0;
        Some(((most, least), 16nat))
    }
}

pub proof fn lemma_parse_uuid_encode(most: u64, least: u64, rest: Seq<u8>)
    ensures
        parse_uuid(uuid_bytes(most, least) + rest) == Some(((most, least), 16nat)),
{
    let s = uuid_bytes(most, least) + rest;
    assert(s.take(8) =~= u64_be_bytes(most));
    lemma_parse_u64_encode(most, s.skip(8));
    assert(u64_be_bytes(most) + s.skip(8) =~= s);
    assert(s.skip(8) =~= u64_be_bytes(least) + rest);
    lemma_parse_u64_encode(least, rest);
}

} // verus!
