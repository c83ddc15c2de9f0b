//! Common executable types and primitive readers/writers for the wire
//! format: variable-length integers, strings, fixed-width integers and
//! UUIDs.

use vstd::prelude::*;

use crate::encoding::{
    leb_parse, lemma_leb_parse_consumed, lemma_var_int_bytes_len, lemma_var_long_bytes_len,
    parse_string, parse_u16, parse_var_int, parse_var_long, string_bytes, var_int_bytes,
    var_long_bytes,
};
use crate::error::Error;
use vstd::string::StrSliceExecFns;
use vstd::string::StringSliceAdditionalSpecFns;

verus! {

/// A decoded variable-length 32-bit integer together with the number
/// of bytes its encoding occupied on the wire.
#[derive(Clone, Copy, Debug, PartialEq, Eq, Structural, Default)]
pub struct VarInt {
    pub value: i32,
    pub size: usize,
}

impl VarInt {
    /// A `VarInt` is well formed when `size` is the length of the
    /// minimal encoding of `value`.
    pub open spec fn wf(self) -> bool {
        self.size == var_int_bytes(self.value).len()
    }

    /// Builds the canonical `VarInt` for a value: `size` is the true
    /// encoded length.
    pub fn from_value(value: i32) -> (r: VarInt)
        ensures
            r.value == value,
            r.wf(),
    {
        let mut scratch: Vec<u8> = Vec::new();
        let size = write_var_int(&mut scratch, value);
        VarInt { value, size }
    }
}

impl From<i32> for VarInt {
    /// The canonical `VarInt` for a value.
    fn from(value: i32) -> (r: VarInt) {
        VarInt::from_value(value)
    }
}

impl vstd::std_specs::convert::FromSpecImpl<i32> for VarInt {
    open spec fn obeys_from_spec() -> bool {
        true
    }

    open spec fn from_spec(value: i32) -> VarInt {
        VarInt { value, size: var_int_bytes(value).len() as usize }
    }
}

/// A decoded variable-length 64-bit integer together with the number
/// of bytes its encoding occupied on the wire.
#[derive(Clone, Copy, Debug, PartialEq, Eq, Structural, Default)]
pub struct VarLong {
    pub value: i64,
    pub size: usize,
}

impl VarLong {
    /// A `VarLong` is well formed when `size` is the length of the
    /// minimal encoding of `value`.
    pub open spec fn wf(self) -> bool {
        self.size == var_long_bytes(self.value).len()
    }

    /// Builds the canonical `VarLong` for a value.
    pub fn from_value(value: i64) -> (r: VarLong)
        ensures
            r.value == value,
            r.wf(),
    {
        let mut scratch: Vec<u8> = Vec::new();
        let size = write_var_long(&mut scratch, value);
        VarLong { value, size }
    }
}

impl From<i64> for VarLong {
    /// The canonical `VarLong` for a value.
    fn from(value: i64) -> (r: VarLong) {
        VarLong::from_value(value)
    }
}

impl vstd::std_specs::convert::FromSpecImpl<i64> for VarLong {
    open spec fn obeys_from_spec() -> bool {
        true
    }

    open spec fn from_spec(value: i64) -> VarLong {
        VarLong { value, size: var_long_bytes(value).len() as usize }
    }
}

/// Reads base-128 groups from `buf` until a terminator byte, consuming
/// at most `max` bytes; the accumulated value is truncated to 64 bits.
fn leb_read(buf: &[u8], max: usize) -> (r: Result<(u64, usize), Error>)
    ensures
        match leb_parse(buf@, max as nat) {
            Some((v, n)) => r matches Ok((rv, rn)) && rv == (v % 0x1_0000_0000_0000_0000) as u64
                && rn == n,
            None => r matches Err(e) && e == Error::MalformedVarInt,
        },
    decreases max,
{
    if max == 0 || buf.len() == 0 {
        return Err(Error::MalformedVarInt);
    }
    let b = *vstd::slice::slice_index_get(buf, 0);
    if b < 0x80 {
        return Ok((b as u64, 1));
    }
    let tail = vstd::slice::slice_subrange(buf, 1, buf.len());
    assert(tail@ =~= buf@.skip(1));
    match leb_read(tail, max - 1) {
        Err(e) => Err(e),
        Ok((v, n)) => {
            let group = (b - 0x80) as u64;
            let prod = (v % 0x0200_0000_0000_0000) * 0x80;
            let value = prod + group;
            proof {
                let (rawv, rawn) = leb_parse(buf@.skip(1), (max - 1) as nat)->Some_0;
                lemma_leb_parse_consumed(buf@.skip(1), (max - 1) as nat);
                assert(v == rawv % 0x1_0000_0000_0000_0000);
                assert(prod == (rawv * 0x80) % 0x1_0000_0000_0000_0000) by (nonlinear_arith)
                    requires
                        prod == (rawv % 0x1_0000_0000_0000_0000) % 0x0200_0000_0000_0000 * 0x80,
                        rawv >= 0,
                ;
                assert(value == (group + rawv * 0x80) % 0x1_0000_0000_0000_0000)
                    by (nonlinear_arith)
                    requires
                        value == (rawv * 0x80) % 0x1_0000_0000_0000_0000 + group,
                        group < 0x80,
                        rawv >= 0,
                ;
            }
            Ok((value, n + 1))
        },
    }
}

/// Reads a VarInt from the front of `buf`: at most five base-128
/// groups, truncated to the 32-bit value. Fails with `MalformedVarInt`
/// when no terminator stands among the first five bytes present.
pub fn read_var_int(buf: &[u8]) -> (r: Result<VarInt, Error>)
    ensures
        match parse_var_int(buf@) {
            Some((v, n)) => r matches Ok(vi) && vi.value == v && vi.size == n,
            None => r matches Err(e) && e == Error::MalformedVarInt,
        },
{
    match leb_read(buf, 5) {
        Err(e) => Err(e),
        Ok((v, n)) => {
            let v32 = (v % 0x1_0000_0000) as u32;
            proof {
                if leb_parse(buf@, 5) is Some {
                    let (rawv, _) = leb_parse(buf@, 5)->Some_0;
                    assert(v32 == rawv % 0x1_0000_0000) by (nonlinear_arith)
                        requires
                            v32 == (rawv % 0x1_0000_0000_0000_0000) % 0x1_0000_0000,
                            rawv >= 0,
                    ;
                }
            }
            Ok(VarInt { value: u32_as_i32(v32), size: n })
        },
    }
}

/// Reads a VarLong from the front of `buf`: at most ten base-128
/// groups, truncated to the 64-bit value.
pub fn read_var_long(buf: &[u8]) -> (r: Result<VarLong, Error>)
    ensures
        match parse_var_long(buf@) {
            Some((v, n)) => r matches Ok(vl) && vl.value == v && vl.size == n,
            None => r matches Err(e) && e == Error::MalformedVarLong,
        },
{
    match leb_read(buf, 10) {
        Err(_) => Err(Error::MalformedVarLong),
        Ok((v, n)) => Ok(VarLong { value: u64_as_i64(v), size: n }),
    }
}

/// Reinterprets a 32-bit pattern as its two's-complement value.
pub(crate) fn u32_as_i32(v: u32) -> (r: i32)
    ensures
        r == v as i32,
{
    #[verifier::truncate]
    (v as i32)
}

/// Reinterprets a 64-bit pattern as its two's-complement value.
pub(crate) fn u64_as_i64(v: u64) -> (r: i64)
    ensures
        r == v as i64,
{
    #[verifier::truncate]
    (v as i64)
}

/// Appends the minimal VarInt encoding of `value` to `buf` and returns
/// the number of bytes written.
pub fn write_var_int(buf: &mut Vec<u8>, value: i32) -> (n: usize)
    ensures
        final(buf)@ == old(buf)@ + var_int_bytes(value),
        n == var_int_bytes(value).len(),
        1 <= n <= 5,
{
    proof {
        lemma_var_int_bytes_len(value);
    }
    let u = #[verifier::truncate] (value as u32);
    leb_write_u64(buf, u as u64)
}

/// Appends the minimal VarLong encoding of `value` to `buf` and
/// returns the number of bytes written.
pub fn write_var_long(buf: &mut Vec<u8>, value: i64) -> (n: usize)
    ensures
        final(buf)@ == old(buf)@ + var_long_bytes(value),
        n == var_long_bytes(value).len(),
        1 <= n <= 10,
{
    proof {
        lemma_var_long_bytes_len(value);
    }
    let u = #[verifier::truncate] (value as u64);
    leb_write_u64(buf, u)
}

/// Appends the base-128 groups of `u` to `buf`.
fn leb_write_u64(buf: &mut Vec<u8>, u: u64) -> (n: usize)
    ensures
        final(buf)@ == old(buf)@ + crate::encoding::leb_encode(u as nat),
        n == crate::encoding::leb_encode(u as nat).len(),
        1 <= n <= 10,
    decreases u,
{
    proof {
        crate::encoding::lemma_pow128_values();
        crate::encoding::lemma_leb_encode_len(u as nat, 10);
    }
    if u < 0x80 {
        buf.push(u as u8);
        1
    } else {
        buf.push((u % 0x80 + 0x80) as u8);
        let rest = leb_write_u64(buf, u / 0x80);
        proof {
            assert(buf@ =~= old(buf)@ + crate::encoding::leb_encode(u as nat));
        }
        rest + 1
    }
}

/// A 128-bit UUID, most significant half first.
#[derive(Clone, Copy, Debug, PartialEq, Eq, Structural)]
pub struct MinecraftUuid {
    pub most: u64,
    pub least: u64,
}

/// Relies on `String::from_utf8`: it succeeds exactly on valid UTF-8
/// input, and the returned string holds the decoded characters.
#[verifier::external_body]
fn bytes_to_string(v: Vec<u8>) -> (r: Option<String>)
    ensures
        r is Some <==> vstd::utf8::valid_utf8(v@),
        r matches Some(s) ==> s@ == vstd::utf8::decode_utf8(v@),
{
    match String::from_utf8(v) {
        Ok(s) => Some(s),
        Err(_) => None,
    }
}

/// Reads a length-prefixed UTF-8 string from the front of `buf`,
/// also yielding the total number of bytes consumed.
pub fn read_string_with_len(buf: &[u8]) -> (r: Result<(String, usize), Error>)
    ensures
        match parse_string(buf@) {
            Some((cs, n)) => r matches Ok((s, rn)) && s@ == cs && rn == n,
            None => r matches Err(e) && e == Error::MalformedString,
        },
{
    let vi = match read_var_int(buf) {
        Ok(vi) => vi,
        Err(_) => {
            return Err(Error::MalformedString);
        },
    };
    proof {
        lemma_leb_parse_consumed(buf@, 5);
    }
    if vi.value < 0 {
        return Err(Error::MalformedString);
    }
    let len = vi.value as usize;
    if buf.len() - vi.size < len {
        return Err(Error::MalformedString);
    }
    let body = vstd::slice::slice_subrange(buf, vi.size, vi.size + len);
    let bytes = vstd::slice::slice_to_vec(body);
    assert(bytes@ =~= buf@.subrange(vi.size as int, vi.size + vi.value));
    match bytes_to_string(bytes) {
        Some(s) => Ok((s, vi.size + len)),
        None => Err(Error::MalformedString),
    }
}

/// Reads a length-prefixed UTF-8 string from the front of `buf`.
pub fn read_string(buf: &[u8]) -> (r: Result<String, Error>)
    ensures
        match parse_string(buf@) {
            Some((cs, _)) => r matches Ok(s) && s@ == cs,
            None => r matches Err(e) && e == Error::MalformedString,
        },
{
    match read_string_with_len(buf) {
        Ok((s, _)) => Ok(s),
        Err(e) => Err(e),
    }
}

/// Appends the wire form of a string — VarInt byte count, then UTF-8
/// bytes — to `buf`. Fails only when the byte count overflows the
/// prefix.
pub fn write_string(buf: &mut Vec<u8>, s: &str) -> (r: Result<usize, Error>)
    ensures
        match r {
            Ok(n) => s.spec_bytes().len() <= 0x7fff_ffff && final(buf)@ == old(buf)@
                + string_bytes(s@) && n == string_bytes(s@).len(),
            Err(e) => e == Error::OversizedPayload && s.spec_bytes().len() > 0x7fff_ffff
                && final(buf)@ == old(buf)@,
        },
{
    let bytes = s.as_bytes();
    if bytes.len() > 0x7fff_ffff {
        return Err(Error::OversizedPayload);
    }
    let prefix = write_var_int(buf, bytes.len() as i32);
    buf.extend_from_slice(bytes);
    Ok(prefix + bytes.len())
}

/// Reads a big-endian 16-bit unsigned integer from the front of `buf`.
pub fn read_unsigned_short(buf: &[u8]) -> (r: Result<u16, Error>)
    ensures
        match parse_u16(buf@) {
            Some((v, _)) => r matches Ok(rv) && rv == v,
            None => r matches Err(e) && e == Error::MalformedU16,
        },
{
    if buf.len() < 2 {
        return Err(Error::MalformedU16);
    }
    let b0 = *vstd::slice::slice_index_get(buf, 0);
    let b1 = *vstd::slice::slice_index_get(buf, 1);
    Ok((b0 as u16) << 8 | (b1 as u16))
}

} // verus!
