//! The wire-format serializer: appends the encoding of each schema
//! construct to a growing byte buffer.

use vstd::prelude::*;

use crate::encoding::{
    bool_byte, byte_vec_bytes, i32_be_bytes, i64_be_bytes, string_bytes, u16_be_bytes,
    u64_be_bytes, uuid_bytes, var_int_bytes, var_long_bytes,
};
use crate::error::Error;
use crate::types::{write_var_int, write_var_long, write_string, MinecraftUuid};
use vstd::string::StringSliceAdditionalSpecFns;

verus! {

/// Serializes schema constructs into an owned byte buffer, one field
/// at a time, in schema order.
pub struct Serializer {
    output: Vec<u8>,
}

impl View for Serializer {
    type V = Seq<u8>;

    /// The bytes written so far.
    closed spec fn view(&self) -> Seq<u8> {
        self.output@
    }
}

impl Serializer {
    /// A serializer with an empty output buffer.
    pub fn new() -> (r: Serializer)
        ensures
            r@ == Seq::<u8>::empty(),
    {
        Serializer { output: Vec::new() }
    }

    /// Hands the accumulated bytes out.
    pub fn into_bytes(self) -> (r: Vec<u8>)
        ensures
            r@ == self@,
    {
        self.output
    }

    /// One byte: `0x01` for true, `0x00` for false.
    pub fn serialize_bool(&mut self, v: bool)
        ensures
            final(self)@ == old(self)@.push(bool_byte(v)),
    {
        if v {
            self.output.push(1);
        } else {
            self.output.push(0);
        }
    }

    /// One raw byte.
    pub fn serialize_u8(&mut self, v: u8)
        ensures
            final(self)@ == old(self)@.push(v),
    {
        self.output.push(v);
    }

    /// Two bytes, big-endian.
    pub fn serialize_u16(&mut self, v: u16)
        ensures
            final(self)@ == old(self)@ + u16_be_bytes(v),
    {
        self.output.push(#[verifier::truncate] ((v >> 8) as u8));
        self.output.push(#[verifier::truncate] (v as u8));
        proof {
            assert(self@ =~= old(self)@ + u16_be_bytes(v));
        }
    }

    /// Eight bytes, big-endian.
    pub fn serialize_u64(&mut self, v: u64)
        ensures
            final(self)@ == old(self)@ + u64_be_bytes(v),
    {
        self.output.push(#[verifier::truncate] ((v >> 56) as u8));
        self.output.push(#[verifier::truncate] ((v >> 48) as u8));
        self.output.push(#[verifier::truncate] ((v >> 40) as u8));
        self.output.push(#[verifier::truncate] ((v >> 32) as u8));
        self.output.push(#[verifier::truncate] ((v >> 24) as u8));
        self.output.push(#[verifier::truncate] ((v >> 16) as u8));
        self.output.push(#[verifier::truncate] ((v >> 8) as u8));
        self.output.push(#[verifier::truncate] (v as u8));
        proof {
            assert(self@ =~= old(self)@ + u64_be_bytes(v));
        }
    }

    /// Four bytes, big-endian, two's complement.
    pub fn serialize_i32(&mut self, v: i32)
        ensures
            final(self)@ == old(self)@ + i32_be_bytes(v),
    {
        let u = #[verifier::truncate] (v as u32);
        self.output.push(#[verifier::truncate] ((u >> 24) as u8));
        self.output.push(#[verifier::truncate] ((u >> 16) as u8));
        self.output.push(#[verifier::truncate] ((u >> 8) as u8));
        self.output.push(#[verifier::truncate] (u as u8));
        proof {
            assert(self@ =~= old(self)@ + i32_be_bytes(v));
        }
    }

    /// Eight bytes, big-endian, two's complement.
    pub fn serialize_i64(&mut self, v: i64)
        ensures
            final(self)@ == old(self)@ + i64_be_bytes(v),
    {
        self.serialize_u64(#[verifier::truncate] (v as u64));
    }

    /// The minimal VarInt encoding of the value.
    pub fn serialize_var_int(&mut self, v: i32)
        ensures
            final(self)@ == old(self)@ + var_int_bytes(v),
    {
        write_var_int(&mut self.output, v);
    }

    /// The minimal VarLong encoding of the value.
    pub fn serialize_var_long(&mut self, v: i64)
        ensures
            final(self)@ == old(self)@ + var_long_bytes(v),
    {
        write_var_long(&mut self.output, v);
    }

    /// A VarInt byte count followed by the string's UTF-8 bytes.
    pub fn serialize_str(&mut self, v: &str) -> (r: Result<(), Error>)
        ensures
            match r {
                Ok(()) => v.spec_bytes().len() <= 0x7fff_ffff && final(self)@ == old(self)@
                    + string_bytes(v@),
                Err(e) => e == Error::OversizedPayload && v.spec_bytes().len() > 0x7fff_ffff
                    && final(self)@ == old(self)@,
            },
    {
        match write_string(&mut self.output, v) {
            Ok(_) => Ok(()),
            Err(e) => Err(e),
        }
    }

    /// Raw bytes, no length prefix: the byte-tail construct.
    pub fn serialize_bytes(&mut self, v: &[u8])
        ensures
            final(self)@ == old(self)@ + v@,
    {
        self.output.extend_from_slice(v);
    }

    /// A VarInt count followed by the bytes themselves.
    pub fn serialize_byte_vec(&mut self, v: &Vec<u8>) -> (r: Result<(), Error>)
        ensures
            match r {
                Ok(()) => v@.len() <= 0x7fff_ffff && final(self)@ == old(self)@ + byte_vec_bytes(
                    v@,
                ),
                Err(e) => e == Error::OversizedPayload && v@.len() > 0x7fff_ffff && final(self)@
                    == old(self)@,
            },
    {
        if v.len() > 0x7fff_ffff {
            return Err(Error::OversizedPayload);
        }
        write_var_int(&mut self.output, v.len() as i32);
        self.output.extend_from_slice(v.as_slice());
        proof {
            assert(self@ =~= old(self)@ + byte_vec_bytes(v@));
        }
        Ok(())
    }

    /// Sixteen raw bytes, most significant half first.
    pub fn serialize_uuid(&mut self, v: &MinecraftUuid)
        ensures
            final(self)@ == old(self)@ + uuid_bytes(v.most, v.least),
    {
        self.serialize_u64(v.most);
        self.serialize_u64(v.least);
        proof {
            assert(self@ =~= old(self)@ + uuid_bytes(v.most, v.least));
        }
    }
}

} // verus!
