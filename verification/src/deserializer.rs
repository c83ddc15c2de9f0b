//! The wire-format deserializer: a cursor over an owned byte buffer
//! that reads one schema construct at a time.

use vstd::prelude::*;

use crate::encoding::{
    lemma_leb_parse_consumed, parse_bool, parse_byte_vec, parse_i64, parse_string, parse_u16,
    parse_u8, parse_uuid, parse_var_int, parse_var_long,
};
use crate::error::Error;
use crate::types::{read_string_with_len, read_unsigned_short, read_var_int, read_var_long,
    MinecraftUuid, VarInt, VarLong};

verus! {

/// A reading cursor over the bytes of one frame.
pub struct Deserializer {
    input: Vec<u8>,
    pos: usize,
}

impl Deserializer {
    /// The cursor never stands past the end of its buffer.
    #[verifier::type_invariant]
    pub closed spec fn wf(self) -> bool {
        self.pos <= self.input@.len()
    }

    /// The bytes not yet consumed.
    pub closed spec fn remaining(self) -> Seq<u8> {
        self.input@.skip(self.pos as int)
    }

    /// A deserializer standing at the first byte of `input`.
    pub fn from_bytes(input: Vec<u8>) -> (r: Deserializer)
        ensures
            r.remaining() == input@,
    {
        let r = Deserializer { input, pos: 0 };
        proof {
            assert(r.remaining() =~= r.input@);
        }
        r
    }

    /// The unconsumed bytes as a slice.
    fn tail(&self) -> (r: &[u8])
        ensures
            r@ == self.remaining(),
    {
        proof {
            use_type_invariant(&*self);
        }
        vstd::slice::slice_subrange(self.input.as_slice(), self.pos, self.input.len())
    }

    /// How many bytes are not yet consumed.
    pub fn remaining_len(&self) -> (r: usize)
        ensures
            r == self.remaining().len(),
    {
        proof {
            use_type_invariant(&*self);
        }
        self.input.len() - self.pos
    }

    /// Moves the cursor forward by `n` consumed bytes.
    fn advance(&mut self, n: usize)
        requires
            n <= old(self).remaining().len(),
        ensures
            final(self).remaining() == old(self).remaining().skip(n as int),
    {
        proof {
            use_type_invariant(&*self);
        }
        let len = self.input.len();
        assert(old(self).remaining().len() == len - self.pos);
        self.pos = self.pos + n;
        proof {
            assert(self.remaining() =~= old(self).remaining().skip(n as int));
        }
    }

    /// Reads a VarInt: up to five base-128 groups.
    pub fn read_var_int(&mut self) -> (r: Result<VarInt, Error>)
        ensures
            match parse_var_int(old(self).remaining()) {
                Some((v, n)) => r matches Ok(vi) && vi.value == v && vi.size == n && final(self).remaining() == old(self).remaining().skip(n as int),
                None => r matches Err(e) && e == Error::MalformedVarInt && final(self).remaining()
                    == old(self).remaining(),
            },
    {
        let t = self.tail();
        match read_var_int(t) {
            Ok(vi) => {
                proof {
                    lemma_leb_parse_consumed(t@, 5);
                }
                self.advance(vi.size);
                Ok(vi)
            },
            Err(e) => Err(e),
        }
    }

    /// Reads a VarLong: up to ten base-128 groups.
    pub fn read_var_long(&mut self) -> (r: Result<VarLong, Error>)
        ensures
            match parse_var_long(old(self).remaining()) {
                Some((v, n)) => r matches Ok(vl) && vl.value == v && vl.size == n && final(self).remaining() == old(self).remaining().skip(n as int),
                None => r matches Err(e) && e == Error::MalformedVarLong && final(self).remaining()
                    == old(self).remaining(),
            },
    {
        let t = self.tail();
        match read_var_long(t) {
            Ok(vl) => {
                proof {
                    lemma_leb_parse_consumed(t@, 10);
                }
                self.advance(vl.size);
                Ok(vl)
            },
            Err(e) => Err(e),
        }
    }

    /// Reads one byte as a boolean: `0x01` is true, anything else
    /// false.
    pub fn read_bool(&mut self) -> (r: Result<bool, Error>)
        ensures
            match parse_bool(old(self).remaining()) {
                Some((v, n)) => r matches Ok(b) && b == v && final(self).remaining() == old(
                    self,
                ).remaining().skip(n as int),
                None => r matches Err(e) && e == Error::MalformedBool && final(self).remaining()
                    == old(self).remaining(),
            },
    {
        let t = self.tail();
        if t.len() < 1 {
            return Err(Error::MalformedBool);
        }
        let b = *vstd::slice::slice_index_get(t, 0);
        self.advance(1);
        Ok(b == 1)
    }

    /// Reads one raw byte.
    pub fn read_u8(&mut self) -> (r: Result<u8, Error>)
        ensures
            match parse_u8(old(self).remaining()) {
                Some((v, n)) => r matches Ok(b) && b == v && final(self).remaining() == old(
                    self,
                ).remaining().skip(n as int),
                None => r matches Err(e) && e == Error::NoMoreBytes && final(self).remaining()
                    == old(self).remaining(),
            },
    {
        let t = self.tail();
        if t.len() < 1 {
            return Err(Error::NoMoreBytes);
        }
        let b = *vstd::slice::slice_index_get(t, 0);
        self.advance(1);
        Ok(b)
    }

    /// Reads a big-endian 16-bit unsigned integer.
    pub fn read_u16(&mut self) -> (r: Result<u16, Error>)
        ensures
            match parse_u16(old(self).remaining()) {
                Some((v, n)) => r matches Ok(b) && b == v && final(self).remaining() == old(
                    self,
                ).remaining().skip(n as int),
                None => r matches Err(e) && e == Error::MalformedU16 && final(self).remaining()
                    == old(self).remaining(),
            },
    {
        let t = self.tail();
        match read_unsigned_short(t) {
            Ok(v) => {
                self.advance(2);
                Ok(v)
            },
            Err(e) => Err(e),
        }
    }

    /// Reads a big-endian 32-bit signed integer.
    pub fn read_i32(&mut self) -> (r: Result<i32, Error>)
        ensures
            match crate::encoding::parse_i32(old(self).remaining()) {
                Some((v, n)) => r matches Ok(b) && b == v && final(self).remaining() == old(self).remaining().skip(n as int),
                None => r matches Err(e) && e == Error::MalformedI32 && final(self).remaining()
                    == old(self).remaining(),
            },
    {
        let t = self.tail();
        if t.len() < 4 {
            return Err(Error::MalformedI32);
        }
        let b0 = *vstd::slice::slice_index_get(t, 0);
        let b1 = *vstd::slice::slice_index_get(t, 1);
        let b2 = *vstd::slice::slice_index_get(t, 2);
        let b3 = *vstd::slice::slice_index_get(t, 3);
        let v = (b0 as u32) << 24 | (b1 as u32) << 16 | (b2 as u32) << 8 | (b3 as u32);
        self.advance(4);
        Ok(crate::types::u32_as_i32(v))
    }

    /// Reads a big-endian 64-bit unsigned integer.
    fn read_u64(&mut self) -> (r: Result<u64, Error>)
        ensures
            match crate::encoding::parse_u64(old(self).remaining()) {
                Some((v, n)) => r matches Ok(b) && b == v && final(self).remaining() == old(
                    self,
                ).remaining().skip(n as int),
                None => r matches Err(e) && e == Error::MalformedI64 && final(self).remaining()
                    == old(self).remaining(),
            },
    {
        let t = self.tail();
        if t.len() < 8 {
            return Err(Error::MalformedI64);
        }
        let b0 = *vstd::slice::slice_index_get(t, 0);
        let b1 = *vstd::slice::slice_index_get(t, 1);
        let b2 = *vstd::slice::slice_index_get(t, 2);
        let b3 = *vstd::slice::slice_index_get(t, 3);
        let b4 = *vstd::slice::slice_index_get(t, 4);
        let b5 = *vstd::slice::slice_index_get(t, 5);
        let b6 = *vstd::slice::slice_index_get(t, 6);
        let b7 = *vstd::slice::slice_index_get(t, 7);
        let v = (b0 as u64) << 56 | (b1 as u64) << 48 | (b2 as u64) << 40 | (b3 as u64) << 32 | (
        b4 as u64) << 24 | (b5 as u64) << 16 | (b6 as u64) << 8 | (b7 as u64);
        self.advance(8);
        Ok(v)
    }

    /// Reads a big-endian 64-bit signed integer.
    pub fn read_i64(&mut self) -> (r: Result<i64, Error>)
        ensures
            match parse_i64(old(self).remaining()) {
                Some((v, n)) => r matches Ok(b) && b == v && final(self).remaining() == old(
                    self,
                ).remaining().skip(n as int),
                None => r matches Err(e) && e == Error::MalformedI64 && final(self).remaining()
                    == old(self).remaining(),
            },
    {
        match self.read_u64() {
            Ok(v) => Ok(crate::types::u64_as_i64(v)),
            Err(e) => Err(e),
        }
    }

    /// Reads a length-prefixed UTF-8 string.
    pub fn read_string(&mut self) -> (r: Result<String, Error>)
        ensures
            match parse_string(old(self).remaining()) {
                Some((cs, n)) => r matches Ok(s) && s@ == cs && final(self).remaining() == old(
                    self,
                ).remaining().skip(n as int),
                None => r matches Err(e) && e == Error::MalformedString && final(self).remaining()
                    == old(self).remaining(),
            },
    {
        let t = self.tail();
        match read_string_with_len(t) {
            Ok((s, n)) => {
                self.advance(n);
                Ok(s)
            },
            Err(e) => Err(e),
        }
    }

    /// Reads a VarInt byte count, then that many raw bytes.
    pub fn read_byte_vec(&mut self) -> (r: Result<Vec<u8>, Error>)
        ensures
            match parse_byte_vec(old(self).remaining()) {
                Some((b, n)) => r matches Ok(v) && v@ == b && final(self).remaining() == old(
                    self,
                ).remaining().skip(n as int),
                None => r matches Err(e) && e == Error::MalformedByteVec && final(self).remaining()
                    == old(self).remaining(),
            },
    {
        let t = self.tail();
        let vi = match read_var_int(t) {
            Ok(vi) => vi,
            Err(_) => {
                return Err(Error::MalformedByteVec);
            },
        };
        proof {
            lemma_leb_parse_consumed(t@, 5);
        }
        if vi.value < 0 {
            return Err(Error::MalformedByteVec);
        }
        let len = vi.value as usize;
        if t.len() - vi.size < len {
            return Err(Error::MalformedByteVec);
        }
        let body = vstd::slice::slice_subrange(t, vi.size, vi.size + len);
        let bytes = vstd::slice::slice_to_vec(body);
        proof {
            assert(bytes@ =~= old(self).remaining().subrange(
                vi.size as int,
                vi.size + vi.value,
            ));
        }
        self.advance(vi.size + len);
        Ok(bytes)
    }

    /// Reads sixteen raw bytes as a UUID.
    pub fn read_uuid(&mut self) -> (r: Result<MinecraftUuid, Error>)
        ensures
            match parse_uuid(old(self).remaining()) {
                Some(((most, least), n)) => r matches Ok(u) && u.most == most && u.least == least
                    && final(self).remaining() == old(self).remaining().skip(n as int),
                None => r matches Err(e) && e == Error::MalformedUuid && final(self).remaining()
                    == old(self).remaining(),
            },
    {
        if self.remaining_len() < 16 {
            return Err(Error::MalformedUuid);
        }
        let most = match self.read_u64() {
            Ok(v) => v,
            Err(_) => {
                return Err(Error::MalformedUuid);
            },
        };
        let least = match self.read_u64() {
            Ok(v) => v,
            Err(_) => {
                return Err(Error::MalformedUuid);
            },
        };
        Ok(MinecraftUuid { most, least })
    }

    /// Consumes and returns every remaining byte: the byte-tail
    /// construct.
    pub fn read_byte_tail(&mut self) -> (r: Vec<u8>)
        ensures
            r@ == old(self).remaining(),
            final(self).remaining().len() == 0,
    {
        let t = self.tail();
        let bytes = vstd::slice::slice_to_vec(t);
        let n = self.remaining_len();
        self.advance(n);
        bytes
    }
}

} // verus!
