//! The packet wire layout shared by every packet: a VarInt length
//! prefix covering a VarInt packet id and the packet body.

use vstd::prelude::*;

use crate::encoding::{
    lemma_parse_var_int_encode, lemma_parse_var_int_props, parse_var_int, var_int_bytes,
};
use crate::error::Error;
use crate::types::write_var_int;

verus! {

/// A whole packet as it stands on the wire: the VarInt length of what
/// follows, the VarInt packet id, then the body.
pub open spec fn frame_bytes(id: i32, body: Seq<u8>) -> Seq<u8> {
    var_int_bytes((var_int_bytes(id).len() + body.len()) as i32) + var_int_bytes(id) + body
}

/// True when a packet with this id and body fits its length prefix.
pub open spec fn frame_fits(id: i32, body: Seq<u8>) -> bool {
    var_int_bytes(id).len() + body.len() <= 0x7fff_ffff
}

/// Consumes the length prefix and the packet id from the front of a
/// frame; neither value is kept. Yields the number of bytes consumed.
pub open spec fn parse_frame_header(s: Seq<u8>) -> Result<nat, Error> {
    match parse_var_int(s) {
        None => Err(Error::MalformedVarInt),
        Some((_, n1)) => match parse_var_int(s.skip(n1 as int)) {
            None => Err(Error::MalformedVarInt),
            Some((_, n2)) => Ok((n1 + n2) as nat),
        },
    }
}

/// On an encoded frame, the header parse consumes exactly the length
/// and id prefixes, leaving the body and whatever follows the frame.
pub proof fn lemma_parse_frame_header_encode(id: i32, body: Seq<u8>, rest: Seq<u8>)
    requires
        frame_fits(id, body),
    ensures
        ({
            let s = frame_bytes(id, body) + rest;
            &&& parse_frame_header(s) is Ok
            &&& s.skip(parse_frame_header(s)->Ok_0 as int) == body + rest
            &&& parse_frame_header(s)->Ok_0 + body.len() == frame_bytes(id, body).len()
        }),
{
    let payload = var_int_bytes(id) + body;
    let len_val = payload.len() as i32;
    let s = frame_bytes(id, body) + rest;
    assert(s =~= var_int_bytes(len_val) + (payload + rest));
    lemma_parse_var_int_encode(len_val, payload + rest);
    let n1 = var_int_bytes(len_val).len() as int;
    assert(s.skip(n1) =~= var_int_bytes(id) + (body + rest));
    lemma_parse_var_int_encode(id, body + rest);
    let n2 = var_int_bytes(id).len() as int;
    assert(s.skip(n1 + n2) =~= body + rest);
}

/// Wraps an encoded body in the id and length prefixes.
pub fn encode_frame(id: i32, body: Vec<u8>) -> (r: Result<Vec<u8>, Error>)
    ensures
        match r {
            Ok(v) => frame_fits(id, body@) && v@ == frame_bytes(id, body@),
            Err(e) => e == Error::OversizedPayload && !frame_fits(id, body@),
        },
{
    let ghost body0 = body@;
    let mut payload: Vec<u8> = Vec::new();
    write_var_int(&mut payload, id);
    let mut body = body;
    payload.append(&mut body);
    if payload.len() > 0x7fff_ffff {
        return Err(Error::OversizedPayload);
    }
    let ghost payload0 = payload@;
    let mut out: Vec<u8> = Vec::new();
    write_var_int(&mut out, payload.len() as i32);
    out.append(&mut payload);
    proof {
        assert(payload0 =~= var_int_bytes(id) + body0);
        assert(out@ =~= frame_bytes(id, body0));
    }
    Ok(out)
}

/// Consumes the length prefix and the packet id at the front of the
/// deserializer, discarding both, as the known-type decode entry does.
pub fn skip_frame_header(d: &mut crate::deserializer::Deserializer) -> (r: Result<(), Error>)
    ensures
        match parse_frame_header(old(d).remaining()) {
            Ok(n) => r is Ok && final(d).remaining() == old(d).remaining().skip(n as int),
            Err(e) => r matches Err(re) && re == e,
        },
{
    let ghost s0 = old(d).remaining();
    match d.read_var_int() {
        Ok(_) => {},
        Err(e) => {
            return Err(e);
        },
    }
    let ghost n1 = parse_var_int(s0)->Some_0.1;
    match d.read_var_int() {
        Ok(_) => {
            proof {
                let n2 = parse_var_int(s0.skip(n1 as int))->Some_0.1;
                lemma_parse_var_int_props(s0, Seq::<u8>::empty());
                lemma_parse_var_int_props(s0.skip(n1 as int), Seq::<u8>::empty());
                assert(d.remaining() =~= s0.skip((n1 + n2) as int));
            }
            Ok(())
        },
        Err(e) => Err(e),
    }
}

/// Consumes the length prefix and the packet id from the front of a
/// frame, keeping the id: the generic-decode entry reads it to pick
/// the packet shape.
pub open spec fn parse_generic_header(s: Seq<u8>) -> Result<(i32, nat), Error> {
    match parse_var_int(s) {
        None => Err(Error::MalformedVarInt),
        Some((_, n1)) => match parse_var_int(s.skip(n1 as int)) {
            None => Err(Error::MalformedVarInt),
            Some((id, n2)) => Ok((id, (n1 + n2) as nat)),
        },
    }
}

/// On an encoded frame, the generic header parse yields the encoded
/// packet id and leaves exactly the body and whatever follows.
pub proof fn lemma_parse_generic_header_encode(id: i32, body: Seq<u8>, rest: Seq<u8>)
    requires
        frame_fits(id, body),
    ensures
        ({
            let s = frame_bytes(id, body) + rest;
            &&& parse_generic_header(s) is Ok
            &&& parse_generic_header(s)->Ok_0.0 == id
            &&& s.skip(parse_generic_header(s)->Ok_0.1 as int) == body + rest
            &&& parse_generic_header(s)->Ok_0.1 + body.len() == frame_bytes(id, body).len()
        }),
{
    let payload = var_int_bytes(id) + body;
    let len_val = payload.len() as i32;
    let s = frame_bytes(id, body) + rest;
    assert(s =~= var_int_bytes(len_val) + (payload + rest));
    lemma_parse_var_int_encode(len_val, payload + rest);
    let n1 = var_int_bytes(len_val).len() as int;
    assert(s.skip(n1) =~= var_int_bytes(id) + (body + rest));
    lemma_parse_var_int_encode(id, body + rest);
    let n2 = var_int_bytes(id).len() as int;
    assert(s.skip(n1 + n2) =~= body + rest);
}

/// Consumes the length prefix and the packet id, returning the id.
pub fn read_generic_header(d: &mut crate::deserializer::Deserializer) -> (r: Result<i32, Error>)
    ensures
        match parse_generic_header(old(d).remaining()) {
            Ok((id, n)) => r matches Ok(rid) && rid == id && final(d).remaining() == old(
                d,
            ).remaining().skip(n as int),
            Err(e) => r matches Err(re) && re == e,
        },
{
    let ghost s0 = old(d).remaining();
    match d.read_var_int() {
        Ok(_) => {},
        Err(e) => {
            return Err(e);
        },
    }
    let ghost n1 = parse_var_int(s0)->Some_0.1;
    match d.read_var_int() {
        Ok(vi) => {
            proof {
                let n2 = parse_var_int(s0.skip(n1 as int))->Some_0.1;
                lemma_parse_var_int_props(s0, Seq::<u8>::empty());
                lemma_parse_var_int_props(s0.skip(n1 as int), Seq::<u8>::empty());
                assert(d.remaining() =~= s0.skip((n1 + n2) as int));
            }
            Ok(vi.value)
        },
        Err(e) => Err(e),
    }
}

} // verus!