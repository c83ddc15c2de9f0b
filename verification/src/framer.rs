//! The framer: extracts complete length-prefixed frames from a byte
//! buffer that grows by arbitrary socket reads, resuming safely across
//! partial reads.

use vstd::prelude::*;

use crate::encoding::{
    lemma_leb_parse_extend, lemma_leb_parse_take, lemma_parse_var_int_props, parse_var_int,
};
use crate::error::Error;
use crate::types::read_var_int;

verus! {

/// One complete packet as it stood on the wire, length prefix
/// included, so that a body decoder can re-read it uniformly.
#[derive(Debug, Clone, PartialEq, Eq)]
pub struct PacketFrame {
    pub bytes: Vec<u8>,
}

impl View for PacketFrame {
    type V = Seq<u8>;

    open spec fn view(&self) -> Seq<u8> {
        self.bytes@
    }
}

/// True of one complete frame: a VarInt length of at least one,
/// followed by exactly that many body bytes.
pub open spec fn is_wire_frame(s: Seq<u8>) -> bool {
    &&& parse_var_int(s) is Some
    &&& parse_var_int(s)->Some_0.0 >= 1
    &&& s.len() == parse_var_int(s)->Some_0.1 + parse_var_int(s)->Some_0.0
}

/// The declared body length of a frame.
pub open spec fn frame_declared_len(s: Seq<u8>) -> int {
    parse_var_int(s)->Some_0.0 as int
}

/// What one framing step does with a buffer's contents.
pub enum ExtractStep {
    /// No complete frame yet: wait for more bytes.
    NeedMore,
    /// The first complete frame, and what remains in the buffer.
    Frame(Seq<u8>, Seq<u8>),
    /// The length prefix is malformed, negative, or too large.
    Fail(Error),
}

/// One framing step: try to read the length prefix; a prefix that is
/// still incomplete, or a declared length of zero, waits for more
/// bytes; five continuation bytes, a negative length, or a length
/// above `max` fail; otherwise the first `prefix + length` bytes form
/// the frame.
pub open spec fn spec_extract(s: Seq<u8>, max: int) -> ExtractStep {
    match parse_var_int(s) {
        None => if s.len() >= 5 {
            ExtractStep::Fail(Error::MalformedVarInt)
        } else {
            ExtractStep::NeedMore
        },
        Some((l, n)) => if l < 0 {
            ExtractStep::Fail(Error::MalformedVarInt)
        } else if l > max {
            ExtractStep::Fail(Error::FrameTooLarge)
        } else if l == 0 {
            ExtractStep::NeedMore
        } else if s.len() >= n + l {
            ExtractStep::Frame(s.take(n + l), s.skip(n + l))
        } else {
            ExtractStep::NeedMore
        },
    }
}

/// Assembles complete frames out of whatever byte chunks arrive.
pub struct Framer {
    buffer: Vec<u8>,
    max_frame_bytes: usize,
}

impl Framer {
    /// The bytes received and not yet emitted as frames.
    pub closed spec fn buffered(self) -> Seq<u8> {
        self.buffer@
    }

    /// The configured bound on a frame's declared length.
    pub closed spec fn max_frame(self) -> int {
        self.max_frame_bytes as int
    }

    /// A framer with an empty buffer.
    pub fn new(max_frame_bytes: usize) -> (r: Framer)
        ensures
            r.buffered() == Seq::<u8>::empty(),
            r.max_frame() == max_frame_bytes as int,
    {
        Framer { buffer: Vec::new(), max_frame_bytes }
    }

    /// Appends one socket read's bytes to the buffer.
    pub fn push_bytes(&mut self, chunk: &[u8])
        ensures
            final(self).buffered() == old(self).buffered() + chunk@,
            final(self).max_frame() == old(self).max_frame(),
    {
        self.buffer.extend_from_slice(chunk);
    }

    /// Takes the first complete frame out of the buffer, if one is
    /// there; `Ok(None)` asks for more bytes.
    pub fn next_frame(&mut self) -> (r: Result<Option<PacketFrame>, Error>)
        ensures
            final(self).max_frame() == old(self).max_frame(),
            match spec_extract(old(self).buffered(), old(self).max_frame()) {
                ExtractStep::NeedMore => r matches Ok(o) && o is None && final(self).buffered()
                    == old(self).buffered(),
                ExtractStep::Frame(f, rem) => r matches Ok(o) && o matches Some(pf) && pf@ == f
                    && is_wire_frame(f) && final(self).buffered() == rem && old(self).buffered()
                    == f + rem,
                ExtractStep::Fail(e) => r matches Err(re) && re == e && final(self).buffered()
                    == old(self).buffered(),
            },
    {
        let t = self.buffer.as_slice();
        let vi = match read_var_int(t) {
            Ok(vi) => vi,
            Err(_) => {
                if self.buffer.len() >= 5 {
                    return Err(Error::MalformedVarInt);
                } else {
                    return Ok(None);
                }
            },
        };
        if vi.value < 0 {
            return Err(Error::MalformedVarInt);
        }
        if vi.value as usize > self.max_frame_bytes {
            return Err(Error::FrameTooLarge);
        }
        if vi.value == 0 {
            return Ok(None);
        }
        proof {
            lemma_parse_var_int_props(self.buffer@, Seq::<u8>::empty());
        }
        let total = vi.size + (vi.value as usize);
        if self.buffer.len() < total {
            return Ok(None);
        }
        let mut remainder = self.buffer.split_off(total);
        core::mem::swap(&mut self.buffer, &mut remainder);
        proof {
            let s0 = old(self).buffered();
            assert(remainder@ =~= s0.take(total as int));
            assert(self.buffer@ =~= s0.skip(total as int));
            lemma_leb_parse_take(s0, total as int, 5);
        }
        Ok(Some(PacketFrame { bytes: remainder }))
    }

    /// The stream has ended. An empty buffer is an orderly close; any
    /// buffered bytes mean the stream stopped in the middle of a
    /// frame.
    pub fn finish(&self) -> (r: Result<(), Error>)
        ensures
            self.buffered().len() == 0 ==> r is Ok,
            self.buffered().len() > 0 ==> (r matches Err(e) && e == Error::EofMidFrame),
    {
        if self.buffer.len() == 0 {
            Ok(())
        } else {
            Err(Error::EofMidFrame)
        }
    }
}

// ---------------------------------------------------------------------
// Framing laws.
// ---------------------------------------------------------------------

/// When a complete frame stands at the front of the buffer, one step
/// extracts exactly that frame and leaves exactly what followed it.
pub proof fn lemma_extract_frame_at_front(f: Seq<u8>, rest: Seq<u8>, max: int)
    requires
        is_wire_frame(f),
        frame_declared_len(f) <= max,
    ensures
        spec_extract(f + rest, max) == ExtractStep::Frame(f, rest),
{
    let s = f + rest;
    lemma_leb_parse_extend(f, rest, 5);
    let (l, n) = parse_var_int(f)->Some_0;
    assert(parse_var_int(s) == Some((l, n)));
    assert(s.take(n + l) =~= f);
    assert(s.skip(n + l) =~= rest);
}

/// No proper prefix of a frame yields anything: the framer emits the
/// frame only once its last byte has arrived, and never fails on a
/// prefix of a well-formed frame.
pub proof fn lemma_extract_partial_frame(f: Seq<u8>, k: int, max: int)
    requires
        is_wire_frame(f),
        frame_declared_len(f) <= max,
        0 <= k < f.len(),
    ensures
        spec_extract(f.take(k), max) == ExtractStep::NeedMore,
{
    let p = f.take(k);
    let (l, n) = parse_var_int(f)->Some_0;
    lemma_parse_var_int_props(f, Seq::<u8>::empty());
    match parse_var_int(p) {
        Some((pl, pn)) => {
            assert(p + f.skip(k) =~= f);
            lemma_leb_parse_extend(p, f.skip(k), 5);
            assert(parse_var_int(f) == parse_var_int(p));
            assert(p.len() < n + l);
        },
        None => {
            if p.len() >= 5 {
                lemma_leb_parse_take(f, k, 5);
                assert(false);
            }
        },
    }
}

/// Five continuation bytes at the front of the buffer can never
/// become a valid length prefix, however many bytes follow: the
/// framer fails the moment the fifth arrives.
pub proof fn lemma_malformed_length_prefix(s: Seq<u8>, max: int)
    requires
        s.len() >= 5,
        forall|i: int| 0 <= i < 5 ==> s[i] >= 0x80,
    ensures
        spec_extract(s, max) == ExtractStep::Fail(Error::MalformedVarInt),
{
    crate::encoding::lemma_leb_parse_none(s, 5);
}

/// Every encoded packet is one well-formed wire frame: what the codec
/// writes, the framer extracts intact.
pub proof fn lemma_encoded_packet_is_wire_frame(id: i32, body: Seq<u8>)
    requires
        crate::packets::frame_fits(id, body),
    ensures
        is_wire_frame(crate::packets::frame_bytes(id, body)),
        frame_declared_len(crate::packets::frame_bytes(id, body)) == crate::encoding::var_int_bytes(
            id,
        ).len() + body.len(),
{
    let payload = crate::encoding::var_int_bytes(id) + body;
    let len_val = payload.len() as i32;
    crate::encoding::lemma_var_int_bytes_len(id);
    let w = crate::packets::frame_bytes(id, body);
    assert(w =~= crate::encoding::var_int_bytes(len_val) + payload);
    crate::encoding::lemma_parse_var_int_encode(len_val, payload);
}

/// The bytes of a run of frames, one after the other.
pub open spec fn concat_frames(fs: Seq<Seq<u8>>) -> Seq<u8>
    decreases fs.len(),
{
    if fs.len() == 0 {
        Seq::<u8>::empty()
    } else {
        fs[0] + concat_frames(fs.skip(1))
    }
}

/// Extracting frames until the buffer yields none: the frames in
/// order, and the bytes left over.
pub open spec fn spec_drain(s: Seq<u8>, max: int) -> Result<(Seq<Seq<u8>>, Seq<u8>), Error>
    decreases s.len(),
{
    match spec_extract(s, max) {
        ExtractStep::NeedMore => Ok((Seq::<Seq<u8>>::empty(), s)),
        ExtractStep::Fail(e) => Err(e),
        ExtractStep::Frame(f, rem) => if rem.len() < s.len() {
            match spec_drain(rem, max) {
                Err(e) => Err(e),
                Ok((fs, left)) => Ok((seq![f] + fs, left)),
            }
        } else {
            // One step always removes at least the length prefix, so
            // this branch is never taken; it bounds the recursion.
            Ok((Seq::<Seq<u8>>::empty(), s))
        },
    }
}

/// However the bytes of a run of frames were chunked across reads,
/// draining the buffer that accumulated them yields exactly those
/// frames, in order, with nothing left over.
pub proof fn lemma_framer_emits_all_frames(fs: Seq<Seq<u8>>, max: int)
    requires
        forall|i: int|
            0 <= i < fs.len() ==> is_wire_frame(#[trigger] fs[i]) && frame_declared_len(fs[i])
                <= max,
    ensures
        spec_drain(concat_frames(fs), max) == Ok::<_, Error>((fs, Seq::<u8>::empty())),
    decreases fs.len(),
{
    if fs.len() == 0 {
        assert(concat_frames(fs).len() == 0);
        assert(fs =~= Seq::<Seq<u8>>::empty());
    } else {
        let f = fs[0];
        let rest = concat_frames(fs.skip(1));
        lemma_extract_frame_at_front(f, rest, max);
        lemma_parse_var_int_props(f, Seq::<u8>::empty());
        assert(f.len() >= 2);
        lemma_framer_emits_all_frames(fs.skip(1), max);
        assert(seq![f] + fs.skip(1) =~= fs);
    }
}

/// Mid-stream the picture is exact: with some run of frames followed
/// by part of the next one in the buffer, draining emits precisely
/// the complete frames, in order, and keeps the partial bytes.
pub proof fn lemma_framer_mid_stream(fs: Seq<Seq<u8>>, g: Seq<u8>, k: int, max: int)
    requires
        forall|i: int|
            0 <= i < fs.len() ==> is_wire_frame(#[trigger] fs[i]) && frame_declared_len(fs[i])
                <= max,
        is_wire_frame(g),
        frame_declared_len(g) <= max,
        0 <= k < g.len(),
    ensures
        spec_drain(concat_frames(fs) + g.take(k), max) == Ok::<_, Error>((fs, g.take(k))),
    decreases fs.len(),
{
    if fs.len() == 0 {
        lemma_extract_partial_frame(g, k, max);
        assert(concat_frames(fs) + g.take(k) =~= g.take(k));
        assert(fs =~= Seq::<Seq<u8>>::empty());
    } else {
        let f = fs[0];
        let rest = concat_frames(fs.skip(1)) + g.take(k);
        lemma_extract_frame_at_front(f, rest, max);
        assert(concat_frames(fs) + g.take(k) =~= f + rest);
        lemma_parse_var_int_props(f, Seq::<u8>::empty());
        assert(f.len() >= 2);
        lemma_framer_mid_stream(fs.skip(1), g, k, max);
        assert(seq![f] + fs.skip(1) =~= fs);
    }
}

} // verus!
