//! Errors raised by the codec and by the framer.

use vstd::prelude::*;

verus! {

/// Everything that can go wrong while framing, decoding or encoding a
/// packet. Framing and decode errors close the connection.
#[derive(Clone, Copy, Debug, PartialEq, Eq, Structural)]
pub enum Error {
    /// A variable-length 32-bit integer had no terminator among its
    /// first five bytes, or the input ended first.
    MalformedVarInt,
    /// A variable-length 64-bit integer had no terminator among its
    /// first ten bytes, or the input ended first.
    MalformedVarLong,
    /// A length-prefixed string was cut short, declared a negative
    /// length, or held bytes that are not valid UTF-8.
    MalformedString,
    /// A boolean byte was missing.
    MalformedBool,
    /// A 16-bit unsigned integer was cut short.
    MalformedU16,
    /// A 32-bit signed integer was cut short.
    MalformedI32,
    /// A 64-bit signed integer was cut short.
    MalformedI64,
    /// A UUID needed sixteen bytes and fewer remained.
    MalformedUuid,
    /// A single byte was requested and none remained.
    NoMoreBytes,
    /// A length-prefixed byte sequence declared a negative length or
    /// was cut short.
    MalformedByteVec,
    /// A generic decode met a packet id with no shape registered for
    /// the current phase and direction.
    UnknownPacketId,
    /// A discriminated union met a discriminator with no variant.
    UnknownVariant,
    /// A value too large for its length prefix was handed to the
    /// serializer.
    OversizedPayload,
    /// The stream ended in the middle of a frame.
    EofMidFrame,
    /// A frame declared a length above the configured maximum.
    FrameTooLarge,
}

} // verus!
