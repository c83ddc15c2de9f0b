//! The packet catalogue for the Handshake (void), Status and Login
//! phases: each packet's shape, its codec, and the proof that decoding
//! the encoding of any packet yields the packet back.

use vstd::prelude::*;

use crate::deserializer::Deserializer;
use crate::encoding::{
    byte_vec_bytes, i64_be_bytes, lemma_parse_byte_vec_encode, lemma_parse_i64_encode,
    lemma_parse_string_encode, lemma_parse_u16_encode, lemma_parse_uuid_encode,
    lemma_parse_var_int_encode, lemma_parse_var_int_props, parse_bool, parse_byte_vec, parse_i64,
    parse_string, parse_u16, parse_uuid, parse_var_int, string_bytes, u16_be_bytes, uuid_bytes,
    var_int_bytes,
};
use crate::error::Error;
use crate::types::MinecraftUuid;
use crate::packets::{
    encode_frame, frame_bytes, frame_fits, lemma_parse_frame_header_encode, parse_frame_header,
    skip_frame_header,
};
use crate::serializer::Serializer;
use crate::types::VarInt;
use vstd::string::StringSliceAdditionalSpecFns;

verus! {

// ---------------------------------------------------------------------
// Handshake (serverbound, void phase, id 0).
// ---------------------------------------------------------------------

/// The first packet of every connection: protocol version, the
/// address and port the client dialled, and the phase it asks for.
#[derive(Debug, Clone, PartialEq, Eq)]
pub struct Handshake {
    pub protocol_version: VarInt,
    pub server_address: String,
    pub server_port: u16,
    pub next_state: VarInt,
}

/// The mathematical value of a `Handshake`.
pub struct HandshakeV {
    pub protocol_version: VarInt,
    pub server_address: Seq<char>,
    pub server_port: u16,
    pub next_state: VarInt,
}

impl View for Handshake {
    type V = HandshakeV;

    open spec fn view(&self) -> HandshakeV {
        HandshakeV {
            protocol_version: self.protocol_version,
            server_address: self.server_address@,
            server_port: self.server_port,
            next_state: self.next_state,
        }
    }
}

impl HandshakeV {
    /// The VarInt fields carry their true encoded sizes.
    pub open spec fn wf(self) -> bool {
        self.protocol_version.wf() && self.next_state.wf()
    }

    /// The string and the whole payload fit their length prefixes.
    pub open spec fn encodable(self) -> bool {
        vstd::utf8::encode_utf8(self.server_address).len() <= 0x7fff_ffff && frame_fits(
            0,
            handshake_body(self),
        )
    }
}

/// The body of a Handshake in schema order.
pub open spec fn handshake_body(v: HandshakeV) -> Seq<u8> {
    var_int_bytes(v.protocol_version.value) + string_bytes(v.server_address) + u16_be_bytes(
        v.server_port,
    ) + var_int_bytes(v.next_state.value)
}

/// The whole Handshake frame: length, id 0, body.
pub open spec fn handshake_wire(v: HandshakeV) -> Seq<u8> {
    frame_bytes(0, handshake_body(v))
}

/// Reads a Handshake body from the front of `s`.
pub open spec fn parse_handshake_body(s: Seq<u8>) -> Result<(HandshakeV, nat), Error> {
    match parse_var_int(s) {
        None => Err(Error::MalformedVarInt),
        Some((pv, n1)) => match parse_string(s.skip(n1 as int)) {
            None => Err(Error::MalformedString),
            Some((addr, n2)) => match parse_u16(s.skip((n1 + n2) as int)) {
                None => Err(Error::MalformedU16),
                Some((port, n3)) => match parse_var_int(s.skip((n1 + n2 + n3) as int)) {
                    None => Err(Error::MalformedVarInt),
                    Some((ns, n4)) => Ok(
                        (
                            HandshakeV {
                                protocol_version: VarInt { value: pv, size: n1 as usize },
                                server_address: addr,
                                server_port: port,
                                next_state: VarInt { value: ns, size: n4 as usize },
                            },
                            (n1 + n2 + n3 + n4) as nat,
                        ),
                    ),
                },
            },
        },
    }
}

/// Reads a whole Handshake frame: header, then body.
pub open spec fn parse_handshake(s: Seq<u8>) -> Result<(HandshakeV, nat), Error> {
    match parse_frame_header(s) {
        Err(e) => Err(e),
        Ok(h) => match parse_handshake_body(s.skip(h as int)) {
            Err(e) => Err(e),
            Ok((v, n)) => Ok((v, (h + n) as nat)),
        },
    }
}

impl Handshake {
    /// Appends the body fields in schema order.
    pub fn write_body(&self, s: &mut Serializer) -> (r: Result<(), Error>)
        ensures
            match r {
                Ok(()) => vstd::utf8::encode_utf8(self.server_address@).len() <= 0x7fff_ffff && final(s)@
                    == old(s)@ + handshake_body(self@),
                Err(e) => e == Error::OversizedPayload && vstd::utf8::encode_utf8(self.server_address@).len()
                    > 0x7fff_ffff,
            },
    {
        s.serialize_var_int(self.protocol_version.value);
        match s.serialize_str(self.server_address.as_str()) {
            Ok(()) => {},
            Err(e) => {
                return Err(e);
            },
        }
        s.serialize_u16(self.server_port);
        s.serialize_var_int(self.next_state.value);
        proof {
            assert(s@ =~= old(s)@ + handshake_body(self@));
        }
        Ok(())
    }

    /// Encodes the whole frame: length prefix, id 0, body.
    pub fn to_bytes(&self) -> (r: Result<Vec<u8>, Error>)
        ensures
            match r {
                Ok(v) => self@.encodable() && v@ == handshake_wire(self@),
                Err(e) => e == Error::OversizedPayload && !self@.encodable(),
            },
    {
        let mut s = Serializer::new();
        match self.write_body(&mut s) {
            Ok(()) => {},
            Err(e) => {
                return Err(e);
            },
        }
        encode_frame(0, s.into_bytes())
    }

    /// Reads the body fields in schema order.
    pub fn read_body(d: &mut Deserializer) -> (r: Result<Handshake, Error>)
        ensures
            match parse_handshake_body(old(d).remaining()) {
                Ok((v, n)) => r matches Ok(p) && p@ == v && final(d).remaining() == old(
                    d,
                ).remaining().skip(n as int),
                Err(e) => r matches Err(re) && re == e,
            },
    {
        let ghost s0 = old(d).remaining();
        let protocol_version = match d.read_var_int() {
            Ok(v) => v,
            Err(e) => {
                return Err(e);
            },
        };
        let ghost n1 = parse_var_int(s0)->Some_0.1 as int;
        proof {
            lemma_parse_var_int_props(s0, Seq::<u8>::empty());
        }
        let server_address = match d.read_string() {
            Ok(v) => v,
            Err(e) => {
                return Err(e);
            },
        };
        let ghost n2 = parse_string(s0.skip(n1))->Some_0.1 as int;
        proof {
            assert(d.remaining() =~= s0.skip(n1 + n2));
        }
        let server_port = match d.read_u16() {
            Ok(v) => v,
            Err(e) => {
                return Err(e);
            },
        };
        let ghost n3 = parse_u16(s0.skip(n1 + n2))->Some_0.1 as int;
        proof {
            assert(d.remaining() =~= s0.skip(n1 + n2 + n3));
        }
        let next_state = match d.read_var_int() {
            Ok(v) => v,
            Err(e) => {
                return Err(e);
            },
        };
        proof {
            let n4 = parse_var_int(s0.skip(n1 + n2 + n3))->Some_0.1 as int;
            lemma_parse_var_int_props(s0.skip(n1 + n2 + n3), Seq::<u8>::empty());
            assert(d.remaining() =~= s0.skip(n1 + n2 + n3 + n4));
        }
        Ok(Handshake { protocol_version, server_address, server_port, next_state })
    }

    /// Decodes a whole frame: length and id are consumed and
    /// discarded, then the body is read.
    pub fn from_bytes(bytes: Vec<u8>) -> (r: Result<Handshake, Error>)
        ensures
            match parse_handshake(bytes@) {
                Ok((v, _)) => r matches Ok(p) && p@ == v,
                Err(e) => r matches Err(re) && re == e,
            },
    {
        let mut d = Deserializer::from_bytes(bytes);
        match skip_frame_header(&mut d) {
            Ok(()) => {},
            Err(e) => {
                return Err(e);
            },
        }
        Self::read_body(&mut d)
    }
}

/// Decoding the encoding of any well-formed Handshake yields the same
/// value and consumes the whole frame, whatever follows it.
pub proof fn lemma_handshake_round_trip(v: HandshakeV, rest: Seq<u8>)
    requires
        v.wf(),
        v.encodable(),
    ensures
        parse_handshake(handshake_wire(v) + rest) == Ok::<_, Error>(
            (v, handshake_wire(v).len() as nat),
        ),
{
    let body = handshake_body(v);
    lemma_parse_frame_header_encode(0, body, rest);
    lemma_handshake_body_round_trip(v, rest);
}

/// The body of a well-formed Handshake round-trips.
pub proof fn lemma_handshake_body_round_trip(v: HandshakeV, rest: Seq<u8>)
    requires
        v.wf(),
        vstd::utf8::encode_utf8(v.server_address).len() <= 0x7fff_ffff,
    ensures
        parse_handshake_body(handshake_body(v) + rest) == Ok::<_, Error>(
            (v, handshake_body(v).len() as nat),
        ),
{
    let b1 = var_int_bytes(v.protocol_version.value);
    let b2 = string_bytes(v.server_address);
    let b3 = u16_be_bytes(v.server_port);
    let b4 = var_int_bytes(v.next_state.value);
    let s = handshake_body(v) + rest;
    assert(s =~= b1 + (b2 + b3 + b4 + rest));
    lemma_parse_var_int_encode(v.protocol_version.value, b2 + b3 + b4 + rest);
    let n1 = b1.len() as int;
    assert(s.skip(n1) =~= b2 + (b3 + b4 + rest));
    lemma_parse_string_encode(v.server_address, b3 + b4 + rest);
    let n2 = b2.len() as int;
    assert(s.skip(n1 + n2) =~= b3 + (b4 + rest));
    lemma_parse_u16_encode(v.server_port, b4 + rest);
    let n3 = b3.len() as int;
    assert(s.skip(n1 + n2 + n3) =~= b4 + rest);
    lemma_parse_var_int_encode(v.next_state.value, rest);
}

// ---------------------------------------------------------------------
// StatusRequest (serverbound, status phase, id 0): no fields.
// ---------------------------------------------------------------------

/// The client asks for the server's status document.
#[derive(Debug, Clone, PartialEq, Eq)]
pub struct StatusRequest {}

/// The mathematical value of a `StatusRequest`: it has no fields.
pub struct StatusRequestV {}

impl View for StatusRequest {
    type V = StatusRequestV;

    open spec fn view(&self) -> StatusRequestV {
        StatusRequestV {}
    }
}

/// The body of a StatusRequest: empty.
pub open spec fn status_request_body(v: StatusRequestV) -> Seq<u8> {
    Seq::<u8>::empty()
}

pub open spec fn status_request_wire(v: StatusRequestV) -> Seq<u8> {
    frame_bytes(0, status_request_body(v))
}

pub open spec fn parse_status_request(s: Seq<u8>) -> Result<(StatusRequestV, nat), Error> {
    match parse_frame_header(s) {
        Err(e) => Err(e),
        Ok(h) => Ok((StatusRequestV {}, h)),
    }
}

impl StatusRequest {
    pub fn write_body(&self, s: &mut Serializer) -> (r: Result<(), Error>)
        ensures
            r is Ok,
            final(s)@ == old(s)@,
    {
        Ok(())
    }

    pub fn to_bytes(&self) -> (r: Result<Vec<u8>, Error>)
        ensures
            r matches Ok(v) && v@ == status_request_wire(self@),
    {
        encode_frame(0, Vec::new())
    }

    pub fn read_body(d: &mut Deserializer) -> (r: Result<StatusRequest, Error>)
        ensures
            r matches Ok(p),
            final(d).remaining() == old(d).remaining(),
    {
        Ok(StatusRequest {})
    }

    pub fn from_bytes(bytes: Vec<u8>) -> (r: Result<StatusRequest, Error>)
        ensures
            match parse_status_request(bytes@) {
                Ok((v, _)) => r matches Ok(p) && p@ == v,
                Err(e) => r matches Err(re) && re == e,
            },
    {
        let mut d = Deserializer::from_bytes(bytes);
        match skip_frame_header(&mut d) {
            Ok(()) => {},
            Err(e) => {
                return Err(e);
            },
        }
        Self::read_body(&mut d)
    }
}

/// Every StatusRequest frame round-trips.
pub proof fn lemma_status_request_round_trip(v: StatusRequestV, rest: Seq<u8>)
    ensures
        parse_status_request(status_request_wire(v) + rest) == Ok::<_, Error>(
            (v, status_request_wire(v).len() as nat),
        ),
{
    lemma_parse_frame_header_encode(0, status_request_body(v), rest);
}

// ---------------------------------------------------------------------
// PingRequest (serverbound, status phase, id 1): one i64.
// ---------------------------------------------------------------------

/// The client sends a number and expects it echoed.
#[derive(Debug, Clone, PartialEq, Eq)]
pub struct PingRequest {
    pub payload: i64,
}

impl View for PingRequest {
    type V = PingRequest;

    open spec fn view(&self) -> PingRequest {
        *self
    }
}

pub open spec fn ping_request_body(v: PingRequest) -> Seq<u8> {
    i64_be_bytes(v.payload)
}

pub open spec fn ping_request_wire(v: PingRequest) -> Seq<u8> {
    frame_bytes(1, ping_request_body(v))
}

pub open spec fn parse_ping_request_body(s: Seq<u8>) -> Result<(PingRequest, nat), Error> {
    match parse_i64(s) {
        None => Err(Error::MalformedI64),
        Some((p, n)) => Ok((PingRequest { payload: p }, n)),
    }
}

pub open spec fn parse_ping_request(s: Seq<u8>) -> Result<(PingRequest, nat), Error> {
    match parse_frame_header(s) {
        Err(e) => Err(e),
        Ok(h) => match parse_ping_request_body(s.skip(h as int)) {
            Err(e) => Err(e),
            Ok((v, n)) => Ok((v, (h + n) as nat)),
        },
    }
}

impl PingRequest {
    pub fn write_body(&self, s: &mut Serializer) -> (r: Result<(), Error>)
        ensures
            r is Ok,
            final(s)@ == old(s)@ + ping_request_body(self@),
    {
        s.serialize_i64(self.payload);
        Ok(())
    }

    pub fn to_bytes(&self) -> (r: Result<Vec<u8>, Error>)
        ensures
            r matches Ok(v) && v@ == ping_request_wire(self@),
    {
        let mut s = Serializer::new();
        s.serialize_i64(self.payload);
        let r = encode_frame(1, s.into_bytes());
        proof {
            crate::encoding::lemma_var_int_bytes_len(1);
        }
        r
    }

    pub fn read_body(d: &mut Deserializer) -> (r: Result<PingRequest, Error>)
        ensures
            match parse_ping_request_body(old(d).remaining()) {
                Ok((v, n)) => r matches Ok(p) && p@ == v && final(d).remaining() == old(
                    d,
                ).remaining().skip(n as int),
                Err(e) => r matches Err(re) && re == e,
            },
    {
        let payload = match d.read_i64() {
            Ok(v) => v,
            Err(e) => {
                return Err(e);
            },
        };
        Ok(PingRequest { payload })
    }

    pub fn from_bytes(bytes: Vec<u8>) -> (r: Result<PingRequest, Error>)
        ensures
            match parse_ping_request(bytes@) {
                Ok((v, _)) => r matches Ok(p) && p@ == v,
                Err(e) => r matches Err(re) && re == e,
            },
    {
        let mut d = Deserializer::from_bytes(bytes);
        match skip_frame_header(&mut d) {
            Ok(()) => {},
            Err(e) => {
                return Err(e);
            },
        }
        Self::read_body(&mut d)
    }
}

/// Every PingRequest frame round-trips.
pub proof fn lemma_ping_request_round_trip(v: PingRequest, rest: Seq<u8>)
    ensures
        parse_ping_request(ping_request_wire(v) + rest) == Ok::<_, Error>(
            (v, ping_request_wire(v).len() as nat),
        ),
{
    crate::encoding::lemma_var_int_bytes_len(1);
    lemma_parse_frame_header_encode(1, ping_request_body(v), rest);
    lemma_parse_i64_encode(v.payload, rest);
}

// ---------------------------------------------------------------------
// StatusResponse (clientbound, status phase, id 0): one string.
// ---------------------------------------------------------------------

/// The server's status document, as JSON text.
#[derive(Debug, Clone, PartialEq, Eq)]
pub struct StatusResponse {
    pub json_response: String,
}

/// The mathematical value of a `StatusResponse`.
pub struct StatusResponseV {
    pub json_response: Seq<char>,
}

impl View for StatusResponse {
    type V = StatusResponseV;

    open spec fn view(&self) -> StatusResponseV {
        StatusResponseV { json_response: self.json_response@ }
    }
}

impl StatusResponseV {
    pub open spec fn encodable(self) -> bool {
        vstd::utf8::encode_utf8(self.json_response).len() <= 0x7fff_ffff && frame_fits(
            0,
            status_response_body(self),
        )
    }
}

pub open spec fn status_response_body(v: StatusResponseV) -> Seq<u8> {
    string_bytes(v.json_response)
}

pub open spec fn status_response_wire(v: StatusResponseV) -> Seq<u8> {
    frame_bytes(0, status_response_body(v))
}

pub open spec fn parse_status_response_body(s: Seq<u8>) -> Result<(StatusResponseV, nat), Error> {
    match parse_string(s) {
        None => Err(Error::MalformedString),
        Some((cs, n)) => Ok((StatusResponseV { json_response: cs }, n)),
    }
}

pub open spec fn parse_status_response(s: Seq<u8>) -> Result<(StatusResponseV, nat), Error> {
    match parse_frame_header(s) {
        Err(e) => Err(e),
        Ok(h) => match parse_status_response_body(s.skip(h as int)) {
            Err(e) => Err(e),
            Ok((v, n)) => Ok((v, (h + n) as nat)),
        },
    }
}

impl StatusResponse {
    pub fn write_body(&self, s: &mut Serializer) -> (r: Result<(), Error>)
        ensures
            match r {
                Ok(()) => vstd::utf8::encode_utf8(self.json_response@).len() <= 0x7fff_ffff
                    && final(s)@ == old(s)@ + status_response_body(self@),
                Err(e) => e == Error::OversizedPayload && vstd::utf8::encode_utf8(
                    self.json_response@,
                ).len() > 0x7fff_ffff,
            },
    {
        match s.serialize_str(self.json_response.as_str()) {
            Ok(()) => Ok(()),
            Err(e) => Err(e),
        }
    }

    pub fn to_bytes(&self) -> (r: Result<Vec<u8>, Error>)
        ensures
            match r {
                Ok(v) => self@.encodable() && v@ == status_response_wire(self@),
                Err(e) => e == Error::OversizedPayload && !self@.encodable(),
            },
    {
        let mut s = Serializer::new();
        match self.write_body(&mut s) {
            Ok(()) => {},
            Err(e) => {
                return Err(e);
            },
        }
        encode_frame(0, s.into_bytes())
    }

    pub fn read_body(d: &mut Deserializer) -> (r: Result<StatusResponse, Error>)
        ensures
            match parse_status_response_body(old(d).remaining()) {
                Ok((v, n)) => r matches Ok(p) && p@ == v && final(d).remaining() == old(
                    d,
                ).remaining().skip(n as int),
                Err(e) => r matches Err(re) && re == e,
            },
    {
        let json_response = match d.read_string() {
            Ok(v) => v,
            Err(e) => {
                return Err(e);
            },
        };
        Ok(StatusResponse { json_response })
    }

    pub fn from_bytes(bytes: Vec<u8>) -> (r: Result<StatusResponse, Error>)
        ensures
            match parse_status_response(bytes@) {
                Ok((v, _)) => r matches Ok(p) && p@ == v,
                Err(e) => r matches Err(re) && re == e,
            },
    {
        let mut d = Deserializer::from_bytes(bytes);
        match skip_frame_header(&mut d) {
            Ok(()) => {},
            Err(e) => {
                return Err(e);
            },
        }
        Self::read_body(&mut d)
    }
}

/// Every encodable StatusResponse round-trips.
pub proof fn lemma_status_response_round_trip(v: StatusResponseV, rest: Seq<u8>)
    requires
        v.encodable(),
    ensures
        parse_status_response(status_response_wire(v) + rest) == Ok::<_, Error>(
            (v, status_response_wire(v).len() as nat),
        ),
{
    lemma_parse_frame_header_encode(0, status_response_body(v), rest);
    lemma_parse_string_encode(v.json_response, rest);
}

// ---------------------------------------------------------------------
// PingResponse (clientbound, status phase, id 1): one i64.
// ---------------------------------------------------------------------

/// The server echoes the client's ping payload.
#[derive(Debug, Clone, PartialEq, Eq)]
pub struct PingResponse {
    pub payload: i64,
}

impl View for PingResponse {
    type V = PingResponse;

    open spec fn view(&self) -> PingResponse {
        *self
    }
}

pub open spec fn ping_response_body(v: PingResponse) -> Seq<u8> {
    i64_be_bytes(v.payload)
}

pub open spec fn ping_response_wire(v: PingResponse) -> Seq<u8> {
    frame_bytes(1, ping_response_body(v))
}

pub open spec fn parse_ping_response_body(s: Seq<u8>) -> Result<(PingResponse, nat), Error> {
    match parse_i64(s) {
        None => Err(Error::MalformedI64),
        Some((p, n)) => Ok((PingResponse { payload: p }, n)),
    }
}

pub open spec fn parse_ping_response(s: Seq<u8>) -> Result<(PingResponse, nat), Error> {
    match parse_frame_header(s) {
        Err(e) => Err(e),
        Ok(h) => match parse_ping_response_body(s.skip(h as int)) {
            Err(e) => Err(e),
            Ok((v, n)) => Ok((v, (h + n) as nat)),
        },
    }
}

impl PingResponse {
    pub fn write_body(&self, s: &mut Serializer) -> (r: Result<(), Error>)
        ensures
            r is Ok,
            final(s)@ == old(s)@ + ping_response_body(self@),
    {
        s.serialize_i64(self.payload);
        Ok(())
    }

    pub fn to_bytes(&self) -> (r: Result<Vec<u8>, Error>)
        ensures
            r matches Ok(v) && v@ == ping_response_wire(self@),
    {
        let mut s = Serializer::new();
        s.serialize_i64(self.payload);
        let r = encode_frame(1, s.into_bytes());
        proof {
            crate::encoding::lemma_var_int_bytes_len(1);
        }
        r
    }

    pub fn read_body(d: &mut Deserializer) -> (r: Result<PingResponse, Error>)
        ensures
            match parse_ping_response_body(old(d).remaining()) {
                Ok((v, n)) => r matches Ok(p) && p@ == v && final(d).remaining() == old(
                    d,
                ).remaining().skip(n as int),
                Err(e) => r matches Err(re) && re == e,
            },
    {
        let payload = match d.read_i64() {
            Ok(v) => v,
            Err(e) => {
                return Err(e);
            },
        };
        Ok(PingResponse { payload })
    }

    pub fn from_bytes(bytes: Vec<u8>) -> (r: Result<PingResponse, Error>)
        ensures
            match parse_ping_response(bytes@) {
                Ok((v, _)) => r matches Ok(p) && p@ == v,
                Err(e) => r matches Err(re) && re == e,
            },
    {
        let mut d = Deserializer::from_bytes(bytes);
        match skip_frame_header(&mut d) {
            Ok(()) => {},
            Err(e) => {
                return Err(e);
            },
        }
        Self::read_body(&mut d)
    }
}

/// Every PingResponse frame round-trips.
pub proof fn lemma_ping_response_round_trip(v: PingResponse, rest: Seq<u8>)
    ensures
        parse_ping_response(ping_response_wire(v) + rest) == Ok::<_, Error>(
            (v, ping_response_wire(v).len() as nat),
        ),
{
    crate::encoding::lemma_var_int_bytes_len(1);
    lemma_parse_frame_header_encode(1, ping_response_body(v), rest);
    lemma_parse_i64_encode(v.payload, rest);
}

// ---------------------------------------------------------------------
// Disconnect (clientbound, login phase, id 0): one string.
// ---------------------------------------------------------------------

/// The server refuses the login, with a JSON chat reason.
#[derive(Debug, Clone, PartialEq, Eq)]
pub struct Disconnect {
    pub reason: String,
}

/// The mathematical value of a `Disconnect`.
pub struct DisconnectV {
    pub reason: Seq<char>,
}

impl View for Disconnect {
    type V = DisconnectV;

    open spec fn view(&self) -> DisconnectV {
        DisconnectV { reason: self.reason@ }
    }
}

impl DisconnectV {
    pub open spec fn encodable(self) -> bool {
        vstd::utf8::encode_utf8(self.reason).len() <= 0x7fff_ffff && frame_fits(
            0,
            disconnect_body(self),
        )
    }
}

pub open spec fn disconnect_body(v: DisconnectV) -> Seq<u8> {
    string_bytes(v.reason)
}

pub open spec fn disconnect_wire(v: DisconnectV) -> Seq<u8> {
    frame_bytes(0, disconnect_body(v))
}

pub open spec fn parse_disconnect_body(s: Seq<u8>) -> Result<(DisconnectV, nat), Error> {
    match parse_string(s) {
        None => Err(Error::MalformedString),
        Some((cs, n)) => Ok((DisconnectV { reason: cs }, n)),
    }
}

pub open spec fn parse_disconnect(s: Seq<u8>) -> Result<(DisconnectV, nat), Error> {
    match parse_frame_header(s) {
        Err(e) => Err(e),
        Ok(h) => match parse_disconnect_body(s.skip(h as int)) {
            Err(e) => Err(e),
            Ok((v, n)) => Ok((v, (h + n) as nat)),
        },
    }
}

impl Disconnect {
    pub fn write_body(&self, s: &mut Serializer) -> (r: Result<(), Error>)
        ensures
            match r {
                Ok(()) => vstd::utf8::encode_utf8(self.reason@).len() <= 0x7fff_ffff && final(s)@
                    == old(s)@ + disconnect_body(self@),
                Err(e) => e == Error::OversizedPayload && vstd::utf8::encode_utf8(
                    self.reason@,
                ).len() > 0x7fff_ffff,
            },
    {
        match s.serialize_str(self.reason.as_str()) {
            Ok(()) => Ok(()),
            Err(e) => Err(e),
        }
    }

    pub fn to_bytes(&self) -> (r: Result<Vec<u8>, Error>)
        ensures
            match r {
                Ok(v) => self@.encodable() && v@ == disconnect_wire(self@),
                Err(e) => e == Error::OversizedPayload && !self@.encodable(),
            },
    {
        let mut s = Serializer::new();
        match self.write_body(&mut s) {
            Ok(()) => {},
            Err(e) => {
                return Err(e);
            },
        }
        encode_frame(0, s.into_bytes())
    }

    pub fn read_body(d: &mut Deserializer) -> (r: Result<Disconnect, Error>)
        ensures
            match parse_disconnect_body(old(d).remaining()) {
                Ok((v, n)) => r matches Ok(p) && p@ == v && final(d).remaining() == old(
                    d,
                ).remaining().skip(n as int),
                Err(e) => r matches Err(re) && re == e,
            },
    {
        let reason = match d.read_string() {
            Ok(v) => v,
            Err(e) => {
                return Err(e);
            },
        };
        Ok(Disconnect { reason })
    }

    pub fn from_bytes(bytes: Vec<u8>) -> (r: Result<Disconnect, Error>)
        ensures
            match parse_disconnect(bytes@) {
                Ok((v, _)) => r matches Ok(p) && p@ == v,
                Err(e) => r matches Err(re) && re == e,
            },
    {
        let mut d = Deserializer::from_bytes(bytes);
        match skip_frame_header(&mut d) {
            Ok(()) => {},
            Err(e) => {
                return Err(e);
            },
        }
        Self::read_body(&mut d)
    }
}

/// Every encodable Disconnect round-trips.
pub proof fn lemma_disconnect_round_trip(v: DisconnectV, rest: Seq<u8>)
    requires
        v.encodable(),
    ensures
        parse_disconnect(disconnect_wire(v) + rest) == Ok::<_, Error>(
            (v, disconnect_wire(v).len() as nat),
        ),
{
    lemma_parse_frame_header_encode(0, disconnect_body(v), rest);
    lemma_parse_string_encode(v.reason, rest);
}

// ---------------------------------------------------------------------
// SetCompression (clientbound, login phase, id 3): one VarInt.
// ---------------------------------------------------------------------

/// Declares the compression threshold for later frames.
#[derive(Debug, Clone, Copy, PartialEq, Eq, Structural)]
pub struct SetCompression {
    pub threshold: VarInt,
}

impl View for SetCompression {
    type V = SetCompression;

    open spec fn view(&self) -> SetCompression {
        *self
    }
}

impl SetCompression {
    /// The VarInt field carries its true encoded size.
    pub open spec fn wf(self) -> bool {
        self.threshold.wf()
    }
}

pub open spec fn set_compression_body(v: SetCompression) -> Seq<u8> {
    var_int_bytes(v.threshold.value)
}

pub open spec fn set_compression_wire(v: SetCompression) -> Seq<u8> {
    frame_bytes(3, set_compression_body(v))
}

pub open spec fn parse_set_compression_body(s: Seq<u8>) -> Result<(SetCompression, nat), Error> {
    match parse_var_int(s) {
        None => Err(Error::MalformedVarInt),
        Some((t, n)) => Ok(
            (SetCompression { threshold: VarInt { value: t, size: n as usize } }, n),
        ),
    }
}

pub open spec fn parse_set_compression(s: Seq<u8>) -> Result<(SetCompression, nat), Error> {
    match parse_frame_header(s) {
        Err(e) => Err(e),
        Ok(h) => match parse_set_compression_body(s.skip(h as int)) {
            Err(e) => Err(e),
            Ok((v, n)) => Ok((v, (h + n) as nat)),
        },
    }
}

impl SetCompression {
    pub fn write_body(&self, s: &mut Serializer) -> (r: Result<(), Error>)
        ensures
            r is Ok,
            final(s)@ == old(s)@ + set_compression_body(self@),
    {
        s.serialize_var_int(self.threshold.value);
        Ok(())
    }

    pub fn to_bytes(&self) -> (r: Result<Vec<u8>, Error>)
        ensures
            r matches Ok(v) && v@ == set_compression_wire(self@),
    {
        let mut s = Serializer::new();
        s.serialize_var_int(self.threshold.value);
        let r = encode_frame(3, s.into_bytes());
        proof {
            crate::encoding::lemma_var_int_bytes_len(3);
            crate::encoding::lemma_var_int_bytes_len(self.threshold.value);
        }
        r
    }

    pub fn read_body(d: &mut Deserializer) -> (r: Result<SetCompression, Error>)
        ensures
            match parse_set_compression_body(old(d).remaining()) {
                Ok((v, n)) => r matches Ok(p) && p@ == v && final(d).remaining() == old(
                    d,
                ).remaining().skip(n as int),
                Err(e) => r matches Err(re) && re == e,
            },
    {
        let threshold = match d.read_var_int() {
            Ok(v) => v,
            Err(e) => {
                return Err(e);
            },
        };
        Ok(SetCompression { threshold })
    }

    pub fn from_bytes(bytes: Vec<u8>) -> (r: Result<SetCompression, Error>)
        ensures
            match parse_set_compression(bytes@) {
                Ok((v, _)) => r matches Ok(p) && p@ == v,
                Err(e) => r matches Err(re) && re == e,
            },
    {
        let mut d = Deserializer::from_bytes(bytes);
        match skip_frame_header(&mut d) {
            Ok(()) => {},
            Err(e) => {
                return Err(e);
            },
        }
        Self::read_body(&mut d)
    }
}

/// Every well-formed SetCompression round-trips.
pub proof fn lemma_set_compression_round_trip(v: SetCompression, rest: Seq<u8>)
    requires
        v.wf(),
    ensures
        parse_set_compression(set_compression_wire(v) + rest) == Ok::<_, Error>(
            (v, set_compression_wire(v).len() as nat),
        ),
{
    crate::encoding::lemma_var_int_bytes_len(3);
    crate::encoding::lemma_var_int_bytes_len(v.threshold.value);
    lemma_parse_frame_header_encode(3, set_compression_body(v), rest);
    lemma_parse_var_int_encode(v.threshold.value, rest);
}

// ---------------------------------------------------------------------
// Optional values: one presence byte, then the value when present.
// ---------------------------------------------------------------------

/// An absent optional is the single byte `0x00`; a present one is
/// `0x01` followed by the value.
pub open spec fn opt_uuid_bytes(o: Option<MinecraftUuid>) -> Seq<u8> {
    match o {
        Option::None => seq![0u8],
        Option::Some(u) => seq![1u8] + uuid_bytes(u.most, u.least),
    }
}

pub open spec fn parse_opt_uuid(s: Seq<u8>) -> Result<(Option<MinecraftUuid>, nat), Error> {
    match parse_bool(s) {
        None => Err(Error::MalformedBool),
        Some((present, n1)) => if !present {
            Ok((Option::None, n1))
        } else {
            match parse_uuid(s.skip(n1 as int)) {
                None => Err(Error::MalformedUuid),
                Some(((most, least), n2)) => Ok(
                    (Option::Some(MinecraftUuid { most, least }), (n1 + n2) as nat),
                ),
            }
        },
    }
}

/// Every optional UUID round-trips: absent as one `0x00` byte,
/// present as `0x01` and the sixteen UUID bytes.
pub proof fn lemma_parse_opt_uuid_encode(o: Option<MinecraftUuid>, rest: Seq<u8>)
    ensures
        parse_opt_uuid(opt_uuid_bytes(o) + rest) == Ok::<_, Error>(
            (o, opt_uuid_bytes(o).len() as nat),
        ),
{
    let s = opt_uuid_bytes(o) + rest;
    match o {
        Option::None => {
            assert(s[0] == 0u8);
        },
        Option::Some(u) => {
            assert(s[0] == 1u8);
            assert(s.skip(1) =~= uuid_bytes(u.most, u.least) + rest);
            lemma_parse_uuid_encode(u.most, u.least, rest);
        },
    }
}

// ---------------------------------------------------------------------
// LoginStart (serverbound, login phase, id 0).
// ---------------------------------------------------------------------

/// The client names itself and may state its UUID.
#[derive(Debug, Clone, PartialEq, Eq)]
pub struct LoginStart {
    pub name: String,
    pub player_uuid: Option<MinecraftUuid>,
}

/// The mathematical value of a `LoginStart`.
pub struct LoginStartV {
    pub name: Seq<char>,
    pub player_uuid: Option<MinecraftUuid>,
}

impl View for LoginStart {
    type V = LoginStartV;

    open spec fn view(&self) -> LoginStartV {
        LoginStartV { name: self.name@, player_uuid: self.player_uuid }
    }
}

impl LoginStartV {
    pub open spec fn encodable(self) -> bool {
        vstd::utf8::encode_utf8(self.name).len() <= 0x7fff_ffff && frame_fits(
            0,
            login_start_body(self),
        )
    }
}

pub open spec fn login_start_body(v: LoginStartV) -> Seq<u8> {
    string_bytes(v.name) + opt_uuid_bytes(v.player_uuid)
}

pub open spec fn login_start_wire(v: LoginStartV) -> Seq<u8> {
    frame_bytes(0, login_start_body(v))
}

pub open spec fn parse_login_start_body(s: Seq<u8>) -> Result<(LoginStartV, nat), Error> {
    match parse_string(s) {
        None => Err(Error::MalformedString),
        Some((name, n1)) => match parse_opt_uuid(s.skip(n1 as int)) {
            Err(e) => Err(e),
            Ok((o, n2)) => Ok((LoginStartV { name, player_uuid: o }, (n1 + n2) as nat)),
        },
    }
}

pub open spec fn parse_login_start(s: Seq<u8>) -> Result<(LoginStartV, nat), Error> {
    match parse_frame_header(s) {
        Err(e) => Err(e),
        Ok(h) => match parse_login_start_body(s.skip(h as int)) {
            Err(e) => Err(e),
            Ok((v, n)) => Ok((v, (h + n) as nat)),
        },
    }
}

impl LoginStart {
    pub fn write_body(&self, s: &mut Serializer) -> (r: Result<(), Error>)
        ensures
            match r {
                Ok(()) => vstd::utf8::encode_utf8(self.name@).len() <= 0x7fff_ffff && final(s)@
                    == old(s)@ + login_start_body(self@),
                Err(e) => e == Error::OversizedPayload && vstd::utf8::encode_utf8(self.name@).len()
                    > 0x7fff_ffff,
            },
    {
        match s.serialize_str(self.name.as_str()) {
            Ok(()) => {},
            Err(e) => {
                return Err(e);
            },
        }
        match &self.player_uuid {
            Option::None => {
                s.serialize_bool(false);
            },
            Option::Some(u) => {
                s.serialize_bool(true);
                s.serialize_uuid(u);
            },
        }
        proof {
            assert(s@ =~= old(s)@ + login_start_body(self@));
        }
        Ok(())
    }

    pub fn to_bytes(&self) -> (r: Result<Vec<u8>, Error>)
        ensures
            match r {
                Ok(v) => self@.encodable() && v@ == login_start_wire(self@),
                Err(e) => e == Error::OversizedPayload && !self@.encodable(),
            },
    {
        let mut s = Serializer::new();
        match self.write_body(&mut s) {
            Ok(()) => {},
            Err(e) => {
                return Err(e);
            },
        }
        encode_frame(0, s.into_bytes())
    }

    pub fn read_body(d: &mut Deserializer) -> (r: Result<LoginStart, Error>)
        ensures
            match parse_login_start_body(old(d).remaining()) {
                Ok((v, n)) => r matches Ok(p) && p@ == v && final(d).remaining() == old(
                    d,
                ).remaining().skip(n as int),
                Err(e) => r matches Err(re) && re == e,
            },
    {
        let ghost s0 = old(d).remaining();
        let name = match d.read_string() {
            Ok(v) => v,
            Err(e) => {
                return Err(e);
            },
        };
        let ghost n1 = parse_string(s0)->Some_0.1 as int;
        let present = match d.read_bool() {
            Ok(v) => v,
            Err(e) => {
                return Err(e);
            },
        };
        let player_uuid = if present {
            match d.read_uuid() {
                Ok(u) => Some(u),
                Err(e) => {
                    return Err(e);
                },
            }
        } else {
            None
        };
        proof {
            let n2 = parse_opt_uuid(s0.skip(n1))->Ok_0.1 as int;
            assert(d.remaining() =~= s0.skip(n1 + n2));
        }
        Ok(LoginStart { name, player_uuid })
    }

    pub fn from_bytes(bytes: Vec<u8>) -> (r: Result<LoginStart, Error>)
        ensures
            match parse_login_start(bytes@) {
                Ok((v, _)) => r matches Ok(p) && p@ == v,
                Err(e) => r matches Err(re) && re == e,
            },
    {
        let mut d = Deserializer::from_bytes(bytes);
        match skip_frame_header(&mut d) {
            Ok(()) => {},
            Err(e) => {
                return Err(e);
            },
        }
        Self::read_body(&mut d)
    }
}

/// Every encodable LoginStart round-trips.
pub proof fn lemma_login_start_round_trip(v: LoginStartV, rest: Seq<u8>)
    requires
        v.encodable(),
    ensures
        parse_login_start(login_start_wire(v) + rest) == Ok::<_, Error>(
            (v, login_start_wire(v).len() as nat),
        ),
{
    lemma_parse_frame_header_encode(0, login_start_body(v), rest);
    let b1 = string_bytes(v.name);
    let b2 = opt_uuid_bytes(v.player_uuid);
    let s = login_start_body(v) + rest;
    assert(s =~= b1 + (b2 + rest));
    lemma_parse_string_encode(v.name, b2 + rest);
    let n1 = b1.len() as int;
    assert(s.skip(n1) =~= b2 + rest);
    lemma_parse_opt_uuid_encode(v.player_uuid, rest);
}

// ---------------------------------------------------------------------
// EncryptionResponse (serverbound, login phase, id 1).
// ---------------------------------------------------------------------

/// The client's RSA-encrypted shared secret and verify token.
#[derive(Debug, Clone, PartialEq, Eq)]
pub struct EncryptionResponse {
    pub shared_secret: Vec<u8>,
    pub verify_token: Vec<u8>,
}

/// The mathematical value of an `EncryptionResponse`.
pub struct EncryptionResponseV {
    pub shared_secret: Seq<u8>,
    pub verify_token: Seq<u8>,
}

impl View for EncryptionResponse {
    type V = EncryptionResponseV;

    open spec fn view(&self) -> EncryptionResponseV {
        EncryptionResponseV { shared_secret: self.shared_secret@, verify_token: self.verify_token@ }
    }
}

impl EncryptionResponseV {
    pub open spec fn encodable(self) -> bool {
        self.shared_secret.len() <= 0x7fff_ffff && self.verify_token.len() <= 0x7fff_ffff
            && frame_fits(1, encryption_response_body(self))
    }
}

pub open spec fn encryption_response_body(v: EncryptionResponseV) -> Seq<u8> {
    byte_vec_bytes(v.shared_secret) + byte_vec_bytes(v.verify_token)
}

pub open spec fn encryption_response_wire(v: EncryptionResponseV) -> Seq<u8> {
    frame_bytes(1, encryption_response_body(v))
}

pub open spec fn parse_encryption_response_body(s: Seq<u8>) -> Result<
    (EncryptionResponseV, nat),
    Error,
> {
    match parse_byte_vec(s) {
        None => Err(Error::MalformedByteVec),
        Some((secret, n1)) => match parse_byte_vec(s.skip(n1 as int)) {
            None => Err(Error::MalformedByteVec),
            Some((token, n2)) => Ok(
                (
                    EncryptionResponseV { shared_secret: secret, verify_token: token },
                    (n1 + n2) as nat,
                ),
            ),
        },
    }
}

pub open spec fn parse_encryption_response(s: Seq<u8>) -> Result<
    (EncryptionResponseV, nat),
    Error,
> {
    match parse_frame_header(s) {
        Err(e) => Err(e),
        Ok(h) => match parse_encryption_response_body(s.skip(h as int)) {
            Err(e) => Err(e),
            Ok((v, n)) => Ok((v, (h + n) as nat)),
        },
    }
}

impl EncryptionResponse {
    pub fn write_body(&self, s: &mut Serializer) -> (r: Result<(), Error>)
        ensures
            match r {
                Ok(()) => self.shared_secret@.len() <= 0x7fff_ffff && self.verify_token@.len()
                    <= 0x7fff_ffff && final(s)@ == old(s)@ + encryption_response_body(self@),
                Err(e) => e == Error::OversizedPayload && (self.shared_secret@.len() > 0x7fff_ffff
                    || self.verify_token@.len() > 0x7fff_ffff),
            },
    {
        match s.serialize_byte_vec(&self.shared_secret) {
            Ok(()) => {},
            Err(e) => {
                return Err(e);
            },
        }
        match s.serialize_byte_vec(&self.verify_token) {
            Ok(()) => {},
            Err(e) => {
                return Err(e);
            },
        }
        proof {
            assert(s@ =~= old(s)@ + encryption_response_body(self@));
        }
        Ok(())
    }

    pub fn to_bytes(&self) -> (r: Result<Vec<u8>, Error>)
        ensures
            match r {
                Ok(v) => self@.encodable() && v@ == encryption_response_wire(self@),
                Err(e) => e == Error::OversizedPayload && !self@.encodable(),
            },
    {
        let mut s = Serializer::new();
        match self.write_body(&mut s) {
            Ok(()) => {},
            Err(e) => {
                return Err(e);
            },
        }
        encode_frame(1, s.into_bytes())
    }

    pub fn read_body(d: &mut Deserializer) -> (r: Result<EncryptionResponse, Error>)
        ensures
            match parse_encryption_response_body(old(d).remaining()) {
                Ok((v, n)) => r matches Ok(p) && p@ == v && final(d).remaining() == old(
                    d,
                ).remaining().skip(n as int),
                Err(e) => r matches Err(re) && re == e,
            },
    {
        let ghost s0 = old(d).remaining();
        let shared_secret = match d.read_byte_vec() {
            Ok(v) => v,
            Err(e) => {
                return Err(e);
            },
        };
        let verify_token = match d.read_byte_vec() {
            Ok(v) => v,
            Err(e) => {
                return Err(e);
            },
        };
        proof {
            let n1 = parse_byte_vec(s0)->Some_0.1 as int;
            let n2 = parse_byte_vec(s0.skip(n1))->Some_0.1 as int;
            assert(d.remaining() =~= s0.skip(n1 + n2));
        }
        Ok(EncryptionResponse { shared_secret, verify_token })
    }

    pub fn from_bytes(bytes: Vec<u8>) -> (r: Result<EncryptionResponse, Error>)
        ensures
            match parse_encryption_response(bytes@) {
                Ok((v, _)) => r matches Ok(p) && p@ == v,
                Err(e) => r matches Err(re) && re == e,
            },
    {
        let mut d = Deserializer::from_bytes(bytes);
        match skip_frame_header(&mut d) {
            Ok(()) => {},
            Err(e) => {
                return Err(e);
            },
        }
        Self::read_body(&mut d)
    }
}

/// Every encodable EncryptionResponse round-trips.
pub proof fn lemma_encryption_response_round_trip(v: EncryptionResponseV, rest: Seq<u8>)
    requires
        v.encodable(),
    ensures
        parse_encryption_response(encryption_response_wire(v) + rest) == Ok::<_, Error>(
            (v, encryption_response_wire(v).len() as nat),
        ),
{
    crate::encoding::lemma_var_int_bytes_len(1);
    lemma_parse_frame_header_encode(1, encryption_response_body(v), rest);
    let b1 = byte_vec_bytes(v.shared_secret);
    let b2 = byte_vec_bytes(v.verify_token);
    let s = encryption_response_body(v) + rest;
    assert(s =~= b1 + (b2 + rest));
    lemma_parse_byte_vec_encode(v.shared_secret, b2 + rest);
    let n1 = b1.len() as int;
    assert(s.skip(n1) =~= b2 + rest);
    lemma_parse_byte_vec_encode(v.verify_token, rest);
}

// ---------------------------------------------------------------------
// EncryptionRequest (clientbound, login phase, id 1).
// ---------------------------------------------------------------------

/// The server's public key and per-session verify token.
#[derive(Debug, Clone, PartialEq, Eq)]
pub struct EncryptionRequest {
    pub server_id: String,
    pub public_key: Vec<u8>,
    pub verify_token: Vec<u8>,
}

/// The mathematical value of an `EncryptionRequest`.
pub struct EncryptionRequestV {
    pub server_id: Seq<char>,
    pub public_key: Seq<u8>,
    pub verify_token: Seq<u8>,
}

impl View for EncryptionRequest {
    type V = EncryptionRequestV;

    open spec fn view(&self) -> EncryptionRequestV {
        EncryptionRequestV {
            server_id: self.server_id@,
            public_key: self.public_key@,
            verify_token: self.verify_token@,
        }
    }
}

impl EncryptionRequestV {
    pub open spec fn encodable(self) -> bool {
        vstd::utf8::encode_utf8(self.server_id).len() <= 0x7fff_ffff && self.public_key.len()
            <= 0x7fff_ffff && self.verify_token.len() <= 0x7fff_ffff && frame_fits(
            1,
            encryption_request_body(self),
        )
    }
}

pub open spec fn encryption_request_body(v: EncryptionRequestV) -> Seq<u8> {
    string_bytes(v.server_id) + byte_vec_bytes(v.public_key) + byte_vec_bytes(v.verify_token)
}

pub open spec fn encryption_request_wire(v: EncryptionRequestV) -> Seq<u8> {
    frame_bytes(1, encryption_request_body(v))
}

pub open spec fn parse_encryption_request_body(s: Seq<u8>) -> Result<
    (EncryptionRequestV, nat),
    Error,
> {
    match parse_string(s) {
        None => Err(Error::MalformedString),
        Some((sid, n1)) => match parse_byte_vec(s.skip(n1 as int)) {
            None => Err(Error::MalformedByteVec),
            Some((key, n2)) => match parse_byte_vec(s.skip((n1 + n2) as int)) {
                None => Err(Error::MalformedByteVec),
                Some((token, n3)) => Ok(
                    (
                        EncryptionRequestV {
                            server_id: sid,
                            public_key: key,
                            verify_token: token,
                        },
                        (n1 + n2 + n3) as nat,
                    ),
                ),
            },
        },
    }
}

pub open spec fn parse_encryption_request(s: Seq<u8>) -> Result<
    (EncryptionRequestV, nat),
    Error,
> {
    match parse_frame_header(s) {
        Err(e) => Err(e),
        Ok(h) => match parse_encryption_request_body(s.skip(h as int)) {
            Err(e) => Err(e),
            Ok((v, n)) => Ok((v, (h + n) as nat)),
        },
    }
}

impl EncryptionRequest {
    pub fn write_body(&self, s: &mut Serializer) -> (r: Result<(), Error>)
        ensures
            match r {
                Ok(()) => vstd::utf8::encode_utf8(self.server_id@).len() <= 0x7fff_ffff
                    && self.public_key@.len() <= 0x7fff_ffff && self.verify_token@.len()
                    <= 0x7fff_ffff && final(s)@ == old(s)@ + encryption_request_body(self@),
                Err(e) => e == Error::OversizedPayload && (vstd::utf8::encode_utf8(
                    self.server_id@,
                ).len() > 0x7fff_ffff || self.public_key@.len() > 0x7fff_ffff
                    || self.verify_token@.len() > 0x7fff_ffff),
            },
    {
        match s.serialize_str(self.server_id.as_str()) {
            Ok(()) => {},
            Err(e) => {
                return Err(e);
            },
        }
        match s.serialize_byte_vec(&self.public_key) {
            Ok(()) => {},
            Err(e) => {
                return Err(e);
            },
        }
        match s.serialize_byte_vec(&self.verify_token) {
            Ok(()) => {},
            Err(e) => {
                return Err(e);
            },
        }
        proof {
            assert(s@ =~= old(s)@ + encryption_request_body(self@));
        }
        Ok(())
    }

    pub fn to_bytes(&self) -> (r: Result<Vec<u8>, Error>)
        ensures
            match r {
                Ok(v) => self@.encodable() && v@ == encryption_request_wire(self@),
                Err(e) => e == Error::OversizedPayload && !self@.encodable(),
            },
    {
        let mut s = Serializer::new();
        match self.write_body(&mut s) {
            Ok(()) => {},
            Err(e) => {
                return Err(e);
            },
        }
        encode_frame(1, s.into_bytes())
    }

    pub fn read_body(d: &mut Deserializer) -> (r: Result<EncryptionRequest, Error>)
        ensures
            match parse_encryption_request_body(old(d).remaining()) {
                Ok((v, n)) => r matches Ok(p) && p@ == v && final(d).remaining() == old(
                    d,
                ).remaining().skip(n as int),
                Err(e) => r matches Err(re) && re == e,
            },
    {
        let ghost s0 = old(d).remaining();
        let server_id = match d.read_string() {
            Ok(v) => v,
            Err(e) => {
                return Err(e);
            },
        };
        let ghost n1 = parse_string(s0)->Some_0.1 as int;
        let public_key = match d.read_byte_vec() {
            Ok(v) => v,
            Err(e) => {
                return Err(e);
            },
        };
        let ghost n2 = parse_byte_vec(s0.skip(n1))->Some_0.1 as int;
        proof {
            assert(d.remaining() =~= s0.skip(n1 + n2));
        }
        let verify_token = match d.read_byte_vec() {
            Ok(v) => v,
            Err(e) => {
                return Err(e);
            },
        };
        proof {
            let n3 = parse_byte_vec(s0.skip(n1 + n2))->Some_0.1 as int;
            assert(d.remaining() =~= s0.skip(n1 + n2 + n3));
        }
        Ok(EncryptionRequest { server_id, public_key, verify_token })
    }

    pub fn from_bytes(bytes: Vec<u8>) -> (r: Result<EncryptionRequest, Error>)
        ensures
            match parse_encryption_request(bytes@) {
                Ok((v, _)) => r matches Ok(p) && p@ == v,
                Err(e) => r matches Err(re) && re == e,
            },
    {
        let mut d = Deserializer::from_bytes(bytes);
        match skip_frame_header(&mut d) {
            Ok(()) => {},
            Err(e) => {
                return Err(e);
            },
        }
        Self::read_body(&mut d)
    }
}

/// Every encodable EncryptionRequest round-trips.
pub proof fn lemma_encryption_request_round_trip(v: EncryptionRequestV, rest: Seq<u8>)
    requires
        v.encodable(),
    ensures
        parse_encryption_request(encryption_request_wire(v) + rest) == Ok::<_, Error>(
            (v, encryption_request_wire(v).len() as nat),
        ),
{
    crate::encoding::lemma_var_int_bytes_len(1);
    lemma_parse_frame_header_encode(1, encryption_request_body(v), rest);
    let b1 = string_bytes(v.server_id);
    let b2 = byte_vec_bytes(v.public_key);
    let b3 = byte_vec_bytes(v.verify_token);
    let s = encryption_request_body(v) + rest;
    assert(s =~= b1 + (b2 + b3 + rest));
    lemma_parse_string_encode(v.server_id, b2 + b3 + rest);
    let n1 = b1.len() as int;
    assert(s.skip(n1) =~= b2 + (b3 + rest));
    lemma_parse_byte_vec_encode(v.public_key, b3 + rest);
    let n2 = b2.len() as int;
    assert(s.skip(n1 + n2) =~= b3 + rest);
    lemma_parse_byte_vec_encode(v.verify_token, rest);
}

// ---------------------------------------------------------------------
// LoginPluginRequest (clientbound, login phase, id 4): VarInt,
// string, then every remaining byte of the frame.
// ---------------------------------------------------------------------

/// A plugin channel message delivered during login.
#[derive(Debug, Clone, PartialEq, Eq)]
pub struct LoginPluginRequest {
    pub message_id: VarInt,
    pub channel: String,
    pub data: Vec<u8>,
}

/// The mathematical value of a `LoginPluginRequest`.
pub struct LoginPluginRequestV {
    pub message_id: VarInt,
    pub channel: Seq<char>,
    pub data: Seq<u8>,
}

impl View for LoginPluginRequest {
    type V = LoginPluginRequestV;

    open spec fn view(&self) -> LoginPluginRequestV {
        LoginPluginRequestV {
            message_id: self.message_id,
            channel: self.channel@,
            data: self.data@,
        }
    }
}

impl LoginPluginRequestV {
    pub open spec fn wf(self) -> bool {
        self.message_id.wf()
    }

    pub open spec fn encodable(self) -> bool {
        vstd::utf8::encode_utf8(self.channel).len() <= 0x7fff_ffff && frame_fits(
            4,
            login_plugin_request_body(self),
        )
    }
}

pub open spec fn login_plugin_request_body(v: LoginPluginRequestV) -> Seq<u8> {
    var_int_bytes(v.message_id.value) + string_bytes(v.channel) + v.data
}

pub open spec fn login_plugin_request_wire(v: LoginPluginRequestV) -> Seq<u8> {
    frame_bytes(4, login_plugin_request_body(v))
}

/// The data field is a byte tail: it runs to the end of the frame, so
/// the body parse consumes the whole input.
pub open spec fn parse_login_plugin_request_body(s: Seq<u8>) -> Result<
    (LoginPluginRequestV, nat),
    Error,
> {
    match parse_var_int(s) {
        None => Err(Error::MalformedVarInt),
        Some((mid, n1)) => match parse_string(s.skip(n1 as int)) {
            None => Err(Error::MalformedString),
            Some((ch, n2)) => Ok(
                (
                    LoginPluginRequestV {
                        message_id: VarInt { value: mid, size: n1 as usize },
                        channel: ch,
                        data: s.skip((n1 + n2) as int),
                    },
                    s.len(),
                ),
            ),
        },
    }
}

pub open spec fn parse_login_plugin_request(s: Seq<u8>) -> Result<
    (LoginPluginRequestV, nat),
    Error,
> {
    match parse_frame_header(s) {
        Err(e) => Err(e),
        Ok(h) => match parse_login_plugin_request_body(s.skip(h as int)) {
            Err(e) => Err(e),
            Ok((v, n)) => Ok((v, (h + n) as nat)),
        },
    }
}

impl LoginPluginRequest {
    pub fn write_body(&self, s: &mut Serializer) -> (r: Result<(), Error>)
        ensures
            match r {
                Ok(()) => vstd::utf8::encode_utf8(self.channel@).len() <= 0x7fff_ffff && final(s)@
                    == old(s)@ + login_plugin_request_body(self@),
                Err(e) => e == Error::OversizedPayload && vstd::utf8::encode_utf8(
                    self.channel@,
                ).len() > 0x7fff_ffff,
            },
    {
        s.serialize_var_int(self.message_id.value);
        match s.serialize_str(self.channel.as_str()) {
            Ok(()) => {},
            Err(e) => {
                return Err(e);
            },
        }
        s.serialize_bytes(self.data.as_slice());
        proof {
            assert(s@ =~= old(s)@ + login_plugin_request_body(self@));
        }
        Ok(())
    }

    pub fn to_bytes(&self) -> (r: Result<Vec<u8>, Error>)
        ensures
            match r {
                Ok(v) => self@.encodable() && v@ == login_plugin_request_wire(self@),
                Err(e) => e == Error::OversizedPayload && !self@.encodable(),
            },
    {
        let mut s = Serializer::new();
        match self.write_body(&mut s) {
            Ok(()) => {},
            Err(e) => {
                return Err(e);
            },
        }
        encode_frame(4, s.into_bytes())
    }

    pub fn read_body(d: &mut Deserializer) -> (r: Result<LoginPluginRequest, Error>)
        ensures
            match parse_login_plugin_request_body(old(d).remaining()) {
                Ok((v, n)) => r matches Ok(p) && p@ == v && final(d).remaining() == old(
                    d,
                ).remaining().skip(n as int),
                Err(e) => r matches Err(re) && re == e,
            },
    {
        let ghost s0 = old(d).remaining();
        let message_id = match d.read_var_int() {
            Ok(v) => v,
            Err(e) => {
                return Err(e);
            },
        };
        let channel = match d.read_string() {
            Ok(v) => v,
            Err(e) => {
                return Err(e);
            },
        };
        let data = d.read_byte_tail();
        proof {
            let n1 = parse_var_int(s0)->Some_0.1 as int;
            let n2 = parse_string(s0.skip(n1))->Some_0.1 as int;
            lemma_parse_var_int_props(s0, Seq::<u8>::empty());
            assert(data@ =~= s0.skip(n1 + n2));
            assert(d.remaining() =~= s0.skip(s0.len() as int));
        }
        Ok(LoginPluginRequest { message_id, channel, data })
    }

    pub fn from_bytes(bytes: Vec<u8>) -> (r: Result<LoginPluginRequest, Error>)
        ensures
            match parse_login_plugin_request(bytes@) {
                Ok((v, _)) => r matches Ok(p) && p@ == v,
                Err(e) => r matches Err(re) && re == e,
            },
    {
        let mut d = Deserializer::from_bytes(bytes);
        match skip_frame_header(&mut d) {
            Ok(()) => {},
            Err(e) => {
                return Err(e);
            },
        }
        Self::read_body(&mut d)
    }
}

/// Every encodable LoginPluginRequest round-trips when the frame is
/// decoded on its own: its data field runs to the end of the input.
pub proof fn lemma_login_plugin_request_round_trip(v: LoginPluginRequestV)
    requires
        v.wf(),
        v.encodable(),
    ensures
        parse_login_plugin_request(login_plugin_request_wire(v)) == Ok::<_, Error>(
            (v, login_plugin_request_wire(v).len() as nat),
        ),
{
    crate::encoding::lemma_var_int_bytes_len(4);
    let body = login_plugin_request_body(v);
    assert(login_plugin_request_wire(v) =~= login_plugin_request_wire(v) + Seq::<u8>::empty());
    lemma_parse_frame_header_encode(4, body, Seq::<u8>::empty());
    let b1 = var_int_bytes(v.message_id.value);
    let b2 = string_bytes(v.channel);
    let s = body + Seq::<u8>::empty();
    assert(s =~= body);
    assert(s =~= b1 + (b2 + v.data));
    lemma_parse_var_int_encode(v.message_id.value, b2 + v.data);
    let n1 = b1.len() as int;
    assert(s.skip(n1) =~= b2 + v.data);
    lemma_parse_string_encode(v.channel, v.data);
    let n2 = b2.len() as int;
    assert(s.skip(n1 + n2) =~= v.data);
}

// ---------------------------------------------------------------------
// Optional strings.
// ---------------------------------------------------------------------

/// True when a string's UTF-8 form fits a VarInt length prefix.
pub open spec fn str_fits(cs: Seq<char>) -> bool {
    vstd::utf8::encode_utf8(cs).len() <= 0x7fff_ffff
}

pub open spec fn opt_string_bytes(o: Option<Seq<char>>) -> Seq<u8> {
    match o {
        Option::None => seq![0u8],
        Option::Some(cs) => seq![1u8] + string_bytes(cs),
    }
}

pub open spec fn parse_opt_string(s: Seq<u8>) -> Result<(Option<Seq<char>>, nat), Error> {
    match parse_bool(s) {
        None => Err(Error::MalformedBool),
        Some((present, n1)) => if !present {
            Ok((Option::None, n1))
        } else {
            match parse_string(s.skip(n1 as int)) {
                None => Err(Error::MalformedString),
                Some((cs, n2)) => Ok((Option::Some(cs), (n1 + n2) as nat)),
            }
        },
    }
}

/// Every optional string that fits its prefix round-trips.
pub proof fn lemma_parse_opt_string_encode(o: Option<Seq<char>>, rest: Seq<u8>)
    requires
        o matches Some(cs) ==> str_fits(cs),
    ensures
        parse_opt_string(opt_string_bytes(o) + rest) == Ok::<_, Error>(
            (o, opt_string_bytes(o).len() as nat),
        ),
{
    let s = opt_string_bytes(o) + rest;
    match o {
        Option::None => {
            assert(s[0] == 0u8);
        },
        Option::Some(cs) => {
            assert(s[0] == 1u8);
            assert(s.skip(1) =~= string_bytes(cs) + rest);
            lemma_parse_string_encode(cs, rest);
        },
    }
}

// ---------------------------------------------------------------------
// LoginSuccessProperties: a union discriminated by a VarInt index.
// ---------------------------------------------------------------------

/// The property block of a LoginSuccess, dispatched on the wire by a
/// VarInt discriminator equal to the variant's index.
#[derive(Debug, Clone, PartialEq, Eq)]
pub enum LoginSuccessProperties {
    Empty,
    One { name: String },
    Two { name: String, value: String },
    Three { name: String, value: String, is_signed: bool },
    Four { name: String, value: String, signature: Option<String> },
}

/// The mathematical value of a `LoginSuccessProperties`.
pub enum LoginSuccessPropertiesV {
    Empty,
    One { name: Seq<char> },
    Two { name: Seq<char>, value: Seq<char> },
    Three { name: Seq<char>, value: Seq<char>, is_signed: bool },
    Four { name: Seq<char>, value: Seq<char>, signature: Option<Seq<char>> },
}

impl View for LoginSuccessProperties {
    type V = LoginSuccessPropertiesV;

    open spec fn view(&self) -> LoginSuccessPropertiesV {
        match self {
            LoginSuccessProperties::Empty => LoginSuccessPropertiesV::Empty,
            LoginSuccessProperties::One { name } => LoginSuccessPropertiesV::One { name: name@ },
            LoginSuccessProperties::Two { name, value } => LoginSuccessPropertiesV::Two {
                name: name@,
                value: value@,
            },
            LoginSuccessProperties::Three { name, value, is_signed } => {
                LoginSuccessPropertiesV::Three {
                    name: name@,
                    value: value@,
                    is_signed: *is_signed,
                }
            },
            LoginSuccessProperties::Four { name, value, signature } => {
                LoginSuccessPropertiesV::Four {
                    name: name@,
                    value: value@,
                    signature: match signature {
                        Option::None => Option::None,
                        Option::Some(sig) => Option::Some(sig@),
                    },
                }
            },
        }
    }
}

impl LoginSuccessPropertiesV {
    /// Every string in the variant fits its length prefix.
    pub open spec fn encodable(self) -> bool {
        match self {
            LoginSuccessPropertiesV::Empty => true,
            LoginSuccessPropertiesV::One { name } => str_fits(name),
            LoginSuccessPropertiesV::Two { name, value } => str_fits(name) && str_fits(value),
            LoginSuccessPropertiesV::Three { name, value, is_signed } => str_fits(name)
                && str_fits(value),
            LoginSuccessPropertiesV::Four { name, value, signature } => str_fits(name)
                && str_fits(value) && (signature matches Some(cs) ==> str_fits(cs)),
        }
    }
}

/// The wire form of the property block: the variant index as a
/// VarInt, then the variant's fields in order.
pub open spec fn login_success_properties_bytes(v: LoginSuccessPropertiesV) -> Seq<u8> {
    match v {
        LoginSuccessPropertiesV::Empty => var_int_bytes(0),
        LoginSuccessPropertiesV::One { name } => var_int_bytes(1) + string_bytes(name),
        LoginSuccessPropertiesV::Two { name, value } => var_int_bytes(2) + string_bytes(name)
            + string_bytes(value),
        LoginSuccessPropertiesV::Three { name, value, is_signed } => var_int_bytes(3)
            + string_bytes(name) + string_bytes(value) + seq![crate::encoding::bool_byte(
            is_signed,
        )],
        LoginSuccessPropertiesV::Four { name, value, signature } => var_int_bytes(4)
            + string_bytes(name) + string_bytes(value) + opt_string_bytes(signature),
    }
}

/// Reads the property block: the discriminator picks the variant; a
/// discriminator past the last variant is an error.
pub open spec fn parse_login_success_properties(s: Seq<u8>) -> Result<
    (LoginSuccessPropertiesV, nat),
    Error,
> {
    match parse_var_int(s) {
        None => Err(Error::MalformedVarInt),
        Some((disc, n0)) => if disc == 0 {
            Ok((LoginSuccessPropertiesV::Empty, n0))
        } else if disc == 1 {
            match parse_string(s.skip(n0 as int)) {
                None => Err(Error::MalformedString),
                Some((name, n1)) => Ok(
                    (LoginSuccessPropertiesV::One { name }, (n0 + n1) as nat),
                ),
            }
        } else if disc == 2 {
            match parse_string(s.skip(n0 as int)) {
                None => Err(Error::MalformedString),
                Some((name, n1)) => match parse_string(s.skip((n0 + n1) as int)) {
                    None => Err(Error::MalformedString),
                    Some((value, n2)) => Ok(
                        (LoginSuccessPropertiesV::Two { name, value }, (n0 + n1 + n2) as nat),
                    ),
                },
            }
        } else if disc == 3 {
            match parse_string(s.skip(n0 as int)) {
                None => Err(Error::MalformedString),
                Some((name, n1)) => match parse_string(s.skip((n0 + n1) as int)) {
                    None => Err(Error::MalformedString),
                    Some((value, n2)) => match parse_bool(s.skip((n0 + n1 + n2) as int)) {
                        None => Err(Error::MalformedBool),
                        Some((is_signed, n3)) => Ok(
                            (
                                LoginSuccessPropertiesV::Three { name, value, is_signed },
                                (n0 + n1 + n2 + n3) as nat,
                            ),
                        ),
                    },
                },
            }
        } else if disc == 4 {
            match parse_string(s.skip(n0 as int)) {
                None => Err(Error::MalformedString),
                Some((name, n1)) => match parse_string(s.skip((n0 + n1) as int)) {
                    None => Err(Error::MalformedString),
                    Some((value, n2)) => match parse_opt_string(s.skip((n0 + n1 + n2) as int)) {
                        Err(e) => Err(e),
                        Ok((signature, n3)) => Ok(
                            (
                                LoginSuccessPropertiesV::Four { name, value, signature },
                                (n0 + n1 + n2 + n3) as nat,
                            ),
                        ),
                    },
                },
            }
        } else {
            Err(Error::UnknownVariant)
        },
    }
}

/// A successful property-block parse never consumes more bytes than
/// the input holds.
#[verifier::rlimit(60)]
pub proof fn lemma_parse_login_success_properties_consumed(s: Seq<u8>)
    requires
        parse_login_success_properties(s) is Ok,
    ensures
        parse_login_success_properties(s)->Ok_0.1 <= s.len(),
{
    lemma_parse_var_int_props(s, Seq::<u8>::empty());
}

impl LoginSuccessProperties {
    /// Appends the discriminator and the variant's fields.
    #[verifier::rlimit(60)]
    pub fn write_body(&self, s: &mut Serializer) -> (r: Result<(), Error>)
        ensures
            match r {
                Ok(()) => self@.encodable() && final(s)@ == old(s)@
                    + login_success_properties_bytes(self@),
                Err(e) => e == Error::OversizedPayload && !self@.encodable(),
            },
    {
        match self {
            LoginSuccessProperties::Empty => {
                s.serialize_var_int(0);
                Ok(())
            },
            LoginSuccessProperties::One { name } => {
                s.serialize_var_int(1);
                match s.serialize_str(name.as_str()) {
                    Ok(()) => {},
                    Err(e) => {
                        return Err(e);
                    },
                }
                proof {
                    assert(s@ =~= old(s)@ + login_success_properties_bytes(self@));
                }
                Ok(())
            },
            LoginSuccessProperties::Two { name, value } => {
                s.serialize_var_int(2);
                match s.serialize_str(name.as_str()) {
                    Ok(()) => {},
                    Err(e) => {
                        return Err(e);
                    },
                }
                match s.serialize_str(value.as_str()) {
                    Ok(()) => {},
                    Err(e) => {
                        return Err(e);
                    },
                }
                proof {
                    assert(s@ =~= old(s)@ + login_success_properties_bytes(self@));
                }
                Ok(())
            },
            LoginSuccessProperties::Three { name, value, is_signed } => {
                s.serialize_var_int(3);
                match s.serialize_str(name.as_str()) {
                    Ok(()) => {},
                    Err(e) => {
                        return Err(e);
                    },
                }
                match s.serialize_str(value.as_str()) {
                    Ok(()) => {},
                    Err(e) => {
                        return Err(e);
                    },
                }
                s.serialize_bool(*is_signed);
                proof {
                    assert(s@ =~= old(s)@ + login_success_properties_bytes(self@));
                }
                Ok(())
            },
            LoginSuccessProperties::Four { name, value, signature } => {
                s.serialize_var_int(4);
                match s.serialize_str(name.as_str()) {
                    Ok(()) => {},
                    Err(e) => {
                        return Err(e);
                    },
                }
                match s.serialize_str(value.as_str()) {
                    Ok(()) => {},
                    Err(e) => {
                        return Err(e);
                    },
                }
                match signature {
                    Option::None => {
                        s.serialize_bool(false);
                    },
                    Option::Some(sig) => {
                        s.serialize_bool(true);
                        match s.serialize_str(sig.as_str()) {
                            Ok(()) => {},
                            Err(e) => {
                                return Err(e);
                            },
                        }
                    },
                }
                proof {
                    assert(s@ =~= old(s)@ + login_success_properties_bytes(self@));
                }
                Ok(())
            },
        }
    }

    /// Reads the discriminator and the matching variant's fields.
    #[verifier::rlimit(80)]
    pub fn read_body(d: &mut Deserializer) -> (r: Result<LoginSuccessProperties, Error>)
        ensures
            match parse_login_success_properties(old(d).remaining()) {
                Ok((v, n)) => r matches Ok(p) && p@ == v && final(d).remaining() == old(
                    d,
                ).remaining().skip(n as int),
                Err(e) => r matches Err(re) && re == e,
            },
    {
        let ghost s0 = old(d).remaining();
        let disc = match d.read_var_int() {
            Ok(v) => v,
            Err(e) => {
                return Err(e);
            },
        };
        let ghost n0 = parse_var_int(s0)->Some_0.1 as int;
        proof {
            lemma_parse_var_int_props(s0, Seq::<u8>::empty());
        }
        if disc.value == 0 {
            Ok(LoginSuccessProperties::Empty)
        } else if disc.value == 1 {
            let name = match d.read_string() {
                Ok(v) => v,
                Err(e) => {
                    return Err(e);
                },
            };
            proof {
                let n1 = parse_string(s0.skip(n0))->Some_0.1 as int;
                assert(d.remaining() =~= s0.skip(n0 + n1));
            }
            Ok(LoginSuccessProperties::One { name })
        } else if disc.value == 2 {
            let name = match d.read_string() {
                Ok(v) => v,
                Err(e) => {
                    return Err(e);
                },
            };
            let ghost n1 = parse_string(s0.skip(n0))->Some_0.1 as int;
            proof {
                assert(d.remaining() =~= s0.skip(n0 + n1));
            }
            let value = match d.read_string() {
                Ok(v) => v,
                Err(e) => {
                    return Err(e);
                },
            };
            proof {
                let n2 = parse_string(s0.skip(n0 + n1))->Some_0.1 as int;
                assert(d.remaining() =~= s0.skip(n0 + n1 + n2));
            }
            Ok(LoginSuccessProperties::Two { name, value })
        } else if disc.value == 3 {
            let name = match d.read_string() {
                Ok(v) => v,
                Err(e) => {
                    return Err(e);
                },
            };
            let ghost n1 = parse_string(s0.skip(n0))->Some_0.1 as int;
            proof {
                assert(d.remaining() =~= s0.skip(n0 + n1));
            }
            let value = match d.read_string() {
                Ok(v) => v,
                Err(e) => {
                    return Err(e);
                },
            };
            let ghost n2 = parse_string(s0.skip(n0 + n1))->Some_0.1 as int;
            proof {
                assert(d.remaining() =~= s0.skip(n0 + n1 + n2));
            }
            let is_signed = match d.read_bool() {
                Ok(v) => v,
                Err(e) => {
                    return Err(e);
                },
            };
            proof {
                let n3 = parse_bool(s0.skip(n0 + n1 + n2))->Some_0.1 as int;
                assert(d.remaining() =~= s0.skip(n0 + n1 + n2 + n3));
            }
            Ok(LoginSuccessProperties::Three { name, value, is_signed })
        } else if disc.value == 4 {
            let name = match d.read_string() {
                Ok(v) => v,
                Err(e) => {
                    return Err(e);
                },
            };
            let ghost n1 = parse_string(s0.skip(n0))->Some_0.1 as int;
            proof {
                assert(d.remaining() =~= s0.skip(n0 + n1));
            }
            let value = match d.read_string() {
                Ok(v) => v,
                Err(e) => {
                    return Err(e);
                },
            };
            let ghost n2 = parse_string(s0.skip(n0 + n1))->Some_0.1 as int;
            proof {
                assert(d.remaining() =~= s0.skip(n0 + n1 + n2));
            }
            let present = match d.read_bool() {
                Ok(v) => v,
                Err(e) => {
                    return Err(e);
                },
            };
            let signature = if present {
                match d.read_string() {
                    Ok(v) => Some(v),
                    Err(e) => {
                        return Err(e);
                    },
                }
            } else {
                None
            };
            proof {
                let n3 = parse_opt_string(s0.skip(n0 + n1 + n2))->Ok_0.1 as int;
                assert(d.remaining() =~= s0.skip(n0 + n1 + n2 + n3));
            }
            Ok(LoginSuccessProperties::Four { name, value, signature })
        } else {
            Err(Error::UnknownVariant)
        }
    }
}

/// Every encodable property block round-trips, variant by variant.
pub proof fn lemma_login_success_properties_round_trip(v: LoginSuccessPropertiesV, rest: Seq<u8>)
    requires
        v.encodable(),
    ensures
        parse_login_success_properties(login_success_properties_bytes(v) + rest) == Ok::<
            _,
            Error,
        >((v, login_success_properties_bytes(v).len() as nat)),
{
    match v {
        LoginSuccessPropertiesV::Empty => {
            lemma_props_round_trip_empty(rest);
        },
        LoginSuccessPropertiesV::One { name } => {
            lemma_props_round_trip_one(name, rest);
        },
        LoginSuccessPropertiesV::Two { name, value } => {
            lemma_props_round_trip_two(name, value, rest);
        },
        LoginSuccessPropertiesV::Three { name, value, is_signed } => {
            lemma_props_round_trip_three(name, value, is_signed, rest);
        },
        LoginSuccessPropertiesV::Four { name, value, signature } => {
            lemma_props_round_trip_four(name, value, signature, rest);
        },
    }
}

#[verifier::spinoff_prover]
proof fn lemma_props_round_trip_empty(rest: Seq<u8>)
    ensures
        ({
            let v = LoginSuccessPropertiesV::Empty;
            parse_login_success_properties(login_success_properties_bytes(v) + rest) == Ok::<
                _,
                Error,
            >((v, login_success_properties_bytes(v).len() as nat))
        }),
{
    let v = LoginSuccessPropertiesV::Empty;
    let s = login_success_properties_bytes(v) + rest;
    assert(s =~= var_int_bytes(0) + rest);
    lemma_parse_var_int_encode(0, rest);
}

#[verifier::spinoff_prover]
#[verifier::rlimit(60)]
proof fn lemma_props_round_trip_one(name: Seq<char>, rest: Seq<u8>)
    requires
        str_fits(name),
    ensures
        ({
            let v = LoginSuccessPropertiesV::One { name };
            parse_login_success_properties(login_success_properties_bytes(v) + rest) == Ok::<
                _,
                Error,
            >((v, login_success_properties_bytes(v).len() as nat))
        }),
{
    let v = LoginSuccessPropertiesV::One { name };
    let s = login_success_properties_bytes(v) + rest;
    let b1 = string_bytes(name);
    assert(s =~= var_int_bytes(1) + (b1 + rest));
    lemma_parse_var_int_encode(1, b1 + rest);
    let n0 = var_int_bytes(1).len() as int;
    assert(s.skip(n0) =~= b1 + rest);
    lemma_parse_string_encode(name, rest);
}

#[verifier::spinoff_prover]
#[verifier::rlimit(60)]
proof fn lemma_props_round_trip_two(name: Seq<char>, value: Seq<char>, rest: Seq<u8>)
    requires
        str_fits(name),
        str_fits(value),
    ensures
        ({
            let v = LoginSuccessPropertiesV::Two { name, value };
            parse_login_success_properties(login_success_properties_bytes(v) + rest) == Ok::<
                _,
                Error,
            >((v, login_success_properties_bytes(v).len() as nat))
        }),
{
    let v = LoginSuccessPropertiesV::Two { name, value };
    let s = login_success_properties_bytes(v) + rest;
    let b1 = string_bytes(name);
    let b2 = string_bytes(value);
    assert(s =~= var_int_bytes(2) + (b1 + b2 + rest));
    lemma_parse_var_int_encode(2, b1 + b2 + rest);
    let n0 = var_int_bytes(2).len() as int;
    assert(s.skip(n0) =~= b1 + (b2 + rest));
    lemma_parse_string_encode(name, b2 + rest);
    let n1 = b1.len() as int;
    assert(s.skip(n0 + n1) =~= b2 + rest);
    lemma_parse_string_encode(value, rest);
}

#[verifier::spinoff_prover]
#[verifier::rlimit(60)]
proof fn lemma_props_round_trip_three(
    name: Seq<char>,
    value: Seq<char>,
    is_signed: bool,
    rest: Seq<u8>,
)
    requires
        str_fits(name),
        str_fits(value),
    ensures
        ({
            let v = LoginSuccessPropertiesV::Three { name, value, is_signed };
            parse_login_success_properties(login_success_properties_bytes(v) + rest) == Ok::<
                _,
                Error,
            >((v, login_success_properties_bytes(v).len() as nat))
        }),
{
    let v = LoginSuccessPropertiesV::Three { name, value, is_signed };
    let s = login_success_properties_bytes(v) + rest;
    let b1 = string_bytes(name);
    let b2 = string_bytes(value);
    let b3 = seq![crate::encoding::bool_byte(is_signed)];
    assert(s =~= var_int_bytes(3) + (b1 + b2 + b3 + rest));
    lemma_parse_var_int_encode(3, b1 + b2 + b3 + rest);
    let n0 = var_int_bytes(3).len() as int;
    assert(s.skip(n0) =~= b1 + (b2 + b3 + rest));
    lemma_parse_string_encode(name, b2 + b3 + rest);
    let n1 = b1.len() as int;
    assert(s.skip(n0 + n1) =~= b2 + (b3 + rest));
    lemma_parse_string_encode(value, b3 + rest);
    let n2 = b2.len() as int;
    assert(s.skip(n0 + n1 + n2) =~= b3 + rest);
    assert(s.skip(n0 + n1 + n2)[0] == crate::encoding::bool_byte(is_signed));
    assert((crate::encoding::bool_byte(is_signed) == 1) == is_signed);
}

#[verifier::spinoff_prover]
#[verifier::rlimit(60)]
proof fn lemma_props_round_trip_four(
    name: Seq<char>,
    value: Seq<char>,
    signature: Option<Seq<char>>,
    rest: Seq<u8>,
)
    requires
        str_fits(name),
        str_fits(value),
        signature matches Some(cs) ==> str_fits(cs),
    ensures
        ({
            let v = LoginSuccessPropertiesV::Four { name, value, signature };
            parse_login_success_properties(login_success_properties_bytes(v) + rest) == Ok::<
                _,
                Error,
            >((v, login_success_properties_bytes(v).len() as nat))
        }),
{
    let v = LoginSuccessPropertiesV::Four { name, value, signature };
    let s = login_success_properties_bytes(v) + rest;
    let b1 = string_bytes(name);
    let b2 = string_bytes(value);
    let b3 = opt_string_bytes(signature);
    assert(s =~= var_int_bytes(4) + (b1 + b2 + b3 + rest));
    lemma_parse_var_int_encode(4, b1 + b2 + b3 + rest);
    let n0 = var_int_bytes(4).len() as int;
    assert(s.skip(n0) =~= b1 + (b2 + b3 + rest));
    lemma_parse_string_encode(name, b2 + b3 + rest);
    let n1 = b1.len() as int;
    assert(s.skip(n0 + n1) =~= b2 + (b3 + rest));
    lemma_parse_string_encode(value, b3 + rest);
    let n2 = b2.len() as int;
    assert(s.skip(n0 + n1 + n2) =~= b3 + rest);
    lemma_parse_opt_string_encode(signature, rest);
}

// ---------------------------------------------------------------------
// LoginSuccess (clientbound, login phase, id 2).
// ---------------------------------------------------------------------

/// The server admits the client: its UUID, name and properties.
#[derive(Debug, Clone, PartialEq, Eq)]
pub struct LoginSuccess {
    pub uuid: MinecraftUuid,
    pub username: String,
    pub properties: LoginSuccessProperties,
}

/// The mathematical value of a `LoginSuccess`.
pub struct LoginSuccessV {
    pub uuid: MinecraftUuid,
    pub username: Seq<char>,
    pub properties: LoginSuccessPropertiesV,
}

impl View for LoginSuccess {
    type V = LoginSuccessV;

    open spec fn view(&self) -> LoginSuccessV {
        LoginSuccessV {
            uuid: self.uuid,
            username: self.username@,
            properties: self.properties@,
        }
    }
}

impl LoginSuccessV {
    pub open spec fn encodable(self) -> bool {
        str_fits(self.username) && self.properties.encodable() && frame_fits(
            2,
            login_success_body(self),
        )
    }
}

pub open spec fn login_success_body(v: LoginSuccessV) -> Seq<u8> {
    uuid_bytes(v.uuid.most, v.uuid.least) + string_bytes(v.username)
        + login_success_properties_bytes(v.properties)
}

pub open spec fn login_success_wire(v: LoginSuccessV) -> Seq<u8> {
    frame_bytes(2, login_success_body(v))
}

pub open spec fn parse_login_success_body(s: Seq<u8>) -> Result<(LoginSuccessV, nat), Error> {
    match parse_uuid(s) {
        None => Err(Error::MalformedUuid),
        Some(((most, least), n1)) => match parse_string(s.skip(n1 as int)) {
            None => Err(Error::MalformedString),
            Some((username, n2)) => match parse_login_success_properties(
                s.skip((n1 + n2) as int),
            ) {
                Err(e) => Err(e),
                Ok((properties, n3)) => Ok(
                    (
                        LoginSuccessV {
                            uuid: MinecraftUuid { most, least },
                            username,
                            properties,
                        },
                        (n1 + n2 + n3) as nat,
                    ),
                ),
            },
        },
    }
}

pub open spec fn parse_login_success(s: Seq<u8>) -> Result<(LoginSuccessV, nat), Error> {
    match parse_frame_header(s) {
        Err(e) => Err(e),
        Ok(h) => match parse_login_success_body(s.skip(h as int)) {
            Err(e) => Err(e),
            Ok((v, n)) => Ok((v, (h + n) as nat)),
        },
    }
}

impl LoginSuccess {
    pub fn write_body(&self, s: &mut Serializer) -> (r: Result<(), Error>)
        ensures
            match r {
                Ok(()) => str_fits(self.username@) && self.properties@.encodable() && final(s)@
                    == old(s)@ + login_success_body(self@),
                Err(e) => e == Error::OversizedPayload && !(str_fits(self.username@)
                    && self.properties@.encodable()),
            },
    {
        s.serialize_uuid(&self.uuid);
        match s.serialize_str(self.username.as_str()) {
            Ok(()) => {},
            Err(e) => {
                return Err(e);
            },
        }
        match self.properties.write_body(s) {
            Ok(()) => {},
            Err(e) => {
                return Err(e);
            },
        }
        proof {
            assert(s@ =~= old(s)@ + login_success_body(self@));
        }
        Ok(())
    }

    pub fn to_bytes(&self) -> (r: Result<Vec<u8>, Error>)
        ensures
            match r {
                Ok(v) => self@.encodable() && v@ == login_success_wire(self@),
                Err(e) => e == Error::OversizedPayload && !self@.encodable(),
            },
    {
        let mut s = Serializer::new();
        match self.write_body(&mut s) {
            Ok(()) => {},
            Err(e) => {
                return Err(e);
            },
        }
        encode_frame(2, s.into_bytes())
    }

    pub fn read_body(d: &mut Deserializer) -> (r: Result<LoginSuccess, Error>)
        ensures
            match parse_login_success_body(old(d).remaining()) {
                Ok((v, n)) => r matches Ok(p) && p@ == v && final(d).remaining() == old(
                    d,
                ).remaining().skip(n as int),
                Err(e) => r matches Err(re) && re == e,
            },
    {
        let ghost s0 = old(d).remaining();
        let uuid = match d.read_uuid() {
            Ok(v) => v,
            Err(e) => {
                return Err(e);
            },
        };
        let username = match d.read_string() {
            Ok(v) => v,
            Err(e) => {
                return Err(e);
            },
        };
        let ghost n1 = parse_uuid(s0)->Some_0.1 as int;
        let ghost n2 = parse_string(s0.skip(n1))->Some_0.1 as int;
        proof {
            assert(d.remaining() =~= s0.skip(n1 + n2));
        }
        let properties = match LoginSuccessProperties::read_body(d) {
            Ok(v) => v,
            Err(e) => {
                return Err(e);
            },
        };
        proof {
            let n3 = parse_login_success_properties(s0.skip(n1 + n2))->Ok_0.1 as int;
            lemma_parse_login_success_properties_consumed(s0.skip(n1 + n2));
            assert(d.remaining() =~= s0.skip(n1 + n2 + n3));
        }
        Ok(LoginSuccess { uuid, username, properties })
    }

    pub fn from_bytes(bytes: Vec<u8>) -> (r: Result<LoginSuccess, Error>)
        ensures
            match parse_login_success(bytes@) {
                Ok((v, _)) => r matches Ok(p) && p@ == v,
                Err(e) => r matches Err(re) && re == e,
            },
    {
        let mut d = Deserializer::from_bytes(bytes);
        match skip_frame_header(&mut d) {
            Ok(()) => {},
            Err(e) => {
                return Err(e);
            },
        }
        Self::read_body(&mut d)
    }
}

/// Every encodable LoginSuccess round-trips.
#[verifier::rlimit(100)]
#[verifier::spinoff_prover]
pub proof fn lemma_login_success_round_trip(v: LoginSuccessV, rest: Seq<u8>)
    requires
        v.encodable(),
    ensures
        parse_login_success(login_success_wire(v) + rest) == Ok::<_, Error>(
            (v, login_success_wire(v).len() as nat),
        ),
{
    crate::encoding::lemma_var_int_bytes_len(2);
    lemma_parse_frame_header_encode(2, login_success_body(v), rest);
    let b1 = uuid_bytes(v.uuid.most, v.uuid.least);
    let b2 = string_bytes(v.username);
    let b3 = login_success_properties_bytes(v.properties);
    let s = login_success_body(v) + rest;
    assert(s =~= b1 + (b2 + b3 + rest));
    lemma_parse_uuid_encode(v.uuid.most, v.uuid.least, b2 + b3 + rest);
    let n1 = b1.len() as int;
    assert(s.skip(n1) =~= b2 + (b3 + rest));
    lemma_parse_string_encode(v.username, b3 + rest);
    let n2 = b2.len() as int;
    assert(s.skip(n1 + n2) =~= b3 + rest);
    lemma_login_success_properties_round_trip(v.properties, rest);
}

} // verus!
