//! Generic decode: one closed tagged union per phase and direction,
//! discriminated by the on-wire packet id.

use vstd::prelude::*;

use crate::deserializer::Deserializer;
use crate::error::Error;
use crate::non_play::{
    parse_disconnect_body, parse_encryption_request_body, parse_encryption_response_body,
    parse_handshake_body, parse_login_plugin_request_body, parse_login_start_body,
    parse_login_success_body, parse_ping_request_body, parse_ping_response_body,
    parse_set_compression_body, parse_status_response_body, Disconnect, DisconnectV,
    EncryptionRequest, EncryptionRequestV,
    EncryptionResponse, EncryptionResponseV, Handshake, HandshakeV, LoginPluginRequest,
    LoginPluginRequestV, LoginStart, LoginStartV, LoginSuccess, LoginSuccessV, PingRequest,
    PingResponse, SetCompression, StatusRequest, StatusRequestV, StatusResponse, StatusResponseV,
};
use crate::packets::{parse_generic_header, read_generic_header};

verus! {

// ---------------------------------------------------------------------
// Serverbound void (handshake) phase.
// ---------------------------------------------------------------------

/// Any serverbound packet legal in the void phase.
#[derive(Debug, Clone, PartialEq, Eq)]
pub enum ServerboundVoidPacket {
    Handshake(Handshake),
}

/// The mathematical value of a `ServerboundVoidPacket`.
pub enum ServerboundVoidPacketV {
    Handshake(HandshakeV),
}

impl View for ServerboundVoidPacket {
    type V = ServerboundVoidPacketV;

    open spec fn view(&self) -> ServerboundVoidPacketV {
        match self {
            ServerboundVoidPacket::Handshake(p) => ServerboundVoidPacketV::Handshake(p@),
        }
    }
}

/// Generic decode for the serverbound void phase: the id picks the
/// shape; an unregistered id is an error.
pub open spec fn parse_serverbound_void(s: Seq<u8>) -> Result<
    (ServerboundVoidPacketV, nat),
    Error,
> {
    match parse_generic_header(s) {
        Err(e) => Err(e),
        Ok((id, h)) => if id == 0 {
            match parse_handshake_body(s.skip(h as int)) {
                Err(e) => Err(e),
                Ok((v, n)) => Ok((ServerboundVoidPacketV::Handshake(v), (h + n) as nat)),
            }
        } else {
            Err(Error::UnknownPacketId)
        },
    }
}

impl ServerboundVoidPacket {
    /// Decodes a whole frame, dispatching on the packet id.
    pub fn from_bytes_generic(bytes: Vec<u8>) -> (r: Result<ServerboundVoidPacket, Error>)
        ensures
            match parse_serverbound_void(bytes@) {
                Ok((v, _)) => r matches Ok(p) && p@ == v,
                Err(e) => r matches Err(re) && re == e,
            },
    {
        let mut d = Deserializer::from_bytes(bytes);
        let id = match read_generic_header(&mut d) {
            Ok(id) => id,
            Err(e) => {
                return Err(e);
            },
        };
        if id == 0 {
            match Handshake::read_body(&mut d) {
                Ok(p) => Ok(ServerboundVoidPacket::Handshake(p)),
                Err(e) => Err(e),
            }
        } else {
            Err(Error::UnknownPacketId)
        }
    }
}

// ---------------------------------------------------------------------
// Serverbound status phase.
// ---------------------------------------------------------------------

/// Any serverbound packet legal in the status phase.
#[derive(Debug, Clone, PartialEq, Eq)]
pub enum ServerboundStatusPacket {
    StatusRequest(StatusRequest),
    PingRequest(PingRequest),
}

/// The mathematical value of a `ServerboundStatusPacket`.
pub enum ServerboundStatusPacketV {
    StatusRequest(StatusRequestV),
    PingRequest(PingRequest),
}

impl View for ServerboundStatusPacket {
    type V = ServerboundStatusPacketV;

    open spec fn view(&self) -> ServerboundStatusPacketV {
        match self {
            ServerboundStatusPacket::StatusRequest(p) => ServerboundStatusPacketV::StatusRequest(
                p@,
            ),
            ServerboundStatusPacket::PingRequest(p) => ServerboundStatusPacketV::PingRequest(p@),
        }
    }
}

pub open spec fn parse_serverbound_status(s: Seq<u8>) -> Result<
    (ServerboundStatusPacketV, nat),
    Error,
> {
    match parse_generic_header(s) {
        Err(e) => Err(e),
        Ok((id, h)) => if id == 0 {
            Ok((ServerboundStatusPacketV::StatusRequest(StatusRequestV {}), h))
        } else if id == 1 {
            match parse_ping_request_body(s.skip(h as int)) {
                Err(e) => Err(e),
                Ok((v, n)) => Ok((ServerboundStatusPacketV::PingRequest(v), (h + n) as nat)),
            }
        } else {
            Err(Error::UnknownPacketId)
        },
    }
}

impl ServerboundStatusPacket {
    pub fn from_bytes_generic(bytes: Vec<u8>) -> (r: Result<ServerboundStatusPacket, Error>)
        ensures
            match parse_serverbound_status(bytes@) {
                Ok((v, _)) => r matches Ok(p) && p@ == v,
                Err(e) => r matches Err(re) && re == e,
            },
    {
        let mut d = Deserializer::from_bytes(bytes);
        let id = match read_generic_header(&mut d) {
            Ok(id) => id,
            Err(e) => {
                return Err(e);
            },
        };
        if id == 0 {
            Ok(ServerboundStatusPacket::StatusRequest(StatusRequest {}))
        } else if id == 1 {
            match PingRequest::read_body(&mut d) {
                Ok(p) => Ok(ServerboundStatusPacket::PingRequest(p)),
                Err(e) => Err(e),
            }
        } else {
            Err(Error::UnknownPacketId)
        }
    }
}

// ---------------------------------------------------------------------
// Serverbound login phase.
// ---------------------------------------------------------------------

/// Any serverbound packet legal in the login phase.
#[derive(Debug, Clone, PartialEq, Eq)]
pub enum ServerboundLoginPacket {
    LoginStart(LoginStart),
    EncryptionResponse(EncryptionResponse),
}

/// The mathematical value of a `ServerboundLoginPacket`.
pub enum ServerboundLoginPacketV {
    LoginStart(LoginStartV),
    EncryptionResponse(EncryptionResponseV),
}

impl View for ServerboundLoginPacket {
    type V = ServerboundLoginPacketV;

    open spec fn view(&self) -> ServerboundLoginPacketV {
        match self {
            ServerboundLoginPacket::LoginStart(p) => ServerboundLoginPacketV::LoginStart(p@),
            ServerboundLoginPacket::EncryptionResponse(p) => {
                ServerboundLoginPacketV::EncryptionResponse(p@)
            },
        }
    }
}

pub open spec fn parse_serverbound_login(s: Seq<u8>) -> Result<
    (ServerboundLoginPacketV, nat),
    Error,
> {
    match parse_generic_header(s) {
        Err(e) => Err(e),
        Ok((id, h)) => if id == 0 {
            match parse_login_start_body(s.skip(h as int)) {
                Err(e) => Err(e),
                Ok((v, n)) => Ok((ServerboundLoginPacketV::LoginStart(v), (h + n) as nat)),
            }
        } else if id == 1 {
            match parse_encryption_response_body(s.skip(h as int)) {
                Err(e) => Err(e),
                Ok((v, n)) => Ok(
                    (ServerboundLoginPacketV::EncryptionResponse(v), (h + n) as nat),
                ),
            }
        } else {
            Err(Error::UnknownPacketId)
        },
    }
}

impl ServerboundLoginPacket {
    pub fn from_bytes_generic(bytes: Vec<u8>) -> (r: Result<ServerboundLoginPacket, Error>)
        ensures
            match parse_serverbound_login(bytes@) {
                Ok((v, _)) => r matches Ok(p) && p@ == v,
                Err(e) => r matches Err(re) && re == e,
            },
    {
        let mut d = Deserializer::from_bytes(bytes);
        let id = match read_generic_header(&mut d) {
            Ok(id) => id,
            Err(e) => {
                return Err(e);
            },
        };
        if id == 0 {
            match LoginStart::read_body(&mut d) {
                Ok(p) => Ok(ServerboundLoginPacket::LoginStart(p)),
                Err(e) => Err(e),
            }
        } else if id == 1 {
            match EncryptionResponse::read_body(&mut d) {
                Ok(p) => Ok(ServerboundLoginPacket::EncryptionResponse(p)),
                Err(e) => Err(e),
            }
        } else {
            Err(Error::UnknownPacketId)
        }
    }
}

// ---------------------------------------------------------------------
// Clientbound status phase.
// ---------------------------------------------------------------------

/// Any clientbound packet legal in the status phase.
#[derive(Debug, Clone, PartialEq, Eq)]
pub enum ClientboundStatusPacket {
    StatusResponse(StatusResponse),
    PingResponse(PingResponse),
}

/// The mathematical value of a `ClientboundStatusPacket`.
pub enum ClientboundStatusPacketV {
    StatusResponse(StatusResponseV),
    PingResponse(PingResponse),
}

impl View for ClientboundStatusPacket {
    type V = ClientboundStatusPacketV;

    open spec fn view(&self) -> ClientboundStatusPacketV {
        match self {
            ClientboundStatusPacket::StatusResponse(p) => {
                ClientboundStatusPacketV::StatusResponse(p@)
            },
            ClientboundStatusPacket::PingResponse(p) => ClientboundStatusPacketV::PingResponse(
                p@,
            ),
        }
    }
}

pub open spec fn parse_clientbound_status(s: Seq<u8>) -> Result<
    (ClientboundStatusPacketV, nat),
    Error,
> {
    match parse_generic_header(s) {
        Err(e) => Err(e),
        Ok((id, h)) => if id == 0 {
            match parse_status_response_body(s.skip(h as int)) {
                Err(e) => Err(e),
                Ok((v, n)) => Ok((ClientboundStatusPacketV::StatusResponse(v), (h + n) as nat)),
            }
        } else if id == 1 {
            match parse_ping_response_body(s.skip(h as int)) {
                Err(e) => Err(e),
                Ok((v, n)) => Ok((ClientboundStatusPacketV::PingResponse(v), (h + n) as nat)),
            }
        } else {
            Err(Error::UnknownPacketId)
        },
    }
}

impl ClientboundStatusPacket {
    pub fn from_bytes_generic(bytes: Vec<u8>) -> (r: Result<ClientboundStatusPacket, Error>)
        ensures
            match parse_clientbound_status(bytes@) {
                Ok((v, _)) => r matches Ok(p) && p@ == v,
                Err(e) => r matches Err(re) && re == e,
            },
    {
        let mut d = Deserializer::from_bytes(bytes);
        let id = match read_generic_header(&mut d) {
            Ok(id) => id,
            Err(e) => {
                return Err(e);
            },
        };
        if id == 0 {
            match StatusResponse::read_body(&mut d) {
                Ok(p) => Ok(ClientboundStatusPacket::StatusResponse(p)),
                Err(e) => Err(e),
            }
        } else if id == 1 {
            match PingResponse::read_body(&mut d) {
                Ok(p) => Ok(ClientboundStatusPacket::PingResponse(p)),
                Err(e) => Err(e),
            }
        } else {
            Err(Error::UnknownPacketId)
        }
    }
}

// ---------------------------------------------------------------------
// Clientbound login phase.
// ---------------------------------------------------------------------

/// Any clientbound packet legal in the login phase.
#[derive(Debug, Clone, PartialEq, Eq)]
pub enum ClientboundLoginPacket {
    Disconnect(Disconnect),
    EncryptionRequest(EncryptionRequest),
    LoginSuccess(LoginSuccess),
    SetCompression(SetCompression),
    LoginPluginRequest(LoginPluginRequest),
}

/// The mathematical value of a `ClientboundLoginPacket`.
pub enum ClientboundLoginPacketV {
    Disconnect(DisconnectV),
    EncryptionRequest(EncryptionRequestV),
    LoginSuccess(LoginSuccessV),
    SetCompression(SetCompression),
    LoginPluginRequest(LoginPluginRequestV),
}

impl View for ClientboundLoginPacket {
    type V = ClientboundLoginPacketV;

    open spec fn view(&self) -> ClientboundLoginPacketV {
        match self {
            ClientboundLoginPacket::Disconnect(p) => ClientboundLoginPacketV::Disconnect(p@),
            ClientboundLoginPacket::EncryptionRequest(p) => {
                ClientboundLoginPacketV::EncryptionRequest(p@)
            },
            ClientboundLoginPacket::LoginSuccess(p) => ClientboundLoginPacketV::LoginSuccess(p@),
            ClientboundLoginPacket::SetCompression(p) => ClientboundLoginPacketV::SetCompression(
                p@,
            ),
            ClientboundLoginPacket::LoginPluginRequest(p) => {
                ClientboundLoginPacketV::LoginPluginRequest(p@)
            },
        }
    }
}

pub open spec fn parse_clientbound_login(s: Seq<u8>) -> Result<
    (ClientboundLoginPacketV, nat),
    Error,
> {
    match parse_generic_header(s) {
        Err(e) => Err(e),
        Ok((id, h)) => if id == 0 {
            match parse_disconnect_body(s.skip(h as int)) {
                Err(e) => Err(e),
                Ok((v, n)) => Ok((ClientboundLoginPacketV::Disconnect(v), (h + n) as nat)),
            }
        } else if id == 1 {
            match parse_encryption_request_body(s.skip(h as int)) {
                Err(e) => Err(e),
                Ok((v, n)) => Ok(
                    (ClientboundLoginPacketV::EncryptionRequest(v), (h + n) as nat),
                ),
            }
        } else if id == 2 {
            match parse_login_success_body(s.skip(h as int)) {
                Err(e) => Err(e),
                Ok((v, n)) => Ok((ClientboundLoginPacketV::LoginSuccess(v), (h + n) as nat)),
            }
        } else if id == 3 {
            match parse_set_compression_body(s.skip(h as int)) {
                Err(e) => Err(e),
                Ok((v, n)) => Ok((ClientboundLoginPacketV::SetCompression(v), (h + n) as nat)),
            }
        } else if id == 4 {
            match parse_login_plugin_request_body(s.skip(h as int)) {
                Err(e) => Err(e),
                Ok((v, n)) => Ok(
                    (ClientboundLoginPacketV::LoginPluginRequest(v), (h + n) as nat),
                ),
            }
        } else {
            Err(Error::UnknownPacketId)
        },
    }
}

impl ClientboundLoginPacket {
    #[verifier::rlimit(60)]
    pub fn from_bytes_generic(bytes: Vec<u8>) -> (r: Result<ClientboundLoginPacket, Error>)
        ensures
            match parse_clientbound_login(bytes@) {
                Ok((v, _)) => r matches Ok(p) && p@ == v,
                Err(e) => r matches Err(re) && re == e,
            },
    {
        let mut d = Deserializer::from_bytes(bytes);
        let id = match read_generic_header(&mut d) {
            Ok(id) => id,
            Err(e) => {
                return Err(e);
            },
        };
        if id == 0 {
            match Disconnect::read_body(&mut d) {
                Ok(p) => Ok(ClientboundLoginPacket::Disconnect(p)),
                Err(e) => Err(e),
            }
        } else if id == 1 {
            match EncryptionRequest::read_body(&mut d) {
                Ok(p) => Ok(ClientboundLoginPacket::EncryptionRequest(p)),
                Err(e) => Err(e),
            }
        } else if id == 2 {
            match LoginSuccess::read_body(&mut d) {
                Ok(p) => Ok(ClientboundLoginPacket::LoginSuccess(p)),
                Err(e) => Err(e),
            }
        } else if id == 3 {
            match SetCompression::read_body(&mut d) {
                Ok(p) => Ok(ClientboundLoginPacket::SetCompression(p)),
                Err(e) => Err(e),
            }
        } else if id == 4 {
            match LoginPluginRequest::read_body(&mut d) {
                Ok(p) => Ok(ClientboundLoginPacket::LoginPluginRequest(p)),
                Err(e) => Err(e),
            }
        } else {
            Err(Error::UnknownPacketId)
        }
    }
}

// ---------------------------------------------------------------------
// Dispatch laws: within each phase and direction, ids are unique and
// generic decode inverts every packet's encoding.
// ---------------------------------------------------------------------

impl ServerboundVoidPacketV {
    /// The frame this packet encodes to.
    pub open spec fn wire(self) -> Seq<u8> {
        match self {
            ServerboundVoidPacketV::Handshake(v) => crate::non_play::handshake_wire(v),
        }
    }

    pub open spec fn encodable(self) -> bool {
        match self {
            ServerboundVoidPacketV::Handshake(v) => v.wf() && v.encodable(),
        }
    }
}

/// Generic decode inverts the encoding of every serverbound void
/// packet: the id on the wire picks the variant that wrote it.
pub proof fn lemma_serverbound_void_dispatch_round_trip(v: ServerboundVoidPacketV)
    requires
        v.encodable(),
    ensures
        parse_serverbound_void(v.wire()) == Ok::<_, crate::error::Error>(
            (v, v.wire().len() as nat),
        ),
{
    match v {
        ServerboundVoidPacketV::Handshake(h) => {
            let body = crate::non_play::handshake_body(h);
            assert(v.wire() =~= crate::packets::frame_bytes(0, body) + Seq::<u8>::empty());
            crate::packets::lemma_parse_generic_header_encode(0, body, Seq::<u8>::empty());
            crate::non_play::lemma_handshake_body_round_trip(h, Seq::<u8>::empty());
        },
    }
}

impl ServerboundStatusPacketV {
    pub open spec fn wire(self) -> Seq<u8> {
        match self {
            ServerboundStatusPacketV::StatusRequest(v) => crate::non_play::status_request_wire(v),
            ServerboundStatusPacketV::PingRequest(v) => crate::non_play::ping_request_wire(v),
        }
    }
}

/// Generic decode inverts the encoding of every serverbound status
/// packet.
pub proof fn lemma_serverbound_status_dispatch_round_trip(v: ServerboundStatusPacketV)
    ensures
        parse_serverbound_status(v.wire()) == Ok::<_, crate::error::Error>(
            (v, v.wire().len() as nat),
        ),
{
    match v {
        ServerboundStatusPacketV::StatusRequest(p) => {
            let body = crate::non_play::status_request_body(p);
            assert(v.wire() =~= crate::packets::frame_bytes(0, body) + Seq::<u8>::empty());
            crate::packets::lemma_parse_generic_header_encode(0, body, Seq::<u8>::empty());
        },
        ServerboundStatusPacketV::PingRequest(p) => {
            crate::encoding::lemma_var_int_bytes_len(1);
            let body = crate::non_play::ping_request_body(p);
            assert(v.wire() =~= crate::packets::frame_bytes(1, body) + Seq::<u8>::empty());
            crate::packets::lemma_parse_generic_header_encode(1, body, Seq::<u8>::empty());
            crate::encoding::lemma_parse_i64_encode(p.payload, Seq::<u8>::empty());
        },
    }
}

impl ServerboundLoginPacketV {
    pub open spec fn wire(self) -> Seq<u8> {
        match self {
            ServerboundLoginPacketV::LoginStart(v) => crate::non_play::login_start_wire(v),
            ServerboundLoginPacketV::EncryptionResponse(v) => {
                crate::non_play::encryption_response_wire(v)
            },
        }
    }

    pub open spec fn encodable(self) -> bool {
        match self {
            ServerboundLoginPacketV::LoginStart(v) => v.encodable(),
            ServerboundLoginPacketV::EncryptionResponse(v) => v.encodable(),
        }
    }
}

/// Generic decode inverts the encoding of every serverbound login
/// packet.
pub proof fn lemma_serverbound_login_dispatch_round_trip(v: ServerboundLoginPacketV)
    requires
        v.encodable(),
    ensures
        parse_serverbound_login(v.wire()) == Ok::<_, crate::error::Error>(
            (v, v.wire().len() as nat),
        ),
{
    match v {
        ServerboundLoginPacketV::LoginStart(p) => {
            let body = crate::non_play::login_start_body(p);
            assert(v.wire() =~= crate::packets::frame_bytes(0, body) + Seq::<u8>::empty());
            crate::packets::lemma_parse_generic_header_encode(0, body, Seq::<u8>::empty());
            crate::non_play::lemma_login_start_round_trip(p, Seq::<u8>::empty());
        },
        ServerboundLoginPacketV::EncryptionResponse(p) => {
            crate::encoding::lemma_var_int_bytes_len(1);
            let body = crate::non_play::encryption_response_body(p);
            assert(v.wire() =~= crate::packets::frame_bytes(1, body) + Seq::<u8>::empty());
            crate::packets::lemma_parse_generic_header_encode(1, body, Seq::<u8>::empty());
            let b1 = crate::encoding::byte_vec_bytes(p.shared_secret);
            let b2 = crate::encoding::byte_vec_bytes(p.verify_token);
            let s = body + Seq::<u8>::empty();
            assert(s =~= b1 + (b2 + Seq::<u8>::empty()));
            crate::encoding::lemma_parse_byte_vec_encode(p.shared_secret, b2 + Seq::<u8>::empty());
            assert(s.skip(b1.len() as int) =~= b2 + Seq::<u8>::empty());
            crate::encoding::lemma_parse_byte_vec_encode(p.verify_token, Seq::<u8>::empty());
        },
    }
}

impl ClientboundStatusPacketV {
    pub open spec fn wire(self) -> Seq<u8> {
        match self {
            ClientboundStatusPacketV::StatusResponse(v) => {
                crate::non_play::status_response_wire(v)
            },
            ClientboundStatusPacketV::PingResponse(v) => crate::non_play::ping_response_wire(v),
        }
    }

    pub open spec fn encodable(self) -> bool {
        match self {
            ClientboundStatusPacketV::StatusResponse(v) => v.encodable(),
            ClientboundStatusPacketV::PingResponse(v) => true,
        }
    }
}

/// Generic decode inverts the encoding of every clientbound status
/// packet.
pub proof fn lemma_clientbound_status_dispatch_round_trip(v: ClientboundStatusPacketV)
    requires
        v.encodable(),
    ensures
        parse_clientbound_status(v.wire()) == Ok::<_, crate::error::Error>(
            (v, v.wire().len() as nat),
        ),
{
    match v {
        ClientboundStatusPacketV::StatusResponse(p) => {
            let body = crate::non_play::status_response_body(p);
            assert(v.wire() =~= crate::packets::frame_bytes(0, body) + Seq::<u8>::empty());
            crate::packets::lemma_parse_generic_header_encode(0, body, Seq::<u8>::empty());
            assert(body + Seq::<u8>::empty() =~= crate::encoding::string_bytes(p.json_response)
                + Seq::<u8>::empty());
            crate::encoding::lemma_parse_string_encode(p.json_response, Seq::<u8>::empty());
        },
        ClientboundStatusPacketV::PingResponse(p) => {
            crate::encoding::lemma_var_int_bytes_len(1);
            let body = crate::non_play::ping_response_body(p);
            assert(v.wire() =~= crate::packets::frame_bytes(1, body) + Seq::<u8>::empty());
            crate::packets::lemma_parse_generic_header_encode(1, body, Seq::<u8>::empty());
            crate::encoding::lemma_parse_i64_encode(p.payload, Seq::<u8>::empty());
        },
    }
}

impl ClientboundLoginPacketV {
    pub open spec fn wire(self) -> Seq<u8> {
        match self {
            ClientboundLoginPacketV::Disconnect(v) => crate::non_play::disconnect_wire(v),
            ClientboundLoginPacketV::EncryptionRequest(v) => {
                crate::non_play::encryption_request_wire(v)
            },
            ClientboundLoginPacketV::LoginSuccess(v) => crate::non_play::login_success_wire(v),
            ClientboundLoginPacketV::SetCompression(v) => {
                crate::non_play::set_compression_wire(v)
            },
            ClientboundLoginPacketV::LoginPluginRequest(v) => {
                crate::non_play::login_plugin_request_wire(v)
            },
        }
    }

    pub open spec fn encodable(self) -> bool {
        match self {
            ClientboundLoginPacketV::Disconnect(v) => v.encodable(),
            ClientboundLoginPacketV::EncryptionRequest(v) => v.encodable(),
            ClientboundLoginPacketV::LoginSuccess(v) => v.encodable(),
            ClientboundLoginPacketV::SetCompression(v) => v.wf(),
            ClientboundLoginPacketV::LoginPluginRequest(v) => v.wf() && v.encodable(),
        }
    }
}

/// Generic decode inverts the encoding of every clientbound login
/// packet: the five ids pick five distinct shapes.
#[verifier::rlimit(60)]
pub proof fn lemma_clientbound_login_dispatch_round_trip(v: ClientboundLoginPacketV)
    requires
        v.encodable(),
    ensures
        parse_clientbound_login(v.wire()) == Ok::<_, crate::error::Error>(
            (v, v.wire().len() as nat),
        ),
{
    assert(v.wire() =~= v.wire() + Seq::<u8>::empty());
    match v {
        ClientboundLoginPacketV::Disconnect(p) => {
            crate::packets::lemma_parse_generic_header_encode(
                0,
                crate::non_play::disconnect_body(p),
                Seq::<u8>::empty(),
            );
            crate::non_play::lemma_disconnect_round_trip(p, Seq::<u8>::empty());
        },
        ClientboundLoginPacketV::EncryptionRequest(p) => {
            crate::packets::lemma_parse_generic_header_encode(
                1,
                crate::non_play::encryption_request_body(p),
                Seq::<u8>::empty(),
            );
            crate::non_play::lemma_encryption_request_round_trip(p, Seq::<u8>::empty());
        },
        ClientboundLoginPacketV::LoginSuccess(p) => {
            crate::packets::lemma_parse_generic_header_encode(
                2,
                crate::non_play::login_success_body(p),
                Seq::<u8>::empty(),
            );
            crate::non_play::lemma_login_success_round_trip(p, Seq::<u8>::empty());
        },
        ClientboundLoginPacketV::SetCompression(p) => {
            crate::encoding::lemma_var_int_bytes_len(3);
            crate::encoding::lemma_var_int_bytes_len(p.threshold.value);
            crate::packets::lemma_parse_generic_header_encode(
                3,
                crate::non_play::set_compression_body(p),
                Seq::<u8>::empty(),
            );
            crate::non_play::lemma_set_compression_round_trip(p, Seq::<u8>::empty());
        },
        ClientboundLoginPacketV::LoginPluginRequest(p) => {
            crate::packets::lemma_parse_generic_header_encode(
                4,
                crate::non_play::login_plugin_request_body(p),
                Seq::<u8>::empty(),
            );
            crate::non_play::lemma_login_plugin_request_round_trip(p);
        },
    }
}

} // verus!
