//! The per-connection protocol state machine: phase transitions, the
//! login encryption handshake, and the fan-out delivery policy. Every
//! decision is a function from state and event to state and action;
//! the caller performs the I/O.

use vstd::prelude::*;

use crate::crypto::{random_verify_token, rsa_decrypt, ServerKeys};
use crate::dispatch::{
    parse_serverbound_login, parse_serverbound_void, ServerboundLoginPacket,
    ServerboundLoginPacketV, ServerboundVoidPacket, ServerboundVoidPacketV,
};
use crate::error::Error;
use crate::framer::PacketFrame;
use crate::non_play::{
    encryption_request_wire, EncryptionRequest, EncryptionRequestV, EncryptionResponse, Handshake,
    LoginStart,
};
use crate::types::MinecraftUuid;

verus! {

/// The protocol phase a connection stands in. Every connection starts
/// in the void (handshake) phase.
#[derive(Clone, Copy, Debug, PartialEq, Eq, Structural)]
pub enum ProtocolState {
    /// Before the status and login states.
    Void,
    /// The server describes itself for the server list.
    Status,
    /// The client attempts to join the server.
    Login,
    /// The client is playing on the server.
    Play,
}

/// A violation of the protocol's rules; each one closes the
/// connection.
#[derive(Clone, Copy, Debug, PartialEq, Eq, Structural)]
pub enum ProtocolError {
    /// A packet that is not legal in the current phase and state.
    UnexpectedPacket,
    /// A handshake whose next_state is neither 1 nor 2.
    InvalidNextState,
    /// The decrypted verify token differs from the one sent.
    VerifyTokenMismatch,
    /// The decrypted shared secret is not a 16-byte AES key.
    InvalidSharedSecret,
    /// An RSA-encrypted field did not decrypt under the server key.
    DecryptionFailed,
}

/// The phase a fresh connection starts in.
pub fn initial_state() -> (r: ProtocolState)
    ensures
        r == ProtocolState::Void,
{
    ProtocolState::Void
}

/// In the void, status and login phases the fan-out delivers at most
/// one frame per polling step, so a phase transition is observed
/// before the next frame is interpreted; play is terminal, so frames
/// may be delivered in batches.
pub fn batching_allowed(phase: &ProtocolState) -> (r: bool)
    ensures
        r == (phase is Play),
{
    match phase {
        ProtocolState::Play => true,
        _ => false,
    }
}

/// The first frame of a connection must be a Handshake, and its
/// next_state picks Status (1) or Login (2); everything else is
/// fatal.
pub fn handle_handshake(h: &Handshake) -> (r: Result<ProtocolState, ProtocolError>)
    ensures
        h.next_state.value == 1 ==> r == Ok::<_, ProtocolError>(ProtocolState::Status),
        h.next_state.value == 2 ==> r == Ok::<_, ProtocolError>(ProtocolState::Login),
        !(h.next_state.value == 1 || h.next_state.value == 2) ==> r == Err::<ProtocolState, _>(
            ProtocolError::InvalidNextState,
        ),
{
    if h.next_state.value == 1 {
        Ok(ProtocolState::Status)
    } else if h.next_state.value == 2 {
        Ok(ProtocolState::Login)
    } else {
        Err(ProtocolError::InvalidNextState)
    }
}

/// Compares the expected verify token with the decrypted one without
/// an early exit on the byte values: the scan always runs to the end.
pub fn verify_token_matches(expected: &Vec<u8>, decrypted: &Vec<u8>) -> (r: bool)
    ensures
        r == (expected@ == decrypted@),
{
    if expected.len() != decrypted.len() {
        return false;
    }
    let mut diff: u8 = 0;
    let mut i: usize = 0;
    while i < expected.len()
        invariant
            i <= expected@.len(),
            expected@.len() == decrypted@.len(),
            (diff == 0) <==> (forall|j: int| 0 <= j < i ==> expected@[j] == decrypted@[j]),
        decreases expected@.len() - i,
    {
        let a = expected[i];
        let b = decrypted[i];
        let x = a ^ b;
        proof {
            assert((x == 0) == (a == b)) by (bit_vector)
                requires
                    x == a ^ b,
            ;
        }
        let folded = diff | x;
        proof {
            assert((folded == 0) == (diff == 0 && x == 0)) by (bit_vector)
                requires
                    folded == diff | x,
            ;
        }
        diff = folded;
        i = i + 1;
    }
    let r = diff == 0;
    proof {
        if r {
            assert(expected@ =~= decrypted@);
        }
    }
    r
}

/// What the server remembers between sending the EncryptionRequest
/// and receiving the EncryptionResponse.
pub struct LoginPending {
    pub name: String,
    pub player_uuid: Option<MinecraftUuid>,
    pub verify_token: Vec<u8>,
}

/// Answers a LoginStart: records the client's name, draws a fresh
/// four-byte verify token, and builds the EncryptionRequest carrying
/// the server's public key and that token.
pub fn begin_login(keys: &ServerKeys, start: LoginStart) -> (r: (LoginPending, EncryptionRequest))
    ensures
        r.0.name@ == start.name@,
        r.0.player_uuid == start.player_uuid,
        r.0.verify_token@.len() == 4,
        r.1.server_id@ == Seq::<char>::empty(),
        r.1.public_key@ == keys.der(),
        r.1.verify_token@ == r.0.verify_token@,
{
    let token = random_verify_token();
    let token_copy = vstd::slice::slice_to_vec(token.as_slice());
    let request = EncryptionRequest {
        server_id: String::new(),
        public_key: keys.der_bytes(),
        verify_token: token,
    };
    let pending = LoginPending {
        name: start.name,
        player_uuid: start.player_uuid,
        verify_token: token_copy,
    };
    (pending, request)
}

/// The login decision on the decrypted values: the token must equal
/// the one sent, and the shared secret must be a 16-byte AES key; the
/// key is returned exactly when both hold.
pub fn decide_login(
    pending: &LoginPending,
    decrypted_token: &Vec<u8>,
    decrypted_secret: &Vec<u8>,
) -> (r: Result<Vec<u8>, ProtocolError>)
    ensures
        match r {
            Ok(key) => decrypted_token@ == pending.verify_token@ && decrypted_secret@.len() == 16
                && key@ == decrypted_secret@,
            Err(e) => (e == ProtocolError::VerifyTokenMismatch && decrypted_token@
                != pending.verify_token@) || (e == ProtocolError::InvalidSharedSecret
                && decrypted_token@ == pending.verify_token@ && decrypted_secret@.len() != 16),
        },
{
    if !verify_token_matches(&pending.verify_token, decrypted_token) {
        return Err(ProtocolError::VerifyTokenMismatch);
    }
    if decrypted_secret.len() != 16 {
        return Err(ProtocolError::InvalidSharedSecret);
    }
    Ok(vstd::slice::slice_to_vec(decrypted_secret.as_slice()))
}

/// Handles an EncryptionResponse: decrypts both fields under the
/// server key and applies the login decision. Whatever the decryption
/// returned, an accepted login always hands back a 16-byte AES key.
pub fn complete_login(
    keys: &ServerKeys,
    pending: &LoginPending,
    resp: &EncryptionResponse,
) -> (r: Result<Vec<u8>, ProtocolError>)
    ensures
        r matches Ok(key) ==> key@.len() == 16,
        r matches Err(e) ==> (e == ProtocolError::DecryptionFailed || e
            == ProtocolError::VerifyTokenMismatch || e == ProtocolError::InvalidSharedSecret),
{
    let token = match rsa_decrypt(&keys.private_key, resp.verify_token.as_slice()) {
        Some(t) => t,
        None => {
            return Err(ProtocolError::DecryptionFailed);
        },
    };
    let secret = match rsa_decrypt(&keys.private_key, resp.shared_secret.as_slice()) {
        Some(s) => s,
        None => {
            return Err(ProtocolError::DecryptionFailed);
        },
    };
    decide_login(pending, &token, &secret)
}

/// Why a connection is being closed.
#[derive(Debug)]
pub enum CloseReason {
    /// A frame failed to decode.
    Decode(Error),
    /// A protocol rule was broken.
    Rule(ProtocolError),
}

/// Where the login sub-protocol stands on one connection.
pub enum LoginState {
    /// No login packet seen yet.
    AwaitingStart,
    /// The EncryptionRequest went out with this pending record.
    AwaitingEncryptionResponse(LoginPending),
    /// The client was admitted.
    Complete,
}

/// One connection's protocol state. The protocol version is recorded
/// from the handshake and not validated.
pub struct Connection {
    pub phase: ProtocolState,
    pub login: LoginState,
    pub protocol_version: Option<i32>,
}

/// What the caller must do after one frame was interpreted.
pub enum ConnectionAction {
    /// Nothing to send or deliver; keep reading.
    Proceed,
    /// Hand the frame to the consumer, tagged with the phase it was
    /// framed in.
    Deliver { frame: PacketFrame, phase: ProtocolState },
    /// Write these bytes to the socket.
    Send { bytes: Vec<u8> },
    /// The login finished: switch the stream to AES/CFB8 under this
    /// key (which is also the IV) and send the LoginSuccess built
    /// from this name and UUID.
    Admit { aes_key: Vec<u8>, name: String, player_uuid: Option<MinecraftUuid> },
    /// Close the connection.
    Close { reason: CloseReason },
}

/// A connection as the listener first sees it.
pub fn new_connection() -> (r: Connection)
    ensures
        r.phase == ProtocolState::Void,
        r.login is AwaitingStart,
        r.protocol_version is None,
{
    Connection {
        phase: ProtocolState::Void,
        login: LoginState::AwaitingStart,
        protocol_version: None,
    }
}

/// Interprets one complete frame against the connection's state:
/// handshake and login frames drive the state machine in line and are
/// never delivered; status and play frames go to the consumer tagged
/// with the current phase.
pub fn on_frame(conn: Connection, frame: PacketFrame, keys: &ServerKeys) -> (r: (
    Connection,
    ConnectionAction,
))
    ensures
        ({
            let (c2, act) = r;
            match conn.phase {
                ProtocolState::Void => match parse_serverbound_void(frame@) {
                    Ok((pv, n)) => match pv {
                        ServerboundVoidPacketV::Handshake(h) => {
                            &&& h.next_state.value == 1 ==> c2.phase == ProtocolState::Status
                                && act is Proceed && c2.protocol_version == Some(
                                h.protocol_version.value,
                            )
                            &&& h.next_state.value == 2 ==> c2.phase == ProtocolState::Login
                                && act is Proceed && c2.protocol_version == Some(
                                h.protocol_version.value,
                            )
                            &&& !(h.next_state.value == 1 || h.next_state.value == 2) ==> act
                                == ConnectionAction::Close {
                                reason: CloseReason::Rule(ProtocolError::InvalidNextState),
                            }
                        },
                    },
                    Err(e) => act == ConnectionAction::Close { reason: CloseReason::Decode(e) },
                },
                ProtocolState::Status => act == (ConnectionAction::Deliver {
                    frame,
                    phase: ProtocolState::Status,
                }) && c2.phase == conn.phase,
                ProtocolState::Play => act == (ConnectionAction::Deliver {
                    frame,
                    phase: ProtocolState::Play,
                }) && c2.phase == conn.phase,
                ProtocolState::Login => match parse_serverbound_login(frame@) {
                    Ok((pv, n)) => match pv {
                        ServerboundLoginPacketV::LoginStart(ls) => if conn.login
                            is AwaitingStart {
                            ||| (act matches ConnectionAction::Send { bytes }
                                && c2.login matches LoginState::AwaitingEncryptionResponse(p)
                                && p.name@ == ls.name && p.player_uuid == ls.player_uuid
                                && p.verify_token@.len() == 4 && bytes@ == encryption_request_wire(
                                EncryptionRequestV {
                                    server_id: Seq::<char>::empty(),
                                    public_key: keys.der(),
                                    verify_token: p.verify_token@,
                                },
                            ) && c2.phase == ProtocolState::Login)
                            ||| act == ConnectionAction::Close {
                                reason: CloseReason::Decode(Error::OversizedPayload),
                            }
                        } else {
                            act == ConnectionAction::Close {
                                reason: CloseReason::Rule(ProtocolError::UnexpectedPacket),
                            }
                        },
                        ServerboundLoginPacketV::EncryptionResponse(er) => if conn.login
                            is AwaitingEncryptionResponse {
                            ||| (conn.login matches LoginState::AwaitingEncryptionResponse(p)
                                && act matches ConnectionAction::Admit { aes_key, name, player_uuid }
                                && aes_key@.len() == 16 && name@ == p.name@ && player_uuid
                                == p.player_uuid && c2.phase == ProtocolState::Play
                                && c2.login is Complete)
                            ||| (act matches ConnectionAction::Close { reason }
                                && reason matches CloseReason::Rule(pe) && (pe
                                == ProtocolError::VerifyTokenMismatch || pe
                                == ProtocolError::InvalidSharedSecret || pe
                                == ProtocolError::DecryptionFailed))
                        } else {
                            act == ConnectionAction::Close {
                                reason: CloseReason::Rule(ProtocolError::UnexpectedPacket),
                            }
                        },
                    },
                    Err(e) => act == ConnectionAction::Close { reason: CloseReason::Decode(e) },
                },
            }
        }),
{
    match conn.phase {
        ProtocolState::Void => {
            match ServerboundVoidPacket::from_bytes_generic(frame.bytes) {
                Ok(ServerboundVoidPacket::Handshake(h)) => match handle_handshake(&h) {
                    Ok(next) => (
                        Connection {
                            phase: next,
                            login: conn.login,
                            protocol_version: Some(h.protocol_version.value),
                        },
                        ConnectionAction::Proceed,
                    ),
                    Err(e) => (conn, ConnectionAction::Close { reason: CloseReason::Rule(e) }),
                },
                Err(e) => (conn, ConnectionAction::Close { reason: CloseReason::Decode(e) }),
            }
        },
        ProtocolState::Status => {
            let phase = conn.phase;
            (conn, ConnectionAction::Deliver { frame, phase })
        },
        ProtocolState::Play => {
            let phase = conn.phase;
            (conn, ConnectionAction::Deliver { frame, phase })
        },
        ProtocolState::Login => {
            match ServerboundLoginPacket::from_bytes_generic(frame.bytes) {
                Ok(ServerboundLoginPacket::LoginStart(ls)) => match conn.login {
                    LoginState::AwaitingStart => {
                        let (pending, request) = begin_login(keys, ls);
                        match request.to_bytes() {
                            Ok(bytes) => (
                                Connection {
                                    phase: ProtocolState::Login,
                                    login: LoginState::AwaitingEncryptionResponse(pending),
                                    protocol_version: conn.protocol_version,
                                },
                                ConnectionAction::Send { bytes },
                            ),
                            Err(e) => (
                                conn,
                                ConnectionAction::Close { reason: CloseReason::Decode(e) },
                            ),
                        }
                    },
                    other => (
                        Connection {
                            phase: conn.phase,
                            login: other,
                            protocol_version: conn.protocol_version,
                        },
                        ConnectionAction::Close {
                            reason: CloseReason::Rule(ProtocolError::UnexpectedPacket),
                        },
                    ),
                },
                Ok(ServerboundLoginPacket::EncryptionResponse(er)) => match conn.login {
                    LoginState::AwaitingEncryptionResponse(pending) => {
                        match complete_login(keys, &pending, &er) {
                            Ok(aes_key) => (
                                Connection {
                                    phase: ProtocolState::Play,
                                    login: LoginState::Complete,
                                    protocol_version: conn.protocol_version,
                                },
                                ConnectionAction::Admit {
                                    aes_key,
                                    name: pending.name,
                                    player_uuid: pending.player_uuid,
                                },
                            ),
                            Err(e) => (
                                Connection {
                                    phase: conn.phase,
                                    login: LoginState::Complete,
                                    protocol_version: conn.protocol_version,
                                },
                                ConnectionAction::Close { reason: CloseReason::Rule(e) },
                            ),
                        }
                    },
                    other => (
                        Connection {
                            phase: conn.phase,
                            login: other,
                            protocol_version: conn.protocol_version,
                        },
                        ConnectionAction::Close {
                            reason: CloseReason::Rule(ProtocolError::UnexpectedPacket),
                        },
                    ),
                },
                Err(e) => (conn, ConnectionAction::Close { reason: CloseReason::Decode(e) }),
            }
        },
    }
}

} // verus!
