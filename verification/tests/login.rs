use optical_protocol::connection::{
    batching_allowed, decide_login, handle_handshake, initial_state, new_connection, on_frame,
    verify_token_matches, CloseReason, Connection, ConnectionAction, LoginPending, ProtocolError,
    ProtocolState,
};
use optical_protocol::crypto::generate_server_keys;
use optical_protocol::framer::PacketFrame;
use optical_protocol::non_play::{EncryptionRequest, EncryptionResponse, Handshake, LoginStart};
use optical_protocol::types::{MinecraftUuid, VarInt};
use rsa::pkcs1::DecodeRsaPublicKey;

fn handshake(next_state: i32) -> Handshake {
    Handshake {
        protocol_version: VarInt::from_value(752),
        server_address: String::from("localhost"),
        server_port: 25565,
        next_state: VarInt::from_value(next_state),
    }
}

fn frame(bytes: Vec<u8>) -> PacketFrame {
    PacketFrame { bytes }
}

#[test]
fn connections_start_in_the_void_phase() {
    assert_eq!(initial_state(), ProtocolState::Void);
    let c = new_connection();
    assert_eq!(c.phase, ProtocolState::Void);
}

#[test]
fn batching_is_permitted_only_in_play() {
    assert!(!batching_allowed(&ProtocolState::Void));
    assert!(!batching_allowed(&ProtocolState::Status));
    assert!(!batching_allowed(&ProtocolState::Login));
    assert!(batching_allowed(&ProtocolState::Play));
}

#[test]
fn handshake_next_state_rules() {
    assert_eq!(handle_handshake(&handshake(1)), Ok(ProtocolState::Status));
    assert_eq!(handle_handshake(&handshake(2)), Ok(ProtocolState::Login));
    assert_eq!(
        handle_handshake(&handshake(3)),
        Err(ProtocolError::InvalidNextState)
    );
    assert_eq!(
        handle_handshake(&handshake(0)),
        Err(ProtocolError::InvalidNextState)
    );
}

#[test]
fn token_comparison_is_exact() {
    assert!(verify_token_matches(&vec![0x0a, 0x0b, 0x0c, 0x0d], &vec![0x0a, 0x0b, 0x0c, 0x0d]));
    assert!(!verify_token_matches(&vec![0x0a, 0x0b, 0x0c, 0x0d], &vec![0x0a, 0x0b, 0x0c, 0x0e]));
    assert!(!verify_token_matches(&vec![0x0a, 0x0b, 0x0c, 0x0d], &vec![0x0a, 0x0b, 0x0c]));
    assert!(verify_token_matches(&vec![], &vec![]));
}

#[test]
fn login_decision_on_plain_values() {
    let pending = LoginPending {
        name: String::from("alice"),
        player_uuid: None,
        verify_token: vec![0x0a, 0x0b, 0x0c, 0x0d],
    };
    let key = (1u8..=16).collect::<Vec<u8>>();
    assert_eq!(
        decide_login(&pending, &vec![0x0a, 0x0b, 0x0c, 0x0d], &key),
        Ok(key.clone())
    );
    assert_eq!(
        decide_login(&pending, &vec![0x0a, 0x0b, 0x0c, 0x0e], &key),
        Err(ProtocolError::VerifyTokenMismatch)
    );
    assert_eq!(
        decide_login(&pending, &vec![0x0a, 0x0b, 0x0c, 0x0d], &vec![1, 2, 3]),
        Err(ProtocolError::InvalidSharedSecret)
    );
}

#[test]
fn status_handshake_and_ping_are_delivered_in_order() {
    // The whole scenario as one byte stream: Handshake (next_state 1),
    // StatusRequest, PingRequest with payload 42.
    let mut stream: Vec<u8> = vec![
        0x10, 0x00, 0xf0, 0x05, 0x09, b'l', b'o', b'c', b'a', b'l', b'h', b'o', b's', b't', 0x63,
        0xdd, 0x01,
    ];
    stream.extend_from_slice(&[0x01, 0x00]);
    stream.extend_from_slice(&[0x09, 0x01, 0x00, 0x00, 0x00, 0x00, 0x00, 0x00, 0x00, 0x2a]);

    let keys = generate_server_keys(1024).ok().unwrap();
    let mut framer = optical_protocol::framer::Framer::new(1 << 21);
    framer.push_bytes(&stream);

    let mut conn = new_connection();
    let mut delivered: Vec<(ProtocolState, Vec<u8>)> = Vec::new();
    while let Some(next) = framer.next_frame().unwrap() {
        let (c2, act) = on_frame(conn, next, &keys);
        conn = c2;
        match act {
            ConnectionAction::Proceed => {}
            ConnectionAction::Deliver { frame, phase } => delivered.push((phase, frame.bytes)),
            _ => panic!("the status flow sends nothing and closes nothing"),
        }
    }
    assert!(framer.finish().is_ok());

    // The handshake itself is never forwarded; the consumer sees the
    // StatusRequest first, then the PingRequest, both tagged Status.
    assert_eq!(conn.phase, ProtocolState::Status);
    assert_eq!(conn.protocol_version, Some(752));
    assert_eq!(delivered.len(), 2);
    assert_eq!(delivered[0], (ProtocolState::Status, vec![0x01, 0x00]));
    assert_eq!(
        delivered[1],
        (
            ProtocolState::Status,
            vec![0x09, 0x01, 0x00, 0x00, 0x00, 0x00, 0x00, 0x00, 0x00, 0x2a]
        )
    );
}

#[test]
fn invalid_next_state_closes_the_connection() {
    let keys = generate_server_keys(1024).ok().unwrap();
    let conn = new_connection();
    let (_, act) = on_frame(conn, frame(handshake(3).to_bytes().unwrap()), &keys);
    match act {
        ConnectionAction::Close { reason: CloseReason::Rule(e) } => {
            assert_eq!(e, ProtocolError::InvalidNextState);
        }
        _ => panic!("an invalid next_state must close the connection"),
    }
}

/// Drives a connection up to the point where the server has sent its
/// EncryptionRequest, and hands back the connection and the request.
fn login_up_to_encryption_request(
    keys: &optical_protocol::crypto::ServerKeys,
) -> (Connection, EncryptionRequest) {
    let conn = new_connection();
    let (conn, act) = on_frame(conn, frame(handshake(2).to_bytes().unwrap()), keys);
    assert!(matches!(act, ConnectionAction::Proceed));
    assert_eq!(conn.phase, ProtocolState::Login);

    let login_start = LoginStart { name: String::from("alice"), player_uuid: None };
    let (conn, act) = on_frame(conn, frame(login_start.to_bytes().unwrap()), keys);
    let sent = match act {
        ConnectionAction::Send { bytes } => bytes,
        _ => panic!("a LoginStart must be answered with an EncryptionRequest"),
    };
    let request = EncryptionRequest::from_bytes(sent).unwrap();
    assert_eq!(request.server_id, "");
    assert_eq!(request.verify_token.len(), 4);
    (conn, request)
}

#[test]
fn login_happy_path_admits_with_the_shared_secret() {
    let keys = generate_server_keys(1024).ok().unwrap();
    let (conn, request) = login_up_to_encryption_request(&keys);

    let public_key = rsa::RsaPublicKey::from_pkcs1_der(&request.public_key).unwrap();
    let mut rng = rand::thread_rng();
    let secret: Vec<u8> = (1u8..=16).collect();
    let response = EncryptionResponse {
        shared_secret: public_key
            .encrypt(&mut rng, rsa::Pkcs1v15Encrypt, &secret)
            .unwrap(),
        verify_token: public_key
            .encrypt(&mut rng, rsa::Pkcs1v15Encrypt, &request.verify_token)
            .unwrap(),
    };

    let (conn, act) = on_frame(conn, frame(response.to_bytes().unwrap()), &keys);
    match act {
        ConnectionAction::Admit { aes_key, name, player_uuid } => {
            assert_eq!(aes_key, secret);
            assert_eq!(name, "alice");
            assert_eq!(player_uuid, None::<MinecraftUuid>);
        }
        _ => panic!("a correct encryption response must admit the client"),
    }
    assert_eq!(conn.phase, ProtocolState::Play);
}

#[test]
fn wrong_verify_token_closes_without_admission() {
    let keys = generate_server_keys(1024).ok().unwrap();
    let (conn, request) = login_up_to_encryption_request(&keys);

    let public_key = rsa::RsaPublicKey::from_pkcs1_der(&request.public_key).unwrap();
    let mut rng = rand::thread_rng();
    let mut wrong_token = request.verify_token.clone();
    let last = wrong_token.len() - 1;
    wrong_token[last] ^= 0x03;
    let secret: Vec<u8> = (1u8..=16).collect();
    let response = EncryptionResponse {
        shared_secret: public_key
            .encrypt(&mut rng, rsa::Pkcs1v15Encrypt, &secret)
            .unwrap(),
        verify_token: public_key
            .encrypt(&mut rng, rsa::Pkcs1v15Encrypt, &wrong_token)
            .unwrap(),
    };

    let (conn, act) = on_frame(conn, frame(response.to_bytes().unwrap()), &keys);
    match act {
        ConnectionAction::Close { reason: CloseReason::Rule(e) } => {
            assert_eq!(e, ProtocolError::VerifyTokenMismatch);
        }
        _ => panic!("a wrong verify token must close the connection"),
    }
    assert_ne!(conn.phase, ProtocolState::Play);
}

#[test]
fn undecryptable_fields_close_the_connection() {
    let keys = generate_server_keys(1024).ok().unwrap();
    let (conn, _) = login_up_to_encryption_request(&keys);

    // Ciphertexts that were never made under the server's key.
    let response = EncryptionResponse {
        shared_secret: vec![0x01, 0x02, 0x03],
        verify_token: vec![0x04, 0x05, 0x06],
    };
    let (_, act) = on_frame(conn, frame(response.to_bytes().unwrap()), &keys);
    match act {
        ConnectionAction::Close { reason: CloseReason::Rule(e) } => {
            assert_eq!(e, ProtocolError::DecryptionFailed);
        }
        _ => panic!("garbage ciphertext must close the connection"),
    }
}

#[test]
fn key_generation_fails_for_impossible_sizes() {
    assert!(generate_server_keys(4).is_err());
}

#[test]
fn unexpected_login_packet_closes_the_connection() {
    let keys = generate_server_keys(1024).ok().unwrap();
    let conn = new_connection();
    let (conn, _) = on_frame(conn, frame(handshake(2).to_bytes().unwrap()), &keys);

    // An EncryptionResponse before any LoginStart.
    let response = EncryptionResponse { shared_secret: vec![1], verify_token: vec![2] };
    let (_, act) = on_frame(conn, frame(response.to_bytes().unwrap()), &keys);
    match act {
        ConnectionAction::Close { reason: CloseReason::Rule(e) } => {
            assert_eq!(e, ProtocolError::UnexpectedPacket);
        }
        _ => panic!("an out-of-order login packet must close the connection"),
    }
}
