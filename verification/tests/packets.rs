use optical_protocol::dispatch::{
    ClientboundLoginPacket, ClientboundStatusPacket, ServerboundLoginPacket,
    ServerboundStatusPacket, ServerboundVoidPacket,
};
use optical_protocol::error::Error;
use optical_protocol::non_play::{
    Disconnect, EncryptionRequest, EncryptionResponse, Handshake, LoginPluginRequest, LoginStart,
    LoginSuccess, LoginSuccessProperties, PingRequest, PingResponse, SetCompression,
    StatusRequest, StatusResponse,
};
use optical_protocol::tags::{ClientLoginPacket, LoginPacket, StatusPacket, VoidPacket};
use optical_protocol::types::{MinecraftUuid, VarInt};

fn scenario_handshake() -> Handshake {
    Handshake {
        protocol_version: VarInt::from_value(752),
        server_address: String::from("localhost"),
        server_port: 25565,
        next_state: VarInt::from_value(1),
    }
}

#[test]
fn handshake_encodes_to_scenario_bytes() {
    let bytes = scenario_handshake().to_bytes().unwrap();
    assert_eq!(
        bytes,
        vec![
            0x10, 0x00, 0xf0, 0x05, 0x09, b'l', b'o', b'c', b'a', b'l', b'h', b'o', b's', b't',
            0x63, 0xdd, 0x01
        ]
    );
}

#[test]
fn handshake_round_trip() {
    let p = scenario_handshake();
    let decoded = Handshake::from_bytes(p.to_bytes().unwrap()).unwrap();
    assert_eq!(decoded, p);
}

#[test]
fn status_request_round_trip_and_empty_body_frame() {
    let p = StatusRequest {};
    let bytes = p.to_bytes().unwrap();
    // A frame of declared length one: just the id, no payload.
    assert_eq!(bytes, vec![0x01, 0x00]);
    let decoded = StatusRequest::from_bytes(bytes).unwrap();
    assert_eq!(decoded, p);
}

#[test]
fn ping_request_round_trip() {
    let p = PingRequest { payload: 42 };
    let bytes = p.to_bytes().unwrap();
    assert_eq!(
        bytes,
        vec![0x09, 0x01, 0x00, 0x00, 0x00, 0x00, 0x00, 0x00, 0x00, 0x2a]
    );
    assert_eq!(PingRequest::from_bytes(bytes).unwrap(), p);
}

#[test]
fn ping_response_round_trip() {
    let p = PingResponse { payload: -42 };
    assert_eq!(PingResponse::from_bytes(p.to_bytes().unwrap()).unwrap(), p);
}

#[test]
fn status_response_round_trip() {
    let p = StatusResponse { json_response: String::from("{\"version\":{}}") };
    assert_eq!(StatusResponse::from_bytes(p.to_bytes().unwrap()).unwrap(), p);
}

#[test]
fn disconnect_round_trip() {
    let p = Disconnect { reason: String::from("{\"text\":\"bye\"}") };
    assert_eq!(Disconnect::from_bytes(p.to_bytes().unwrap()).unwrap(), p);
}

#[test]
fn login_start_round_trip_without_uuid() {
    let p = LoginStart { name: String::from("alice"), player_uuid: None };
    let bytes = p.to_bytes().unwrap();
    // Absent optional: a single 0x00 presence byte closes the body.
    assert_eq!(*bytes.last().unwrap(), 0x00);
    assert_eq!(LoginStart::from_bytes(bytes).unwrap(), p);
}

#[test]
fn login_start_round_trip_with_uuid() {
    let p = LoginStart {
        name: String::from("alice"),
        player_uuid: Some(MinecraftUuid { most: 1, least: 2 }),
    };
    let bytes = p.to_bytes().unwrap();
    // Present optional: 0x01, then the sixteen UUID bytes.
    assert_eq!(bytes[bytes.len() - 17], 0x01);
    assert_eq!(LoginStart::from_bytes(bytes).unwrap(), p);
}

#[test]
fn encryption_request_round_trip() {
    let p = EncryptionRequest {
        server_id: String::new(),
        public_key: vec![0x30, 0x81, 0x9f, 0x01],
        verify_token: vec![0x0a, 0x0b, 0x0c, 0x0d],
    };
    assert_eq!(
        EncryptionRequest::from_bytes(p.to_bytes().unwrap()).unwrap(),
        p
    );
}

#[test]
fn encryption_response_round_trip() {
    let p = EncryptionResponse {
        shared_secret: vec![9u8; 128],
        verify_token: vec![7u8; 128],
    };
    assert_eq!(
        EncryptionResponse::from_bytes(p.to_bytes().unwrap()).unwrap(),
        p
    );
}

#[test]
fn set_compression_round_trip() {
    let p = SetCompression { threshold: VarInt::from_value(256) };
    assert_eq!(SetCompression::from_bytes(p.to_bytes().unwrap()).unwrap(), p);
}

#[test]
fn login_plugin_request_round_trip() {
    let p = LoginPluginRequest {
        message_id: VarInt::from_value(5),
        channel: String::from("custom:channel"),
        data: vec![1, 2, 3, 4, 5],
    };
    assert_eq!(
        LoginPluginRequest::from_bytes(p.to_bytes().unwrap()).unwrap(),
        p
    );
}

#[test]
fn login_success_round_trips_every_property_variant() {
    let variants = vec![
        LoginSuccessProperties::Empty,
        LoginSuccessProperties::One { name: String::from("a") },
        LoginSuccessProperties::Two { name: String::from("a"), value: String::from("b") },
        LoginSuccessProperties::Three {
            name: String::from("a"),
            value: String::from("b"),
            is_signed: true,
        },
        LoginSuccessProperties::Four {
            name: String::from("a"),
            value: String::from("b"),
            signature: Some(String::from("sig")),
        },
        LoginSuccessProperties::Four {
            name: String::from("a"),
            value: String::from("b"),
            signature: None,
        },
    ];
    for properties in variants {
        let p = LoginSuccess {
            uuid: MinecraftUuid { most: 77, least: 88 },
            username: String::from("alice"),
            properties,
        };
        let decoded = LoginSuccess::from_bytes(p.to_bytes().unwrap()).unwrap();
        assert_eq!(decoded, p);
    }
}

#[test]
fn generic_decode_dispatches_on_id() {
    let handshake = scenario_handshake();
    let decoded = ServerboundVoidPacket::from_bytes_generic(handshake.to_bytes().unwrap());
    assert_eq!(decoded, Ok(ServerboundVoidPacket::Handshake(handshake)));

    let ping = PingRequest { payload: 42 };
    let decoded = ServerboundStatusPacket::from_bytes_generic(ping.to_bytes().unwrap());
    assert_eq!(decoded, Ok(ServerboundStatusPacket::PingRequest(ping)));

    let status = StatusRequest {};
    let decoded = ServerboundStatusPacket::from_bytes_generic(status.to_bytes().unwrap());
    assert_eq!(decoded, Ok(ServerboundStatusPacket::StatusRequest(status)));

    let login = LoginStart { name: String::from("alice"), player_uuid: None };
    let decoded = ServerboundLoginPacket::from_bytes_generic(login.to_bytes().unwrap());
    assert_eq!(decoded, Ok(ServerboundLoginPacket::LoginStart(login)));

    let pong = PingResponse { payload: 1 };
    let decoded = ClientboundStatusPacket::from_bytes_generic(pong.to_bytes().unwrap());
    assert_eq!(decoded, Ok(ClientboundStatusPacket::PingResponse(pong)));

    let set = SetCompression { threshold: VarInt::from_value(1) };
    let decoded = ClientboundLoginPacket::from_bytes_generic(set.to_bytes().unwrap());
    assert_eq!(decoded, Ok(ClientboundLoginPacket::SetCompression(set)));
}

#[test]
fn generic_decode_covers_the_clientbound_login_registry() {
    let disconnect = Disconnect { reason: String::from("{}") };
    let decoded = ClientboundLoginPacket::from_bytes_generic(disconnect.to_bytes().unwrap());
    assert_eq!(decoded, Ok(ClientboundLoginPacket::Disconnect(disconnect)));

    let request = EncryptionRequest {
        server_id: String::new(),
        public_key: vec![1, 2, 3],
        verify_token: vec![4, 5, 6, 7],
    };
    let decoded = ClientboundLoginPacket::from_bytes_generic(request.to_bytes().unwrap());
    assert_eq!(decoded, Ok(ClientboundLoginPacket::EncryptionRequest(request)));

    let success = LoginSuccess {
        uuid: MinecraftUuid { most: 1, least: 2 },
        username: String::from("alice"),
        properties: LoginSuccessProperties::Empty,
    };
    let decoded = ClientboundLoginPacket::from_bytes_generic(success.to_bytes().unwrap());
    assert_eq!(decoded, Ok(ClientboundLoginPacket::LoginSuccess(success)));

    let plugin = LoginPluginRequest {
        message_id: VarInt::from_value(1),
        channel: String::from("c"),
        data: vec![9, 9],
    };
    let decoded = ClientboundLoginPacket::from_bytes_generic(plugin.to_bytes().unwrap());
    assert_eq!(decoded, Ok(ClientboundLoginPacket::LoginPluginRequest(plugin)));
}

#[test]
fn generic_decode_rejects_unknown_id() {
    // Frame: length 1, id 9 — no packet has id 9 in the void phase.
    let decoded = ServerboundVoidPacket::from_bytes_generic(vec![0x01, 0x09]);
    assert_eq!(decoded, Err(Error::UnknownPacketId));
    let decoded = ServerboundStatusPacket::from_bytes_generic(vec![0x01, 0x09]);
    assert_eq!(decoded, Err(Error::UnknownPacketId));
}

#[test]
fn union_discriminator_out_of_range_is_rejected() {
    // LoginSuccess: uuid, username "a", then discriminator 9.
    let mut body: Vec<u8> = Vec::new();
    body.extend_from_slice(&[0u8; 16]);
    body.push(1);
    body.push(b'a');
    body.push(9);
    let mut frame: Vec<u8> = vec![(body.len() + 1) as u8, 0x02];
    frame.extend_from_slice(&body);
    assert_eq!(LoginSuccess::from_bytes(frame), Err(Error::UnknownVariant));
}

#[test]
fn decode_error_on_truncated_body() {
    // Handshake frame whose body stops inside the string.
    let bytes = vec![0x05, 0x00, 0xf0, 0x05, 0x09];
    assert_eq!(Handshake::from_bytes(bytes), Err(Error::MalformedString));
}

#[test]
fn packet_ids_match_the_catalogue() {
    assert_eq!(VoidPacket::packet_id(&scenario_handshake()), 0);
    assert_eq!(StatusPacket::packet_id(&StatusRequest {}), 0);
    assert_eq!(StatusPacket::packet_id(&PingRequest { payload: 0 }), 1);
    assert_eq!(
        LoginPacket::packet_id(&LoginStart { name: String::new(), player_uuid: None }),
        0
    );
    assert_eq!(
        LoginPacket::packet_id(
            &EncryptionResponse { shared_secret: vec![], verify_token: vec![] }
        ),
        1
    );
    assert_eq!(
        ClientLoginPacket::packet_id(&SetCompression { threshold: VarInt::from_value(0) }),
        3
    );
}
