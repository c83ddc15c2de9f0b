//! Traits that mark which packets belong to which protocol phase and
//! direction, each knowing its numeric wire id.

use vstd::prelude::*;

use crate::non_play::{
    Disconnect, EncryptionRequest, EncryptionResponse, Handshake, LoginPluginRequest, LoginStart,
    LoginSuccess, PingRequest, PingResponse, SetCompression, StatusRequest, StatusResponse,
};

verus! {

/// Marks the owned container a generic decode hands back, so that a
/// generic environment can tell boxed packet values from concrete
/// ones.
pub trait Boxed {

}

impl<T> Boxed for Box<T> {

}

/// A serverbound packet of the void (handshake) phase.
pub trait VoidPacket {
    /// The packet's numeric id within its phase and direction.
    fn packet_id(&self) -> i32;
}

/// A serverbound packet of the status phase.
pub trait StatusPacket {
    fn packet_id(&self) -> i32;
}

/// A serverbound packet of the login phase.
pub trait LoginPacket {
    fn packet_id(&self) -> i32;
}

/// A serverbound packet of the play phase.
pub trait PlayPacket {
    fn packet_id(&self) -> i32;
}

/// A clientbound packet of the void (handshake) phase.
pub trait ClientVoidPacket {
    fn packet_id(&self) -> i32;
}

/// A clientbound packet of the status phase.
pub trait ClientStatusPacket {
    fn packet_id(&self) -> i32;
}

/// A clientbound packet of the login phase.
pub trait ClientLoginPacket {
    fn packet_id(&self) -> i32;
}

/// A clientbound packet of the play phase.
pub trait ClientPlayPacket {
    fn packet_id(&self) -> i32;
}

impl VoidPacket for Handshake {
    fn packet_id(&self) -> i32 {
        0
    }
}

impl StatusPacket for StatusRequest {
    fn packet_id(&self) -> i32 {
        0
    }
}

impl StatusPacket for PingRequest {
    fn packet_id(&self) -> i32 {
        1
    }
}

impl LoginPacket for LoginStart {
    fn packet_id(&self) -> i32 {
        0
    }
}

impl LoginPacket for EncryptionResponse {
    fn packet_id(&self) -> i32 {
        1
    }
}

impl ClientStatusPacket for StatusResponse {
    fn packet_id(&self) -> i32 {
        0
    }
}

impl ClientStatusPacket for PingResponse {
    fn packet_id(&self) -> i32 {
        1
    }
}

impl ClientLoginPacket for Disconnect {
    fn packet_id(&self) -> i32 {
        0
    }
}

impl ClientLoginPacket for EncryptionRequest {
    fn packet_id(&self) -> i32 {
        1
    }
}

impl ClientLoginPacket for LoginSuccess {
    fn packet_id(&self) -> i32 {
        2
    }
}

impl ClientLoginPacket for SetCompression {
    fn packet_id(&self) -> i32 {
        3
    }
}

impl ClientLoginPacket for LoginPluginRequest {
    fn packet_id(&self) -> i32 {
        4
    }
}

} // verus!
