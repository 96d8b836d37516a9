//! Verified core of the relay: the wire protocol spoken between game clients
//! and the relay server, the room and application registries that the server
//! keeps, and the decisions that the server and the client make on each packet.

pub mod error;
pub mod text;
pub mod wire;
pub mod packet;
pub mod rooms;
pub mod apps;
pub mod handlers;
pub mod config;
pub mod transport;
pub mod relay_client;
