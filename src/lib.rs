//! A WebSocket server core: a binary message codec driven by an explicit
//! schema, the WebSocket frame layer, the upgrade handshake rules and the
//! per-connection read and shutdown decisions.

pub mod codec;
pub mod schema;
pub mod frame;
pub mod stream;
pub mod handshake;
