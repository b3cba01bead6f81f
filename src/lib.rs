//! The connection-handling core of a real-time server: request routing and size limits, a
//! cache of static resources with validation tokens, a binary API router, the relay upgrade
//! handshake, and the relay bus with its routing loop.


pub mod communicator;
pub mod db;
pub mod http;
pub mod protos;
pub mod relay;
pub mod settings;
pub mod text;
