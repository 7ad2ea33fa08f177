//! Session manager for remote game-server consoles: NUL-delimited framing,
//! the password handshake, reply collection, the session registry and the
//! team roster, each as verified logic over plain values.

pub mod framer;
pub mod error;
pub mod handshake;
pub mod session;
pub mod registry;
pub mod reply;
pub mod roster;
