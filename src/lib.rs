//! Connection multiplexing for PackRat: a frame codec, a bridge from a
//! callback-driven socket to pull/push queues, a session that routes frames
//! to logical channels and negotiates sub-channels, and bidirectional streams.

pub mod bistream;
pub mod bridge;
pub mod codec;
pub mod common;
pub mod database;
pub mod session;
pub mod socket;
