//! Agent thread status over Nostr: lifecycle snapshots, their publisher, the relay
//! connection that carries them, and what a coordinator makes of them.

pub mod clock;
pub mod connection;
pub mod coordinator;
pub mod event;
pub mod ids;
pub mod lifecycle;
pub mod relay;
pub mod reporter;
pub mod session;
pub mod text;
