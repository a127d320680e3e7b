//! A game LAN over a UDP relay: the wire protocol between clients and the
//! relay server, the relay's room bookkeeping, and the client's reactions to
//! what the relay sends.

pub mod ipv4;
pub mod protocol;
pub mod server;
pub mod client;
pub mod ui;
