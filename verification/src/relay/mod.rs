//! The relay server: users named themselves, and a message named its
//! receiver; the server relayed `sender: text` to them.

pub mod commands;
pub mod message;
