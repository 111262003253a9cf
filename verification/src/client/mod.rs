//! The chat client: its store of chats and messages, the cipher it applies
//! to message text, and the handling of frames to and from the server.

pub mod chats;
pub mod from_server;
pub mod hashing;
pub mod internal_commands;
pub mod to_server;
