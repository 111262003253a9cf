//! Protocol, state and key-agreement logic of a small chat system: the
//! client's chat store and message encryption, the server's parsing of
//! client requests, its friendship graph and its routing decisions.

pub mod text;
pub mod client;
pub mod server;
pub mod relay;
pub mod test_client;
pub mod protocol;
