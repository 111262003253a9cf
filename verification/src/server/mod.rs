//! The chat server: parsing of client requests, the graph of users and
//! their chats, and what it sends in answer to each request.

pub mod client;
pub mod commands;
pub mod container;
pub mod graph;
pub mod manager;
pub mod message;
pub mod model;
pub mod process;
