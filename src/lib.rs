//! Mailbox coordination for agents that exchange group-messaging handshake
//! artifacts through a shared write-once key/value store.
pub mod error;
pub mod text;
pub mod store;
pub mod mailbox;
pub mod state;
pub mod coordinator;
pub mod file_adapter;
