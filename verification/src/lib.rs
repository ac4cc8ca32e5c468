//! The logic of RecurOS: a local context home, the relay that lets remote
//! clients reach it, and the text of the `ctx` command line.

pub mod cli;
pub mod credentials;
pub mod failure;
pub mod forwarding;
pub mod handshake;
pub mod home;
pub mod json;
pub mod metadata;
pub mod node;
pub mod relay;
pub mod slug;
pub mod storage;
pub mod store;
pub mod table;
pub mod text;
pub mod wire;
