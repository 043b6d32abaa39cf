//! Reconstructs the readable text of a mail message from its raw bytes,
//! and the small pieces of mailbox paging that surround it.

pub mod codec;
pub mod render;
pub mod message;
pub mod mailbox;
pub mod config;
