//! A message relay: users are known by name and get a numeric identity the
//! first time a name is referenced; messages are appended in chronological
//! order and read back as an inbox or as the conversation between two users.

pub mod timestamp;
pub mod error;
pub mod message;
pub mod directory;
pub mod reader;
pub mod relay;
