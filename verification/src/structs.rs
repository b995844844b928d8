//! The sections of a message.

pub mod tools;
pub mod versions;
