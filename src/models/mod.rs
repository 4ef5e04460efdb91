//! The stored state: matched posts and the links found in them.

pub mod links;
pub mod posts;
