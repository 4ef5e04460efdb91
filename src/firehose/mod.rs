//! The relay's repository event stream: frames, commits and the driver's decisions.

pub mod frames;
pub mod handler;
pub mod subscription;
pub mod car;
