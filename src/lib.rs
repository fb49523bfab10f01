pub mod common;
pub mod ipc;
pub mod pty;
pub mod server;

pub use common::error::Error;
