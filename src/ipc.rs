pub mod conn;
pub mod proto;
pub mod wire;
