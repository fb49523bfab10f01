pub mod error;
pub mod idgen;
pub mod maps;
