//! The Postgres frontend/backend protocol.

pub mod conn;
pub mod decode;
pub mod display;
pub mod encode;
pub mod md5;
pub mod scram;
pub mod text;
