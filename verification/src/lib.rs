//! Verified core of a Postgres web client: the frontend/backend wire
//! protocol codec, password authentication (MD5 and SCRAM-SHA-256), the
//! SQL script splitter and the NDJSON response encoder.

pub mod auth;
pub mod crypto;
pub mod hex;
pub mod pg;
pub mod run;
pub mod utf8;
pub mod web;
