//! Tunnelling of TCP byte streams over a pair of polled mailbox objects.

pub mod client;
pub mod config;
pub mod connection;
pub mod console;
pub mod engine;
pub mod laws;
pub mod master;
pub mod messages;
pub mod mode;
pub mod s3cmd;
pub mod server;
pub mod text;
pub mod tunnel;
pub mod unique_id;
pub mod validator;
