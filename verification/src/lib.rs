//! Core of a podping ingress gateway: a persistent notification queue with
//! at-least-once delivery to an external ledger writer, the intake rules that
//! feed it, and the framed binary wire format spoken to the writer.

pub mod text;
pub mod msg;
pub mod store;
pub mod auth;
pub mod intake;
pub mod wire;
pub mod write_msg;
pub mod envelope;
pub mod req_text;
pub mod write_error;
pub mod hive_write;
pub mod hive_tx;
pub mod forwarder;
