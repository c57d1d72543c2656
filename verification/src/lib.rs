//! Client library for the comm_ipc protocol.
pub mod channel;
pub mod client;
pub mod comm_data;
pub mod error;
pub mod frame;
pub mod json;
pub mod message;
pub mod security;
pub mod table;
pub mod text;

pub use comm_data::{default_mode, default_timestamp, CommData};
pub use error::{Error, Result};
pub use json::{serialize_json_canonical, JsonNumber, JsonObject, JsonValue};
pub use message::Message;
pub use security::{compute_signature, derive_key, hash_secret, verify_signature};
