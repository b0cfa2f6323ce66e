//! A D-Bus message bus core: wire types, marshalling, authentication and
//! bus policy, with their contracts proved by Verus.

pub mod addr;
pub mod auth;
pub mod client;
pub mod config;
pub mod credentials;
pub mod daemon;
pub mod error;
pub mod errors;
pub mod header;
pub mod marshal;
pub mod message;
pub mod names;
pub mod roundtrip;
pub mod signature;
pub mod text;
pub mod tools;
pub mod transport;
pub mod types;
pub mod unmarshal;
pub mod well_known;
pub mod wire;

pub use error::CoreError;

