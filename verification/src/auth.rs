//! SASL authentication of the D-Bus wire protocol: EXTERNAL, ANONYMOUS and
//! DBUS_COOKIE_SHA1, server and client side.

pub mod client;
pub mod crypto;
pub mod error;
pub mod keyring;
pub mod mechanism;
pub mod server;

pub use client::{ClientAction, ClientAuth};
pub use error::AuthError;
pub use mechanism::Mechanism;
pub use server::{ServerAction, ServerAuth};

use vstd::prelude::*;

verus! {

/// A fresh random 128-bit GUID in lowercase hexadecimal.
pub fn generate_guid_hex() -> (s: String)
    ensures
        exists|b: Seq<u8>| b.len() == 16 && s@ == crypto::hex_text(b),
{
    let bytes = crypto::random_bytes(16);
    crypto::hex_encode(bytes.as_slice())
}

} // verus!
