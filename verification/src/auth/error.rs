//! Errors of authentication and keyring access.

use vstd::prelude::*;

verus! {

/// What went wrong while authenticating or using the keyring.
#[derive(Debug, Clone, PartialEq, Eq)]
pub enum AuthError {
    /// An I/O failure, described.
    Io(String),
    /// The user has no home directory (the keyring lives there).
    NoHomeDir,
    /// The keyring file does not parse; what is wrong.
    KeyringCorrupt(String),
    /// No key of the keyring can be used.
    NoUsableKey,
    /// Text that is not hexadecimal.
    HexDecode,
    /// A violation of the protocol, described.
    Protocol(String),
}

} // verus!
