//! Bits of the header's flags byte.

use vstd::prelude::*;

verus! {

/// The sender expects no reply.
pub const NO_REPLY_EXPECTED: u8 = 0x1;

/// The bus must not start a service to deliver the message.
pub const NO_AUTO_START: u8 = 0x2;

/// The sender is prepared to wait for interactive authorization.
pub const ALLOW_INTERACTIVE_AUTHORIZATION: u8 = 0x4;

} // verus!
