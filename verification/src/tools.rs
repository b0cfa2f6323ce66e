//! What the command-line tools decide before they connect: which bus
//! address to use. Reading the environment and the configuration file is
//! the tool's part.

use crate::addr::{parse_one_spec, Address, AddressSpec};
use crate::error::CoreError;
use vstd::prelude::*;

verus! {

/// The bus a tool talks to.
#[derive(Debug, Clone, Copy, PartialEq, Eq, Structural)]
pub enum BusChoice {
    System,
    Session,
}

/// Why no address could be settled on.
#[derive(Debug)]
pub enum AddressError {
    /// An address that does not parse.
    Invalid(CoreError),
    /// A session bus, and no session address in the environment.
    NoSessionAddress,
}

/// Where a tool finds its bus.
#[derive(Debug)]
pub enum AddressChoice {
    /// At this address.
    Address(Address),
    /// At the system socket of the configuration.
    ConfiguredSystemSocket,
}

/// The address a tool connects to: the one it was given (`explicit`), else
/// for a session bus the session address from the environment
/// (`session_env`), else for a system bus the system address from the
/// environment (`system_env`) or, failing that, the configured system
/// socket.
pub fn resolve_address(
    choice: BusChoice,
    explicit: Option<&str>,
    session_env: Option<&str>,
    system_env: Option<&str>,
) -> (r: Result<AddressChoice, AddressError>)
    ensures
        ({
            let given = match explicit {
                Some(a) => Some(a@),
                None => match choice {
                    BusChoice::Session => match session_env {
                        Some(s) => Some(s@),
                        None => None,
                    },
                    BusChoice::System => match system_env {
                        Some(s) => Some(s@),
                        None => None,
                    },
                },
            };
            match given {
                Some(t) => match parse_one_spec(t) {
                    Ok(x) => r matches Ok(AddressChoice::Address(a)) && a@ == x,
                    Err(m) => r matches Err(AddressError::Invalid(e)) && e matches CoreError::InvalidAddress(
                        s,
                    ) && s@ == m,
                },
                None => match choice {
                    BusChoice::Session => r matches Err(AddressError::NoSessionAddress),
                    BusChoice::System => r matches Ok(AddressChoice::ConfiguredSystemSocket),
                },
            }
        }),
{
    let given = match explicit {
        Some(a) => Some(a),
        None => match choice {
            BusChoice::Session => session_env,
            BusChoice::System => system_env,
        },
    };
    match given {
        Some(t) => match Address::parse_one(t) {
            Ok(a) => Ok(AddressChoice::Address(a)),
            Err(e) => Err(AddressError::Invalid(e)),
        },
        None => match choice {
            BusChoice::Session => Err(AddressError::NoSessionAddress),
            BusChoice::System => Ok(AddressChoice::ConfiguredSystemSocket),
        },
    }
}

} // verus!
