//! What a bus client reports: its errors, the errors a method handler
//! answers with, and the mechanisms it authenticates with.

pub mod calls;
pub mod object_server;
pub mod proxy;

use crate::auth::mechanism::Mechanism;
use crate::error::CoreError;
use crate::errors;
use crate::text::{concat_str, str_eq};
use vstd::prelude::*;

verus! {

/// What went wrong on a client connection.
#[derive(Debug)]
pub enum ClientError {
    /// An I/O failure, described.
    Io(String),
    /// The peer broke the protocol.
    Protocol(String),
    /// Authentication failed.
    AuthFailed(String),
    /// A method call came back with the error `name`.
    CallError { name: String, message: String },
    /// The connection is closed.
    Closed,
    /// Bad wire data.
    Core(CoreError),
}

impl ClientError {
    /// Whether this is a call error saying that the service is unknown.
    pub fn is_service_unknown(&self) -> (b: bool)
        ensures
            b == (self matches ClientError::CallError { name, .. } && name@
                == errors::SERVICE_UNKNOWN@),
    {
        match self {
            ClientError::CallError { name, .. } => str_eq(name.as_str(), errors::SERVICE_UNKNOWN),
            _ => false,
        }
    }
}

/// The error a method handler answers with: an error name and a message.
#[derive(Debug, Clone)]
pub struct MethodError {
    pub name: String,
    pub message: String,
}

impl MethodError {
    /// The error `name` with `message`.
    pub fn new(name: &str, message: &str) -> (e: MethodError)
        ensures
            e.name@ == name@,
            e.message@ == message@,
    {
        MethodError { name: name.to_owned(), message: message.to_owned() }
    }

    /// No method `member` on `interface`.
    pub fn unknown_method(member: &str, interface: &str) -> (e: MethodError)
        ensures
            e.name@ == errors::UNKNOWN_METHOD@,
            e.message@ == "No such method \""@ + member@ + "\" on interface \""@ + interface@ + "\""@,
    {
        let a = concat_str("No such method \"", member);
        let b = concat_str(a.as_str(), "\" on interface \"");
        let c = concat_str(b.as_str(), interface);
        let d = concat_str(c.as_str(), "\"");
        MethodError::new(errors::UNKNOWN_METHOD, d.as_str())
    }

    /// No interface `interface`.
    pub fn unknown_interface(interface: &str) -> (e: MethodError)
        ensures
            e.name@ == errors::UNKNOWN_INTERFACE@,
            e.message@ == "No such interface \""@ + interface@ + "\""@,
    {
        let a = concat_str("No such interface \"", interface);
        let b = concat_str(a.as_str(), "\"");
        MethodError::new(errors::UNKNOWN_INTERFACE, b.as_str())
    }

    /// No object at `path`.
    pub fn unknown_object(path: &str) -> (e: MethodError)
        ensures
            e.name@ == errors::UNKNOWN_OBJECT@,
            e.message@ == "No such object path \""@ + path@ + "\""@,
    {
        let a = concat_str("No such object path \"", path);
        let b = concat_str(a.as_str(), "\"");
        MethodError::new(errors::UNKNOWN_OBJECT, b.as_str())
    }

    /// Arguments the method cannot take, described by `msg`.
    pub fn invalid_args(msg: &str) -> (e: MethodError)
        ensures
            e.name@ == errors::INVALID_ARGS@,
            e.message@ == msg@,
    {
        MethodError::new(errors::INVALID_ARGS, msg)
    }
}

/// The mechanisms a client tries by default: EXTERNAL, then
/// DBUS_COOKIE_SHA1.
pub fn default_mechanisms() -> (v: Vec<Mechanism>)
    ensures
        v@ == seq![Mechanism::External, Mechanism::DbusCookieSha1],
{
    let mut v: Vec<Mechanism> = Vec::new();
    v.push(Mechanism::External);
    v.push(Mechanism::DbusCookieSha1);
    assert(v@ =~= seq![Mechanism::External, Mechanism::DbusCookieSha1]);
    v
}

} // verus!
