//! The checks of the setuid launch helper, which starts system-bus services
//! as their configured users.

use crate::daemon::activation::{ActivationRegistry, ServiceDef};
use crate::text::{concat_str, join_path, path_join, str_eq};
use vstd::prelude::*;

verus! {

broadcast use vstd::std_specs::vec::group_vec_axioms;

/// Why the launch helper stopped.
#[derive(Debug, Clone, PartialEq, Eq)]
pub enum HelperError {
    InvalidArgs,
    InvalidBusName(String),
    ConfigInvalid(String, String),
    PermissionsInvalid(String),
    ServiceNotFound(String),
    NoUserConfigured(String),
    UnknownUser(String),
    SetupFailed(String),
    ExecFailed(String),
}

/// The exit status for each error.
pub open spec fn exit_code_of(e: HelperError) -> i32 {
    match e {
        HelperError::InvalidArgs => 2,
        HelperError::InvalidBusName(_) => 3,
        HelperError::ConfigInvalid(_, _) => 4,
        HelperError::PermissionsInvalid(_) => 5,
        HelperError::ServiceNotFound(_) => 6,
        HelperError::NoUserConfigured(_) => 7,
        HelperError::UnknownUser(_) => 8,
        HelperError::SetupFailed(_) => 9,
        HelperError::ExecFailed(_) => 10,
    }
}

/// What each error says.
pub open spec fn helper_message(e: HelperError) -> Seq<char> {
    match e {
        HelperError::InvalidArgs => "usage: oxibus-daemon-launch-helper SERVICE.NAME.TO.ACTIVATE"@,
        HelperError::InvalidBusName(n) => "bus name '"@ + n@ + "' is not a valid bus name"@,
        HelperError::ConfigInvalid(p, m) => "could not load trusted config at "@ + p@ + ": "@ + m@,
        HelperError::PermissionsInvalid(m) => m@,
        HelperError::ServiceNotFound(n) => "the name "@ + n@ + " was not provided by any service files"@,
        HelperError::NoUserConfigured(n) => "service '"@ + n@ + "' has no `user =` set — required for system-bus activation"@,
        HelperError::UnknownUser(u) => "cannot find user '"@ + u@ + "'"@,
        HelperError::SetupFailed(m) => m@,
        HelperError::ExecFailed(m) => m@,
    }
}

fn surround(a: &str, b: &str, c: &str) -> (s: String)
    ensures
        s@ == a@ + b@ + c@,
{
    let x = concat_str(a, b);
    concat_str(x.as_str(), c)
}

impl HelperError {
    /// The process exit status for this error.
    pub fn exit_code(&self) -> (c: i32)
        ensures
            c == exit_code_of(*self),
    {
        match self {
            HelperError::InvalidArgs => 2,
            HelperError::InvalidBusName(_) => 3,
            HelperError::ConfigInvalid(_, _) => 4,
            HelperError::PermissionsInvalid(_) => 5,
            HelperError::ServiceNotFound(_) => 6,
            HelperError::NoUserConfigured(_) => 7,
            HelperError::UnknownUser(_) => 8,
            HelperError::SetupFailed(_) => 9,
            HelperError::ExecFailed(_) => 10,
        }
    }

    /// What the error says.
    pub fn message(&self) -> (s: String)
        ensures
            s@ == helper_message(*self),
    {
        match self {
            HelperError::InvalidArgs => "usage: oxibus-daemon-launch-helper SERVICE.NAME.TO.ACTIVATE".to_owned(),
            HelperError::InvalidBusName(n) => surround("bus name '", n.as_str(), "' is not a valid bus name"),
            HelperError::ConfigInvalid(p, m) => {
                let a = surround("could not load trusted config at ", p.as_str(), ": ");
                concat_str(a.as_str(), m.as_str())
            },
            HelperError::PermissionsInvalid(m) => m.clone(),
            HelperError::ServiceNotFound(n) => surround("the name ", n.as_str(), " was not provided by any service files"),
            HelperError::NoUserConfigured(n) => surround(
                "service '",
                n.as_str(),
                "' has no `user =` set — required for system-bus activation",
            ),
            HelperError::UnknownUser(u) => surround("cannot find user '", u.as_str(), "'"),
            HelperError::SetupFailed(m) => m.clone(),
            HelperError::ExecFailed(m) => m.clone(),
        }
    }
}

/// Where the trusted bus configuration lives.
pub const TRUSTED_CONFIG_PATH: &'static str = "/etc/oxibus/oxibus.toml";

/// Whether `a` is one of the help options.
pub open spec fn is_help(a: Seq<char>) -> bool {
    a == "--help"@ || a == "-h"@ || a == "-?"@
}

/// The one argument, the bus name to activate; anything else (no argument,
/// several, or a help option) is a usage error.
pub fn parse_args(args: &[String]) -> (r: Result<&str, HelperError>)
    ensures
        args@.len() == 1 && !is_help(args@[0]@) ==> (r matches Ok(n) && n@ == args@[0]@),
        !(args@.len() == 1 && !is_help(args@[0]@)) ==> r == Err::<&str, HelperError>(HelperError::InvalidArgs),
{
    if args.len() == 1 {
        let a = args[0].as_str();
        if !str_eq(a, "--help") && !str_eq(a, "-h") && !str_eq(a, "-?") {
            return Ok(a);
        }
    }
    Err(HelperError::InvalidArgs)
}

/// The launch helper runs only when invoked by the bus user (`dbus_user`,
/// whose id `resolve_uid` looks up) and installed setuid root.
pub fn check_permissions(
    dbus_user: &str,
    real_uid: u32,
    effective_uid: u32,
    resolve_uid: impl Fn(&str) -> Option<u32>,
) -> (r: Result<(), HelperError>)
    requires
        resolve_uid.requires((dbus_user,)),
    ensures
        exists|u: Option<u32>|
            resolve_uid.ensures((dbus_user,), u) && match u {
                None => (r matches Err(HelperError::PermissionsInvalid(m)) && m@ == "cannot find user '"@ + dbus_user@
                    + "'"@),
                Some(expected) => if real_uid != expected {
                    r matches Err(HelperError::PermissionsInvalid(m)) && m@ == "not invoked from user '"@ + dbus_user@
                        + "'"@
                } else if effective_uid != 0 {
                    r matches Err(HelperError::PermissionsInvalid(m)) && m@ == "not setuid root"@
                } else {
                    r is Ok
                },
            },
{
    let found = resolve_uid(dbus_user);
    let expected = match found {
        Some(u) => u,
        None => {
            return Err(HelperError::PermissionsInvalid(surround("cannot find user '", dbus_user, "'")));
        },
    };
    if real_uid != expected {
        return Err(HelperError::PermissionsInvalid(surround("not invoked from user '", dbus_user, "'")));
    }
    if effective_uid != 0 {
        return Err(HelperError::PermissionsInvalid("not setuid root".to_owned()));
    }
    Ok(())
}

/// The definition of the service to start for `bus_name`: it must be known
/// under that name and name the user to run as.
pub fn find_service(registry: &ActivationRegistry, bus_name: &str) -> (r: Result<ServiceDef, HelperError>)
    requires
        registry.wf(),
    ensures
        !registry@.dom().contains(bus_name@) ==> (r matches Err(HelperError::ServiceNotFound(n)) && n@ == bus_name@),
        registry@.dom().contains(bus_name@) && registry@[bus_name@].name != bus_name@ ==> (r matches Err(
            HelperError::ServiceNotFound(n),
        ) && n@ == bus_name@),
        registry@.dom().contains(bus_name@) && registry@[bus_name@].name == bus_name@ && registry@[bus_name@].user is None
            ==> (r matches Err(HelperError::NoUserConfigured(n)) && n@ == bus_name@),
        registry@.dom().contains(bus_name@) && registry@[bus_name@].name == bus_name@ && registry@[bus_name@].user is Some
            ==> (r matches Ok(d) && d@ == registry@[bus_name@]),
{
    let def = match registry.lookup(bus_name) {
        Some(d) => d,
        None => {
            return Err(HelperError::ServiceNotFound(bus_name.to_owned()));
        },
    };
    if !str_eq(def.name.as_str(), bus_name) {
        return Err(HelperError::ServiceNotFound(bus_name.to_owned()));
    }
    if def.user.is_none() {
        return Err(HelperError::NoUserConfigured(bus_name.to_owned()));
    }
    Ok(def)
}

/// The directories searched for system services, in order: the configured
/// ones, three under `prefix`, then the standard ones.
pub open spec fn service_dir_list(services_dir: Seq<char>, vendor_services_dir: Seq<char>, prefix: Seq<char>) -> Seq<
    Seq<char>,
> {
    seq![
        services_dir,
        vendor_services_dir,
        path_join(prefix, "share/dbus-1/system-services"@),
        path_join(prefix, "etc/dbus-1/system-services"@),
        path_join(prefix, "lib/dbus-1/system-services"@),
        "/etc/dbus-1/system-services"@,
        "/usr/share/dbus-1/system-services"@,
        "/usr/lib/dbus-1/system-services"@,
    ]
}

/// The directories searched for system services.
pub fn service_dirs(services_dir: &str, vendor_services_dir: &str, prefix: &str) -> (v: Vec<String>)
    ensures
        v@.len() == 8,
        forall|k: int| 0 <= k < 8 ==> #[trigger] v@[k]@ == service_dir_list(services_dir@, vendor_services_dir@, prefix@)[k],
{
    let mut dirs: Vec<String> = Vec::new();
    dirs.push(services_dir.to_owned());
    dirs.push(vendor_services_dir.to_owned());
    dirs.push(join_path(prefix, "share/dbus-1/system-services"));
    dirs.push(join_path(prefix, "etc/dbus-1/system-services"));
    dirs.push(join_path(prefix, "lib/dbus-1/system-services"));
    dirs.push("/etc/dbus-1/system-services".to_owned());
    dirs.push("/usr/share/dbus-1/system-services".to_owned());
    dirs.push("/usr/lib/dbus-1/system-services".to_owned());
    dirs
}

} // verus!
