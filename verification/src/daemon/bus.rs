//! The two kinds of bus and the settings each takes from the configuration.

use crate::auth::mechanism::Mechanism;
use crate::config::GlobalConfig;
use crate::text::{join_path, path_join};
use vstd::prelude::*;

verus! {

broadcast use vstd::std_specs::vec::group_vec_axioms;

/// The system bus or a session bus.
#[derive(Debug, Clone, Copy, PartialEq, Eq, Structural)]
pub enum BusKind {
    System,
    Session,
}

/// The mechanisms named in `names`, in order, names of no known mechanism
/// left out.
pub open spec fn mechanisms_named(names: Seq<Seq<char>>) -> Seq<Mechanism>
    decreases names.len(),
{
    if names.len() == 0 {
        Seq::empty()
    } else {
        mechanisms_named(names.drop_last()) + match Mechanism::parse_spec(names.last()) {
            Some(m) => seq![m],
            None => Seq::empty(),
        }
    }
}

/// The texts of some strings.
pub open spec fn texts(v: Seq<String>) -> Seq<Seq<char>> {
    Seq::new(v.len(), |i: int| v[i]@)
}

/// The policy directories of a bus: the configured one, and for the system
/// bus the standard `system.d` directories.
pub open spec fn policy_dir_list(kind: BusKind, policy_dir: Seq<char>, prefix: Seq<char>) -> Seq<Seq<char>> {
    match kind {
        BusKind::System => seq![
            policy_dir,
            path_join(prefix, "share/dbus-1/system.d"@),
            path_join(prefix, "etc/dbus-1/system.d"@),
            "/etc/dbus-1/system.d"@,
            "/usr/share/dbus-1/system.d"@,
        ],
        BusKind::Session => seq![policy_dir],
    }
}

/// The service directories of a bus: the configured ones, three under the
/// prefix, then the standard ones, of the system or the session kind.
pub open spec fn service_dir_list(kind: BusKind, services: Seq<char>, vendor: Seq<char>, prefix: Seq<char>) -> Seq<
    Seq<char>,
> {
    match kind {
        BusKind::System => seq![
            services,
            vendor,
            path_join(prefix, "share/dbus-1/system-services"@),
            path_join(prefix, "etc/dbus-1/system-services"@),
            path_join(prefix, "lib/dbus-1/system-services"@),
            "/etc/dbus-1/system-services"@,
            "/usr/share/dbus-1/system-services"@,
            "/usr/lib/dbus-1/system-services"@,
        ],
        BusKind::Session => seq![
            services,
            vendor,
            path_join(prefix, "share/dbus-1/services"@),
            path_join(prefix, "etc/dbus-1/services"@),
            path_join(prefix, "lib/dbus-1/services"@),
            "/etc/dbus-1/services"@,
            "/usr/share/dbus-1/services"@,
            "/usr/lib/dbus-1/services"@,
        ],
    }
}

impl BusKind {
    /// The name of the kind, as AppArmor queries name it.
    pub fn bus_type(self) -> (s: &'static str)
        ensures
            s@ == match self {
                BusKind::System => "system"@,
                BusKind::Session => "session"@,
            },
    {
        match self {
            BusKind::System => "system",
            BusKind::Session => "session",
        }
    }

    /// Whether this bus lets clients authenticate anonymously.
    pub fn allow_anonymous(self, config: &GlobalConfig) -> (b: bool)
        ensures
            b == match self {
                BusKind::System => config.bus.system.allow_anonymous,
                BusKind::Session => config.bus.session.allow_anonymous,
            },
    {
        match self {
            BusKind::System => config.bus.system.allow_anonymous,
            BusKind::Session => config.bus.session.allow_anonymous,
        }
    }

    /// The mechanisms this bus offers: those configured that it knows.
    pub fn auth_mechanisms(self, config: &GlobalConfig) -> (v: Vec<Mechanism>)
        ensures
            v@ == mechanisms_named(
                texts(
                    match self {
                        BusKind::System => config.bus.system.auth_mechanisms@,
                        BusKind::Session => config.bus.session.auth_mechanisms@,
                    },
                ),
            ),
    {
        let names: &Vec<String> = match self {
            BusKind::System => &config.bus.system.auth_mechanisms,
            BusKind::Session => &config.bus.session.auth_mechanisms,
        };
        let ghost ns = texts(names@);
        let mut out: Vec<Mechanism> = Vec::new();
        let mut i: usize = 0;
        assert(ns.take(0) =~= Seq::<Seq<char>>::empty());
        while i < names.len()
            invariant
                i <= names@.len(),
                ns == texts(names@),
                out@ == mechanisms_named(ns.take(i as int)),
            decreases names.len() - i,
        {
            proof {
                assert(ns.take(i + 1).drop_last() =~= ns.take(i as int));
                assert(ns.take(i + 1).last() == names@[i as int]@);
            }
            match Mechanism::parse(names[i].as_str()) {
                Some(m) => {
                    out.push(m);
                },
                None => {
                    assert(out@ + Seq::<Mechanism>::empty() =~= out@);
                },
            }
            i = i + 1;
        }
        assert(ns.take(i as int) =~= ns);
        out
    }

    /// The directories this bus reads policy files from.
    pub fn policy_dirs(self, config: &GlobalConfig) -> (v: Vec<String>)
        ensures
            v@.len() == policy_dir_list(self, config.paths.policy_dir@, config.paths.prefix@).len(),
            forall|k: int|
                0 <= k < v@.len() ==> #[trigger] v@[k]@ == policy_dir_list(self, config.paths.policy_dir@, config.paths.prefix@)[k],
    {
        let mut dirs: Vec<String> = Vec::new();
        dirs.push(config.paths.policy_dir());
        match self {
            BusKind::System => {
                let prefix = config.paths.prefix.as_str();
                dirs.push(join_path(prefix, "share/dbus-1/system.d"));
                dirs.push(join_path(prefix, "etc/dbus-1/system.d"));
                dirs.push("/etc/dbus-1/system.d".to_owned());
                dirs.push("/usr/share/dbus-1/system.d".to_owned());
            },
            BusKind::Session => {},
        }
        dirs
    }

    /// The directories this bus reads service files from.
    pub fn service_dirs(self, config: &GlobalConfig) -> (v: Vec<String>)
        ensures
            v@.len() == 8,
            forall|k: int|
                0 <= k < 8 ==> #[trigger] v@[k]@ == service_dir_list(
                    self,
                    config.paths.services_dir@,
                    config.paths.vendor_services_dir@,
                    config.paths.prefix@,
                )[k],
    {
        let mut dirs: Vec<String> = Vec::new();
        dirs.push(config.paths.services_dir());
        dirs.push(config.paths.vendor_services_dir());
        let prefix = config.paths.prefix.as_str();
        match self {
            BusKind::System => {
                dirs.push(join_path(prefix, "share/dbus-1/system-services"));
                dirs.push(join_path(prefix, "etc/dbus-1/system-services"));
                dirs.push(join_path(prefix, "lib/dbus-1/system-services"));
                dirs.push("/etc/dbus-1/system-services".to_owned());
                dirs.push("/usr/share/dbus-1/system-services".to_owned());
                dirs.push("/usr/lib/dbus-1/system-services".to_owned());
            },
            BusKind::Session => {
                dirs.push(join_path(prefix, "share/dbus-1/services"));
                dirs.push(join_path(prefix, "etc/dbus-1/services"));
                dirs.push(join_path(prefix, "lib/dbus-1/services"));
                dirs.push("/etc/dbus-1/services".to_owned());
                dirs.push("/usr/share/dbus-1/services".to_owned());
                dirs.push("/usr/lib/dbus-1/services".to_owned());
            },
        }
        dirs
    }
}

} // verus!
