//! The settings of the bus and its tools (`oxibus.toml`): their defaults,
//! and the paths they lead to. Reading the file is the caller's part.

use crate::text::{path_join, join_path};
use vstd::prelude::*;

verus! {

/// The project table.
#[derive(Debug, Clone)]
pub struct ProjectConfig {
    pub name: String,
    pub version: String,
}

impl Default for ProjectConfig {
    fn default() -> (c: ProjectConfig)
        ensures
            c.name@ == "oxibus"@,
            c.version@ == "0.1.0"@,
    {
        ProjectConfig { name: "oxibus".to_owned(), version: "0.1.0".to_owned() }
    }
}

/// Which subsystems are built and enabled.
#[derive(Debug, Clone)]
pub struct FeaturesConfig {
    pub message_bus: bool,
    pub tools: bool,
    pub traditional_activation: bool,
    pub stats: bool,
    pub cookie_sha1: bool,
    pub unix_fd_passing: bool,
    pub systemd: bool,
    pub selinux: bool,
    pub apparmor: bool,
    pub libaudit: bool,
    pub launchd: bool,
    pub x11_autolaunch: bool,
}

impl Default for FeaturesConfig {
    fn default() -> (c: FeaturesConfig)
        ensures
            c.message_bus && c.tools && c.traditional_activation && c.stats && c.cookie_sha1
                && c.unix_fd_passing,
            !c.systemd && !c.selinux && !c.apparmor && !c.libaudit && !c.launchd && !c.x11_autolaunch,
    {
        FeaturesConfig {
            message_bus: true,
            tools: true,
            traditional_activation: true,
            stats: true,
            cookie_sha1: true,
            unix_fd_passing: true,
            systemd: false,
            selinux: false,
            apparmor: false,
            libaudit: false,
            launchd: false,
            x11_autolaunch: false,
        }
    }
}

/// The filesystem layout.
#[derive(Debug, Clone)]
pub struct PathsConfig {
    pub prefix: String,
    pub bindir: String,
    pub sbindir: String,
    pub libdir: String,
    pub includedir: String,
    pub conf_dir: String,
    pub policy_dir: String,
    pub services_dir: String,
    pub vendor_services_dir: String,
    pub share_dir: String,
    pub runtime_dir: String,
    pub system_socket: String,
    pub system_pid_file: String,
    pub session_socket_dir: String,
    pub state_dir: String,
    pub machine_id_file: String,
    pub launch_helper: String,
    pub legacy_system_socket: String,
}

impl Default for PathsConfig {
    fn default() -> (c: PathsConfig)
        ensures
            c.prefix@ == "/overlayer/syshub"@,
            c.bindir@ == "/bin"@,
            c.sbindir@ == "/sbin"@,
            c.libdir@ == "/lib"@,
            c.includedir@ == "/include"@,
            c.conf_dir@ == "/etc/oxibus"@,
            c.policy_dir@ == "/etc/oxibus/policy.d"@,
            c.services_dir@ == "/etc/oxibus/services"@,
            c.vendor_services_dir@ == "/lib/oxibus/services"@,
            c.share_dir@ == "/share/oxibus"@,
            c.runtime_dir@ == "/run"@,
            c.system_socket@ == "/run/oxibus/system_bus_socket"@,
            c.system_pid_file@ == "/run/oxibus/pid"@,
            c.session_socket_dir@ == "/tmp"@,
            c.state_dir@ == "/var/lib/oxibus"@,
            c.machine_id_file@ == "/var/lib/oxibus/machine-id"@,
            c.launch_helper@ == "/libexec/dbus-daemon-launch-helper"@,
            c.legacy_system_socket@ == "/run/dbus/system_bus_socket"@,
    {
        PathsConfig {
            prefix: "/overlayer/syshub".to_owned(),
            bindir: "/bin".to_owned(),
            sbindir: "/sbin".to_owned(),
            libdir: "/lib".to_owned(),
            includedir: "/include".to_owned(),
            conf_dir: "/etc/oxibus".to_owned(),
            policy_dir: "/etc/oxibus/policy.d".to_owned(),
            services_dir: "/etc/oxibus/services".to_owned(),
            vendor_services_dir: "/lib/oxibus/services".to_owned(),
            share_dir: "/share/oxibus".to_owned(),
            runtime_dir: "/run".to_owned(),
            system_socket: "/run/oxibus/system_bus_socket".to_owned(),
            system_pid_file: "/run/oxibus/pid".to_owned(),
            session_socket_dir: "/tmp".to_owned(),
            state_dir: "/var/lib/oxibus".to_owned(),
            machine_id_file: "/var/lib/oxibus/machine-id".to_owned(),
            launch_helper: "/libexec/dbus-daemon-launch-helper".to_owned(),
            legacy_system_socket: "/run/dbus/system_bus_socket".to_owned(),
        }
    }
}

/// The text of `s` without its leading `/`s (`trim_start_matches('/')`).
pub open spec fn without_leading_slashes(s: Seq<char>) -> Seq<char>
    decreases s.len(),
{
    if s.len() > 0 && s[0] == '/' {
        without_leading_slashes(s.drop_first())
    } else {
        s
    }
}

/// `sub` under `prefix`, whatever leading `/`s `sub` has.
pub open spec fn joined_spec(prefix: Seq<char>, sub: Seq<char>) -> Seq<char> {
    path_join(prefix, without_leading_slashes(sub))
}

fn strip_leading_slashes(s: &str) -> (t: String)
    ensures
        t@ == without_leading_slashes(s@),
{
    let cs = crate::text::chars_of(s);
    let mut i: usize = 0;
    let ghost orig = s@;
    assert(orig.skip(0) =~= orig);
    while i < cs.len() && cs[i] == '/'
        invariant
            i <= cs@.len(),
            cs@ == orig,
            without_leading_slashes(orig) == without_leading_slashes(orig.skip(i as int)),
        decreases cs.len() - i,
    {
        assert(orig.skip(i as int).drop_first() =~= orig.skip(i + 1));
        i = i + 1;
    }
    let rest = crate::text::slice_to_vec_range(cs.as_slice(), i, cs.len());
    assert(rest@ =~= orig.skip(i as int));
    crate::text::string_of(rest.as_slice())
}

fn joined(prefix: &str, sub: &str) -> (p: String)
    ensures
        p@ == joined_spec(prefix@, sub@),
{
    let s = strip_leading_slashes(sub);
    join_path(prefix, s.as_str())
}

impl PathsConfig {
    /// A path held in a setting, as a path.
    pub fn as_path(field: &str) -> (p: String)
        ensures
            p@ == field@,
    {
        field.to_owned()
    }

    /// The `bindir` setting under the prefix.
    pub fn bin_dir(&self) -> (p: String)
        ensures
            p@ == joined_spec(self.prefix@, self.bindir@),
    {
        joined(self.prefix.as_str(), self.bindir.as_str())
    }

    /// The `sbindir` setting under the prefix.
    pub fn sbin_dir(&self) -> (p: String)
        ensures
            p@ == joined_spec(self.prefix@, self.sbindir@),
    {
        joined(self.prefix.as_str(), self.sbindir.as_str())
    }

    /// The `libdir` setting under the prefix.
    pub fn lib_dir(&self) -> (p: String)
        ensures
            p@ == joined_spec(self.prefix@, self.libdir@),
    {
        joined(self.prefix.as_str(), self.libdir.as_str())
    }

    /// The `includedir` setting under the prefix.
    pub fn include_dir(&self) -> (p: String)
        ensures
            p@ == joined_spec(self.prefix@, self.includedir@),
    {
        joined(self.prefix.as_str(), self.includedir.as_str())
    }

    /// The `share_dir` setting under the prefix.
    pub fn share_dir(&self) -> (p: String)
        ensures
            p@ == joined_spec(self.prefix@, self.share_dir@),
    {
        joined(self.prefix.as_str(), self.share_dir.as_str())
    }

    /// The `launch_helper` setting under the prefix.
    pub fn launch_helper_path(&self) -> (p: String)
        ensures
            p@ == joined_spec(self.prefix@, self.launch_helper@),
    {
        joined(self.prefix.as_str(), self.launch_helper.as_str())
    }

    /// The `conf_dir` setting, as a path.
    pub fn conf_dir(&self) -> (p: String)
        ensures
            p@ == self.conf_dir@,
    {
        Self::as_path(self.conf_dir.as_str())
    }

    /// The `policy_dir` setting, as a path.
    pub fn policy_dir(&self) -> (p: String)
        ensures
            p@ == self.policy_dir@,
    {
        Self::as_path(self.policy_dir.as_str())
    }

    /// The `services_dir` setting, as a path.
    pub fn services_dir(&self) -> (p: String)
        ensures
            p@ == self.services_dir@,
    {
        Self::as_path(self.services_dir.as_str())
    }

    /// The `vendor_services_dir` setting, as a path.
    pub fn vendor_services_dir(&self) -> (p: String)
        ensures
            p@ == self.vendor_services_dir@,
    {
        Self::as_path(self.vendor_services_dir.as_str())
    }

    /// The `state_dir` setting, as a path.
    pub fn state_dir(&self) -> (p: String)
        ensures
            p@ == self.state_dir@,
    {
        Self::as_path(self.state_dir.as_str())
    }

    /// The `machine_id_file` setting, as a path.
    pub fn machine_id_file(&self) -> (p: String)
        ensures
            p@ == self.machine_id_file@,
    {
        Self::as_path(self.machine_id_file.as_str())
    }

    /// The `system_socket` setting, as a path.
    pub fn system_socket(&self) -> (p: String)
        ensures
            p@ == self.system_socket@,
    {
        Self::as_path(self.system_socket.as_str())
    }

    /// The `legacy_system_socket` setting, as a path.
    pub fn legacy_system_socket(&self) -> (p: String)
        ensures
            p@ == self.legacy_system_socket@,
    {
        Self::as_path(self.legacy_system_socket.as_str())
    }

    /// The `system_pid_file` setting, as a path.
    pub fn system_pid_file(&self) -> (p: String)
        ensures
            p@ == self.system_pid_file@,
    {
        Self::as_path(self.system_pid_file.as_str())
    }

    /// The path under which files are installed: `destroot` itself.
    pub fn rooted(&self, destroot: &str) -> (p: String)
        ensures
            p@ == destroot@,
    {
        destroot.to_owned()
    }
}

/// The system bus daemon's settings.
#[derive(Debug, Clone)]
pub struct BusSystemConfig {
    pub user: String,
    pub listen: String,
    pub pidfile: String,
    pub auth_mechanisms: Vec<String>,
    pub allow_anonymous: bool,
}

/// The models of some strings.
pub open spec fn texts(v: Seq<String>) -> Seq<Seq<char>> {
    Seq::new(v.len(), |i: int| v[i]@)
}

impl Default for BusSystemConfig {
    fn default() -> (c: BusSystemConfig)
        ensures
            c.user@ == "messagebus"@,
            c.listen@ == "unix:path=/run/oxibus/system_bus_socket"@,
            c.pidfile@ == "/run/oxibus/pid"@,
            texts(c.auth_mechanisms@) == seq!["EXTERNAL"@, "DBUS_COOKIE_SHA1"@, "ANONYMOUS"@],
            !c.allow_anonymous,
    {
        let mut mechs: Vec<String> = Vec::new();
        mechs.push("EXTERNAL".to_owned());
        mechs.push("DBUS_COOKIE_SHA1".to_owned());
        mechs.push("ANONYMOUS".to_owned());
        assert(texts(mechs@) =~= seq!["EXTERNAL"@, "DBUS_COOKIE_SHA1"@, "ANONYMOUS"@]);
        BusSystemConfig {
            user: "messagebus".to_owned(),
            listen: "unix:path=/run/oxibus/system_bus_socket".to_owned(),
            pidfile: "/run/oxibus/pid".to_owned(),
            auth_mechanisms: mechs,
            allow_anonymous: false,
        }
    }
}

/// The session bus daemon's settings.
#[derive(Debug, Clone)]
pub struct BusSessionConfig {
    pub listen: String,
    pub auth_mechanisms: Vec<String>,
    pub allow_anonymous: bool,
}

impl Default for BusSessionConfig {
    fn default() -> (c: BusSessionConfig)
        ensures
            c.listen@ == "unix:tmpdir=/tmp"@,
            texts(c.auth_mechanisms@) == seq!["EXTERNAL"@, "DBUS_COOKIE_SHA1"@],
            !c.allow_anonymous,
    {
        let mut mechs: Vec<String> = Vec::new();
        mechs.push("EXTERNAL".to_owned());
        mechs.push("DBUS_COOKIE_SHA1".to_owned());
        assert(texts(mechs@) =~= seq!["EXTERNAL"@, "DBUS_COOKIE_SHA1"@]);
        BusSessionConfig {
            listen: "unix:tmpdir=/tmp".to_owned(),
            auth_mechanisms: mechs,
            allow_anonymous: false,
        }
    }
}

/// Both buses' settings.
#[derive(Debug, Clone)]
pub struct BusConfig {
    pub system: BusSystemConfig,
    pub session: BusSessionConfig,
}

impl Default for BusConfig {
    fn default() -> (c: BusConfig)
        ensures
            c.system.user@ == "messagebus"@,
            c.session.listen@ == "unix:tmpdir=/tmp"@,
    {
        BusConfig { system: BusSystemConfig::default(), session: BusSessionConfig::default() }
    }
}

/// Resource limits.
#[derive(Debug, Clone)]
pub struct LimitsConfig {
    pub max_incoming_bytes: u64,
    pub max_outgoing_bytes: u64,
    pub max_message_size: u32,
    pub max_message_unix_fds: u32,
    pub max_completed_connections: u32,
    pub max_incomplete_connections: u32,
    pub max_connections_per_user: u32,
    pub max_pending_service_starts: u32,
    pub max_names_per_connection: u32,
    pub max_match_rules_per_connection: u32,
    pub activation_timeout_ms: u64,
    pub auth_timeout_ms: u64,
}

impl Default for LimitsConfig {
    fn default() -> (c: LimitsConfig)
        ensures
            c.max_incoming_bytes == 1_000_000_000 && c.max_outgoing_bytes == 1_000_000_000,
            c.max_message_size == 134_217_728 && c.max_message_unix_fds == 1024,
            c.max_completed_connections == 100_000 && c.max_incomplete_connections == 64,
            c.max_connections_per_user == 512 && c.max_pending_service_starts == 512,
            c.max_names_per_connection == 50_000 && c.max_match_rules_per_connection == 50_000,
            c.activation_timeout_ms == 25_000 && c.auth_timeout_ms == 30_000,
    {
        LimitsConfig {
            max_incoming_bytes: 1_000_000_000,
            max_outgoing_bytes: 1_000_000_000,
            max_message_size: 134_217_728,
            max_message_unix_fds: 1024,
            max_completed_connections: 100_000,
            max_incomplete_connections: 64,
            max_connections_per_user: 512,
            max_pending_service_starts: 512,
            max_names_per_connection: 50_000,
            max_match_rules_per_connection: 50_000,
            activation_timeout_ms: 25_000,
            auth_timeout_ms: 30_000,
        }
    }
}

/// Logging settings.
#[derive(Debug, Clone)]
pub struct LoggingConfig {
    pub level: String,
    pub ident: String,
    pub target: String,
}

impl Default for LoggingConfig {
    fn default() -> (c: LoggingConfig)
        ensures
            c.level@ == "info"@,
            c.ident@ == "dbus-daemon"@,
            c.target@ == "stderr"@,
    {
        LoggingConfig {
            level: "info".to_owned(),
            ident: "dbus-daemon".to_owned(),
            target: "stderr".to_owned(),
        }
    }
}

/// All settings of `oxibus.toml`.
#[derive(Debug, Clone)]
pub struct GlobalConfig {
    pub project: ProjectConfig,
    pub features: FeaturesConfig,
    pub paths: PathsConfig,
    pub bus: BusConfig,
    pub limits: LimitsConfig,
    pub logging: LoggingConfig,
}

impl Default for GlobalConfig {
    fn default() -> (c: GlobalConfig)
        ensures
            c.paths.prefix@ == "/overlayer/syshub"@,
            c.paths.bindir@ == "/bin"@,
            c.paths.system_socket@ == "/run/oxibus/system_bus_socket"@,
            c.features.message_bus && !c.features.systemd && !c.features.selinux,
            c.bus.system.user@ == "messagebus"@,
            c.limits.max_message_size == 134_217_728,
    {
        GlobalConfig {
            project: ProjectConfig::default(),
            features: FeaturesConfig::default(),
            paths: PathsConfig::default(),
            bus: BusConfig::default(),
            limits: LimitsConfig::default(),
            logging: LoggingConfig::default(),
        }
    }
}

} // verus!
