//! The standard D-Bus error names.

use vstd::prelude::*;

verus! {

/// `org.freedesktop.DBus.Error.Failed`.
pub const FAILED: &'static str = "org.freedesktop.DBus.Error.Failed";

/// `org.freedesktop.DBus.Error.NoMemory`.
pub const NO_MEMORY: &'static str = "org.freedesktop.DBus.Error.NoMemory";

/// `org.freedesktop.DBus.Error.ServiceUnknown`.
pub const SERVICE_UNKNOWN: &'static str = "org.freedesktop.DBus.Error.ServiceUnknown";

/// `org.freedesktop.DBus.Error.NameHasNoOwner`.
pub const NAME_HAS_NO_OWNER: &'static str = "org.freedesktop.DBus.Error.NameHasNoOwner";

/// `org.freedesktop.DBus.Error.NoReply`.
pub const NO_REPLY: &'static str = "org.freedesktop.DBus.Error.NoReply";

/// `org.freedesktop.DBus.Error.IOError`.
pub const IO_ERROR: &'static str = "org.freedesktop.DBus.Error.IOError";

/// `org.freedesktop.DBus.Error.BadAddress`.
pub const BAD_ADDRESS: &'static str = "org.freedesktop.DBus.Error.BadAddress";

/// `org.freedesktop.DBus.Error.NotSupported`.
pub const NOT_SUPPORTED: &'static str = "org.freedesktop.DBus.Error.NotSupported";

/// `org.freedesktop.DBus.Error.LimitsExceeded`.
pub const LIMITS_EXCEEDED: &'static str = "org.freedesktop.DBus.Error.LimitsExceeded";

/// `org.freedesktop.DBus.Error.AccessDenied`.
pub const ACCESS_DENIED: &'static str = "org.freedesktop.DBus.Error.AccessDenied";

/// `org.freedesktop.DBus.Error.AuthFailed`.
pub const AUTH_FAILED: &'static str = "org.freedesktop.DBus.Error.AuthFailed";

/// `org.freedesktop.DBus.Error.NoServer`.
pub const NO_SERVER: &'static str = "org.freedesktop.DBus.Error.NoServer";

/// `org.freedesktop.DBus.Error.Timeout`.
pub const TIMEOUT: &'static str = "org.freedesktop.DBus.Error.Timeout";

/// `org.freedesktop.DBus.Error.NoNetwork`.
pub const NO_NETWORK: &'static str = "org.freedesktop.DBus.Error.NoNetwork";

/// `org.freedesktop.DBus.Error.AddressInUse`.
pub const ADDRESS_IN_USE: &'static str = "org.freedesktop.DBus.Error.AddressInUse";

/// `org.freedesktop.DBus.Error.Disconnected`.
pub const DISCONNECTED: &'static str = "org.freedesktop.DBus.Error.Disconnected";

/// `org.freedesktop.DBus.Error.InvalidArgs`.
pub const INVALID_ARGS: &'static str = "org.freedesktop.DBus.Error.InvalidArgs";

/// `org.freedesktop.DBus.Error.FileNotFound`.
pub const FILE_NOT_FOUND: &'static str = "org.freedesktop.DBus.Error.FileNotFound";

/// `org.freedesktop.DBus.Error.FileExists`.
pub const FILE_EXISTS: &'static str = "org.freedesktop.DBus.Error.FileExists";

/// `org.freedesktop.DBus.Error.UnknownMethod`.
pub const UNKNOWN_METHOD: &'static str = "org.freedesktop.DBus.Error.UnknownMethod";

/// `org.freedesktop.DBus.Error.UnknownObject`.
pub const UNKNOWN_OBJECT: &'static str = "org.freedesktop.DBus.Error.UnknownObject";

/// `org.freedesktop.DBus.Error.UnknownInterface`.
pub const UNKNOWN_INTERFACE: &'static str = "org.freedesktop.DBus.Error.UnknownInterface";

/// `org.freedesktop.DBus.Error.UnknownProperty`.
pub const UNKNOWN_PROPERTY: &'static str = "org.freedesktop.DBus.Error.UnknownProperty";

/// `org.freedesktop.DBus.Error.PropertyReadOnly`.
pub const PROPERTY_READ_ONLY: &'static str = "org.freedesktop.DBus.Error.PropertyReadOnly";

/// `org.freedesktop.DBus.Error.TimedOut`.
pub const TIMED_OUT: &'static str = "org.freedesktop.DBus.Error.TimedOut";

/// `org.freedesktop.DBus.Error.MatchRuleNotFound`.
pub const MATCH_RULE_NOT_FOUND: &'static str = "org.freedesktop.DBus.Error.MatchRuleNotFound";

/// `org.freedesktop.DBus.Error.MatchRuleInvalid`.
pub const MATCH_RULE_INVALID: &'static str = "org.freedesktop.DBus.Error.MatchRuleInvalid";

/// `org.freedesktop.DBus.Error.Spawn.ServiceNotFound`.
pub const SPAWN_SERVICE_NOT_FOUND: &'static str = "org.freedesktop.DBus.Error.Spawn.ServiceNotFound";

/// `org.freedesktop.DBus.Error.Spawn.ExecFailed`.
pub const SPAWN_EXEC_FAILED: &'static str = "org.freedesktop.DBus.Error.Spawn.ExecFailed";

/// `org.freedesktop.DBus.Error.Spawn.PermissionsInvalid`.
pub const SPAWN_PERMISSIONS_INVALID: &'static str = "org.freedesktop.DBus.Error.Spawn.PermissionsInvalid";

/// `org.freedesktop.DBus.Error.Spawn.ServiceLinkNotFound`.
pub const SPAWN_SERVICE_LINK_NOT_FOUND: &'static str = "org.freedesktop.DBus.Error.Spawn.ServiceLinkNotFound";

/// `org.freedesktop.DBus.Error.Spawn.ConfigInvalid`.
pub const SPAWN_CONFIG_INVALID: &'static str = "org.freedesktop.DBus.Error.Spawn.ConfigInvalid";

/// `org.freedesktop.DBus.Error.Spawn.NoMemory`.
pub const SPAWN_NO_MEMORY: &'static str = "org.freedesktop.DBus.Error.Spawn.NoMemory";

/// `org.freedesktop.DBus.Error.ObjectPathInUse`.
pub const OBJECT_PATH_IN_USE: &'static str = "org.freedesktop.DBus.Error.ObjectPathInUse";

/// `org.freedesktop.DBus.Error.InteractiveAuthorizationRequired`.
pub const INTERACTIVE_AUTHORIZATION_REQUIRED: &'static str = "org.freedesktop.DBus.Error.InteractiveAuthorizationRequired";

} // verus!
