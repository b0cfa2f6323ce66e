//! Well-known bus names, interfaces, object paths and signal names.

use vstd::prelude::*;

verus! {

/// `org.freedesktop.DBus`.
pub const BUS_NAME: &'static str = "org.freedesktop.DBus";

/// `/org/freedesktop/DBus`.
pub const BUS_PATH: &'static str = "/org/freedesktop/DBus";

/// `org.freedesktop.DBus`.
pub const BUS_INTERFACE: &'static str = "org.freedesktop.DBus";

/// `org.freedesktop.DBus.Monitoring`.
pub const MONITORING_INTERFACE: &'static str = "org.freedesktop.DBus.Monitoring";

/// `org.freedesktop.DBus.Debug.Stats`.
pub const STATS_INTERFACE: &'static str = "org.freedesktop.DBus.Debug.Stats";

/// `org.freedesktop.DBus.Introspectable`.
pub const INTROSPECTABLE_INTERFACE: &'static str = "org.freedesktop.DBus.Introspectable";

/// `org.freedesktop.DBus.Properties`.
pub const PROPERTIES_INTERFACE: &'static str = "org.freedesktop.DBus.Properties";

/// `org.freedesktop.DBus.ObjectManager`.
pub const OBJECT_MANAGER_INTERFACE: &'static str = "org.freedesktop.DBus.ObjectManager";

/// `org.freedesktop.DBus.Peer`.
pub const PEER_INTERFACE: &'static str = "org.freedesktop.DBus.Peer";

/// `NameAcquired`.
pub const NAME_ACQUIRED: &'static str = "NameAcquired";

/// `NameLost`.
pub const NAME_LOST: &'static str = "NameLost";

/// `NameOwnerChanged`.
pub const NAME_OWNER_CHANGED: &'static str = "NameOwnerChanged";

} // verus!
