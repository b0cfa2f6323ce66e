//! The life of one connection on the bus, as far as the bus decides it:
//! whether it is let in, the security label it is known by, its
//! registration, and what its leaving announces. The handshake, reading
//! and writing are the daemon's part.

use crate::credentials::PeerCredentials;
use crate::daemon::driver::{BusState, ConnectionEntry, rules_view};
use crate::daemon::registry::{changes_view, is_uid, keys_where, NameOwnerChange, RegistrySpec};
use crate::text::str_from_utf8;
use vstd::prelude::*;
use vstd::utf8::{decode_utf8, valid_utf8};

verus! {

/// Whether a new connection from user `uid` is let in: the user has fewer
/// than `max_per_user` connections on the bus.
pub fn connection_allowed(bus: &BusState, uid: u32, max_per_user: u32) -> (b: bool)
    requires
        bus.wf(),
    ensures
        b == (keys_where(bus.registry@.connections, is_uid(uid)).len() < max_per_user),
{
    bus.registry.connection_count_for_uid(uid) < max_per_user as usize
}

/// The text that some bytes hold, where they are UTF-8.
pub open spec fn utf8_text(b: Option<Seq<u8>>) -> Option<Seq<char>> {
    match b {
        Some(v) => if valid_utf8(v) {
            Some(decode_utf8(v))
        } else {
            None
        },
        None => None,
    }
}

fn text_of_bytes(b: &Option<Vec<u8>>) -> (r: Option<String>)
    ensures
        match r {
            Some(s) => utf8_text(match b {
                Some(v) => Some(v@),
                None => None,
            }) == Some(s@),
            None => utf8_text(match b {
                Some(v) => Some(v@),
                None => None,
            }) is None,
        },
{
    match b {
        Some(v) => match str_from_utf8(v.as_slice()) {
            Some(s) => Some(s.to_owned()),
            None => None,
        },
        None => None,
    }
}

/// The security label a connection is known by: the one of its socket
/// peer (`peer`), else the one of its process (`by_pid`), whichever is
/// given as UTF-8 first.
pub fn security_label_of(peer: Option<Vec<u8>>, by_pid: Option<Vec<u8>>) -> (r: Option<String>)
    ensures
        match r {
            Some(s) => Some(s@) == match utf8_text(match peer {
                Some(v) => Some(v@),
                None => None,
            }) {
                Some(t) => Some(t),
                None => utf8_text(match by_pid {
                    Some(v) => Some(v@),
                    None => None,
                }),
            },
            None => utf8_text(match peer {
                Some(v) => Some(v@),
                None => None,
            }) is None && utf8_text(match by_pid {
                Some(v) => Some(v@),
                None => None,
            }) is None,
        },
{
    match text_of_bytes(&peer) {
        Some(s) => Some(s),
        None => text_of_bytes(&by_pid),
    }
}

/// Register a connection that finished its handshake: it gets the next
/// unique name and joins the bus under it, with no rules, no Hello yet.
pub fn register_connection(bus: &mut BusState, credentials: PeerCredentials, security_label: Option<String>) -> (e:
    ConnectionEntry)
    requires
        old(bus).wf(),
    ensures
        final(bus).wf(),
        e.unique_name@ == seq![':', '1', '.'] + crate::text::decimal(old(bus).registry@.next_id as nat),
        final(bus).registry@.connections == old(bus).registry@.connections.insert(e.unique_name@, credentials.uid),
        final(bus).registry@.names == old(bus).registry@.names,
        final(bus).registry@.next_id == crate::daemon::stats::wrap_add(old(bus).registry@.next_id, 1),
        final(bus).registry@.incomplete == old(bus).registry@.incomplete,
        e.credentials == credentials,
        e.security_label == security_label,
        e.match_rules@.len() == 0,
        !e.is_monitor,
        !e.is_registered,
        final(bus).kind == old(bus).kind,
        final(bus).policy == old(bus).policy,
        final(bus).activation == old(bus).activation,
        final(bus).activation_environment == old(bus).activation_environment,
        final(bus).guid == old(bus).guid,
{
    let unique_name = bus.registry.allocate_unique_name();
    bus.registry.add_connection(unique_name.as_str(), credentials.uid);
    ConnectionEntry::new(unique_name, credentials, security_label)
}

/// A connection leaves the bus: it gives up every name it owns or waits
/// for. Gives the ownership changes to announce, the connection's own
/// name going last.
pub fn unregister_connection(bus: &mut BusState, unique_name: &str) -> (r: Vec<NameOwnerChange>)
    requires
        old(bus).wf(),
    ensures
        final(bus).wf(),
        final(bus).registry@.connections == old(bus).registry@.connections.remove(unique_name@),
        final(bus).registry@.names == crate::daemon::registry::released_all(old(bus).registry@.names, unique_name@),
        forall|n: Seq<char>|
            #[trigger] final(bus).registry@.names.dom().contains(n) ==> !crate::daemon::registry::queue_has(
                final(bus).registry@.names[n],
                unique_name@,
            ),
        r@.len() >= 1,
        crate::daemon::registry::owner_changes_ok(
            old(bus).registry@.names,
            unique_name@,
            changes_view(r@).drop_last(),
        ),
        changes_view(r@).last() == (crate::daemon::registry::ChangeSpec {
            name: unique_name@,
            old_owner: Some(unique_name@),
            new_owner: None,
        }),
        final(bus).kind == old(bus).kind,
        final(bus).policy == old(bus).policy,
        final(bus).activation == old(bus).activation,
        final(bus).activation_environment == old(bus).activation_environment,
        final(bus).guid == old(bus).guid,
{
    bus.registry.remove_connection(unique_name)
}

} // verus!
