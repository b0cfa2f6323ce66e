//! The methods of the bus itself (`org.freedesktop.DBus`): what each call
//! does to the bus and to the calling connection, and what it answers.
//!
//! A call that needs the outside world in the middle (the caller's groups
//! for the ownership policy, AppArmor, starting a service, another
//! connection's credentials) stops at a [`DriverStep`] that says what is
//! wanted; the function named there finishes it with the answer.

use crate::credentials::PeerCredentials;
use crate::daemon::activation::{activation_message, ActivationError, ActivationRegistry};
use crate::daemon::bus::BusKind;
use crate::daemon::match_rules::{parse_match_rule, MatchRule};
use crate::daemon::policy::{applicable, own_allowed_by, own_denied_by, verdict, Policy};
use crate::daemon::registry::{
    after_release, changes_view, holds, keys_where, owner_of, queue_has, queue_of, release_changes,
    request_changes, request_result, ChangeSpec, NameOwnerChange, Registry, RegistrySpec,
    RELEASE_REPLY_NON_EXISTENT, RELEASE_REPLY_NOT_OWNER, RELEASE_REPLY_RELEASED,
};
use crate::daemon::registry::{keys_unique, lemma_seq_map_dom, lemma_seq_map_index, lemma_seq_map_push, lemma_seq_map_update, seq_map};
use crate::errors;
use crate::names::{is_valid_bus_name, valid_bus_name};
use crate::text::{concat_str, decimal, u64_to_string};
use crate::types::{unwrap_variants, values_view, ArrayValue, Type, TypeSpec, Value, ValueSpec};
use vstd::prelude::*;

verus! {

broadcast use crate::types::lemma_values_view;

/// A connection as the bus keeps it: its unique name, the credentials of
/// its peer, its security label, its match rules, and whether it is a
/// monitor and has said Hello.
#[derive(Debug)]
pub struct ConnectionEntry {
    pub unique_name: String,
    pub credentials: PeerCredentials,
    pub security_label: Option<String>,
    pub match_rules: Vec<MatchRule>,
    pub is_monitor: bool,
    pub is_registered: bool,
}

impl ConnectionEntry {
    /// A connection that has just authenticated: no match rules, no monitor,
    /// no Hello yet.
    pub fn new(unique_name: String, credentials: PeerCredentials, security_label: Option<String>) -> (e:
        ConnectionEntry)
        ensures
            e.unique_name@ == unique_name@,
            e.credentials == credentials,
            e.security_label == security_label,
            e.match_rules@.len() == 0,
            !e.is_monitor,
            !e.is_registered,
    {
        ConnectionEntry {
            unique_name,
            credentials,
            security_label,
            match_rules: Vec::new(),
            is_monitor: false,
            is_registered: false,
        }
    }
}

/// The state of the bus that the driver reads and changes: the kind of
/// bus, its names, its policy, the services it can start, the environment
/// they are started with, its id, and two limits per connection.
pub struct BusState {
    pub kind: BusKind,
    pub registry: Registry,
    pub policy: Policy,
    pub activation: ActivationRegistry,
    pub activation_environment: Vec<(String, String)>,
    pub guid: String,
    pub max_names_per_connection: u32,
    pub max_match_rules_per_connection: u32,
}

/// The pairs of an environment, by their texts.
pub open spec fn env_pairs(env: Seq<(String, String)>) -> Seq<(Seq<char>, Seq<char>)> {
    Seq::new(env.len(), |i: int| (env[i].0@, env[i].1@))
}

impl BusState {
    /// The registry and the service table are well formed, and no variable
    /// of the environment is there twice.
    pub open spec fn wf(&self) -> bool {
        &&& self.registry.wf()
        &&& self.activation.wf()
        &&& keys_unique(env_pairs(self.activation_environment@))
    }

    /// The environment services are started with.
    pub open spec fn env(&self) -> Map<Seq<char>, Seq<char>> {
        seq_map(env_pairs(self.activation_environment@))
    }
}

/// An error the driver answers with: its D-Bus name and its text.
#[derive(Debug)]
pub struct DriverError {
    pub name: String,
    pub message: String,
}

/// The model of a driver error.
pub struct DriverErrorSpec {
    pub name: Seq<char>,
    pub message: Seq<char>,
}

impl View for DriverError {
    type V = DriverErrorSpec;

    open spec fn view(&self) -> DriverErrorSpec {
        DriverErrorSpec { name: self.name@, message: self.message@ }
    }
}

/// What a driver call answers, and the ownership changes it made.
#[derive(Debug)]
pub struct DriverOutcome {
    pub result: Result<Vec<Value>, DriverError>,
    pub name_owner_changes: Vec<NameOwnerChange>,
}

/// The model of an outcome.
pub struct OutcomeSpec {
    pub result: Result<Seq<ValueSpec>, DriverErrorSpec>,
    pub changes: Seq<ChangeSpec>,
}

impl View for DriverOutcome {
    type V = OutcomeSpec;

    open spec fn view(&self) -> OutcomeSpec {
        OutcomeSpec {
            result: match self.result {
                Ok(v) => Ok(values_view(v@)),
                Err(e) => Err(e@),
            },
            changes: changes_view(self.name_owner_changes@),
        }
    }
}

/// A successful answer.
pub open spec fn ok_spec(values: Seq<ValueSpec>, changes: Seq<ChangeSpec>) -> OutcomeSpec {
    OutcomeSpec { result: Ok(values), changes }
}

/// An error answer, with no ownership change.
pub open spec fn err_spec(name: Seq<char>, message: Seq<char>) -> OutcomeSpec {
    OutcomeSpec { result: Err(DriverErrorSpec { name, message }), changes: Seq::empty() }
}

fn ok(values: Vec<Value>, changes: Vec<NameOwnerChange>) -> (o: DriverOutcome)
    ensures
        o@ == ok_spec(values_view(values@), changes_view(changes@)),
{
    DriverOutcome { result: Ok(values), name_owner_changes: changes }
}

fn err(name: &str, message: String) -> (o: DriverOutcome)
    ensures
        o@ == err_spec(name@, message@),
{
    let o = DriverOutcome {
        result: Err(DriverError { name: name.to_owned(), message }),
        name_owner_changes: Vec::new(),
    };
    assert(changes_view(o.name_owner_changes@) =~= Seq::<ChangeSpec>::empty());
    o
}

fn err_from(e: DriverError) -> (o: DriverOutcome)
    ensures
        o@ == err_spec(e.name@, e.message@),
{
    let o = DriverOutcome { result: Err(e), name_owner_changes: Vec::new() };
    assert(changes_view(o.name_owner_changes@) =~= Seq::<ChangeSpec>::empty());
    o
}

/// The text of argument `idx` (under any variants), where it is a string,
/// object path or signature.
pub open spec fn arg_text(args: Seq<ValueSpec>, idx: int) -> Option<Seq<char>> {
    if 0 <= idx < args.len() {
        match unwrap_variants(args[idx]) {
            ValueSpec::String(s) => Some(s),
            ValueSpec::ObjectPath(s) => Some(s),
            ValueSpec::Signature(s) => Some(s),
            _ => None,
        }
    } else {
        None
    }
}

/// The number argument `idx` holds (under any variants), where it is a
/// `UInt32`.
pub open spec fn arg_number(args: Seq<ValueSpec>, idx: int) -> Option<u32> {
    if 0 <= idx < args.len() {
        match unwrap_variants(args[idx]) {
            ValueSpec::UInt32(v) => Some(v),
            _ => None,
        }
    } else {
        None
    }
}

/// The text of an argument that is not a string.
pub open spec fn not_string_text(idx: nat) -> Seq<char> {
    "expected string argument "@ + decimal(idx)
}

/// The text of an argument that is not a `UInt32`.
pub open spec fn not_number_text(idx: nat) -> Seq<char> {
    "expected uint32 argument "@ + decimal(idx)
}

/// Argument `idx` as a string.
fn arg_str(args: &[Value], idx: usize) -> (r: Result<String, DriverError>)
    ensures
        match arg_text(values_view(args@), idx as int) {
            Some(s) => r matches Ok(t) && t@ == s,
            None => r matches Err(e) && e.name@ == errors::INVALID_ARGS@ && e.message@ == not_string_text(
                idx as nat,
            ),
        },
{
    if idx < args.len() {
        match args[idx].unwrap_variant().as_str() {
            Some(s) => {
                return Ok(s.to_owned());
            },
            None => {},
        }
    }
    Err(
        DriverError {
            name: errors::INVALID_ARGS.to_owned(),
            message: concat_str("expected string argument ", u64_to_string(idx as u64).as_str()),
        },
    )
}

/// Argument `idx` as a `UInt32`.
fn arg_u32(args: &[Value], idx: usize) -> (r: Result<u32, DriverError>)
    ensures
        match arg_number(values_view(args@), idx as int) {
            Some(v) => r == Ok::<u32, DriverError>(v),
            None => r matches Err(e) && e.name@ == errors::INVALID_ARGS@ && e.message@ == not_number_text(
                idx as nat,
            ),
        },
{
    if idx < args.len() {
        match args[idx].unwrap_variant() {
            Value::UInt32(v) => {
                return Ok(*v);
            },
            _ => {},
        }
    }
    Err(
        DriverError {
            name: errors::INVALID_ARGS.to_owned(),
            message: concat_str("expected uint32 argument ", u64_to_string(idx as u64).as_str()),
        },
    )
}

/// Whether `name` may be asked for: a valid bus name, and a unique one
/// only where `allow_unique`.
pub open spec fn bus_name_ok(name: Seq<char>, allow_unique: bool) -> bool {
    if name.len() > 0 && name[0] == ':' {
        allow_unique && valid_bus_name(name)
    } else {
        valid_bus_name(name)
    }
}

/// The text of an invalid bus name.
pub open spec fn invalid_name_text(name: Seq<char>) -> Seq<char> {
    "invalid bus name '"@ + name + "'"@
}

/// Check a bus name a caller gives.
fn validate_bus_name(name: &str, allow_unique: bool) -> (r: Result<(), DriverError>)
    ensures
        bus_name_ok(name@, allow_unique) ==> r is Ok,
        !bus_name_ok(name@, allow_unique) ==> (r matches Err(e) && e.name@ == errors::INVALID_ARGS@
            && e.message@ == invalid_name_text(name@)),
{
    let cs = crate::text::chars_of(name);
    let valid = if cs.len() > 0 && cs[0] == ':' {
        allow_unique && is_valid_bus_name(name)
    } else {
        is_valid_bus_name(name)
    };
    if valid {
        Ok(())
    } else {
        let a = concat_str("invalid bus name '", name);
        Err(DriverError { name: errors::INVALID_ARGS.to_owned(), message: concat_str(a.as_str(), "'") })
    }
}

/// An array of strings.
pub open spec fn string_array_spec(items: Seq<Seq<char>>) -> ValueSpec {
    ValueSpec::Array(TypeSpec::String, Seq::new(items.len(), |i: int| ValueSpec::String(items[i])))
}

/// The texts of some strings.
pub open spec fn texts(v: Seq<String>) -> Seq<Seq<char>> {
    Seq::new(v.len(), |i: int| v[i]@)
}

/// The strings `items` as an array value.
pub fn string_array(items: Vec<String>) -> (v: Value)
    ensures
        v@ == string_array_spec(texts(items@)),
{
    let mut out: Vec<Value> = Vec::new();
    let mut i: usize = 0;
    while i < items.len()
        invariant
            i <= items@.len(),
            out@.len() == i,
            forall|k: int| 0 <= k < i ==> (#[trigger] out@[k])@ == ValueSpec::String(items@[k]@),
        decreases items.len() - i,
    {
        out.push(Value::String(items[i].clone()));
        i = i + 1;
    }
    let v = Value::Array(ArrayValue::new(Type::String, out));
    assert(values_view(out@) =~= Seq::new(items@.len(), |i: int| ValueSpec::String(texts(items@)[i])));
    v
}

/// The models of match rules.
pub open spec fn rules_view(v: Seq<MatchRule>) -> Seq<crate::daemon::match_rules::RuleSpec> {
    Seq::new(v.len(), |i: int| v[i]@)
}

/// A connection after a call that changed nothing of it but what the
/// caller says: the same name, credentials, label and monitor flag.
pub open spec fn same_peer(a: ConnectionEntry, b: ConnectionEntry) -> bool {
    &&& a.unique_name@ == b.unique_name@
    &&& a.credentials == b.credentials
    &&& a.security_label == b.security_label
    &&& a.is_monitor == b.is_monitor
}

/// The bus after a call that changed at most its names.
pub open spec fn same_but_names(a: BusState, b: BusState) -> bool {
    &&& a.kind == b.kind
    &&& a.policy == b.policy
    &&& a.activation == b.activation
    &&& a.activation_environment == b.activation_environment
    &&& a.guid == b.guid
    &&& a.max_names_per_connection == b.max_names_per_connection
    &&& a.max_match_rules_per_connection == b.max_match_rules_per_connection
}

/// What `Hello` answers: the caller's unique name, which it now owns;
/// a second Hello fails.
pub open spec fn hello_spec(registered: bool, unique: Seq<char>) -> OutcomeSpec {
    if registered {
        err_spec(errors::FAILED@, "Already handled an Hello message"@)
    } else {
        ok_spec(
            seq![ValueSpec::String(unique)],
            seq![ChangeSpec { name: unique, old_owner: None, new_owner: Some(unique) }],
        )
    }
}

/// `Hello`: the caller is registered from now on.
fn handle_hello(caller: &mut ConnectionEntry) -> (o: DriverOutcome)
    ensures
        o@ == hello_spec(old(caller).is_registered, old(caller).unique_name@),
        final(caller).is_registered,
        same_peer(*final(caller), *old(caller)),
        final(caller).match_rules == old(caller).match_rules,
{
    if caller.is_registered {
        return err(errors::FAILED, "Already handled an Hello message".to_owned());
    }
    caller.is_registered = true;
    let change = NameOwnerChange {
        name: caller.unique_name.clone(),
        old_owner: None,
        new_owner: Some(caller.unique_name.clone()),
    };
    let mut changes: Vec<NameOwnerChange> = Vec::new();
    changes.push(change);
    let mut values: Vec<Value> = Vec::new();
    values.push(Value::String(caller.unique_name.clone()));
    let o = ok(values, changes);
    assert(values_view(values@) =~= seq![ValueSpec::String(old(caller).unique_name@)]);
    assert(changes_view(changes@) =~= seq![
        ChangeSpec {
            name: old(caller).unique_name@,
            old_owner: None,
            new_owner: Some(old(caller).unique_name@),
        },
    ]);
    o
}

/// The text of a name nobody owns, for `GetNameOwner`.
pub open spec fn no_owner_text(name: Seq<char>) -> Seq<char> {
    "Could not get owner of name '"@ + name + "': no such name"@
}

/// What `GetNameOwner` answers.
pub open spec fn get_name_owner_spec(r: RegistrySpec, args: Seq<ValueSpec>) -> OutcomeSpec {
    match arg_text(args, 0) {
        None => err_spec(errors::INVALID_ARGS@, not_string_text(0)),
        Some(name) => match owner_of(r, name) {
            Some(o) => ok_spec(seq![ValueSpec::String(o)], Seq::empty()),
            None => err_spec(errors::NAME_HAS_NO_OWNER@, no_owner_text(name)),
        },
    }
}

fn one_value(v: Value) -> (vs: Vec<Value>)
    ensures
        values_view(vs@) == seq![v@],
{
    let mut vs: Vec<Value> = Vec::new();
    vs.push(v);
    assert(values_view(vs@) =~= seq![v@]);
    vs
}

fn no_changes() -> (c: Vec<NameOwnerChange>)
    ensures
        changes_view(c@) == Seq::<ChangeSpec>::empty(),
{
    let c: Vec<NameOwnerChange> = Vec::new();
    assert(changes_view(c@) =~= Seq::<ChangeSpec>::empty());
    c
}

/// `GetNameOwner`.
fn handle_get_name_owner(bus: &BusState, args: &[Value]) -> (o: DriverOutcome)
    requires
        bus.wf(),
    ensures
        o@ == get_name_owner_spec(bus.registry@, values_view(args@)),
{
    let name = match arg_str(args, 0) {
        Ok(n) => n,
        Err(e) => {
            return err_from(e);
        },
    };
    match bus.registry.get_name_owner(name.as_str()) {
        Some(owner) => ok(one_value(Value::String(owner)), no_changes()),
        None => {
            let a = concat_str("Could not get owner of name '", name.as_str());
            err(errors::NAME_HAS_NO_OWNER, concat_str(a.as_str(), "': no such name"))
        },
    }
}

/// What `ReleaseName` does to the names and answers, where its argument
/// is the name `name`.
pub open spec fn released(
    old: RegistrySpec,
    new: RegistrySpec,
    who: Seq<char>,
    name: Seq<char>,
    o: OutcomeSpec,
) -> bool {
    &&& new.connections == old.connections
    &&& new.next_id == old.next_id
    &&& new.incomplete == old.incomplete
    &&& if !old.names.dom().contains(name) {
        o == ok_spec(seq![ValueSpec::UInt32(RELEASE_REPLY_NON_EXISTENT)], Seq::empty())
            && new.names == old.names
    } else if !queue_has(old.names[name], who) {
        o == ok_spec(seq![ValueSpec::UInt32(RELEASE_REPLY_NOT_OWNER)], Seq::empty()) && new.names
            == old.names
    } else {
        o == ok_spec(
            seq![ValueSpec::UInt32(RELEASE_REPLY_RELEASED)],
            release_changes(old.names[name], name, who),
        ) && new.names == after_release(old.names, name, who)
    }
}

/// `ReleaseName`.
fn handle_release_name(bus: &mut BusState, caller: &ConnectionEntry, args: &[Value]) -> (o: DriverOutcome)
    requires
        old(bus).wf(),
    ensures
        final(bus).wf(),
        same_but_names(*final(bus), *old(bus)),
        match arg_text(values_view(args@), 0) {
            None => o@ == err_spec(errors::INVALID_ARGS@, not_string_text(0)) && final(bus).registry@
                == old(bus).registry@,
            Some(name) => released(old(bus).registry@, final(bus).registry@, caller.unique_name@, name, o@),
        },
{
    let name = match arg_str(args, 0) {
        Ok(n) => n,
        Err(e) => {
            return err_from(e);
        },
    };
    let (code, changes) = bus.registry.release_name(caller.unique_name.as_str(), name.as_str());
    if changes.len() == 0 {
        assert(changes_view(changes@) =~= Seq::<ChangeSpec>::empty());
    }
    ok(one_value(Value::UInt32(code)), changes)
}

/// Which credential of another connection a call asks for.
#[derive(Debug, Clone, Copy, PartialEq, Eq, Structural)]
pub enum PeerQuery {
    /// `GetConnectionUnixUser`.
    UnixUser,
    /// `GetConnectionUnixProcessID`.
    ProcessId,
    /// `GetConnectionCredentials`.
    Credentials,
}

/// Where a driver call stands: answered, or waiting for what only the
/// daemon around the driver can find out.
#[derive(Debug)]
pub enum DriverStep {
    /// The call is answered.
    Done(DriverOutcome),
    /// `RequestName` of the valid name `name` with flags `flags`: the
    /// caller's identity is wanted for the ownership policy
    /// ([`request_name_policy`]), then AppArmor's word on binding the name
    /// ([`finish_request_name`]).
    RequestName { name: String, flags: u32 },
    /// `StartServiceByName` of a name that nobody owns and a service
    /// provides: start it and wait for it ([`start_service_outcome`]).
    StartService(String),
    /// A question about the connection `owner` that owns the name `name`:
    /// look it up ([`peer_outcome`]).
    Peer { name: String, owner: String, query: PeerQuery },
}

/// The step is the answer `o`.
pub open spec fn done(s: DriverStep, o: OutcomeSpec) -> bool {
    s matches DriverStep::Done(d) && d@ == o
}

/// The ownership policy lets `id` own `name`.
pub open spec fn may_own(p: Seq<crate::daemon::policy::PolicyRuleSpec>, id: crate::daemon::policy::IdentitySpec, name: Seq<char>) -> bool {
    p.len() == 0 || verdict(applicable(p, id), own_allowed_by(name), own_denied_by(name))
}

/// A text with a quoted name inside.
pub open spec fn quoted(pre: Seq<char>, name: Seq<char>) -> Seq<char> {
    pre + "\""@ + name + "\""@
}

fn quoted_text(pre: &str, name: &str) -> (s: String)
    ensures
        s@ == quoted(pre@, name@),
{
    let a = concat_str(pre, "\"");
    let b = concat_str(a.as_str(), name);
    concat_str(b.as_str(), "\"")
}

/// How `RequestName` begins: its arguments are checked.
pub open spec fn request_name_begun(args: Seq<ValueSpec>, s: DriverStep) -> bool {
        match arg_text(args, 0) {
            None => done(s, err_spec(errors::INVALID_ARGS@, not_string_text(0))),
            Some(n) => if !bus_name_ok(n, false) {
                done(s, err_spec(errors::INVALID_ARGS@, invalid_name_text(n)))
            } else {
                match arg_number(args, 1) {
                    None => done(s, err_spec(errors::INVALID_ARGS@, not_number_text(1))),
                    Some(f) => s matches DriverStep::RequestName { name, flags } && name@ == n && flags == f,
                }
            },
        }
}

/// The first step of `RequestName`: its arguments.
fn begin_request_name(args: &[Value]) -> (s: DriverStep)
    ensures
        request_name_begun(values_view(args@), s),
{
    let name = match arg_str(args, 0) {
        Ok(n) => n,
        Err(e) => {
            return DriverStep::Done(err_from(e));
        },
    };
    match validate_bus_name(name.as_str(), false) {
        Ok(()) => {},
        Err(e) => {
            return DriverStep::Done(err_from(e));
        },
    }
    let flags = match arg_u32(args, 1) {
        Ok(f) => f,
        Err(e) => {
            return DriverStep::Done(err_from(e));
        },
    };
    DriverStep::RequestName { name, flags }
}

/// The second step of `RequestName`: whether the policy lets the caller,
/// who is `identity`, own `name`. `None` where it does; else the answer,
/// and the daemon counts a denial.
pub fn request_name_policy(bus: &BusState, identity: &crate::daemon::identity::Identity, name: &str) -> (r:
    Option<DriverOutcome>)
    requires
        bus.wf(),
    ensures
        may_own(bus.policy@, identity@, name@) ==> r is None,
        !may_own(bus.policy@, identity@, name@) ==> (r matches Some(o) && o@ == err_spec(
            errors::ACCESS_DENIED@,
            quoted("Connection is not allowed to own the name "@, name@),
        )),
{
    let p = identity.as_policy();
    if bus.policy.can_own(&p, name) {
        None
    } else {
        Some(err(errors::ACCESS_DENIED, quoted_text("Connection is not allowed to own the name ", name)))
    }
}

/// The number of names `who` owns or waits for.
pub open spec fn names_held(r: RegistrySpec, who: Seq<char>) -> nat {
    keys_where(r.names, holds(who)).len()
}

/// What `RequestName` of `name` with `flags` by `who` does to the names
/// and answers, once it is let through.
pub open spec fn requested(
    old: RegistrySpec,
    new: RegistrySpec,
    who: Seq<char>,
    name: Seq<char>,
    flags: u32,
    o: OutcomeSpec,
) -> bool {
    let q = queue_of(old.names, name);
    &&& o == ok_spec(seq![ValueSpec::UInt32(request_result(q, who, flags).0)], request_changes(q, name, who, flags))
    &&& new.names == old.names.insert(name, request_result(q, who, flags).1)
    &&& new.connections == old.connections
    &&& new.next_id == old.next_id
    &&& new.incomplete == old.incomplete
}

/// The text of too many names.
pub open spec fn too_many_names_text(max: u32) -> Seq<char> {
    "Connection has reached the maximum of "@ + decimal(max as nat) + " owned/queued names"@
}

/// The last step of `RequestName` of `name` with `flags`, once the policy
/// let it through: AppArmor's word on binding the name (`bind_allowed`;
/// where it refuses, the daemon counts a denial), then the limit on names
/// per connection, then the request itself.
pub fn finish_request_name(
    bus: &mut BusState,
    caller: &ConnectionEntry,
    name: &str,
    flags: u32,
    bind_allowed: bool,
) -> (o: DriverOutcome)
    requires
        old(bus).wf(),
    ensures
        final(bus).wf(),
        same_but_names(*final(bus), *old(bus)),
        !bind_allowed ==> o@ == err_spec(
            errors::ACCESS_DENIED@,
            quoted("AppArmor mediation denied owning the name "@, name@),
        ) && final(bus).registry@ == old(bus).registry@,
        bind_allowed && names_held(old(bus).registry@, caller.unique_name@)
            >= old(bus).max_names_per_connection ==> o@ == err_spec(
            errors::LIMITS_EXCEEDED@,
            too_many_names_text(old(bus).max_names_per_connection),
        ) && final(bus).registry@ == old(bus).registry@,
        bind_allowed && names_held(old(bus).registry@, caller.unique_name@)
            < old(bus).max_names_per_connection ==> requested(
            old(bus).registry@,
            final(bus).registry@,
            caller.unique_name@,
            name@,
            flags,
            o@,
        ),
{
    if !bind_allowed {
        return err(errors::ACCESS_DENIED, quoted_text("AppArmor mediation denied owning the name ", name));
    }
    let held = bus.registry.names_held_by(caller.unique_name.as_str());
    if held >= bus.max_names_per_connection as usize {
        let a = concat_str(
            "Connection has reached the maximum of ",
            u64_to_string(bus.max_names_per_connection as u64).as_str(),
        );
        return err(errors::LIMITS_EXCEEDED, concat_str(a.as_str(), " owned/queued names"));
    }
    let (code, changes) = bus.registry.request_name(caller.unique_name.as_str(), name, flags);
    ok(one_value(Value::UInt32(code)), changes)
}

/// `StartServiceByName` replies.
pub const START_REPLY_SUCCESS: u32 = 1;
pub const START_REPLY_ALREADY_RUNNING: u32 = 2;

/// The text of a name no service provides.
pub open spec fn not_provided_text(name: Seq<char>) -> Seq<char> {
    "The name "@ + name + " was not provided by any .service files"@
}

/// How `StartServiceByName` begins.
pub open spec fn start_service_begun(r: RegistrySpec, a: Map<Seq<char>, crate::daemon::activation::ServiceDefSpec>, args: Seq<ValueSpec>, s: DriverStep) -> bool {
        match arg_text(args, 0) {
            None => done(s, err_spec(errors::INVALID_ARGS@, not_string_text(0))),
            Some(n) => if owner_of(r, n) is Some {
                done(s, ok_spec(seq![ValueSpec::UInt32(START_REPLY_ALREADY_RUNNING)], Seq::empty()))
            } else if !a.dom().contains(n) {
                done(s, err_spec(errors::SERVICE_UNKNOWN@, not_provided_text(n)))
            } else {
                s matches DriverStep::StartService(m) && m@ == n
            },
        }
}

/// The first step of `StartServiceByName`.
fn begin_start_service(bus: &BusState, args: &[Value]) -> (s: DriverStep)
    requires
        bus.wf(),
    ensures
        start_service_begun(bus.registry@, bus.activation@, values_view(args@), s),
{
    let name = match arg_str(args, 0) {
        Ok(n) => n,
        Err(e) => {
            return DriverStep::Done(err_from(e));
        },
    };
    if bus.registry.name_has_owner(name.as_str()) {
        return DriverStep::Done(ok(one_value(Value::UInt32(START_REPLY_ALREADY_RUNNING)), no_changes()));
    }
    if !bus.activation.is_activatable(name.as_str()) {
        let a = concat_str("The name ", name.as_str());
        return DriverStep::Done(
            err(errors::SERVICE_UNKNOWN, concat_str(a.as_str(), " was not provided by any .service files")),
        );
    }
    DriverStep::StartService(name)
}

/// The last step of `StartServiceByName`: the answer once the service was
/// started and showed up, or could not be.
pub fn start_service_outcome(r: &Result<(), ActivationError>) -> (o: DriverOutcome)
    ensures
        r is Ok ==> o@ == ok_spec(seq![ValueSpec::UInt32(START_REPLY_SUCCESS)], Seq::empty()),
        r matches Err(e) ==> o@ == err_spec(errors::SPAWN_EXEC_FAILED@, activation_message(*e)),
{
    match r {
        Ok(()) => ok(one_value(Value::UInt32(START_REPLY_SUCCESS)), no_changes()),
        Err(e) => err(errors::SPAWN_EXEC_FAILED, e.message()),
    }
}

/// The text of a name nobody owns, for the credential calls.
pub open spec fn no_uid_text(name: Seq<char>) -> Seq<char> {
    "Could not get UID of name '"@ + name + "': no such name"@
}

/// How a credential call begins.
pub open spec fn peer_begun(r: RegistrySpec, args: Seq<ValueSpec>, query: PeerQuery, s: DriverStep) -> bool {
        match arg_text(args, 0) {
            None => done(s, err_spec(errors::INVALID_ARGS@, not_string_text(0))),
            Some(n) => match owner_of(r, n) {
                None => done(s, err_spec(errors::NAME_HAS_NO_OWNER@, no_uid_text(n))),
                Some(w) => s matches DriverStep::Peer { name, owner, query: q } && name@ == n && owner@ == w
                    && q == query,
            },
        }
}

/// The first step of a credential call: the owner of the named
/// connection.
fn begin_peer(bus: &BusState, args: &[Value], query: PeerQuery) -> (s: DriverStep)
    requires
        bus.wf(),
    ensures
        peer_begun(bus.registry@, values_view(args@), query, s),
{
    let name = match arg_str(args, 0) {
        Ok(n) => n,
        Err(e) => {
            return DriverStep::Done(err_from(e));
        },
    };
    match bus.registry.get_name_owner(name.as_str()) {
        Some(owner) => DriverStep::Peer { name, owner, query },
        None => {
            let a = concat_str("Could not get UID of name '", name.as_str());
            DriverStep::Done(err(errors::NAME_HAS_NO_OWNER, concat_str(a.as_str(), "': no such name")))
        },
    }
}

/// A process id as the bus reports it: negative ones as 0.
pub open spec fn reported_pid(pid: i32) -> u32 {
    if pid < 0 {
        0
    } else {
        pid as u32
    }
}

fn pid_u32(pid: i32) -> (r: u32)
    ensures
        r == reported_pid(pid),
{
    if pid < 0 {
        0
    } else {
        pid as u32
    }
}

/// A dictionary from names to numbers in variants (`a{sv}`).
pub open spec fn u32_dict_spec(entries: Seq<(Seq<char>, u32)>) -> ValueSpec {
    ValueSpec::Array(
        TypeSpec::DictEntry(Box::new(TypeSpec::String), Box::new(TypeSpec::Variant)),
        Seq::new(
            entries.len(),
            |i: int|
                ValueSpec::DictEntry(
                    Box::new(ValueSpec::String(entries[i].0)),
                    Box::new(ValueSpec::Variant(Box::new(ValueSpec::UInt32(entries[i].1)))),
                ),
        ),
    )
}

/// The pairs `entries` as an `a{sv}` dictionary of numbers.
pub fn dict_of_u32(entries: &[(&str, u32)]) -> (v: Value)
    ensures
        v@ == u32_dict_spec(Seq::new(entries@.len(), |i: int| (entries@[i].0@, entries@[i].1))),
{
    let mut out: Vec<Value> = Vec::new();
    let mut i: usize = 0;
    while i < entries.len()
        invariant
            i <= entries@.len(),
            out@.len() == i,
            forall|k: int|
                0 <= k < i ==> (#[trigger] out@[k])@ == ValueSpec::DictEntry(
                    Box::new(ValueSpec::String(entries@[k].0@)),
                    Box::new(ValueSpec::Variant(Box::new(ValueSpec::UInt32(entries@[k].1)))),
                ),
        decreases entries.len() - i,
    {
        let (k, n) = entries[i];
        let key = Value::String(k.to_owned());
        assert(key@ == ValueSpec::String(k@));
        let num = Value::UInt32(n);
        assert(num@ == ValueSpec::UInt32(n));
        let var = Value::Variant(Box::new(num));
        assert(var@ == ValueSpec::Variant(Box::new(ValueSpec::UInt32(n))));
        let e = Value::DictEntry(Box::new(key), Box::new(var));
        assert(e@ == ValueSpec::DictEntry(
            Box::new(ValueSpec::String(k@)),
            Box::new(ValueSpec::Variant(Box::new(ValueSpec::UInt32(n)))),
        ));
        let ghost before = out@;
        out.push(e);
        assert(out@ == before.push(e));
        i = i + 1;
    }
    let ks = Type::String;
    let vs = Type::Variant;
    assert(ks@ == TypeSpec::String && vs@ == TypeSpec::Variant);
    let t = Type::DictEntry(Box::new(ks), Box::new(vs));
    assert(t@ == TypeSpec::DictEntry(Box::new(TypeSpec::String), Box::new(TypeSpec::Variant)));
    let a = ArrayValue::new(t, out);
    let ghost es = Seq::new(entries@.len(), |i: int| (entries@[i].0@, entries@[i].1));
    assert(values_view(out@) =~= u32_dict_spec(es)->Array_1);
    let v = Value::Array(a);
    assert(v@ == ValueSpec::Array(a.element_type@, values_view(a.elements@)));
    v
}

/// What a credential call answers about the connection `peer` (`None`
/// where it is gone), asked by the name `name`.
pub open spec fn peer_spec(query: PeerQuery, name: Seq<char>, peer: Option<(u32, i32)>) -> OutcomeSpec {
    match peer {
        None => err_spec(errors::NAME_HAS_NO_OWNER@, no_uid_text(name)),
        Some((uid, pid)) => match query {
            PeerQuery::UnixUser => ok_spec(seq![ValueSpec::UInt32(uid)], Seq::empty()),
            PeerQuery::ProcessId => ok_spec(seq![ValueSpec::UInt32(reported_pid(pid))], Seq::empty()),
            PeerQuery::Credentials => ok_spec(
                seq![u32_dict_spec(seq![("UnixUserID"@, uid), ("ProcessID"@, reported_pid(pid))])],
                Seq::empty(),
            ),
        },
    }
}

/// The last step of a credential call: the answer about the connection
/// the daemon found for the owner (`None` where it is gone).
pub fn peer_outcome(query: PeerQuery, name: &str, peer: Option<&ConnectionEntry>) -> (o: DriverOutcome)
    ensures
        o@ == peer_spec(
            query,
            name@,
            match peer {
                Some(c) => Some((c.credentials.uid, c.credentials.pid)),
                None => None,
            },
        ),
{
    let c = match peer {
        Some(c) => c,
        None => {
            let a = concat_str("Could not get UID of name '", name);
            return err(errors::NAME_HAS_NO_OWNER, concat_str(a.as_str(), "': no such name"));
        },
    };
    match query {
        PeerQuery::UnixUser => ok(one_value(Value::UInt32(c.credentials.uid)), no_changes()),
        PeerQuery::ProcessId => ok(one_value(Value::UInt32(pid_u32(c.credentials.pid))), no_changes()),
        PeerQuery::Credentials => {
            let entries = [("UnixUserID", c.credentials.uid), ("ProcessID", pid_u32(c.credentials.pid))];
            let d = dict_of_u32(&entries);
            proof {
                reveal_strlit("UnixUserID");
                reveal_strlit("ProcessID");
                assert(Seq::new(entries@.len(), |i: int| (entries@[i].0@, entries@[i].1)) =~= seq![
                    ("UnixUserID"@, c.credentials.uid),
                    ("ProcessID"@, reported_pid(c.credentials.pid)),
                ]);
            }
            ok(one_value(d), no_changes())
        },
    }
}

/// The text of a string, object path or signature value.
pub open spec fn value_text(v: ValueSpec) -> Option<Seq<char>> {
    match v {
        ValueSpec::String(s) => Some(s),
        ValueSpec::ObjectPath(s) => Some(s),
        ValueSpec::Signature(s) => Some(s),
        _ => None,
    }
}

/// What `NameHasOwner` answers (its argument is read as it is, not under
/// variants).
pub open spec fn name_has_owner_spec(r: RegistrySpec, args: Seq<ValueSpec>) -> OutcomeSpec {
    match if args.len() > 0 {
        value_text(args[0])
    } else {
        None
    } {
        Some(n) => ok_spec(seq![ValueSpec::Boolean(owner_of(r, n) is Some)], Seq::empty()),
        None => err_spec(errors::INVALID_ARGS@, "NameHasOwner needs a name"@),
    }
}

fn handle_name_has_owner(bus: &BusState, args: &[Value]) -> (o: DriverOutcome)
    requires
        bus.wf(),
    ensures
        o@ == name_has_owner_spec(bus.registry@, values_view(args@)),
{
    if args.len() > 0 {
        match args[0].as_str() {
            Some(n) => {
                return ok(one_value(Value::Boolean(bus.registry.name_has_owner(n))), no_changes());
            },
            None => {},
        }
    }
    err(errors::INVALID_ARGS, "NameHasOwner needs a name".to_owned())
}

/// `l` lists each bus name once: the unique names of the connections and
/// the well-known names.
pub open spec fn lists_names(r: RegistrySpec, l: Seq<Seq<char>>) -> bool {
    &&& l.len() == r.connections.dom().len() + r.names.dom().len()
    &&& forall|x: Seq<char>|
        (exists|k: int| 0 <= k < l.len() && #[trigger] l[k] == x) <==> (r.connections.dom().contains(x)
            || r.names.dom().contains(x))
}

fn handle_list_names(bus: &BusState) -> (o: DriverOutcome)
    requires
        bus.wf(),
    ensures
        exists|l: Seq<Seq<char>>|
            lists_names(bus.registry@, l) && o@ == ok_spec(seq![string_array_spec(l)], Seq::empty()),
{
    let names = bus.registry.list_names();
    let ghost l = texts(names@);
    assert forall|x: Seq<char>|
        (exists|k: int| 0 <= k < l.len() && #[trigger] l[k] == x) <==> (bus.registry@.connections.dom().contains(x)
            || bus.registry@.names.dom().contains(x)) by {
        if exists|k: int| 0 <= k < l.len() && #[trigger] l[k] == x {
            let k = choose|k: int| 0 <= k < l.len() && #[trigger] l[k] == x;
            assert(names@[k]@ == x);
        }
        if bus.registry@.connections.dom().contains(x) || bus.registry@.names.dom().contains(x) {
            let k = choose|k: int| 0 <= k < names@.len() && (#[trigger] names@[k])@ == x;
            assert(l[k] == x);
        }
    }
    let o = ok(one_value(string_array(names)), no_changes());
    assert(lists_names(bus.registry@, l) && o@ == ok_spec(seq![string_array_spec(l)], Seq::empty()));
    o
}

/// `l` lists each name a service provides once.
pub open spec fn lists_activatable(a: Map<Seq<char>, crate::daemon::activation::ServiceDefSpec>, l: Seq<Seq<char>>) -> bool {
    &&& l.len() == a.dom().len()
    &&& forall|x: Seq<char>| (exists|k: int| 0 <= k < l.len() && #[trigger] l[k] == x) <==> a.dom().contains(x)
}

fn handle_list_activatable(bus: &BusState) -> (o: DriverOutcome)
    requires
        bus.wf(),
    ensures
        exists|l: Seq<Seq<char>>|
            lists_activatable(bus.activation@, l) && o@ == ok_spec(seq![string_array_spec(l)], Seq::empty()),
{
    let names = bus.activation.list_activatable_names();
    let ghost l = texts(names@);
    assert forall|x: Seq<char>| (exists|k: int| 0 <= k < l.len() && #[trigger] l[k] == x) <==> bus.activation@.dom().contains(x) by {
        if exists|k: int| 0 <= k < l.len() && #[trigger] l[k] == x {
            let k = choose|k: int| 0 <= k < l.len() && #[trigger] l[k] == x;
            assert(names@[k]@ == x);
        }
        if bus.activation@.dom().contains(x) {
            let k = choose|k: int| 0 <= k < names@.len() && (#[trigger] names@[k])@ == x;
            assert(l[k] == x);
        }
    }
    let o = ok(one_value(string_array(names)), no_changes());
    assert(lists_activatable(bus.activation@, l) && o@ == ok_spec(seq![string_array_spec(l)], Seq::empty()));
    o
}

/// The unique names waiting for `name`, its owner first.
pub open spec fn queued_names(r: RegistrySpec, name: Seq<char>) -> Seq<Seq<char>> {
    match queue_of(r.names, name) {
        Some(q) => Seq::new(q.len(), |k: int| q[k].unique_name),
        None => Seq::empty(),
    }
}

/// What `ListQueuedOwners` answers.
pub open spec fn queued_owners_spec(r: RegistrySpec, args: Seq<ValueSpec>) -> OutcomeSpec {
    match arg_text(args, 0) {
        None => err_spec(errors::INVALID_ARGS@, not_string_text(0)),
        Some(n) => ok_spec(seq![string_array_spec(queued_names(r, n))], Seq::empty()),
    }
}

fn handle_list_queued_owners(bus: &BusState, args: &[Value]) -> (o: DriverOutcome)
    requires
        bus.wf(),
    ensures
        o@ == queued_owners_spec(bus.registry@, values_view(args@)),
{
    let name = match arg_str(args, 0) {
        Ok(n) => n,
        Err(e) => {
            return err_from(e);
        },
    };
    let v = bus.registry.list_queued_owners(name.as_str());
    assert(texts(v@) =~= queued_names(bus.registry@, name@));
    ok(one_value(string_array(v)), no_changes())
}

/// The text of too many match rules.
pub open spec fn too_many_rules_text(max: u32) -> Seq<char> {
    "Connection has reached the maximum of "@ + decimal(max as nat) + " match rules"@
}

/// What `AddMatch` does to the caller's rules (`rules` before) and
/// answers.
pub open spec fn added_match(
    max: u32,
    rules: Seq<crate::daemon::match_rules::RuleSpec>,
    args: Seq<ValueSpec>,
    new_rules: Seq<crate::daemon::match_rules::RuleSpec>,
    o: OutcomeSpec,
) -> bool {
    match arg_text(args, 0) {
        None => o == err_spec(errors::INVALID_ARGS@, not_string_text(0)) && new_rules == rules,
        Some(s) => if rules.len() >= max {
            o == err_spec(errors::LIMITS_EXCEEDED@, too_many_rules_text(max)) && new_rules == rules
        } else {
            match crate::daemon::match_rules::rule_of(s, vstd::utf8::encode_utf8(s)) {
                Ok(rule) => o == ok_spec(Seq::empty(), Seq::empty()) && new_rules == rules.push(rule),
                Err(m) => o == err_spec(errors::MATCH_RULE_INVALID@, m) && new_rules == rules,
            }
        },
    }
}

fn handle_add_match(bus: &BusState, caller: &mut ConnectionEntry, args: &[Value]) -> (o: DriverOutcome)
    ensures
        added_match(
            bus.max_match_rules_per_connection,
            rules_view(old(caller).match_rules@),
            values_view(args@),
            rules_view(final(caller).match_rules@),
            o@,
        ),
        same_peer(*final(caller), *old(caller)),
        final(caller).is_registered == old(caller).is_registered,
{
    let rule_str = match arg_str(args, 0) {
        Ok(s) => s,
        Err(e) => {
            return err_from(e);
        },
    };
    if caller.match_rules.len() >= bus.max_match_rules_per_connection as usize {
        let a = concat_str(
            "Connection has reached the maximum of ",
            u64_to_string(bus.max_match_rules_per_connection as u64).as_str(),
        );
        return err(errors::LIMITS_EXCEEDED, concat_str(a.as_str(), " match rules"));
    }
    match parse_match_rule(rule_str.as_str()) {
        Ok(rule) => {
            let ghost before = caller.match_rules@;
            caller.match_rules.push(rule);
            assert(rules_view(caller.match_rules@) =~= rules_view(before).push(rule@));
            let o = ok(Vec::new(), no_changes());
            assert(values_view(Seq::<Value>::empty()) =~= Seq::<ValueSpec>::empty());
            o
        },
        Err(msg) => err(errors::MATCH_RULE_INVALID, msg),
    }
}

/// The rules whose text is not `raw`, in order.
pub open spec fn rules_without(rules: Seq<crate::daemon::match_rules::RuleSpec>, raw: Seq<char>) -> Seq<
    crate::daemon::match_rules::RuleSpec,
>
    decreases rules.len(),
{
    if rules.len() == 0 {
        Seq::empty()
    } else if rules.last().raw == raw {
        rules_without(rules.drop_last(), raw)
    } else {
        rules_without(rules.drop_last(), raw).push(rules.last())
    }
}

/// What `RemoveMatch` does to the caller's rules and answers: every rule
/// of that text goes; where none was there, the call fails.
pub open spec fn removed_match(
    rules: Seq<crate::daemon::match_rules::RuleSpec>,
    args: Seq<ValueSpec>,
    new_rules: Seq<crate::daemon::match_rules::RuleSpec>,
    o: OutcomeSpec,
) -> bool {
    match arg_text(args, 0) {
        None => o == err_spec(errors::INVALID_ARGS@, not_string_text(0)) && new_rules == rules,
        Some(s) => {
            &&& new_rules == rules_without(rules, s)
            &&& if new_rules.len() == rules.len() {
                o == err_spec(
                    errors::MATCH_RULE_NOT_FOUND@,
                    "The given match rule wasn't found and can't be removed"@,
                )
            } else {
                o == ok_spec(Seq::empty(), Seq::empty())
            }
        },
    }
}

proof fn lemma_rules_without_len(rules: Seq<crate::daemon::match_rules::RuleSpec>, raw: Seq<char>)
    ensures
        rules_without(rules, raw).len() <= rules.len(),
    decreases rules.len(),
{
    if rules.len() > 0 {
        lemma_rules_without_len(rules.drop_last(), raw);
    }
}

fn handle_remove_match(caller: &mut ConnectionEntry, args: &[Value]) -> (o: DriverOutcome)
    ensures
        removed_match(
            rules_view(old(caller).match_rules@),
            values_view(args@),
            rules_view(final(caller).match_rules@),
            o@,
        ),
        same_peer(*final(caller), *old(caller)),
        final(caller).is_registered == old(caller).is_registered,
{
    let rule_str = match arg_str(args, 0) {
        Ok(s) => s,
        Err(e) => {
            return err_from(e);
        },
    };
    let ghost rs = rules_view(caller.match_rules@);
    let before = caller.match_rules.len();
    let mut kept: Vec<MatchRule> = Vec::new();
    let mut rest: Vec<MatchRule> = Vec::new();
    std::mem::swap(&mut rest, &mut caller.match_rules);
    let ghost all = rest@;
    proof {
        assert(rs.take(0) =~= Seq::<crate::daemon::match_rules::RuleSpec>::empty());
        assert(rules_view(kept@) =~= Seq::<crate::daemon::match_rules::RuleSpec>::empty());
        assert(all.skip(0) =~= all);
    }
    let mut i: usize = 0;
    while rest.len() > 0
        invariant
            rs == rules_view(all),
            all.len() == before,
            i + rest@.len() == all.len(),
            rest@ == all.skip(i as int),
            rules_view(kept@) == rules_without(rs.take(i as int), rule_str@),
            same_peer(*caller, *old(caller)),
            caller.is_registered == old(caller).is_registered,
        decreases rest.len(),
    {
        let r = rest.remove(0);
        assert(r == all[i as int]);
        assert(rest@ =~= all.skip(i + 1));
        proof {
            assert(rs.take(i + 1).drop_last() =~= rs.take(i as int));
            assert(rs.take(i + 1).last() == r@);
        }
        if !crate::text::str_eq(r.raw.as_str(), rule_str.as_str()) {
            let ghost kb = kept@;
            kept.push(r);
            assert(rules_view(kept@) =~= rules_view(kb).push(r@));
        }
        i = i + 1;
    }
    proof {
        assert(rs.take(i as int) =~= rs);
        lemma_rules_without_len(rs, rule_str@);
    }
    let removed = kept.len() < before;
    caller.match_rules = kept;
    if !removed {
        return err(
            errors::MATCH_RULE_NOT_FOUND,
            "The given match rule wasn't found and can't be removed".to_owned(),
        );
    }
    let o = ok(Vec::new(), no_changes());
    assert(values_view(Seq::<Value>::empty()) =~= Seq::<ValueSpec>::empty());
    o
}

/// The variables an `a{ss}` array sets, in order: each dictionary entry
/// whose key and value are strings.
pub open spec fn env_entries(elems: Seq<ValueSpec>) -> Seq<(Seq<char>, Seq<char>)>
    decreases elems.len(),
{
    if elems.len() == 0 {
        Seq::empty()
    } else {
        let init = env_entries(elems.drop_last());
        match elems.last() {
            ValueSpec::DictEntry(k, v) => match (value_text(*k), value_text(*v)) {
                (Some(a), Some(b)) => init.push((a, b)),
                _ => init,
            },
            _ => init,
        }
    }
}

/// An environment with the variables `ups` set, one after the other.
pub open spec fn env_with(m: Map<Seq<char>, Seq<char>>, ups: Seq<(Seq<char>, Seq<char>)>) -> Map<
    Seq<char>,
    Seq<char>,
>
    decreases ups.len(),
{
    if ups.len() == 0 {
        m
    } else {
        env_with(m, ups.drop_last()).insert(ups.last().0, ups.last().1)
    }
}

/// The elements of the environment argument, where the first argument is
/// an array (under any variants).
pub open spec fn env_arg(args: Seq<ValueSpec>) -> Option<Seq<ValueSpec>> {
    if args.len() > 0 {
        match unwrap_variants(args[0]) {
            ValueSpec::Array(_, es) => Some(es),
            _ => None,
        }
    } else {
        None
    }
}

/// Set the variable `k` to `v`.
fn env_insert(env: &mut Vec<(String, String)>, k: &str, v: &str)
    requires
        keys_unique(env_pairs(old(env)@)),
    ensures
        keys_unique(env_pairs(final(env)@)),
        seq_map(env_pairs(final(env)@)) == seq_map(env_pairs(old(env)@)).insert(k@, v@),
{
    let ghost ps = env_pairs(env@);
    let mut i: usize = 0;
    while i < env.len()
        invariant
            ps == env_pairs(env@),
            env@ == old(env)@,
            keys_unique(ps),
            i <= env@.len(),
            forall|j: int| 0 <= j < i ==> ps[j].0 != k@,
        decreases env.len() - i,
    {
        if crate::text::str_eq(env[i].0.as_str(), k) {
            proof {
                assert(ps[i as int].0 == k@);
                lemma_seq_map_update(ps, i as int, v@);
            }
            env.set(i, (k.to_owned(), v.to_owned()));
            assert(env_pairs(env@) =~= ps.update(i as int, (ps[i as int].0, v@)));
            return;
        }
        i = i + 1;
    }
    proof {
        if seq_map(ps).dom().contains(k@) {
            lemma_seq_map_dom(ps, k@);
        }
        lemma_seq_map_push(ps, k@, v@);
    }
    env.push((k.to_owned(), v.to_owned()));
    assert(env_pairs(env@) =~= ps.push((k@, v@)));
}

/// What `UpdateActivationEnvironment` does to the environment services are
/// started with, and answers. A system bus refuses it.
pub open spec fn env_updated(
    kind: BusKind,
    env: Map<Seq<char>, Seq<char>>,
    args: Seq<ValueSpec>,
    new_env: Map<Seq<char>, Seq<char>>,
    o: OutcomeSpec,
) -> bool {
    if kind == BusKind::System {
        o == err_spec(errors::ACCESS_DENIED@, "Cannot change activation environment on a system bus."@)
            && new_env == env
    } else {
        match env_arg(args) {
            None => o == err_spec(errors::INVALID_ARGS@, "expected a{ss} environment map"@) && new_env == env,
            Some(es) => o == ok_spec(Seq::empty(), Seq::empty()) && new_env == env_with(env, env_entries(es)),
        }
    }
}

fn handle_update_activation_env(bus: &mut BusState, args: &[Value]) -> (o: DriverOutcome)
    requires
        old(bus).wf(),
    ensures
        final(bus).wf(),
        env_updated(old(bus).kind, old(bus).env(), values_view(args@), final(bus).env(), o@),
        final(bus).kind == old(bus).kind,
        final(bus).registry == old(bus).registry,
        final(bus).policy == old(bus).policy,
        final(bus).activation == old(bus).activation,
        final(bus).guid == old(bus).guid,
        final(bus).max_names_per_connection == old(bus).max_names_per_connection,
        final(bus).max_match_rules_per_connection == old(bus).max_match_rules_per_connection,
{
    if bus.kind == BusKind::System {
        return err(errors::ACCESS_DENIED, "Cannot change activation environment on a system bus.".to_owned());
    }
    if args.len() == 0 {
        return err(errors::INVALID_ARGS, "expected a{ss} environment map".to_owned());
    }
    let arr = match args[0].unwrap_variant() {
        Value::Array(arr) => arr,
        _ => {
            return err(errors::INVALID_ARGS, "expected a{ss} environment map".to_owned());
        },
    };
    let ghost es = values_view(arr.elements@);
    let ghost env0 = bus.env();
    let mut i: usize = 0;
    assert(es.take(0) =~= Seq::<ValueSpec>::empty());
    while i < arr.elements.len()
        invariant
            es == values_view(arr.elements@),
            i <= es.len(),
            bus.wf(),
            bus.env() == env_with(env0, env_entries(es.take(i as int))),
            bus.kind == old(bus).kind,
            bus.registry == old(bus).registry,
            bus.policy == old(bus).policy,
            bus.activation == old(bus).activation,
            bus.guid == old(bus).guid,
            bus.max_names_per_connection == old(bus).max_names_per_connection,
            bus.max_match_rules_per_connection == old(bus).max_match_rules_per_connection,
        decreases arr.elements.len() - i,
    {
        proof {
            assert(es.take(i + 1).drop_last() =~= es.take(i as int));
            assert(es.take(i + 1).last() == arr.elements@[i as int]@);
        }
        match &arr.elements[i] {
            Value::DictEntry(k, v) => {
                assert(arr.elements@[i as int]@ == ValueSpec::DictEntry(Box::new((**k)@), Box::new((**v)@)));
                match (k.as_str(), v.as_str()) {
                    (Some(ks), Some(vs)) => {
                        let ghost init = env_entries(es.take(i as int));
                        assert(env_entries(es.take(i + 1)) == init.push((ks@, vs@)));
                        assert(init.push((ks@, vs@)).drop_last() =~= init);
                        env_insert(&mut bus.activation_environment, ks, vs);
                    },
                    _ => {},
                }
            },
            _ => {},
        }
        i = i + 1;
    }
    assert(es.take(i as int) =~= es);
    let o = ok(Vec::new(), no_changes());
    assert(values_view(Seq::<Value>::empty()) =~= Seq::<ValueSpec>::empty());
    o
}

/// The text of a method the bus does not have.
pub open spec fn no_method_text(member: Seq<char>) -> Seq<char> {
    quoted("org.freedesktop.DBus has no method "@, member)
}

/// What the call of `member` with `args` by the connection `c0` does to
/// the bus (`b0` before, `b1` after) and the caller (`c1` after), and where
/// it stands (`s`).
pub open spec fn driver_call(
    member: Seq<char>,
    b0: BusState,
    b1: BusState,
    c0: ConnectionEntry,
    c1: ConnectionEntry,
    args: Seq<ValueSpec>,
    s: DriverStep,
) -> bool {
    if member == "Hello"@ {
        &&& done(s, hello_spec(c0.is_registered, c0.unique_name@))
        &&& b1 == b0
        &&& c1.is_registered
        &&& same_peer(c1, c0)
        &&& c1.match_rules == c0.match_rules
    } else if member == "AddMatch"@ {
        &&& b1 == b0
        &&& same_peer(c1, c0)
        &&& c1.is_registered == c0.is_registered
        &&& s matches DriverStep::Done(o) && added_match(
            b0.max_match_rules_per_connection,
            rules_view(c0.match_rules@),
            args,
            rules_view(c1.match_rules@),
            o@,
        )
    } else if member == "RemoveMatch"@ {
        &&& b1 == b0
        &&& same_peer(c1, c0)
        &&& c1.is_registered == c0.is_registered
        &&& s matches DriverStep::Done(o) && removed_match(rules_view(c0.match_rules@), args, rules_view(c1.match_rules@), o@)
    } else {
        &&& c1 == c0
        &&& if member == "ReleaseName"@ {
            &&& same_but_names(b1, b0)
            &&& s matches DriverStep::Done(o) && match arg_text(args, 0) {
                None => o@ == err_spec(errors::INVALID_ARGS@, not_string_text(0)) && b1.registry@ == b0.registry@,
                Some(name) => released(b0.registry@, b1.registry@, c0.unique_name@, name, o@),
            }
        } else if member == "UpdateActivationEnvironment"@ {
            &&& b1.kind == b0.kind
            &&& b1.registry == b0.registry
            &&& b1.policy == b0.policy
            &&& b1.activation == b0.activation
            &&& b1.guid == b0.guid
            &&& b1.max_names_per_connection == b0.max_names_per_connection
            &&& b1.max_match_rules_per_connection == b0.max_match_rules_per_connection
            &&& s matches DriverStep::Done(o) && env_updated(b0.kind, b0.env(), args, b1.env(), o@)
        } else {
            &&& b1 == b0
            &&& if member == "RequestName"@ {
                request_name_begun(args, s)
            } else if member == "ListNames"@ {
                exists|l: Seq<Seq<char>>|
                    lists_names(b0.registry@, l) && done(s, ok_spec(seq![string_array_spec(l)], Seq::empty()))
            } else if member == "ListActivatableNames"@ {
                exists|l: Seq<Seq<char>>|
                    lists_activatable(b0.activation@, l) && done(s, ok_spec(seq![string_array_spec(l)], Seq::empty()))
            } else if member == "NameHasOwner"@ {
                done(s, name_has_owner_spec(b0.registry@, args))
            } else if member == "GetNameOwner"@ {
                done(s, get_name_owner_spec(b0.registry@, args))
            } else if member == "ListQueuedOwners"@ {
                done(s, queued_owners_spec(b0.registry@, args))
            } else if member == "StartServiceByName"@ {
                start_service_begun(b0.registry@, b0.activation@, args, s)
            } else if member == "GetConnectionUnixUser"@ {
                peer_begun(b0.registry@, args, PeerQuery::UnixUser, s)
            } else if member == "GetConnectionUnixProcessID"@ {
                peer_begun(b0.registry@, args, PeerQuery::ProcessId, s)
            } else if member == "GetConnectionCredentials"@ {
                peer_begun(b0.registry@, args, PeerQuery::Credentials, s)
            } else if member == "GetId"@ {
                done(s, ok_spec(seq![ValueSpec::String(b0.guid@)], Seq::empty()))
            } else if member == "ReloadConfig"@ {
                done(s, ok_spec(Seq::empty(), Seq::empty()))
            } else {
                done(s, err_spec(errors::UNKNOWN_METHOD@, no_method_text(member)))
            }
        }
    }
}

/// A call of the method `member` of the bus by the connection `caller`.
pub fn handle(bus: &mut BusState, caller: &mut ConnectionEntry, member: &str, args: &[Value]) -> (s: DriverStep)
    requires
        old(bus).wf(),
    ensures
        final(bus).wf(),
        driver_call(member@, *old(bus), *final(bus), *old(caller), *final(caller), values_view(args@), s),
{
    proof {
        reveal_strlit("Hello");
        reveal_strlit("AddMatch");
        reveal_strlit("RemoveMatch");
        reveal_strlit("ReleaseName");
        reveal_strlit("UpdateActivationEnvironment");
        reveal_strlit("RequestName");
        reveal_strlit("ListNames");
        reveal_strlit("ListActivatableNames");
        reveal_strlit("NameHasOwner");
        reveal_strlit("GetNameOwner");
        reveal_strlit("ListQueuedOwners");
        reveal_strlit("StartServiceByName");
        reveal_strlit("GetConnectionUnixUser");
        reveal_strlit("GetConnectionUnixProcessID");
        reveal_strlit("GetConnectionCredentials");
        reveal_strlit("GetId");
        reveal_strlit("ReloadConfig");
    }
    if crate::text::str_eq(member, "Hello") {
        DriverStep::Done(handle_hello(caller))
    } else if crate::text::str_eq(member, "AddMatch") {
        DriverStep::Done(handle_add_match(bus, caller, args))
    } else if crate::text::str_eq(member, "RemoveMatch") {
        DriverStep::Done(handle_remove_match(caller, args))
    } else if crate::text::str_eq(member, "ReleaseName") {
        DriverStep::Done(handle_release_name(bus, caller, args))
    } else if crate::text::str_eq(member, "UpdateActivationEnvironment") {
        DriverStep::Done(handle_update_activation_env(bus, args))
    } else if crate::text::str_eq(member, "RequestName") {
        begin_request_name(args)
    } else if crate::text::str_eq(member, "ListNames") {
        DriverStep::Done(handle_list_names(bus))
    } else if crate::text::str_eq(member, "ListActivatableNames") {
        DriverStep::Done(handle_list_activatable(bus))
    } else if crate::text::str_eq(member, "NameHasOwner") {
        DriverStep::Done(handle_name_has_owner(bus, args))
    } else if crate::text::str_eq(member, "GetNameOwner") {
        DriverStep::Done(handle_get_name_owner(bus, args))
    } else if crate::text::str_eq(member, "ListQueuedOwners") {
        DriverStep::Done(handle_list_queued_owners(bus, args))
    } else if crate::text::str_eq(member, "StartServiceByName") {
        begin_start_service(bus, args)
    } else if crate::text::str_eq(member, "GetConnectionUnixUser") {
        begin_peer(bus, args, PeerQuery::UnixUser)
    } else if crate::text::str_eq(member, "GetConnectionUnixProcessID") {
        begin_peer(bus, args, PeerQuery::ProcessId)
    } else if crate::text::str_eq(member, "GetConnectionCredentials") {
        begin_peer(bus, args, PeerQuery::Credentials)
    } else if crate::text::str_eq(member, "GetId") {
        DriverStep::Done(ok(one_value(Value::String(bus.guid.clone())), no_changes()))
    } else if crate::text::str_eq(member, "ReloadConfig") {
        let o = ok(Vec::new(), no_changes());
        assert(values_view(Seq::<Value>::empty()) =~= Seq::<ValueSpec>::empty());
        DriverStep::Done(o)
    } else {
        DriverStep::Done(err(errors::UNKNOWN_METHOD, quoted_text("org.freedesktop.DBus has no method ", member)))
    }
}

/// A connection says Hello once: the first Hello of a connection that has
/// not said it is answered with its unique name, which it then owns; a
/// second Hello fails.
pub proof fn hello_only_once(
    b0: BusState,
    b1: BusState,
    b2: BusState,
    c0: ConnectionEntry,
    c1: ConnectionEntry,
    c2: ConnectionEntry,
    a1: Seq<ValueSpec>,
    a2: Seq<ValueSpec>,
    s1: DriverStep,
    s2: DriverStep,
)
    requires
        !c0.is_registered,
        driver_call("Hello"@, b0, b1, c0, c1, a1, s1),
        driver_call("Hello"@, b1, b2, c1, c2, a2, s2),
    ensures
        done(
            s1,
            ok_spec(
                seq![ValueSpec::String(c0.unique_name@)],
                seq![ChangeSpec { name: c0.unique_name@, old_owner: None, new_owner: Some(c0.unique_name@) }],
            ),
        ),
        done(s2, err_spec(errors::FAILED@, "Already handled an Hello message"@)),
        c2.is_registered,
        b2 == b0,
{
}

} // verus!
