//! Routing of the messages the bus receives: which ones it refuses, what
//! it answers for itself, where it sends the rest, and the signals it
//! emits about name ownership. Writing to connections, resolving
//! identities, asking AppArmor and starting services are the daemon's
//! part; each decision here takes what came of them.

use crate::daemon::activation::{activation_message, ActivationError};
use crate::daemon::driver::{
    dict_of_u32, err_spec, ok_spec, rules_view, same_peer, u32_dict_spec, value_text, BusState,
    ConnectionEntry, DriverError, DriverOutcome, OutcomeSpec,
};
use crate::daemon::identity::Identity;
use crate::daemon::match_rules::{empty_rule, parse_match_rule, rule_of, MatchRule, RuleSpec};
use crate::daemon::registry::{changes_view, owner_of, ChangeSpec, NameOwnerChange, Registry, RegistrySpec};
use crate::daemon::stats::Stats;
use crate::errors;
use crate::header::{text_field, FieldSpec, MessageType};
use crate::message::{reply_to, Message, MessageBuilder};
use crate::text::concat_str;
use crate::types::{unwrap_variants, values_view, ObjectPath, Value, ValueSpec};
use crate::well_known;
use vstd::prelude::*;

verus! {

broadcast use crate::types::lemma_values_view;

/// The introspection data of the bus object.
pub const DRIVER_INTROSPECTION_XML: &'static str = "<!DOCTYPE node PUBLIC \"-//freedesktop//DTD D-BUS Object Introspection 1.0//EN\"
 \"http://www.freedesktop.org/standards/dbus/1.0/introspect.dtd\">
<node>
  <interface name=\"org.freedesktop.DBus\">
    <method name=\"Hello\"><arg direction=\"out\" type=\"s\"/></method>
    <method name=\"RequestName\"><arg direction=\"in\" type=\"s\"/><arg direction=\"in\" type=\"u\"/><arg direction=\"out\" type=\"u\"/></method>
    <method name=\"ReleaseName\"><arg direction=\"in\" type=\"s\"/><arg direction=\"out\" type=\"u\"/></method>
    <method name=\"ListNames\"><arg direction=\"out\" type=\"as\"/></method>
    <method name=\"ListActivatableNames\"><arg direction=\"out\" type=\"as\"/></method>
    <method name=\"NameHasOwner\"><arg direction=\"in\" type=\"s\"/><arg direction=\"out\" type=\"b\"/></method>
    <method name=\"GetNameOwner\"><arg direction=\"in\" type=\"s\"/><arg direction=\"out\" type=\"s\"/></method>
    <method name=\"ListQueuedOwners\"><arg direction=\"in\" type=\"s\"/><arg direction=\"out\" type=\"as\"/></method>
    <method name=\"StartServiceByName\"><arg direction=\"in\" type=\"s\"/><arg direction=\"in\" type=\"u\"/><arg direction=\"out\" type=\"u\"/></method>
    <method name=\"AddMatch\"><arg direction=\"in\" type=\"s\"/></method>
    <method name=\"RemoveMatch\"><arg direction=\"in\" type=\"s\"/></method>
    <method name=\"GetConnectionUnixUser\"><arg direction=\"in\" type=\"s\"/><arg direction=\"out\" type=\"u\"/></method>
    <method name=\"GetConnectionUnixProcessID\"><arg direction=\"in\" type=\"s\"/><arg direction=\"out\" type=\"u\"/></method>
    <method name=\"GetConnectionCredentials\"><arg direction=\"in\" type=\"s\"/><arg direction=\"out\" type=\"a{sv}\"/></method>
    <method name=\"GetId\"><arg direction=\"out\" type=\"s\"/></method>
    <method name=\"UpdateActivationEnvironment\"><arg direction=\"in\" type=\"a{ss}\"/></method>
    <signal name=\"NameOwnerChanged\"><arg type=\"s\"/><arg type=\"s\"/><arg type=\"s\"/></signal>
    <signal name=\"NameLost\"><arg type=\"s\"/></signal>
    <signal name=\"NameAcquired\"><arg type=\"s\"/></signal>
  </interface>
  <interface name=\"org.freedesktop.DBus.Peer\">
    <method name=\"Ping\"/>
    <method name=\"GetMachineId\"><arg direction=\"out\" type=\"s\"/></method>
  </interface>
  <interface name=\"org.freedesktop.DBus.Introspectable\">
    <method name=\"Introspect\"><arg direction=\"out\" type=\"s\"/></method>
  </interface>
  <interface name=\"org.freedesktop.DBus.Monitoring\">
    <method name=\"BecomeMonitor\"><arg direction=\"in\" type=\"as\"/><arg direction=\"in\" type=\"u\"/></method>
  </interface>
  <interface name=\"org.freedesktop.DBus.Debug.Stats\">
    <method name=\"GetStats\"><arg direction=\"out\" type=\"a{sv}\"/></method>
    <method name=\"GetConnectionStats\"><arg direction=\"in\" type=\"s\"/><arg direction=\"out\" type=\"a{sv}\"/></method>
  </interface>
</node>
";

/// The introspection data of the bus object, as a string.
pub fn driver_introspection_xml() -> (s: String)
    ensures
        s@ == DRIVER_INTROSPECTION_XML@,
{
    DRIVER_INTROSPECTION_XML.to_owned()
}

/// A text naming a method an interface does not have.
pub open spec fn no_such_method(iface: Seq<char>, member: Seq<char>) -> Seq<char> {
    iface + " has no method \""@ + member + "\""@
}

fn no_such_method_text(iface: &str, member: &str) -> (s: String)
    ensures
        s@ == no_such_method(iface@, member@),
{
    let a = concat_str(iface, " has no method \"");
    let b = concat_str(a.as_str(), member);
    concat_str(b.as_str(), "\"")
}

fn answer(values: Vec<Value>) -> (o: DriverOutcome)
    ensures
        o@ == ok_spec(values_view(values@), Seq::empty()),
{
    let o = DriverOutcome { result: Ok(values), name_owner_changes: Vec::new() };
    assert(changes_view(o.name_owner_changes@) =~= Seq::<ChangeSpec>::empty());
    o
}

fn failure(name: &str, message: String) -> (o: DriverOutcome)
    ensures
        o@ == err_spec(name@, message@),
{
    let o = DriverOutcome {
        result: Err(DriverError { name: name.to_owned(), message }),
        name_owner_changes: Vec::new(),
    };
    assert(changes_view(o.name_owner_changes@) =~= Seq::<ChangeSpec>::empty());
    o
}

fn nothing() -> (v: Vec<Value>)
    ensures
        values_view(v@) == Seq::<ValueSpec>::empty(),
{
    let v: Vec<Value> = Vec::new();
    assert(values_view(v@) =~= Seq::<ValueSpec>::empty());
    v
}

fn single(x: Value) -> (v: Vec<Value>)
    ensures
        values_view(v@) == seq![x@],
{
    let mut v: Vec<Value> = Vec::new();
    v.push(x);
    assert(values_view(v@) =~= seq![x@]);
    v
}

/// The counters `GetStats` reports, at time `now`; each number is cut to
/// 32 bits.
pub open spec fn stats_entries(r: RegistrySpec, s: Stats, now: u64) -> Seq<(Seq<char>, u32)> {
    seq![
        ("BusNames"@, (r.connections.dom().len() + r.names.dom().len()) as u32),
        ("ActiveConnections"@, r.connections.dom().len() as u32),
        ("MessagesRouted"@, s.messages_routed as u32),
        ("BytesRouted"@, s.bytes_routed as u32),
        ("SignalsDelivered"@, s.signals_delivered as u32),
        ("ActivationsStarted"@, s.activations_started as u32),
        ("PolicyDenials"@, s.policy_denials as u32),
        ("UptimeSeconds"@, (if now >= s.started_at {
            (now - s.started_at) as u64
        } else {
            0
        }) as u32),
    ]
}

fn stats_dict(bus: &BusState, stats: &Stats, now: u64) -> (v: Value)
    requires
        bus.wf(),
    ensures
        v@ == u32_dict_spec(stats_entries(bus.registry@, *stats, now)),
{
    let names = bus.registry.list_names();
    let n = names.len();
    let c = bus.registry.connection_count();
    let up = stats.uptime_secs(now);
    let entries = [
        ("BusNames", n as u32),
        ("ActiveConnections", c as u32),
        ("MessagesRouted", stats.messages_routed as u32),
        ("BytesRouted", stats.bytes_routed as u32),
        ("SignalsDelivered", stats.signals_delivered as u32),
        ("ActivationsStarted", stats.activations_started as u32),
        ("PolicyDenials", stats.policy_denials as u32),
        ("UptimeSeconds", up as u32),
    ];
    proof {
        reveal_strlit("BusNames");
        reveal_strlit("ActiveConnections");
        reveal_strlit("MessagesRouted");
        reveal_strlit("BytesRouted");
        reveal_strlit("SignalsDelivered");
        reveal_strlit("ActivationsStarted");
        reveal_strlit("PolicyDenials");
        reveal_strlit("UptimeSeconds");
        assert(Seq::new(entries@.len(), |i: int| (entries@[i].0@, entries@[i].1)) =~= stats_entries(
            bus.registry@,
            *stats,
            now,
        ));
    }
    dict_of_u32(&entries)
}

/// The numbers `GetConnectionStats` reports of a connection.
pub open spec fn connection_stats_entries(c: ConnectionEntry) -> Seq<(Seq<char>, u32)> {
    seq![
        ("UnixUserID"@, c.credentials.uid),
        ("ProcessID"@, crate::daemon::driver::reported_pid(c.credentials.pid)),
        ("MatchRules"@, c.match_rules@.len() as u32),
    ]
}

fn connection_stats_dict(c: &ConnectionEntry) -> (v: Value)
    ensures
        v@ == u32_dict_spec(connection_stats_entries(*c)),
{
    let pid: u32 = if c.credentials.pid < 0 {
        0
    } else {
        c.credentials.pid as u32
    };
    let entries = [
        ("UnixUserID", c.credentials.uid),
        ("ProcessID", pid),
        ("MatchRules", c.match_rules.len() as u32),
    ];
    proof {
        reveal_strlit("UnixUserID");
        reveal_strlit("ProcessID");
        reveal_strlit("MatchRules");
        assert(Seq::new(entries@.len(), |i: int| (entries@[i].0@, entries@[i].1)) =~= connection_stats_entries(
            *c,
        ));
    }
    dict_of_u32(&entries)
}

/// The text of a connection with no stats.
pub open spec fn no_stats_text(name: Seq<char>) -> Seq<char> {
    "Could not get stats for '"@ + name + "': no such name"@
}

/// The last step of `GetConnectionStats` of the name `name`: the answer
/// about the connection the daemon found for its owner (`None` where it is
/// gone).
pub fn connection_stats_outcome(name: &str, conn: Option<&ConnectionEntry>) -> (o: DriverOutcome)
    ensures
        match conn {
            Some(c) => o@ == ok_spec(seq![u32_dict_spec(connection_stats_entries(*c))], Seq::empty()),
            None => o@ == err_spec(errors::NAME_HAS_NO_OWNER@, no_stats_text(name@)),
        },
{
    match conn {
        Some(c) => answer(single(connection_stats_dict(c))),
        None => {
            let a = concat_str("Could not get stats for '", name);
            failure(errors::NAME_HAS_NO_OWNER, concat_str(a.as_str(), "': no such name"))
        },
    }
}

/// The match-rule texts `BecomeMonitor` is given: the strings in its first
/// argument, where that is an array.
pub open spec fn monitor_texts(args: Seq<ValueSpec>) -> Seq<Seq<char>> {
    if args.len() > 0 {
        match unwrap_variants(args[0]) {
            ValueSpec::Array(_, es) => texts_in(es),
            _ => Seq::empty(),
        }
    } else {
        Seq::empty()
    }
}

/// The texts among some values, in order.
pub open spec fn texts_in(es: Seq<ValueSpec>) -> Seq<Seq<char>>
    decreases es.len(),
{
    if es.len() == 0 {
        Seq::empty()
    } else {
        match value_text(es.last()) {
            Some(t) => texts_in(es.drop_last()).push(t),
            None => texts_in(es.drop_last()),
        }
    }
}

/// The rules among some texts that parse, in order.
pub open spec fn parsed_rules(ts: Seq<Seq<char>>) -> Seq<RuleSpec>
    decreases ts.len(),
{
    if ts.len() == 0 {
        Seq::empty()
    } else {
        match rule_of(ts.last(), vstd::utf8::encode_utf8(ts.last())) {
            Ok(r) => parsed_rules(ts.drop_last()).push(r),
            Err(_) => parsed_rules(ts.drop_last()),
        }
    }
}

/// The rules a monitor gets: those of its texts that parse, or else the
/// rule that matches everything.
pub open spec fn monitor_rules(args: Seq<ValueSpec>) -> Seq<RuleSpec> {
    let ps = parsed_rules(monitor_texts(args));
    if ps.len() == 0 {
        match rule_of(Seq::empty(), vstd::utf8::encode_utf8(Seq::empty())) {
            Ok(r) => seq![r],
            Err(_) => seq![empty_rule(Seq::empty())],
        }
    } else {
        ps
    }
}

/// `BecomeMonitor`: the caller becomes a monitor with the rules it asks
/// for.
fn become_monitor(caller: &mut ConnectionEntry, args: &[Value])
    ensures
        rules_view(final(caller).match_rules@) == monitor_rules(values_view(args@)),
        final(caller).is_monitor,
        final(caller).unique_name == old(caller).unique_name,
        final(caller).credentials == old(caller).credentials,
        final(caller).security_label == old(caller).security_label,
        final(caller).is_registered == old(caller).is_registered,
{
    let ghost av = values_view(args@);
    let mut parsed: Vec<MatchRule> = Vec::new();
    assert(rules_view(parsed@) =~= Seq::<RuleSpec>::empty());
    if args.len() > 0 {
        let u = args[0].unwrap_variant();
        proof {
            crate::types::lemma_values_view(args@);
        }
        assert(av[0] == args@[0]@);
        assert(u@ == unwrap_variants(av[0]));
        match u {
            Value::Array(arr) => {
                assert(u@ == ValueSpec::Array(arr.element_type@, values_view(arr.elements@)));
                let ghost es = values_view(arr.elements@);
                let mut i: usize = 0;
                assert(es.take(0) =~= Seq::<ValueSpec>::empty());
                while i < arr.elements.len()
                    invariant
                        es == values_view(arr.elements@),
                        i <= es.len(),
                        rules_view(parsed@) == parsed_rules(texts_in(es.take(i as int))),
                    decreases arr.elements.len() - i,
                {
                    proof {
                        assert(es.take(i + 1).drop_last() =~= es.take(i as int));
                        assert(es.take(i + 1).last() == arr.elements@[i as int]@);
                    }
                    match arr.elements[i].as_str() {
                        Some(t) => {
                            let ghost before = texts_in(es.take(i as int));
                            assert(texts_in(es.take(i + 1)) == before.push(t@));
                            assert(before.push(t@).drop_last() =~= before);
                            match parse_match_rule(t) {
                                Ok(rule) => {
                                    let ghost pb = parsed@;
                                    parsed.push(rule);
                                    assert(rules_view(parsed@) =~= rules_view(pb).push(rule@));
                                },
                                Err(_) => {},
                            }
                        },
                        None => {},
                    }
                    i = i + 1;
                }
                assert(es.take(i as int) =~= es);
                assert(unwrap_variants(av[0]) == ValueSpec::Array(arr.element_type@, es));
                assert(monitor_texts(av) == texts_in(es));
                assert(rules_view(parsed@) == parsed_rules(monitor_texts(av)));
            },
            _ => {},
        }
    }
    assert(rules_view(parsed@) == parsed_rules(monitor_texts(av)));
    proof {
        reveal_strlit("");
        assert(""@ =~= Seq::<char>::empty());
        if !(av.len() > 0 && unwrap_variants(av[0]) is Array) {
            assert(monitor_texts(av) =~= Seq::<Seq<char>>::empty());
            assert(parsed_rules(monitor_texts(av)) =~= Seq::<RuleSpec>::empty());
        }
    }
    if parsed.len() == 0 {
        let r = match parse_match_rule("") {
            Ok(r) => r,
            Err(_) => MatchRule::empty(""),
        };
        proof {
            reveal_strlit("");
        }
        let mut one: Vec<MatchRule> = Vec::new();
        one.push(r);
        assert(rules_view(one@) =~= seq![r@]);
        caller.match_rules = one;
    } else {
        caller.match_rules = parsed;
    }
    caller.is_monitor = true;
}

/// Where a call of the bus's side interfaces stands.
#[derive(Debug)]
pub enum SideStep {
    /// Not a call of a side interface: the bus interface takes it.
    NotSide,
    /// The call is answered.
    Done(DriverOutcome),
    /// `GetConnectionStats` of the name `name`, owned by `owner`: look the
    /// connection up ([`connection_stats_outcome`]).
    ConnectionStats { name: String, owner: String },
}

/// The step is the answer `o`.
pub open spec fn side_done(s: SideStep, o: OutcomeSpec) -> bool {
    s matches SideStep::Done(d) && d@ == o
}

/// What a call of `member` of the interface `iface` does and where it
/// stands: the Peer, Introspectable, Debug.Stats and Monitoring interfaces
/// of the bus object. A monitor's rules and flag (`c1` after `c0`) change
/// only by `BecomeMonitor`.
pub open spec fn side_call(
    iface: Option<Seq<char>>,
    member: Seq<char>,
    bus: BusState,
    stats: Stats,
    now: u64,
    c0: ConnectionEntry,
    c1: ConnectionEntry,
    args: Seq<ValueSpec>,
    s: SideStep,
) -> bool {
    let monitoring = iface == Some(well_known::MONITORING_INTERFACE@) && member == "BecomeMonitor"@;
    &&& (!monitoring ==> c1 == c0)
    &&& if iface == Some(well_known::PEER_INTERFACE@) {
        if member == "Ping"@ {
            side_done(s, ok_spec(Seq::empty(), Seq::empty()))
        } else if member == "GetMachineId"@ {
            side_done(s, ok_spec(seq![ValueSpec::String(bus.guid@)], Seq::empty()))
        } else {
            side_done(s, err_spec(errors::UNKNOWN_METHOD@, no_such_method("Peer"@, member)))
        }
    } else if iface == Some(well_known::INTROSPECTABLE_INTERFACE@) {
        if member == "Introspect"@ {
            side_done(s, ok_spec(seq![ValueSpec::String(DRIVER_INTROSPECTION_XML@)], Seq::empty()))
        } else {
            side_done(s, err_spec(errors::UNKNOWN_METHOD@, no_such_method("Introspectable"@, member)))
        }
    } else if iface == Some(well_known::STATS_INTERFACE@) {
        if member == "GetStats"@ {
            side_done(s, ok_spec(seq![u32_dict_spec(stats_entries(bus.registry@, stats, now))], Seq::empty()))
        } else if member == "GetConnectionStats"@ {
            match if args.len() > 0 {
                value_text(args[0])
            } else {
                None
            } {
                None => side_done(
                    s,
                    err_spec(errors::INVALID_ARGS@, "GetConnectionStats needs a connection name"@),
                ),
                Some(n) => match owner_of(bus.registry@, n) {
                    None => side_done(s, err_spec(errors::NAME_HAS_NO_OWNER@, no_stats_text(n))),
                    Some(w) => s matches SideStep::ConnectionStats { name, owner } && name@ == n && owner@ == w,
                },
            }
        } else {
            side_done(s, err_spec(errors::UNKNOWN_METHOD@, no_such_method("Debug.Stats"@, member)))
        }
    } else if iface == Some(well_known::MONITORING_INTERFACE@) {
        if member == "BecomeMonitor"@ {
            &&& side_done(s, ok_spec(Seq::empty(), Seq::empty()))
            &&& rules_view(c1.match_rules@) == monitor_rules(args)
            &&& c1.is_monitor
            &&& c1.unique_name == c0.unique_name
            &&& c1.credentials == c0.credentials
            &&& c1.security_label == c0.security_label
            &&& c1.is_registered == c0.is_registered
        } else {
            side_done(s, err_spec(errors::UNKNOWN_METHOD@, no_such_method("Monitoring"@, member)))
        }
    } else {
        s is NotSide
    }
}

/// A call to the bus object of `member` of the interface `interface`,
/// where that is one of its side interfaces; `now` is the time in seconds
/// on the clock the counters `stats` started on.
pub fn handle_side_interface(
    bus: &BusState,
    stats: &Stats,
    now: u64,
    caller: &mut ConnectionEntry,
    interface: Option<&str>,
    member: &str,
    args: &[Value],
) -> (s: SideStep)
    requires
        bus.wf(),
    ensures
        side_call(
            match interface {
                Some(i) => Some(i@),
                None => None,
            },
            member@,
            *bus,
            *stats,
            now,
            *old(caller),
            *final(caller),
            values_view(args@),
            s,
        ),
{
    proof {
        reveal_strlit("BecomeMonitor");
        reveal_strlit("Ping");
        reveal_strlit("GetMachineId");
        reveal_strlit("Introspect");
        reveal_strlit("GetStats");
        reveal_strlit("GetConnectionStats");
    }
    let iface = match interface {
        Some(i) => i,
        None => {
            return SideStep::NotSide;
        },
    };
    if crate::text::str_eq(iface, well_known::PEER_INTERFACE) {
        if crate::text::str_eq(member, "Ping") {
            SideStep::Done(answer(nothing()))
        } else if crate::text::str_eq(member, "GetMachineId") {
            SideStep::Done(answer(single(Value::String(bus.guid.clone()))))
        } else {
            SideStep::Done(failure(errors::UNKNOWN_METHOD, no_such_method_text("Peer", member)))
        }
    } else if crate::text::str_eq(iface, well_known::INTROSPECTABLE_INTERFACE) {
        if crate::text::str_eq(member, "Introspect") {
            SideStep::Done(answer(single(Value::String(driver_introspection_xml()))))
        } else {
            SideStep::Done(failure(errors::UNKNOWN_METHOD, no_such_method_text("Introspectable", member)))
        }
    } else if crate::text::str_eq(iface, well_known::STATS_INTERFACE) {
        if crate::text::str_eq(member, "GetStats") {
            SideStep::Done(answer(single(stats_dict(bus, stats, now))))
        } else if crate::text::str_eq(member, "GetConnectionStats") {
            let name = if args.len() > 0 {
                args[0].as_str()
            } else {
                None
            };
            match name {
                None => SideStep::Done(
                    failure(errors::INVALID_ARGS, "GetConnectionStats needs a connection name".to_owned()),
                ),
                Some(n) => match bus.registry.get_name_owner(n) {
                    Some(owner) => SideStep::ConnectionStats { name: n.to_owned(), owner },
                    None => {
                        let a = concat_str("Could not get stats for '", n);
                        SideStep::Done(failure(errors::NAME_HAS_NO_OWNER, concat_str(a.as_str(), "': no such name")))
                    },
                },
            }
        } else {
            SideStep::Done(failure(errors::UNKNOWN_METHOD, no_such_method_text("Debug.Stats", member)))
        }
    } else if crate::text::str_eq(iface, well_known::MONITORING_INTERFACE) {
        if crate::text::str_eq(member, "BecomeMonitor") {
            become_monitor(caller, args);
            SideStep::Done(answer(nothing()))
        } else {
            SideStep::Done(failure(errors::UNKNOWN_METHOD, no_such_method_text("Monitoring", member)))
        }
    } else {
        SideStep::NotSide
    }
}

/// Whether a message is a call of the bus's `Hello`.
pub open spec fn hello_call(h: crate::header::MessageHeader) -> bool {
    let fs = h.fields_spec();
    &&& h.message_type == MessageType::MethodCall
    &&& text_field(fs, 6) == Some(well_known::BUS_NAME@)
    &&& (text_field(fs, 2) is None || text_field(fs, 2) == Some(well_known::BUS_INTERFACE@))
    &&& text_field(fs, 3) == Some("Hello"@)
}

/// Whether `msg` calls the bus's `Hello`: a method call to the bus, of
/// `Hello`, with no interface or the bus interface.
pub fn is_hello_call(msg: &Message) -> (b: bool)
    ensures
        b == hello_call(msg.header),
{
    proof {
        reveal_strlit("Hello");
    }
    if msg.message_type() != MessageType::MethodCall {
        return false;
    }
    let to_bus = match msg.destination() {
        Some(d) => crate::text::str_eq(d, well_known::BUS_NAME),
        None => false,
    };
    let iface_ok = match msg.interface() {
        None => true,
        Some(i) => crate::text::str_eq(i, well_known::BUS_INTERFACE),
    };
    let hello = match msg.member() {
        Some(m) => crate::text::str_eq(m, "Hello"),
        None => false,
    };
    to_bus && iface_ok && hello
}

/// Where a received message goes.
#[derive(Debug, Clone, Copy, PartialEq, Eq, Structural)]
pub enum Route {
    /// Refused: the sender has not said Hello yet, and this is no Hello.
    Refuse,
    /// A signal.
    Signal,
    /// A method call.
    MethodCall,
    /// A method return or an error.
    Reply,
}

/// The text of the refusal of an unregistered sender.
pub const NOT_REGISTERED_TEXT: &'static str = "Client tried to send a message other than Hello without being registered";

/// Where a message from a connection goes: refused where the connection is
/// not `registered` and the message is no Hello, else by its type.
pub fn route_incoming(registered: bool, msg: &Message) -> (r: Route)
    ensures
        !registered && !hello_call(msg.header) ==> r == Route::Refuse,
        registered || hello_call(msg.header) ==> r == match msg.header.message_type {
            MessageType::Signal => Route::Signal,
            MessageType::MethodCall => Route::MethodCall,
            _ => Route::Reply,
        },
{
    if !registered && !is_hello_call(msg) {
        return Route::Refuse;
    }
    match msg.message_type() {
        MessageType::Signal => Route::Signal,
        MessageType::MethodCall => Route::MethodCall,
        MessageType::MethodReturn => Route::Reply,
        MessageType::Error => Route::Reply,
    }
}

/// The header fields of a reply to a message with fields `fs` and serial
/// `serial`, sent by the bus: the reply serial, the error name where there
/// is one, the caller as destination where it is known, and the bus as
/// sender.
pub open spec fn bus_reply_fields(fs: Seq<FieldSpec>, serial: u32, error_name: Option<Seq<char>>) -> Seq<FieldSpec> {
    let base = match error_name {
        Some(n) => seq![FieldSpec::ReplySerial(serial), FieldSpec::ErrorName(n)],
        None => seq![FieldSpec::ReplySerial(serial)],
    };
    let addressed = match text_field(fs, 7) {
        Some(s) => base.push(FieldSpec::Destination(s)),
        None => base,
    };
    addressed.push(FieldSpec::Sender(well_known::BUS_NAME@))
}

/// `m` is the bus's reply to `call`, with serial `serial`, error name
/// `error_name` where there is one, and body `body`.
pub open spec fn is_bus_reply(m: Message, call: Message, serial: u32, error_name: Option<Seq<char>>, body: Seq<ValueSpec>) -> bool {
    &&& m.header.message_type == if error_name is Some {
        MessageType::Error
    } else {
        MessageType::MethodReturn
    }
    &&& m.header.flags == 0
    &&& m.header.serial == serial
    &&& m.header.fields_spec() == bus_reply_fields(call.header.fields_spec(), call.header.serial, error_name)
    &&& values_view(m.body@) == body
    &&& m.fds@.len() == 0
}

/// Whether the caller of `call` said it expects no reply.
pub open spec fn wants_no_reply(call: Message) -> bool {
    call.header.flags & crate::header::flags::NO_REPLY_EXPECTED != 0
}

/// The bus's error reply `error_name` with text `text` to `call`, with
/// serial `serial`; none where the caller expects no reply.
pub fn error_reply(call: &Message, error_name: &str, text: &str, serial: u32) -> (r: Option<Message>)
    ensures
        wants_no_reply(*call) ==> r is None,
        !wants_no_reply(*call) ==> (r matches Some(m) && is_bus_reply(
            m,
            *call,
            serial,
            Some(error_name@),
            seq![ValueSpec::String(text@)],
        )),
{
    if call.no_reply_expected() {
        return None;
    }
    let b = reply_to(call, Some(error_name)).sender(well_known::BUS_NAME).arg(Value::String(text.to_owned()));
    let m = b.build(serial);
    assert(values_view(m.body@) =~= seq![ValueSpec::String(text@)]);
    Some(m)
}

/// The bus's reply to the driver call `call`, with serial `serial`: the
/// values where it succeeded, else the error with its text; none where the
/// caller expects no reply.
pub fn driver_reply(call: &Message, result: Result<Vec<Value>, DriverError>, serial: u32) -> (r: Option<Message>)
    ensures
        wants_no_reply(*call) ==> r is None,
        !wants_no_reply(*call) ==> (r matches Some(m) && match result {
            Ok(vs) => is_bus_reply(m, *call, serial, None, values_view(vs@)),
            Err(e) => is_bus_reply(m, *call, serial, Some(e.name@), seq![ValueSpec::String(e.message@)]),
        }),
{
    if call.no_reply_expected() {
        return None;
    }
    match result {
        Ok(values) => {
            let ghost vv = values_view(values@);
            let m = reply_to(call, None).sender(well_known::BUS_NAME).args(values).build(serial);
            assert(values_view(m.body@) =~= vv);
            Some(m)
        },
        Err(e) => {
            let m = reply_to(call, Some(e.name.as_str())).sender(well_known::BUS_NAME).arg(
                Value::String(e.message),
            ).build(serial);
            Some(m)
        },
    }
}

/// The text of an optional owner in a `NameOwnerChanged` signal: empty
/// where there is none.
pub open spec fn owner_text(o: Option<Seq<char>>) -> Seq<char> {
    match o {
        Some(s) => s,
        None => Seq::empty(),
    }
}

/// `m` is a signal of the bus object's interface, of member `member`, with
/// serial `serial`, sent by the bus, to `to` where given, with body
/// `body`.
pub open spec fn is_bus_signal(m: Message, member: Seq<char>, to: Option<Seq<char>>, serial: u32, body: Seq<ValueSpec>) -> bool {
    let fs = seq![
        FieldSpec::Path(well_known::BUS_PATH@),
        FieldSpec::Interface(well_known::BUS_INTERFACE@),
        FieldSpec::Member(member),
        FieldSpec::Sender(well_known::BUS_NAME@),
    ];
    &&& m.header.message_type == MessageType::Signal
    &&& m.header.flags == 0
    &&& m.header.serial == serial
    &&& m.header.fields_spec() == match to {
        Some(t) => fs.push(FieldSpec::Destination(t)),
        None => fs,
    }
    &&& values_view(m.body@) == body
    &&& m.fds@.len() == 0
}

fn opt_string(o: &Option<String>) -> (s: String)
    ensures
        s@ == owner_text(crate::daemon::registry::opt_text(*o)),
{
    match o {
        Some(x) => x.clone(),
        None => String::new(),
    }
}

/// The `NameOwnerChanged` signal that announces `change` to everyone, with
/// serial `serial`.
pub fn name_owner_changed_signal(change: &NameOwnerChange, serial: u32) -> (m: Message)
    ensures
        is_bus_signal(
            m,
            well_known::NAME_OWNER_CHANGED@,
            None,
            serial,
            seq![
                ValueSpec::String(change@.name),
                ValueSpec::String(owner_text(change@.old_owner)),
                ValueSpec::String(owner_text(change@.new_owner)),
            ],
        ),
{
    let path = ObjectPath::new_unchecked(well_known::BUS_PATH.to_owned());
    let n = change.name.clone();
    assert(n@ == change@.name);
    let b = MessageBuilder::signal(path, well_known::BUS_INTERFACE, well_known::NAME_OWNER_CHANGED).sender(
        well_known::BUS_NAME,
    ).arg(Value::String(n)).arg(Value::String(opt_string(&change.old_owner))).arg(
        Value::String(opt_string(&change.new_owner)),
    );
    let m = b.build(serial);
    assert(m.header.fields_spec() =~= seq![
        FieldSpec::Path(well_known::BUS_PATH@),
        FieldSpec::Interface(well_known::BUS_INTERFACE@),
        FieldSpec::Member(well_known::NAME_OWNER_CHANGED@),
        FieldSpec::Sender(well_known::BUS_NAME@),
    ]);
    assert(values_view(m.body@) =~= seq![
        ValueSpec::String(change@.name),
        ValueSpec::String(owner_text(change@.old_owner)),
        ValueSpec::String(owner_text(change@.new_owner)),
    ]);
    m
}

/// The `NameAcquired` or `NameLost` signal (`member`) that tells the
/// connection `to` about `name`, with serial `serial`.
pub fn name_signal(to: &str, member: &str, name: &str, serial: u32) -> (m: Message)
    ensures
        is_bus_signal(m, member@, Some(to@), serial, seq![ValueSpec::String(name@)]),
{
    let path = ObjectPath::new_unchecked(well_known::BUS_PATH.to_owned());
    let b = MessageBuilder::signal(path, well_known::BUS_INTERFACE, member).sender(well_known::BUS_NAME).destination(
        to,
    ).arg(Value::String(name.to_owned()));
    let m = b.build(serial);
    assert(values_view(m.body@) =~= seq![ValueSpec::String(name@)]);
    assert(m.header.fields_spec() =~= seq![
        FieldSpec::Path(well_known::BUS_PATH@),
        FieldSpec::Interface(well_known::BUS_INTERFACE@),
        FieldSpec::Member(member@),
        FieldSpec::Sender(well_known::BUS_NAME@),
    ].push(FieldSpec::Destination(to@)));
    m
}

/// A refusal: the error to answer the sender with, and whether it counts
/// as a policy denial.
#[derive(Debug)]
pub struct Failure {
    pub name: String,
    pub text: String,
    pub denied: bool,
}

/// `f` is the refusal `name` with text `text`.
pub open spec fn fails_with(f: Failure, name: Seq<char>, text: Seq<char>, denied: bool) -> bool {
    f.name@ == name && f.text@ == text && f.denied == denied
}

fn fail(name: &str, text: String, denied: bool) -> (f: Failure)
    ensures
        fails_with(f, name@, text@, denied),
{
    Failure { name: name.to_owned(), text, denied }
}

/// The text of a message the policy does not let through.
pub open spec fn quoted(pre: Seq<char>, name: Seq<char>) -> Seq<char> {
    pre + "\""@ + name + "\""@
}

fn quoted_text(pre: &str, name: &str) -> (s: String)
    ensures
        s@ == quoted(pre@, name@),
{
    let a = concat_str(pre, "\"");
    let b = concat_str(a.as_str(), name);
    concat_str(b.as_str(), "\"")
}

/// Where a method call goes first.
#[derive(Debug)]
pub enum CallStep {
    /// Refused.
    Fail(Failure),
    /// A call of the bus itself.
    Driver,
    /// A call to `dest`: the sender's identity is wanted for the policy
    /// ([`send_policy_check`]).
    Other(String),
}

/// Where a method call goes: a call without destination is refused, one
/// to the bus goes to the driver.
pub fn call_destination(msg: &Message) -> (s: CallStep)
    ensures
        match text_field(msg.header.fields_spec(), 6) {
            None => s matches CallStep::Fail(f) && fails_with(
                f,
                errors::BAD_ADDRESS@,
                "Method call missing DESTINATION"@,
                false,
            ),
            Some(d) => if d == well_known::BUS_NAME@ {
                s is Driver
            } else {
                s matches CallStep::Other(x) && x@ == d
            },
        },
{
    match msg.destination() {
        None => CallStep::Fail(fail(errors::BAD_ADDRESS, "Method call missing DESTINATION".to_owned(), false)),
        Some(d) => if crate::text::str_eq(d, well_known::BUS_NAME) {
            CallStep::Driver
        } else {
            CallStep::Other(d.to_owned())
        },
    }
}

/// The policy lets `id` send the message with header `h` to `dest`.
pub open spec fn sends_ok(
    p: Seq<crate::daemon::policy::PolicyRuleSpec>,
    id: crate::daemon::policy::IdentitySpec,
    h: crate::header::MessageHeader,
    dest: Option<Seq<char>>,
) -> bool {
    p.len() == 0 || crate::daemon::policy::verdict(
        crate::daemon::policy::applicable(p, id),
        crate::daemon::policy::flow_allowed_by(false, h.message_type, h.fields_spec(), dest),
        crate::daemon::policy::flow_denied_by(false, h.message_type, h.fields_spec(), dest),
    )
}

/// The policy lets `id` receive the message with header `h` from `sender`.
pub open spec fn receives_ok(
    p: Seq<crate::daemon::policy::PolicyRuleSpec>,
    id: crate::daemon::policy::IdentitySpec,
    h: crate::header::MessageHeader,
    sender: Option<Seq<char>>,
) -> bool {
    p.len() == 0 || crate::daemon::policy::verdict(
        crate::daemon::policy::applicable(p, id),
        crate::daemon::policy::flow_allowed_by(true, h.message_type, h.fields_spec(), sender),
        crate::daemon::policy::flow_denied_by(true, h.message_type, h.fields_spec(), sender),
    )
}

/// Whether the policy lets the sender, who is `sender`, send the call
/// `msg` to `dest`; where it does not, the refusal. AppArmor is asked
/// next ([`after_send_check`]).
pub fn send_policy_check(bus: &BusState, sender: &Identity, msg: &Message, dest: &str) -> (r: Option<Failure>)
    requires
        bus.wf(),
    ensures
        sends_ok(bus.policy@, sender@, msg.header, Some(dest@)) ==> r is None,
        !sends_ok(bus.policy@, sender@, msg.header, Some(dest@)) ==> (r matches Some(f) && fails_with(
            f,
            errors::ACCESS_DENIED@,
            quoted("Connection is not allowed to send to "@, dest@),
            true,
        )),
{
    let p = sender.as_policy();
    if bus.policy.can_send(&p, msg, Some(dest)) {
        None
    } else {
        Some(fail(errors::ACCESS_DENIED, quoted_text("Connection is not allowed to send to ", dest), true))
    }
}

/// Where a method call to another connection goes once it may be sent.
#[derive(Debug)]
pub enum Target {
    /// Refused.
    Fail(Failure),
    /// Deliver it to this connection ([`delivery_check`]).
    Deliver(String),
    /// Start the service that provides the destination, then ask again
    /// ([`after_activation`]).
    Activate,
}

/// The text of a name no one provides.
pub open spec fn unknown_service_text(name: Seq<char>) -> Seq<char> {
    "The name "@ + name + " was not provided by any .service files or activatable connections"@
}

/// Where the call `msg` to `dest` goes once the policy let it through:
/// AppArmor's word on sending it (`send_allowed`), then its owner, else the
/// service that provides it (unless the sender said not to start one).
pub fn after_send_check(bus: &BusState, send_allowed: bool, msg: &Message, dest: &str) -> (t: Target)
    requires
        bus.wf(),
    ensures
        !send_allowed ==> (t matches Target::Fail(f) && fails_with(
            f,
            errors::ACCESS_DENIED@,
            quoted("AppArmor mediation denied sending to "@, dest@),
            true,
        )),
        send_allowed ==> match owner_of(bus.registry@, dest@) {
            Some(o) => t matches Target::Deliver(x) && x@ == o,
            None => if msg.header.flags & crate::header::flags::NO_AUTO_START != 0
                || !bus.activation@.dom().contains(dest@) {
                t matches Target::Fail(f) && fails_with(f, errors::SERVICE_UNKNOWN@, unknown_service_text(dest@), false)
            } else {
                t is Activate
            },
        },
{
    if !send_allowed {
        return Target::Fail(fail(errors::ACCESS_DENIED, quoted_text("AppArmor mediation denied sending to ", dest), true));
    }
    match bus.registry.get_name_owner(dest) {
        Some(owner) => Target::Deliver(owner),
        None => {
            if msg.no_auto_start() || !bus.activation.is_activatable(dest) {
                let a = concat_str("The name ", dest);
                Target::Fail(
                    fail(
                        errors::SERVICE_UNKNOWN,
                        concat_str(a.as_str(), " was not provided by any .service files or activatable connections"),
                        false,
                    ),
                )
            } else {
                Target::Activate
            }
        },
    }
}

/// Where the call to `dest` goes once its service was started (or could
/// not be): to the owner that showed up.
pub fn after_activation(bus: &BusState, started: &Result<(), ActivationError>, dest: &str) -> (t: Target)
    requires
        bus.wf(),
    ensures
        started matches Err(e) ==> (t matches Target::Fail(f) && fails_with(
            f,
            errors::SPAWN_EXEC_FAILED@,
            activation_message(*e),
            false,
        )),
        started is Ok ==> match owner_of(bus.registry@, dest@) {
            Some(o) => t matches Target::Deliver(x) && x@ == o,
            None => t matches Target::Fail(f) && fails_with(
                f,
                errors::SERVICE_UNKNOWN@,
                "activation raced with removal"@,
                false,
            ),
        },
{
    match started {
        Err(e) => Target::Fail(fail(errors::SPAWN_EXEC_FAILED, e.message(), false)),
        Ok(()) => match bus.registry.get_name_owner(dest) {
            Some(owner) => Target::Deliver(owner),
            None => Target::Fail(fail(errors::SERVICE_UNKNOWN, "activation raced with removal".to_owned(), false)),
        },
    }
}

/// Whether the call `msg` may be delivered to its recipient, who is
/// `recipient` (`None` where the owner's connection is gone); where it may
/// not, the refusal. AppArmor is asked next ([`after_receive_check`]).
pub fn delivery_check(bus: &BusState, recipient: Option<&Identity>, msg: &Message) -> (r: Option<Failure>)
    requires
        bus.wf(),
    ensures
        recipient is None ==> (r matches Some(f) && fails_with(f, errors::SERVICE_UNKNOWN@, "owner vanished"@, false)),
        recipient matches Some(id) ==> (receives_ok(
            bus.policy@,
            id@,
            msg.header,
            text_field(msg.header.fields_spec(), 7),
        ) ==> r is None),
        recipient matches Some(id) ==> (!receives_ok(
            bus.policy@,
            id@,
            msg.header,
            text_field(msg.header.fields_spec(), 7),
        ) ==> (r matches Some(f) && fails_with(
            f,
            errors::ACCESS_DENIED@,
            "Destination is not allowed to receive this message"@,
            true,
        ))),
{
    let id = match recipient {
        None => {
            return Some(fail(errors::SERVICE_UNKNOWN, "owner vanished".to_owned(), false));
        },
        Some(id) => id,
    };
    let p = id.as_policy();
    if bus.policy.can_receive(&p, msg, msg.sender()) {
        None
    } else {
        Some(
            fail(
                errors::ACCESS_DENIED,
                "Destination is not allowed to receive this message".to_owned(),
                true,
            ),
        )
    }
}

/// AppArmor's word on the recipient receiving the call (`allowed`): where
/// it refuses, the refusal; else the call is written to the recipient.
pub fn after_receive_check(allowed: bool) -> (r: Option<Failure>)
    ensures
        allowed ==> r is None,
        !allowed ==> (r matches Some(f) && fails_with(
            f,
            errors::ACCESS_DENIED@,
            "AppArmor mediation denied recipient from receiving this message"@,
            true,
        )),
{
    if allowed {
        None
    } else {
        Some(
            fail(
                errors::ACCESS_DENIED,
                "AppArmor mediation denied recipient from receiving this message".to_owned(),
                true,
            ),
        )
    }
}

/// The refusal where writing the call to its recipient failed.
pub fn write_failed() -> (f: Failure)
    ensures
        fails_with(f, errors::NO_REPLY@, "destination connection is gone"@, false),
{
    fail(errors::NO_REPLY, "destination connection is gone".to_owned(), false)
}

/// Where a signal goes, once it may be sent.
#[derive(Debug)]
pub enum SignalTarget {
    /// To the owner of its destination, where it has one (else nowhere).
    Unicast(Option<String>),
    /// To every connection whose rules match it.
    Broadcast,
}

/// Where the signal `msg` goes: to its destination's owner where it has a
/// destination, else to everyone who asked for it.
pub fn signal_target(bus: &BusState, msg: &Message) -> (t: SignalTarget)
    requires
        bus.wf(),
    ensures
        match text_field(msg.header.fields_spec(), 6) {
            Some(d) => t matches SignalTarget::Unicast(o) && crate::daemon::registry::opt_text(o) == owner_of(
                bus.registry@,
                d,
            ),
            None => t is Broadcast,
        },
{
    match msg.destination() {
        Some(d) => SignalTarget::Unicast(bus.registry.get_name_owner(d)),
        None => SignalTarget::Broadcast,
    }
}

/// Where a reply goes: to the owner of its destination, where it has both.
pub fn reply_target(bus: &BusState, msg: &Message) -> (r: Option<String>)
    requires
        bus.wf(),
    ensures
        crate::daemon::registry::opt_text(r) == match text_field(msg.header.fields_spec(), 6) {
            Some(d) => owner_of(bus.registry@, d),
            None => None,
        },
{
    match msg.destination() {
        Some(d) => bus.registry.get_name_owner(d),
        None => None,
    }
}

/// The owner of the sender name a rule asks for, where it has one.
pub open spec fn rule_owner(r: RegistrySpec, rule: RuleSpec) -> Option<Seq<char>> {
    match rule.sender {
        Some(s) => owner_of(r, s),
        None => None,
    }
}

/// Whether a connection with rules `rules` that is a monitor or not wants
/// the broadcast message `msg`: no monitor, and one of its rules matches.
pub open spec fn wants(r: RegistrySpec, rules: Seq<RuleSpec>, monitor: bool, msg: Message) -> bool {
    &&& !monitor
    &&& exists|k: int|
        0 <= k < rules.len() && crate::daemon::match_rules::rule_matches(
            #[trigger] rules[k],
            msg.header.message_type,
            msg.header.fields_spec(),
            values_view(msg.body@),
            rule_owner(r, rules[k]),
        )
}

/// Whether the connection `conn` gets the broadcast `msg` (before policy
/// and AppArmor are asked about it).
pub fn wants_broadcast(bus: &BusState, conn: &ConnectionEntry, msg: &Message) -> (b: bool)
    requires
        bus.wf(),
    ensures
        b == wants(bus.registry@, rules_view(conn.match_rules@), conn.is_monitor, *msg),
{
    if conn.is_monitor {
        return false;
    }
    let ghost rs = rules_view(conn.match_rules@);
    let mut k: usize = 0;
    while k < conn.match_rules.len()
        invariant
            rs == rules_view(conn.match_rules@),
            k <= rs.len(),
            !conn.is_monitor,
            bus.wf(),
            forall|j: int|
                0 <= j < k ==> !crate::daemon::match_rules::rule_matches(
                    #[trigger] rs[j],
                    msg.header.message_type,
                    msg.header.fields_spec(),
                    values_view(msg.body@),
                    rule_owner(bus.registry@, rs[j]),
                ),
        decreases conn.match_rules.len() - k,
    {
        let rule = &conn.match_rules[k];
        assert(rs[k as int] == rule@);
        let owner = match &rule.sender {
            Some(s) => bus.registry.get_name_owner(s.as_str()),
            None => None,
        };
        let hit = match &owner {
            Some(o) => rule.matches(msg, Some(o.as_str())),
            None => rule.matches(msg, None),
        };
        assert(crate::daemon::registry::opt_text(owner) == rule_owner(bus.registry@, rs[k as int]));
        if hit {
            assert(crate::daemon::match_rules::rule_matches(
                rs[k as int],
                msg.header.message_type,
                msg.header.fields_spec(),
                values_view(msg.body@),
                rule_owner(bus.registry@, rs[k as int]),
            ));
            return true;
        }
        k = k + 1;
    }
    false
}

/// A monitor takes no copy of a broadcast: it sees each message once, as
/// the monitor it is.
pub proof fn monitors_take_no_broadcast(r: RegistrySpec, rules: Seq<RuleSpec>, msg: Message)
    ensures
        !wants(r, rules, true, msg),
{
}

} // verus!
