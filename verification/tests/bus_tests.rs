use oxibus::addr::Address;
use oxibus::auth::keyring::{Key, Keyring, KEY_LENGTH_BYTES};
use oxibus::config::PathsConfig;
use oxibus::credentials::PeerCredentials;
use oxibus::daemon::activation::{ActivationError, ActivationRegistry, ServiceDef, SpawnStrategy};
use oxibus::daemon::bus::BusKind;
use oxibus::daemon::connection::{
    connection_allowed, register_connection, security_label_of, unregister_connection,
};
use oxibus::daemon::dispatch::{
    after_activation, after_receive_check, after_send_check, call_destination, delivery_check,
    driver_introspection_xml, driver_reply, error_reply, handle_side_interface, is_hello_call,
    name_owner_changed_signal, name_signal, reply_target, route_incoming, send_policy_check,
    signal_target, wants_broadcast, write_failed, CallStep, Route, SideStep, SignalTarget, Target,
    NOT_REGISTERED_TEXT,
};
use oxibus::daemon::driver::{
    dict_of_u32, finish_request_name, handle, peer_outcome, request_name_policy,
    start_service_outcome, string_array, BusState, ConnectionEntry, DriverError, DriverOutcome,
    DriverStep, PeerQuery,
};
use oxibus::daemon::identity::Identity;
use oxibus::daemon::match_rules::parse_match_rule;
use oxibus::daemon::policy::{Context, Policy, PolicyRule};
use oxibus::daemon::registry::{NameOwnerChange, Registry, REQUEST_REPLY_PRIMARY_OWNER};
use oxibus::daemon::startup::{
    activation_strategy, listen_plan, paths_equal, stored_machine_id,
};
use oxibus::daemon::stats::Stats;
use oxibus::header::MessageType;
use oxibus::message::{Message, MessageBuilder};
use oxibus::tools::{resolve_address, AddressChoice, AddressError, BusChoice};
use oxibus::transport::{ReadBuffer, ReadError};
use oxibus::types::{ObjectPath, Type, Value};

fn bus(kind: BusKind) -> BusState {
    BusState {
        kind,
        registry: Registry::new(),
        policy: Policy::default(),
        activation: ActivationRegistry::new(),
        activation_environment: Vec::new(),
        guid: "0123456789abcdef0123456789abcdef".to_string(),
        max_names_per_connection: 2,
        max_match_rules_per_connection: 2,
    }
}

fn creds(uid: u32, pid: i32) -> PeerCredentials {
    PeerCredentials { uid, gid: uid, pid }
}

fn joined(b: &mut BusState, uid: u32) -> ConnectionEntry {
    register_connection(b, creds(uid, 4242), None)
}

fn done(s: DriverStep) -> DriverOutcome {
    match s {
        DriverStep::Done(o) => o,
        other => panic!("expected an answer, got {:?}", other),
    }
}

fn error_of(o: &DriverOutcome) -> (&str, &str) {
    match &o.result {
        Err(e) => (e.name.as_str(), e.message.as_str()),
        Ok(v) => panic!("expected an error, got {:?}", v),
    }
}

fn values_of(o: &DriverOutcome) -> &Vec<Value> {
    match &o.result {
        Ok(v) => v,
        Err(e) => panic!("expected values, got {:?}", e),
    }
}

fn call(member: &str, dest: Option<&str>) -> MessageBuilder {
    let b = MessageBuilder::method_call(ObjectPath::new("/org/example").unwrap(), member);
    match dest {
        Some(d) => b.destination(d),
        None => b,
    }
}

fn with_sender(m: Message, sender: &str) -> Message {
    let mut m = m;
    m.set_sender(sender);
    m
}

#[test]
fn hello_registers_once() {
    let mut b = bus(BusKind::Session);
    let mut c = joined(&mut b, 1000);
    assert_eq!(c.unique_name, ":1.1");
    let o = done(handle(&mut b, &mut c, "Hello", &[]));
    assert!(c.is_registered);
    assert_eq!(values_of(&o), &vec![Value::String(":1.1".to_string())]);
    assert_eq!(o.name_owner_changes.len(), 1);
    assert_eq!(o.name_owner_changes[0].new_owner.as_deref(), Some(":1.1"));
    assert_eq!(o.name_owner_changes[0].old_owner, None);
    let again = done(handle(&mut b, &mut c, "Hello", &[]));
    assert_eq!(
        error_of(&again),
        ("org.freedesktop.DBus.Error.Failed", "Already handled an Hello message")
    );
}

#[test]
fn request_name_walks_its_steps() {
    let mut b = bus(BusKind::Session);
    let c = joined(&mut b, 1000);
    let mut caller = c;
    let args = vec![Value::String("com.example.Svc".to_string()), Value::UInt32(0)];
    let step = handle(&mut b, &mut caller, "RequestName", &args);
    let (name, flags) = match step {
        DriverStep::RequestName { name, flags } => (name, flags),
        other => panic!("unexpected {:?}", other),
    };
    assert_eq!(name, "com.example.Svc");
    assert_eq!(flags, 0);
    let id = Identity { uid: 1000, user_name: Some("alice".to_string()), group_names: vec![] };
    assert!(request_name_policy(&b, &id, &name).is_none());
    let o = finish_request_name(&mut b, &caller, &name, flags, true);
    assert_eq!(values_of(&o), &vec![Value::UInt32(REQUEST_REPLY_PRIMARY_OWNER)]);
    assert_eq!(b.registry.get_name_owner("com.example.Svc").as_deref(), Some(":1.1"));
    let owner = done(handle(&mut b, &mut caller, "GetNameOwner", &[Value::String("com.example.Svc".to_string())]));
    assert_eq!(values_of(&owner), &vec![Value::String(":1.1".to_string())]);
}

#[test]
fn request_name_refusals() {
    let mut b = bus(BusKind::Session);
    let mut caller = joined(&mut b, 1000);
    let bad = done(handle(&mut b, &mut caller, "RequestName", &[Value::String(":1.9".to_string()), Value::UInt32(0)]));
    assert_eq!(error_of(&bad), ("org.freedesktop.DBus.Error.InvalidArgs", "invalid bus name ':1.9'"));
    let no_flags = done(handle(&mut b, &mut caller, "RequestName", &[Value::String("a.b".to_string())]));
    assert_eq!(error_of(&no_flags), ("org.freedesktop.DBus.Error.InvalidArgs", "expected uint32 argument 1"));
    let no_name = done(handle(&mut b, &mut caller, "RequestName", &[]));
    assert_eq!(error_of(&no_name), ("org.freedesktop.DBus.Error.InvalidArgs", "expected string argument 0"));
    let denied = finish_request_name(&mut b, &caller, "a.b", 0, false);
    assert_eq!(
        error_of(&denied),
        ("org.freedesktop.DBus.Error.AccessDenied", "AppArmor mediation denied owning the name \"a.b\"")
    );
    assert!(values_of(&finish_request_name(&mut b, &caller, "a.b", 0, true)).len() == 1);
    assert!(values_of(&finish_request_name(&mut b, &caller, "a.c", 0, true)).len() == 1);
    let limited = finish_request_name(&mut b, &caller, "a.d", 0, true);
    assert_eq!(
        error_of(&limited),
        ("org.freedesktop.DBus.Error.LimitsExceeded", "Connection has reached the maximum of 2 owned/queued names")
    );
}

#[test]
fn ownership_policy_refusal_text() {
    let mut b = bus(BusKind::System);
    b.policy = Policy::from_rules(vec![PolicyRule {
        context: Context::Default,
        user: None,
        group: None,
        allow_own: vec![],
        deny_own: vec!["*".to_string()],
        allow_send: vec![],
        deny_send: vec![],
        allow_receive: vec![],
        deny_receive: vec![],
    }]);
    let id = Identity { uid: 1000, user_name: Some("alice".to_string()), group_names: vec![] };
    let o = request_name_policy(&b, &id, "com.example.X").unwrap();
    assert_eq!(
        error_of(&o),
        ("org.freedesktop.DBus.Error.AccessDenied", "Connection is not allowed to own the name \"com.example.X\"")
    );
}

#[test]
fn release_and_listing() {
    let mut b = bus(BusKind::Session);
    let mut caller = joined(&mut b, 1000);
    finish_request_name(&mut b, &caller, "a.b", 0, true);
    let names = done(handle(&mut b, &mut caller, "ListNames", &[]));
    match &values_of(&names)[0] {
        Value::Array(a) => {
            assert_eq!(a.elements.len(), 2);
            assert!(a.elements.contains(&Value::String("a.b".to_string())));
            assert!(a.elements.contains(&Value::String(":1.1".to_string())));
        }
        other => panic!("unexpected {:?}", other),
    }
    let queued = done(handle(&mut b, &mut caller, "ListQueuedOwners", &[Value::String("a.b".to_string())]));
    assert_eq!(values_of(&queued)[0], string_array(vec![":1.1".to_string()]));
    let has = done(handle(&mut b, &mut caller, "NameHasOwner", &[Value::String("a.b".to_string())]));
    assert_eq!(values_of(&has), &vec![Value::Boolean(true)]);
    let rel = done(handle(&mut b, &mut caller, "ReleaseName", &[Value::String("a.b".to_string())]));
    assert_eq!(values_of(&rel), &vec![Value::UInt32(1)]);
    assert_eq!(rel.name_owner_changes.len(), 1);
    let gone = done(handle(&mut b, &mut caller, "GetNameOwner", &[Value::String("a.b".to_string())]));
    assert_eq!(
        error_of(&gone),
        ("org.freedesktop.DBus.Error.NameHasNoOwner", "Could not get owner of name 'a.b': no such name")
    );
    let needs = done(handle(&mut b, &mut caller, "NameHasOwner", &[Value::UInt32(3)]));
    assert_eq!(error_of(&needs), ("org.freedesktop.DBus.Error.InvalidArgs", "NameHasOwner needs a name"));
}

#[test]
fn match_rules_are_added_and_removed() {
    let mut b = bus(BusKind::Session);
    let mut caller = joined(&mut b, 1000);
    let rule = Value::String("type='signal'".to_string());
    assert!(done(handle(&mut b, &mut caller, "AddMatch", &[Value::Variant(Box::new(Value::String("type='signal'".to_string())))])).result.is_ok());
    assert_eq!(caller.match_rules.len(), 1);
    let bad = done(handle(&mut b, &mut caller, "AddMatch", &[Value::String("bogus='x'".to_string())]));
    assert_eq!(error_of(&bad).0, "org.freedesktop.DBus.Error.MatchRuleInvalid");
    assert!(done(handle(&mut b, &mut caller, "AddMatch", &[rule])).result.is_ok());
    let full = done(handle(&mut b, &mut caller, "AddMatch", &[Value::String("member='X'".to_string())]));
    assert_eq!(
        error_of(&full),
        ("org.freedesktop.DBus.Error.LimitsExceeded", "Connection has reached the maximum of 2 match rules")
    );
    let removed = done(handle(&mut b, &mut caller, "RemoveMatch", &[Value::String("type='signal'".to_string())]));
    assert!(removed.result.is_ok());
    assert_eq!(caller.match_rules.len(), 0);
    let missing = done(handle(&mut b, &mut caller, "RemoveMatch", &[Value::String("type='signal'".to_string())]));
    assert_eq!(
        error_of(&missing),
        ("org.freedesktop.DBus.Error.MatchRuleNotFound", "The given match rule wasn't found and can't be removed")
    );
}

#[test]
fn activation_environment_updates() {
    let mut b = bus(BusKind::Session);
    let mut caller = joined(&mut b, 1000);
    let entry = |k: &str, v: &str| Value::DictEntry(Box::new(Value::String(k.to_string())), Box::new(Value::String(v.to_string())));
    let env = Value::Array(oxibus::types::ArrayValue::new(
        Type::DictEntry(Box::new(Type::String), Box::new(Type::String)),
        vec![entry("A", "1"), entry("B", "2"), entry("A", "3")],
    ));
    assert!(done(handle(&mut b, &mut caller, "UpdateActivationEnvironment", &[env])).result.is_ok());
    assert_eq!(b.activation_environment, vec![("A".to_string(), "3".to_string()), ("B".to_string(), "2".to_string())]);
    let wrong = done(handle(&mut b, &mut caller, "UpdateActivationEnvironment", &[Value::UInt32(1)]));
    assert_eq!(error_of(&wrong), ("org.freedesktop.DBus.Error.InvalidArgs", "expected a{ss} environment map"));
    let mut sys = bus(BusKind::System);
    let mut c2 = joined(&mut sys, 0);
    let refused = done(handle(&mut sys, &mut c2, "UpdateActivationEnvironment", &[]));
    assert_eq!(
        error_of(&refused),
        ("org.freedesktop.DBus.Error.AccessDenied", "Cannot change activation environment on a system bus.")
    );
}

#[test]
fn unknown_method_and_simple_answers() {
    let mut b = bus(BusKind::Session);
    let mut caller = joined(&mut b, 1000);
    let o = done(handle(&mut b, &mut caller, "Frobnicate", &[]));
    assert_eq!(
        error_of(&o),
        ("org.freedesktop.DBus.Error.UnknownMethod", "org.freedesktop.DBus has no method \"Frobnicate\"")
    );
    let id = done(handle(&mut b, &mut caller, "GetId", &[]));
    assert_eq!(values_of(&id), &vec![Value::String("0123456789abcdef0123456789abcdef".to_string())]);
    assert!(values_of(&done(handle(&mut b, &mut caller, "ReloadConfig", &[]))).is_empty());
}

#[test]
fn start_service_steps() {
    let mut b = bus(BusKind::Session);
    b.activation = ActivationRegistry::from_services(vec![ServiceDef {
        name: "com.example.Svc".to_string(),
        program: "/usr/bin/svc".to_string(),
        args: vec![],
        user: None,
        environment: vec![],
    }]);
    let mut caller = joined(&mut b, 1000);
    let unknown = done(handle(&mut b, &mut caller, "StartServiceByName", &[Value::String("x.y".to_string()), Value::UInt32(0)]));
    assert_eq!(
        error_of(&unknown),
        ("org.freedesktop.DBus.Error.ServiceUnknown", "The name x.y was not provided by any .service files")
    );
    match handle(&mut b, &mut caller, "StartServiceByName", &[Value::String("com.example.Svc".to_string())]) {
        DriverStep::StartService(n) => assert_eq!(n, "com.example.Svc"),
        other => panic!("unexpected {:?}", other),
    }
    assert_eq!(values_of(&start_service_outcome(&Ok(()))), &vec![Value::UInt32(1)]);
    let failed = start_service_outcome(&Err(ActivationError::ExecFailed("boom".to_string())));
    assert_eq!(error_of(&failed), ("org.freedesktop.DBus.Error.Spawn.ExecFailed", "exec failed: boom"));
    let running = done(handle(&mut b, &mut caller, "StartServiceByName", &[Value::String(":1.1".to_string())]));
    assert_eq!(values_of(&running), &vec![Value::UInt32(2)]);
}

#[test]
fn credential_calls_look_up_the_owner() {
    let mut b = bus(BusKind::Session);
    let mut caller = joined(&mut b, 1000);
    let other = register_connection(&mut b, creds(1001, -5), None);
    let step = handle(&mut b, &mut caller, "GetConnectionUnixProcessID", &[Value::String(":1.2".to_string())]);
    match step {
        DriverStep::Peer { name, owner, query } => {
            assert_eq!(name, ":1.2");
            assert_eq!(owner, ":1.2");
            assert_eq!(query, PeerQuery::ProcessId);
        }
        other => panic!("unexpected {:?}", other),
    }
    assert_eq!(values_of(&peer_outcome(PeerQuery::ProcessId, ":1.2", Some(&other))), &vec![Value::UInt32(0)]);
    assert_eq!(values_of(&peer_outcome(PeerQuery::UnixUser, ":1.2", Some(&other))), &vec![Value::UInt32(1001)]);
    let creds_dict = peer_outcome(PeerQuery::Credentials, ":1.2", Some(&other));
    assert_eq!(values_of(&creds_dict)[0], dict_of_u32(&[("UnixUserID", 1001), ("ProcessID", 0)]));
    let gone = peer_outcome(PeerQuery::UnixUser, ":1.7", None);
    assert_eq!(
        error_of(&gone),
        ("org.freedesktop.DBus.Error.NameHasNoOwner", "Could not get UID of name ':1.7': no such name")
    );
    let none = done(handle(&mut b, &mut caller, "GetConnectionUnixUser", &[Value::String("no.such".to_string())]));
    assert_eq!(
        error_of(&none),
        ("org.freedesktop.DBus.Error.NameHasNoOwner", "Could not get UID of name 'no.such': no such name")
    );
}

#[test]
fn hello_detection_and_routing() {
    let hello = call("Hello", Some("org.freedesktop.DBus")).build(1);
    assert!(is_hello_call(&hello));
    let iface = call("Hello", Some("org.freedesktop.DBus")).interface("org.freedesktop.DBus").build(2);
    assert!(is_hello_call(&iface));
    let other_iface = call("Hello", Some("org.freedesktop.DBus")).interface("org.example").build(3);
    assert!(!is_hello_call(&other_iface));
    let elsewhere = call("Hello", Some("org.example")).build(4);
    assert!(!is_hello_call(&elsewhere));
    assert_eq!(route_incoming(false, &hello), Route::MethodCall);
    assert_eq!(route_incoming(false, &elsewhere), Route::Refuse);
    assert_eq!(route_incoming(true, &elsewhere), Route::MethodCall);
    let sig = MessageBuilder::signal(ObjectPath::new("/a").unwrap(), "a.b", "C").build(5);
    assert_eq!(route_incoming(true, &sig), Route::Signal);
    let ret = MessageBuilder::method_return(5).build(6);
    assert_eq!(route_incoming(true, &ret), Route::Reply);
    assert_eq!(NOT_REGISTERED_TEXT, "Client tried to send a message other than Hello without being registered");
}

#[test]
fn error_replies_go_back_to_the_caller() {
    let m = with_sender(call("Frob", Some("a.b")).build(7), ":1.3");
    let r = error_reply(&m, "org.freedesktop.DBus.Error.Failed", "nope", 99).unwrap();
    assert_eq!(r.message_type(), MessageType::Error);
    assert_eq!(r.serial(), 99);
    assert_eq!(r.reply_serial(), Some(7));
    assert_eq!(r.destination(), Some(":1.3"));
    assert_eq!(r.sender(), Some("org.freedesktop.DBus"));
    assert_eq!(r.body, vec![Value::String("nope".to_string())]);
    let quiet = call("Frob", Some("a.b")).no_reply_expected().build(8);
    assert!(error_reply(&quiet, "x.y", "z", 1).is_none());
    let ok = driver_reply(&m, Ok(vec![Value::UInt32(3)]), 100).unwrap();
    assert_eq!(ok.message_type(), MessageType::MethodReturn);
    assert_eq!(ok.body, vec![Value::UInt32(3)]);
    let e = driver_reply(&m, Err(DriverError { name: "a.Err".to_string(), message: "m".to_string() }), 101).unwrap();
    assert_eq!(e.message_type(), MessageType::Error);
    assert_eq!(e.body, vec![Value::String("m".to_string())]);
}

#[test]
fn ownership_signals() {
    let change = NameOwnerChange { name: "a.b".to_string(), old_owner: None, new_owner: Some(":1.4".to_string()) };
    let s = name_owner_changed_signal(&change, 11);
    assert_eq!(s.message_type(), MessageType::Signal);
    assert_eq!(s.member(), Some("NameOwnerChanged"));
    assert_eq!(s.interface(), Some("org.freedesktop.DBus"));
    assert_eq!(s.path().map(|p| p.as_str()), Some("/org/freedesktop/DBus"));
    assert_eq!(
        s.body,
        vec![Value::String("a.b".to_string()), Value::String(String::new()), Value::String(":1.4".to_string())]
    );
    let acquired = name_signal(":1.4", "NameAcquired", "a.b", 12);
    assert_eq!(acquired.destination(), Some(":1.4"));
    assert_eq!(acquired.body, vec![Value::String("a.b".to_string())]);
}

#[test]
fn method_call_routing_steps() {
    let mut b = bus(BusKind::Session);
    let svc = joined(&mut b, 1001);
    finish_request_name(&mut b, &svc, "com.example.Svc", 0, true);
    let no_dest = call("X", None).build(1);
    match call_destination(&no_dest) {
        CallStep::Fail(f) => assert_eq!((f.name.as_str(), f.text.as_str(), f.denied), ("org.freedesktop.DBus.Error.BadAddress", "Method call missing DESTINATION", false)),
        other => panic!("unexpected {:?}", other),
    }
    assert!(matches!(call_destination(&call("Hello", Some("org.freedesktop.DBus")).build(2)), CallStep::Driver));
    let m = call("X", Some("com.example.Svc")).build(3);
    match call_destination(&m) {
        CallStep::Other(d) => assert_eq!(d, "com.example.Svc"),
        other => panic!("unexpected {:?}", other),
    }
    let id = Identity { uid: 1000, user_name: None, group_names: vec![] };
    assert!(send_policy_check(&b, &id, &m, "com.example.Svc").is_none());
    match after_send_check(&b, true, &m, "com.example.Svc") {
        Target::Deliver(o) => assert_eq!(o, ":1.1"),
        other => panic!("unexpected {:?}", other),
    }
    match after_send_check(&b, false, &m, "com.example.Svc") {
        Target::Fail(f) => assert_eq!(f.text, "AppArmor mediation denied sending to \"com.example.Svc\""),
        other => panic!("unexpected {:?}", other),
    }
    match after_send_check(&b, true, &m, "com.example.Gone") {
        Target::Fail(f) => assert_eq!(f.text, "The name com.example.Gone was not provided by any .service files or activatable connections"),
        other => panic!("unexpected {:?}", other),
    }
    match after_activation(&b, &Ok(()), "com.example.Gone") {
        Target::Fail(f) => assert_eq!(f.text, "activation raced with removal"),
        other => panic!("unexpected {:?}", other),
    }
    match after_activation(&b, &Err(ActivationError::TimedOut("x".to_string())), "x") {
        Target::Fail(f) => assert_eq!(f.name, "org.freedesktop.DBus.Error.Spawn.ExecFailed"),
        other => panic!("unexpected {:?}", other),
    }
    assert_eq!(delivery_check(&b, None, &m).unwrap().text, "owner vanished");
    assert!(delivery_check(&b, Some(&id), &m).is_none());
    assert!(after_receive_check(true).is_none());
    assert!(after_receive_check(false).unwrap().denied);
    assert_eq!(write_failed().name, "org.freedesktop.DBus.Error.NoReply");
    let reply = MessageBuilder::method_return(3).destination("com.example.Svc").build(4);
    assert_eq!(reply_target(&b, &reply).as_deref(), Some(":1.1"));
}

#[test]
fn signals_reach_those_who_asked() {
    let mut b = bus(BusKind::Session);
    let mut listener = joined(&mut b, 1000);
    let sig = MessageBuilder::signal(ObjectPath::new("/a").unwrap(), "org.example.I", "Ping").build(1);
    assert!(!wants_broadcast(&b, &listener, &sig));
    listener.match_rules.push(parse_match_rule("interface='org.example.I'").unwrap());
    assert!(wants_broadcast(&b, &listener, &sig));
    listener.is_monitor = true;
    assert!(!wants_broadcast(&b, &listener, &sig));
    assert!(matches!(signal_target(&b, &sig), SignalTarget::Broadcast));
    let to = MessageBuilder::signal(ObjectPath::new("/a").unwrap(), "a.b", "C").destination(":1.1").build(2);
    match signal_target(&b, &to) {
        SignalTarget::Unicast(o) => assert_eq!(o.as_deref(), Some(":1.1")),
        other => panic!("unexpected {:?}", other),
    }
}

#[test]
fn side_interfaces_answer() {
    let mut b = bus(BusKind::Session);
    let mut caller = joined(&mut b, 1000);
    let stats = Stats::new(100);
    match handle_side_interface(&b, &stats, 130, &mut caller, Some("org.freedesktop.DBus.Peer"), "Ping", &[]) {
        SideStep::Done(o) => assert!(values_of(&o).is_empty()),
        other => panic!("unexpected {:?}", other),
    }
    match handle_side_interface(&b, &stats, 130, &mut caller, Some("org.freedesktop.DBus.Peer"), "Nope", &[]) {
        SideStep::Done(o) => assert_eq!(error_of(&o).1, "Peer has no method \"Nope\""),
        other => panic!("unexpected {:?}", other),
    }
    match handle_side_interface(&b, &stats, 130, &mut caller, Some("org.freedesktop.DBus.Introspectable"), "Introspect", &[]) {
        SideStep::Done(o) => assert_eq!(values_of(&o), &vec![Value::String(driver_introspection_xml())]),
        other => panic!("unexpected {:?}", other),
    }
    match handle_side_interface(&b, &stats, 130, &mut caller, Some("org.freedesktop.DBus.Debug.Stats"), "GetStats", &[]) {
        SideStep::Done(o) => assert_eq!(
            values_of(&o)[0],
            dict_of_u32(&[
                ("BusNames", 1),
                ("ActiveConnections", 1),
                ("MessagesRouted", 0),
                ("BytesRouted", 0),
                ("SignalsDelivered", 0),
                ("ActivationsStarted", 0),
                ("PolicyDenials", 0),
                ("UptimeSeconds", 30),
            ])
        ),
        other => panic!("unexpected {:?}", other),
    }
    match handle_side_interface(&b, &stats, 130, &mut caller, Some("org.freedesktop.DBus.Debug.Stats"), "GetConnectionStats", &[Value::String(":1.1".to_string())]) {
        SideStep::ConnectionStats { name, owner } => assert_eq!((name.as_str(), owner.as_str()), (":1.1", ":1.1")),
        other => panic!("unexpected {:?}", other),
    }
    assert!(matches!(
        handle_side_interface(&b, &stats, 130, &mut caller, None, "Ping", &[]),
        SideStep::NotSide
    ));
    let rules = Value::Array(oxibus::types::ArrayValue::new(Type::String, vec![Value::String("bad".to_string())]));
    match handle_side_interface(&b, &stats, 130, &mut caller, Some("org.freedesktop.DBus.Monitoring"), "BecomeMonitor", &[rules, Value::UInt32(0)]) {
        SideStep::Done(o) => assert!(o.result.is_ok()),
        other => panic!("unexpected {:?}", other),
    }
    assert!(caller.is_monitor);
    assert_eq!(caller.match_rules.len(), 1);
    assert_eq!(caller.match_rules[0].raw, "");
}

#[test]
fn connections_come_and_go() {
    let mut b = bus(BusKind::Session);
    assert!(connection_allowed(&b, 1000, 1));
    let c = joined(&mut b, 1000);
    assert!(!connection_allowed(&b, 1000, 1));
    assert!(connection_allowed(&b, 1001, 1));
    finish_request_name(&mut b, &c, "a.b", 0, true);
    let changes = unregister_connection(&mut b, &c.unique_name);
    assert_eq!(changes.len(), 2);
    assert_eq!(changes[1].name, ":1.1");
    assert_eq!(changes[1].new_owner, None);
    assert!(b.registry.get_name_owner("a.b").is_none());
    assert_eq!(security_label_of(Some(b"label".to_vec()), Some(b"other".to_vec())).as_deref(), Some("label"));
    assert_eq!(security_label_of(Some(vec![0xff]), Some(b"other".to_vec())).as_deref(), Some("other"));
    assert_eq!(security_label_of(None, None), None);
}

fn paths() -> PathsConfig {
    PathsConfig {
        prefix: "/usr".to_string(),
        bindir: "bin".to_string(),
        sbindir: "sbin".to_string(),
        libdir: "lib".to_string(),
        includedir: "include".to_string(),
        conf_dir: "/etc/dbus-1".to_string(),
        policy_dir: "/etc/dbus-1/system.d".to_string(),
        services_dir: "/usr/share/dbus-1/services".to_string(),
        vendor_services_dir: "/usr/share/dbus-1/vendor".to_string(),
        share_dir: "share".to_string(),
        runtime_dir: "/run".to_string(),
        system_socket: "/run/dbus/system_bus_socket".to_string(),
        system_pid_file: "/run/dbus/pid".to_string(),
        session_socket_dir: "/tmp".to_string(),
        state_dir: "/var/lib/dbus".to_string(),
        machine_id_file: "/var/lib/dbus/machine-id".to_string(),
        launch_helper: "/usr/lib/dbus-daemon-launch-helper".to_string(),
        legacy_system_socket: "/var/run/dbus/system_bus_socket".to_string(),
    }
}

#[test]
fn listen_plans() {
    let p = paths();
    let sys = listen_plan(BusKind::System, None, &p, "unix:tmpdir=/tmp").unwrap();
    assert!(sys.write_pid);
    assert_eq!(sys.addresses.len(), 2);
    assert!(matches!(&sys.addresses[0], Address::UnixPath(x) if x == "/run/dbus/system_bus_socket"));
    let mut same = paths();
    same.legacy_system_socket = "/run/dbus//system_bus_socket".to_string();
    assert_eq!(listen_plan(BusKind::System, None, &same, "").unwrap().addresses.len(), 1);
    let given = listen_plan(BusKind::Session, Some("unix:path=/tmp/x"), &p, "").unwrap();
    assert!(!given.write_pid);
    assert!(matches!(&given.addresses[0], Address::UnixPath(x) if x == "/tmp/x"));
    assert!(listen_plan(BusKind::System, Some("unix:path=/s"), &p, "").unwrap().write_pid);
    assert!(listen_plan(BusKind::Session, None, &p, "bogus").is_err());
    assert!(paths_equal("/a/./b/", "/a/b"));
    assert!(!paths_equal("a/b", "/a/b"));
    assert!(paths_equal("./a", "./a"));
    assert!(!paths_equal("./a", "a"));
}

#[test]
fn machine_id_and_strategy() {
    assert_eq!(stored_machine_id(Some("  abc\n")).as_deref(), Some("abc"));
    assert_eq!(stored_machine_id(Some(" \n")), None);
    assert_eq!(stored_machine_id(None), None);
    assert!(matches!(activation_strategy(BusKind::System, "/h", true), SpawnStrategy::ViaLaunchHelper("/h")));
    assert!(matches!(activation_strategy(BusKind::System, "/h", false), SpawnStrategy::Direct));
    assert!(matches!(activation_strategy(BusKind::Session, "/h", true), SpawnStrategy::Direct));
}

#[test]
fn best_key_reuses_a_recent_key() {
    let mut kr = Keyring::new("/tmp".to_string(), "ctx".to_string(), vec![
        Key { id: 7, created: 1000, secret: vec![1, 2, 3] },
    ]);
    assert_eq!(kr.best_key(1100), (7, false));
    let (id, added) = kr.best_key(2000);
    assert!(added);
    assert!(id <= 0x7fff_ffff);
    assert!(!kr.has_key(7));
    assert!(kr.has_key(id));
    assert_eq!(kr.hex_key(id).unwrap().len(), 2 * KEY_LENGTH_BYTES);
    assert_eq!(kr.best_key(2001), (id, false));
}

#[test]
fn read_buffer_cuts_nul_lines_and_messages() {
    let mut rb = ReadBuffer::new(1 << 20);
    assert!(rb.take_initial_nul().is_none());
    rb.feed(b"\0AUTH EXTERNAL 31303030\r\nBEG", vec![]);
    assert!(matches!(rb.take_initial_nul(), Some(Ok(()))));
    assert_eq!(rb.take_line().unwrap().as_deref(), Some("AUTH EXTERNAL 31303030"));
    assert!(rb.take_line().unwrap().is_none());
    rb.feed(b"IN\r\n", vec![]);
    assert_eq!(rb.take_line().unwrap().as_deref(), Some("BEGIN"));
    let msg = call("Ping", Some("org.example")).fd(9).build(5);
    let bytes = msg.to_bytes().unwrap();
    rb.feed(&bytes[..10], vec![]);
    assert!(rb.take_message().unwrap().is_none());
    rb.feed(&bytes[10..], vec![3, 4]);
    let got = rb.take_message().unwrap().unwrap();
    assert_eq!(got.member(), Some("Ping"));
    assert_eq!(got.serial(), 5);
    assert_eq!(got.fds, vec![3]);
    let mut small = ReadBuffer::new(8);
    small.feed(&bytes, vec![]);
    assert!(matches!(small.take_message(), Err(ReadError::TooLarge { max: 8, .. })));
    let mut bad = ReadBuffer::new(100);
    bad.feed(b"x", vec![]);
    assert!(matches!(bad.take_initial_nul(), Some(Err(ReadError::NoLeadingNul))));
    let mut junk = ReadBuffer::new(100);
    junk.feed(&[0xff, b'\r', b'\n'], vec![]);
    assert!(matches!(junk.take_line(), Err(ReadError::LineNotUtf8)));
    let mut long = ReadBuffer::new(100);
    long.feed(&vec![b'a'; 16385], vec![]);
    assert!(matches!(long.take_line(), Err(ReadError::LineTooLong)));
}

#[test]
fn tool_addresses() {
    match resolve_address(BusChoice::Session, Some("unix:path=/x"), None, None).unwrap() {
        AddressChoice::Address(Address::UnixPath(p)) => assert_eq!(p, "/x"),
        other => panic!("unexpected {:?}", other),
    }
    assert!(matches!(resolve_address(BusChoice::Session, None, None, None), Err(AddressError::NoSessionAddress)));
    assert!(matches!(
        resolve_address(BusChoice::System, None, None, None),
        Ok(AddressChoice::ConfiguredSystemSocket)
    ));
    match resolve_address(BusChoice::System, None, Some("unix:path=/s"), Some("unix:path=/y")).unwrap() {
        AddressChoice::Address(Address::UnixPath(p)) => assert_eq!(p, "/y"),
        other => panic!("unexpected {:?}", other),
    }
    assert!(matches!(resolve_address(BusChoice::Session, None, Some("nope"), None), Err(AddressError::Invalid(_))));
}

#[test]
fn sasl_line_and_nul_roundtrip() {
    let mut tb = ReadBuffer::new(1 << 20);
    let mut wire = vec![0u8];
    wire.extend_from_slice(b"AUTH EXTERNAL\r\n");
    tb.feed(&wire, vec![]);
    assert!(matches!(tb.take_initial_nul(), Some(Ok(()))));
    assert_eq!(tb.take_line().unwrap().as_deref(), Some("AUTH EXTERNAL"));
}

#[test]
fn message_roundtrip_over_pair() {
    let mut serial = oxibus::message::SerialGenerator::new();
    let msg = MessageBuilder::method_call(ObjectPath::new("/").unwrap(), "Ping").build(serial.next());
    let mut tb = ReadBuffer::new(1 << 20);
    tb.feed(&msg.to_bytes().unwrap(), vec![]);
    let got = tb.take_message().unwrap().unwrap();
    assert_eq!(got.member(), Some("Ping"));
}

#[test]
fn oversized_message_is_rejected_before_buffering_body() {
    let mut serial = oxibus::message::SerialGenerator::new();
    let big_array = Value::Array(oxibus::types::ArrayValue::new(Type::Byte, (0..200).map(|_| Value::Byte(0)).collect()));
    let msg = MessageBuilder::method_call(ObjectPath::new("/").unwrap(), "Ping").arg(big_array).build(serial.next());
    let bytes = msg.to_bytes().unwrap();
    let mut tb = ReadBuffer::new(64);
    tb.feed(&bytes[..16], vec![]);
    match tb.take_message() {
        Err(ReadError::TooLarge { len, max }) => {
            assert_eq!(max, 64);
            assert_eq!(len, bytes.len());
        }
        other => panic!("expected a rejection, got {:?}", other.map(|m| m.is_some())),
    }
}
