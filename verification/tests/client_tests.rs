use oxibus::client::calls::{
    call_reply, call_result, hello_name, properties_changed_signal, request_name_reply, route_incoming, Incoming,
};
use oxibus::client::object_server::{properties_xml, splice_properties, ObjectServer};
use oxibus::client::{ClientError, MethodError};
use oxibus::header::MessageType;
use oxibus::message::MessageBuilder;
use oxibus::transport::ReadBuffer;
use oxibus::types::ObjectPath;
use oxibus::types::Value;

fn battery_xml() -> String {
    "<interface name=\"com.example.Battery\"><method name=\"Refresh\"/></interface>".to_string()
}

#[test]
fn introspect_auto_appends_properties_when_none_written() {
    let mut os = ObjectServer::new();
    os.register("/battery", "com.example.Battery");
    let props = properties_xml(&[("Percentage".to_string(), Value::Double(42.0f64.to_bits()))]);
    let xml = os.introspect("/battery", &[(battery_xml(), props)]);
    assert!(xml.contains("<method name=\"Refresh\"/>"));
    assert!(xml.contains("<property name=\"Percentage\" type=\"d\" access=\"readwrite\"/>"));
    assert!(xml.find("<property").unwrap() < xml.find("</interface>").unwrap());
}

#[test]
fn introspect_leaves_manual_properties_alone() {
    let mut os = ObjectServer::new();
    os.register("/manual", "com.example.Manual");
    let manual = "<interface name=\"com.example.Manual\"><property name=\"Hand\" type=\"s\" access=\"read\"/></interface>".to_string();
    let props = properties_xml(&[("ShouldNotAppear".to_string(), Value::Boolean(true))]);
    let xml = os.introspect("/manual", &[(manual, props)]);
    assert!(xml.contains("<property name=\"Hand\" type=\"s\" access=\"read\"/>"));
    assert!(!xml.contains("ShouldNotAppear"));
}

#[test]
fn introspect_lists_children_once() {
    let mut os = ObjectServer::new();
    os.register("/a/b/c", "x.Y");
    os.register("/a/b/d", "x.Y");
    os.register("/a/e", "x.Y");
    os.register("/a", "x.Y");
    let xml = os.introspect("/a", &[]);
    assert_eq!(
        xml,
        "<!DOCTYPE node PUBLIC \"-//freedesktop//DTD D-BUS Object Introspection 1.0//EN\"\n \"http://www.freedesktop.org/standards/dbus/1.0/introspect.dtd\">\n<node>\n  <node name=\"b\"/>\n  <node name=\"e\"/>\n</node>\n"
    );
    let root = os.introspect("/", &[]);
    assert!(root.contains("  <node name=\"a\"/>\n"));
    assert_eq!(root.matches("<node name=").count(), 1);
}

#[test]
fn registration_and_dispatch_targets() {
    let mut os = ObjectServer::new();
    assert!(!os.has_path("/o"));
    os.register("/o", "a.One");
    os.register("/o", "a.One");
    assert_eq!(os.interfaces_at("/o"), vec!["a.One".to_string()]);
    assert_eq!(os.dispatch_target("/o", None, "M").unwrap(), "a.One");
    os.register("/o", "a.Two");
    assert!(os.has_interface("/o", "a.Two"));
    let amb = os.dispatch_target("/o", None, "M").unwrap_err();
    assert_eq!(amb.name, "org.freedesktop.DBus.Error.InvalidArgs");
    assert_eq!(os.dispatch_target("/o", Some("a.Two"), "M").unwrap(), "a.Two");
    let unknown = os.dispatch_target("/o", Some("a.Three"), "M").unwrap_err();
    assert_eq!(unknown.message, "No such interface \"a.Three\"");
    let nowhere = os.dispatch_target("/p", None, "M").unwrap_err();
    assert_eq!(nowhere.message, "No such object path \"/p\"");
    os.unregister("/o", "a.One");
    os.unregister("/o", "a.Two");
    assert!(!os.has_path("/o"));
}

#[test]
fn splicing_properties() {
    assert_eq!(splice_properties("<interface/>", "<property/>"), "<interface/>");
    assert_eq!(
        splice_properties("<interface name=\"a\"></interface>", "<p/>"),
        "<interface name=\"a\"><p/></interface>"
    );
    assert_eq!(splice_properties("<interface name=\"a\"></interface>", ""), "<interface name=\"a\"></interface>");
}

#[test]
fn peer_to_peer_call_and_reply() {
    let mut server = ObjectServer::new();
    server.register("/echo", "com.example.Echo");
    let call = MessageBuilder::method_call(ObjectPath::new("/echo").unwrap(), "Ping").build(1);
    let mut server_in = ReadBuffer::new(1 << 20);
    server_in.feed(&call.to_bytes().unwrap(), vec![]);
    let received = server_in.take_message().unwrap().unwrap();
    let (path, interface, member, no_reply) = match route_incoming(&received, None) {
        Incoming::Call { path, interface, member, no_reply } => (path, interface, member, no_reply),
        other => panic!("unexpected {:?}", other),
    };
    assert!(!no_reply);
    let target = server.dispatch_target(&path, interface.as_deref(), &member).unwrap();
    assert_eq!(target, "com.example.Echo");
    let result = if member == "Ping" {
        Ok(vec![Value::String("pong".to_string())])
    } else {
        Err(MethodError::unknown_method(&member, &target))
    };
    let reply = call_reply(&received, result, 1);
    let mut client_in = ReadBuffer::new(1 << 20);
    client_in.feed(&reply.to_bytes().unwrap(), vec![]);
    let back = client_in.take_message().unwrap().unwrap();
    assert!(matches!(route_incoming(&back, Some(":1.1")), Incoming::Reply(1)));
    assert_eq!(call_result(back).unwrap(), vec![Value::String("pong".to_string())]);
}

#[test]
fn handler_errors_reach_the_caller() {
    let call = MessageBuilder::method_call(ObjectPath::new("/echo").unwrap(), "Nope").build(4);
    let reply = call_reply(&call, Err(MethodError::unknown_method("Nope", "com.example.Echo")), 9);
    match call_result(reply) {
        Err(ClientError::CallError { name, message }) => {
            assert_eq!(name, "org.freedesktop.DBus.Error.UnknownMethod");
            assert_eq!(message, "No such method \"Nope\" on interface \"com.example.Echo\"");
        }
        other => panic!("unexpected {:?}", other),
    }
    let sig = MessageBuilder::signal(ObjectPath::new("/a").unwrap(), "a.b", "C").build(2);
    assert!(matches!(call_result(sig), Err(ClientError::Protocol(_))));
}

#[test]
fn properties_changed_round_trips_correctly() {
    let msg = properties_changed_signal(
        ObjectPath::new("/obj").unwrap(),
        "com.example.Iface",
        vec![("Level".to_string(), Value::UInt32(7))],
        vec!["Gone".to_string()],
        3,
    );
    let mut rb = ReadBuffer::new(1 << 20);
    rb.feed(&msg.to_bytes().unwrap(), vec![]);
    let got = rb.take_message().unwrap().unwrap();
    assert_eq!(got.message_type(), MessageType::Signal);
    assert_eq!(got.member(), Some("PropertiesChanged"));
    assert_eq!(got.interface(), Some("org.freedesktop.DBus.Properties"));
    assert_eq!(got.body[0], Value::String("com.example.Iface".to_string()));
    match &got.body[1] {
        Value::Array(a) => {
            assert_eq!(a.elements.len(), 1);
            match &a.elements[0] {
                Value::DictEntry(k, v) => {
                    assert_eq!(**k, Value::String("Level".to_string()));
                    assert_eq!(**v, Value::Variant(Box::new(Value::UInt32(7))));
                }
                other => panic!("unexpected {:?}", other),
            }
        }
        other => panic!("unexpected {:?}", other),
    }
    match &got.body[2] {
        Value::Array(a) => assert_eq!(a.elements, vec![Value::String("Gone".to_string())]),
        other => panic!("unexpected {:?}", other),
    }
}

#[test]
fn bus_answers_are_read() {
    assert_eq!(hello_name(&[Value::String(":1.5".to_string())]).unwrap(), ":1.5");
    assert!(matches!(hello_name(&[]), Err(ClientError::Protocol(_))));
    assert_eq!(request_name_reply(&[Value::UInt32(1)]).unwrap(), 1);
    assert!(matches!(request_name_reply(&[Value::Boolean(true)]), Err(ClientError::Protocol(_))));
    let not_ours = MessageBuilder::method_call(ObjectPath::new("/x").unwrap(), "M").destination(":1.9").build(1);
    assert!(matches!(route_incoming(&not_ours, Some(":1.2")), Incoming::Ignore));
    assert!(matches!(route_incoming(&not_ours, Some(":1.9")), Incoming::Call { .. }));
}
