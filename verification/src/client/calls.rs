//! What a client connection decides about the messages it sends and
//! receives: the replies it reads results from, the signals it emits, and
//! where an incoming message goes. Sending, waiting and the handlers are
//! the caller's part.

use crate::client::{ClientError, MethodError};
use crate::header::{text_field, FieldSpec, MessageType};
use crate::message::{reply_to, Message, MessageBuilder};
use crate::types::{values_view, ArrayValue, ObjectPath, Type, TypeSpec, Value, ValueSpec};
use vstd::prelude::*;

verus! {

broadcast use crate::types::lemma_values_view;

/// The text of a string, object path or signature value.
pub open spec fn text_of(v: ValueSpec) -> Option<Seq<char>> {
    match v {
        ValueSpec::String(s) => Some(s),
        ValueSpec::ObjectPath(s) => Some(s),
        ValueSpec::Signature(s) => Some(s),
        _ => None,
    }
}

/// The text of the first of some values, where it is a string.
pub open spec fn first_text(vs: Seq<ValueSpec>) -> Option<Seq<char>> {
    if vs.len() > 0 {
        text_of(vs[0])
    } else {
        None
    }
}

/// The result of a call whose reply is `reply`: its body where it is a
/// method return; the error it names (and the text of its first value)
/// where it is an error; anything else breaks the protocol.
pub fn call_result(reply: Message) -> (r: Result<Vec<Value>, ClientError>)
    ensures
        reply.header.message_type == MessageType::MethodReturn ==> (r matches Ok(v) && v@ == reply.body@),
        reply.header.message_type == MessageType::Error ==> (r matches Err(ClientError::CallError { name, message })
            && name@ == match text_field(reply.header.fields_spec(), 4) {
            Some(n) => n,
            None => Seq::empty(),
        } && message@ == match first_text(values_view(reply.body@)) {
            Some(t) => t,
            None => Seq::empty(),
        }),
        reply.header.message_type != MessageType::MethodReturn && reply.header.message_type
            != MessageType::Error ==> (r matches Err(ClientError::Protocol(m)) && m@
            == "unexpected reply message type"@),
{
    match reply.message_type() {
        MessageType::MethodReturn => Ok(reply.body),
        MessageType::Error => {
            let name = match reply.header.error_name() {
                Some(n) => n.to_owned(),
                None => String::new(),
            };
            let message = if reply.body.len() > 0 {
                match reply.body[0].as_str() {
                    Some(t) => t.to_owned(),
                    None => String::new(),
                }
            } else {
                String::new()
            };
            Err(ClientError::CallError { name, message })
        },
        _ => Err(ClientError::Protocol("unexpected reply message type".to_owned())),
    }
}

/// The unique name the bus's answer to `Hello` gives.
pub fn hello_name(values: &[Value]) -> (r: Result<String, ClientError>)
    ensures
        match first_text(values_view(values@)) {
            Some(t) => r matches Ok(s) && s@ == t,
            None => r matches Err(ClientError::Protocol(m)) && m@ == "Hello did not return a name"@,
        },
{
    if values.len() > 0 {
        match values[0].as_str() {
            Some(t) => {
                return Ok(t.to_owned());
            },
            None => {},
        }
    }
    Err(ClientError::Protocol("Hello did not return a name".to_owned()))
}

/// The number a `UInt32` or `UnixFd` value holds.
pub open spec fn number_of(v: ValueSpec) -> Option<u32> {
    match v {
        ValueSpec::UInt32(n) => Some(n),
        ValueSpec::UnixFd(n) => Some(n),
        _ => None,
    }
}

/// The reply code the bus's answer to `RequestName` gives.
pub fn request_name_reply(values: &[Value]) -> (r: Result<u32, ClientError>)
    ensures
        match if values_view(values@).len() > 0 {
            number_of(values_view(values@)[0])
        } else {
            None
        } {
            Some(n) => r matches Ok(x) && x == n,
            None => r matches Err(ClientError::Protocol(m)) && m@ == "RequestName returned no result"@,
        },
{
    if values.len() > 0 {
        match values[0].as_u32() {
            Some(n) => {
                return Ok(n);
            },
            None => {},
        }
    }
    Err(ClientError::Protocol("RequestName returned no result".to_owned()))
}

/// The body of a `PropertiesChanged` signal: the interface, the changed
/// properties as `a{sv}`, the invalidated ones as `as`.
pub open spec fn properties_changed_body(
    interface: Seq<char>,
    changed: Seq<(Seq<char>, ValueSpec)>,
    invalidated: Seq<Seq<char>>,
) -> Seq<ValueSpec> {
    seq![
        ValueSpec::String(interface),
        ValueSpec::Array(
            TypeSpec::DictEntry(Box::new(TypeSpec::String), Box::new(TypeSpec::Variant)),
            Seq::new(
                changed.len(),
                |i: int|
                    ValueSpec::DictEntry(
                        Box::new(ValueSpec::String(changed[i].0)),
                        Box::new(ValueSpec::Variant(Box::new(changed[i].1))),
                    ),
            ),
        ),
        ValueSpec::Array(TypeSpec::String, Seq::new(invalidated.len(), |i: int| ValueSpec::String(invalidated[i]))),
    ]
}

/// The `PropertiesChanged` signal from `path` about `interface`, with
/// serial `serial`.
pub fn properties_changed_signal(
    path: ObjectPath,
    interface: &str,
    changed: Vec<(String, Value)>,
    invalidated: Vec<String>,
    serial: u32,
) -> (m: Message)
    ensures
        m.header.message_type == MessageType::Signal,
        m.header.serial == serial,
        m.header.flags == 0,
        m.header.fields_spec() == seq![
            FieldSpec::Path(path@),
            FieldSpec::Interface("org.freedesktop.DBus.Properties"@),
            FieldSpec::Member("PropertiesChanged"@),
        ],
        values_view(m.body@) == properties_changed_body(
            interface@,
            Seq::new(changed@.len(), |i: int| (changed@[i].0@, changed@[i].1@)),
            Seq::new(invalidated@.len(), |i: int| invalidated@[i]@),
        ),
{
    let ghost cv = Seq::new(changed@.len(), |i: int| (changed@[i].0@, changed@[i].1@));
    let ghost iv = Seq::new(invalidated@.len(), |i: int| invalidated@[i]@);
    let mut entries: Vec<Value> = Vec::new();
    let mut rest = changed;
    let ghost all = rest@;
    assert(all.skip(0) =~= all);
    while rest.len() > 0
        invariant
            cv == Seq::new(all.len(), |i: int| (all[i].0@, all[i].1@)),
            entries@.len() + rest@.len() == all.len(),
            rest@ == all.skip(entries@.len() as int),
            forall|k: int|
                0 <= k < entries@.len() ==> (#[trigger] entries@[k])@ == ValueSpec::DictEntry(
                    Box::new(ValueSpec::String(cv[k].0)),
                    Box::new(ValueSpec::Variant(Box::new(cv[k].1))),
                ),
        decreases rest.len(),
    {
        let ghost n = entries@.len();
        let (name, value) = rest.remove(0);
        assert((name, value) == all[n as int]);
        assert(rest@ =~= all.skip(n as int + 1));
        let ghost vv = value@;
        let ghost nv = name@;
        let key = Value::String(name);
        assert(key@ == ValueSpec::String(nv));
        assert(nv == cv[n as int].0 && vv == cv[n as int].1);
        let var = Value::Variant(Box::new(value));
        assert(var@ == ValueSpec::Variant(Box::new(vv)));
        let e = Value::DictEntry(Box::new(key), Box::new(var));
        assert(e@ == ValueSpec::DictEntry(Box::new(ValueSpec::String(cv[n as int].0)), Box::new(ValueSpec::Variant(Box::new(cv[n as int].1)))));
        let ghost before = entries@;
        entries.push(e);
        assert(entries@ == before.push(e));
    }
    let ks = Type::String;
    let vs = Type::Variant;
    assert(ks@ == TypeSpec::String && vs@ == TypeSpec::Variant);
    let dt = Type::DictEntry(Box::new(ks), Box::new(vs));
    assert(dt@ == TypeSpec::DictEntry(Box::new(TypeSpec::String), Box::new(TypeSpec::Variant)));
    let ghost ev = values_view(entries@);
    let changed_dict = Value::Array(ArrayValue::new(dt, entries));
    assert(ev =~= properties_changed_body(interface@, cv, iv)[1]->Array_1);
    let mut names: Vec<Value> = Vec::new();
    let mut k: usize = 0;
    while k < invalidated.len()
        invariant
            iv == Seq::new(invalidated@.len(), |i: int| invalidated@[i]@),
            k <= invalidated@.len(),
            names@.len() == k,
            forall|j: int| 0 <= j < k ==> (#[trigger] names@[j])@ == ValueSpec::String(iv[j]),
        decreases invalidated.len() - k,
    {
        names.push(Value::String(invalidated[k].clone()));
        k = k + 1;
    }
    let ghost nv = values_view(names@);
    let invalidated_arr = Value::Array(ArrayValue::new(Type::String, names));
    assert(nv =~= properties_changed_body(interface@, cv, iv)[2]->Array_1);
    let path_text = ObjectPath::new_unchecked(path.into_string());
    let mut body: Vec<Value> = Vec::new();
    body.push(Value::String(interface.to_owned()));
    body.push(changed_dict);
    body.push(invalidated_arr);
    let m = MessageBuilder::signal(path_text, "org.freedesktop.DBus.Properties", "PropertiesChanged").args(body).build(
        serial,
    );
    assert(values_view(m.body@) =~= properties_changed_body(interface@, cv, iv));
    m
}

/// Where a message a client receives goes.
#[derive(Debug)]
pub enum Incoming {
    /// The reply to the call with this serial.
    Reply(u32),
    /// A reply to no call.
    Stray,
    /// A signal, for the subscribers.
    Signal,
    /// A call of `member` of the object at `path` (through `interface`
    /// where given), to be answered unless `no_reply`.
    Call { path: String, interface: Option<String>, member: String, no_reply: bool },
    /// A call that is not for this connection, or lacks a path or member.
    Ignore,
}

/// Where the message `msg` goes on a connection whose unique name is
/// `unique_name` (where it has one): replies to their calls, signals to
/// the subscribers, calls addressed to it (or to no one) with a path and
/// member to its objects.
pub fn route_incoming(msg: &Message, unique_name: Option<&str>) -> (r: Incoming)
    ensures
        ({
            let fs = msg.header.fields_spec();
            match msg.header.message_type {
                MessageType::MethodReturn | MessageType::Error => match crate::header::number_field(fs, 5) {
                    Some(s) => r matches Incoming::Reply(x) && x == s,
                    None => r is Stray,
                },
                MessageType::Signal => r is Signal,
                MessageType::MethodCall => {
                    let for_us = match text_field(fs, 6) {
                        None => true,
                        Some(d) => match unique_name {
                            Some(u) => u@ == d,
                            None => false,
                        },
                    };
                    if !for_us || text_field(fs, 1) is None || text_field(fs, 3) is None {
                        r is Ignore
                    } else {
                        r matches Incoming::Call { path, interface, member, no_reply } && path@ == text_field(
                            fs,
                            1,
                        )->Some_0 && member@ == text_field(fs, 3)->Some_0 && match interface {
                            Some(i) => text_field(fs, 2) == Some(i@),
                            None => text_field(fs, 2) is None,
                        } && no_reply == (msg.header.flags & crate::header::flags::NO_REPLY_EXPECTED != 0)
                    }
                },
            }
        }),
{
    match msg.message_type() {
        MessageType::MethodReturn | MessageType::Error => match msg.reply_serial() {
            Some(s) => Incoming::Reply(s),
            None => Incoming::Stray,
        },
        MessageType::Signal => Incoming::Signal,
        MessageType::MethodCall => {
            let for_us = match msg.destination() {
                None => true,
                Some(d) => match unique_name {
                    Some(u) => crate::text::str_eq(u, d),
                    None => false,
                },
            };
            if !for_us {
                return Incoming::Ignore;
            }
            let path = match msg.path() {
                Some(p) => p.as_str().to_owned(),
                None => {
                    return Incoming::Ignore;
                },
            };
            let member = match msg.member() {
                Some(m) => m.to_owned(),
                None => {
                    return Incoming::Ignore;
                },
            };
            let interface = match msg.interface() {
                Some(i) => Some(i.to_owned()),
                None => None,
            };
            Incoming::Call { path, interface, member, no_reply: msg.no_reply_expected() }
        },
    }
}

/// The reply to the call `call` that a handler answered with `result`,
/// with serial `serial`: its values, or its error with the error's text.
pub fn call_reply(call: &Message, result: Result<Vec<Value>, MethodError>, serial: u32) -> (m: Message)
    ensures
        m.header.serial == serial,
        m.header.flags == 0,
        match result {
            Ok(vs) => m.header.message_type == MessageType::MethodReturn && values_view(m.body@) == values_view(
                vs@,
            ) && m.header.fields_spec() == match text_field(call.header.fields_spec(), 7) {
                Some(s) => seq![FieldSpec::ReplySerial(call.header.serial), FieldSpec::Destination(s)],
                None => seq![FieldSpec::ReplySerial(call.header.serial)],
            },
            Err(e) => m.header.message_type == MessageType::Error && values_view(m.body@) == seq![
                ValueSpec::String(e.message@),
            ] && m.header.fields_spec() == match text_field(call.header.fields_spec(), 7) {
                Some(s) => seq![
                    FieldSpec::ReplySerial(call.header.serial),
                    FieldSpec::ErrorName(e.name@),
                    FieldSpec::Destination(s),
                ],
                None => seq![FieldSpec::ReplySerial(call.header.serial), FieldSpec::ErrorName(e.name@)],
            },
        },
{
    match result {
        Ok(values) => {
            let ghost vv = values_view(values@);
            let m = reply_to(call, None).args(values).build(serial);
            assert(values_view(m.body@) =~= vv);
            m
        },
        Err(e) => {
            let m = reply_to(call, Some(e.name.as_str())).arg(Value::String(e.message)).build(serial);
            assert(values_view(m.body@) =~= seq![ValueSpec::String(e.message@)]);
            m
        },
    }
}

} // verus!
