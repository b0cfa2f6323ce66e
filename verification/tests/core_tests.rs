use oxibus::addr::Address;
use oxibus::config::GlobalConfig;
use oxibus::error::CoreError;
use oxibus::header::{HeaderField, MessageHeader, MessageType, PROTOCOL_VERSION};
use oxibus::marshal::Marshaler;
use oxibus::message::{reply_to, Message, MessageBuilder, SerialGenerator};
use oxibus::names::{is_valid_bus_name, is_valid_member_name};
use oxibus::signature::{parse_signature, parse_single_complete_type};
use oxibus::types::{is_valid_object_path, ArrayValue, ObjectPath, Type, Value};
use oxibus::unmarshal::Unmarshaler;

#[test]
fn parse_unix_path() {
    let a = Address::parse_one("unix:path=/run/oxibus/system_bus_socket").unwrap();
    assert_eq!(a, Address::UnixPath("/run/oxibus/system_bus_socket".into()));
}

#[test]
fn parse_unix_tmpdir() {
    let a = Address::parse_one("unix:tmpdir=/tmp").unwrap();
    assert_eq!(a, Address::UnixTmpdir("/tmp".into()));
}

#[test]
fn parse_list_of_addresses() {
    let list = Address::parse_list(
        "unix:path=/run/oxibus/system_bus_socket;unix:abstract=/oxibus/fallback",
    )
    .unwrap();
    assert_eq!(list.len(), 2);
}

#[test]
fn roundtrip_escaping() {
    let a = Address::UnixPath("/run/needs space".into());
    let s = a.to_address_string();
    let parsed = Address::parse_one(&s).unwrap();
    assert_eq!(parsed, a);
}

#[test]
fn escaping_writes_percent_codes() {
    let a = Address::UnixPath("/run/needs space".into());
    assert_eq!(a.to_address_string(), "unix:path=/run/needs%20space");
}

#[test]
fn tcp_address_reads_host_and_port() {
    let a = Address::parse_one("tcp:host=localhost,port=4242").unwrap();
    assert_eq!(a, Address::Tcp { host: "localhost".into(), port: 4242 });
    assert_eq!(Address::parse_one(&a.to_address_string()).unwrap(), a);
}

#[test]
fn tcp_host_with_separators_round_trips() {
    let a = Address::Tcp { host: "a,b=c".into(), port: 1 };
    let text = a.to_address_string();
    assert_eq!(text, "tcp:host=a%2cb%3dc,port=1");
    assert_eq!(Address::parse_one(&text).unwrap(), a);
    let v6 = Address::Tcp { host: "::1".into(), port: 80 };
    assert_eq!(Address::parse_one(&v6.to_address_string()).unwrap(), v6);
}

#[test]
fn address_without_colon_is_rejected() {
    assert!(Address::parse_one("nonsense").is_err());
}

#[test]
fn header_roundtrip() {
    let header = MessageHeader {
        big_endian: false,
        message_type: MessageType::MethodCall,
        flags: 0,
        protocol_version: PROTOCOL_VERSION,
        body_length: 0,
        serial: 5,
        fields: vec![
            HeaderField::Path(ObjectPath::new("/org/freedesktop/DBus").unwrap()),
            HeaderField::Interface("org.freedesktop.DBus".into()),
            HeaderField::Member("Hello".into()),
            HeaderField::Destination("org.freedesktop.DBus".into()),
        ],
    };
    let mut m = Marshaler::new(false);
    header.write(&mut m).unwrap();
    let bytes = m.into_bytes();
    assert_eq!(bytes.len() % 8, 0);

    let (parsed, body_offset) = MessageHeader::read(&bytes).unwrap();
    assert_eq!(body_offset, bytes.len());
    assert_eq!(parsed.serial, 5);
    assert_eq!(parsed.member(), Some("Hello"));
    assert_eq!(parsed.path().unwrap().as_str(), "/org/freedesktop/DBus");
    parsed.validate().unwrap();
}

#[test]
fn big_endian_header_roundtrip() {
    let header = MessageHeader {
        big_endian: true,
        message_type: MessageType::Signal,
        flags: 0,
        protocol_version: PROTOCOL_VERSION,
        body_length: 0,
        serial: 77,
        fields: vec![
            HeaderField::Path(ObjectPath::new("/a").unwrap()),
            HeaderField::Interface("a.b".into()),
            HeaderField::Member("C".into()),
        ],
    };
    let mut m = Marshaler::new(true);
    header.write(&mut m).unwrap();
    let bytes = m.into_bytes();
    assert_eq!(bytes[0], b'B');
    let (parsed, _) = MessageHeader::read(&bytes).unwrap();
    assert_eq!(parsed.serial, 77);
    assert_eq!(parsed.message_type, MessageType::Signal);
    assert_eq!(parsed.interface(), Some("a.b"));
}

#[test]
fn header_with_bad_byte_order_is_rejected() {
    let mut bytes = vec![0u8; 16];
    bytes[0] = b'X';
    assert!(MessageHeader::read(&bytes).is_err());
}

#[test]
fn peek_frame_len_needs_16_bytes() {
    assert_eq!(MessageHeader::peek_frame_len(&[1, 2, 3]).unwrap(), None);
}

#[test]
fn missing_member_fails_validation() {
    let header = MessageHeader {
        big_endian: false,
        message_type: MessageType::MethodCall,
        flags: 0,
        protocol_version: PROTOCOL_VERSION,
        body_length: 0,
        serial: 1,
        fields: vec![HeaderField::Path(ObjectPath::new("/").unwrap())],
    };
    assert!(header.validate().is_err());
}

#[test]
fn bus_name_validation() {
    assert!(is_valid_bus_name("org.freedesktop.DBus"));
    assert!(is_valid_bus_name(":1.42"));
    assert!(!is_valid_bus_name("nodots"));
    assert!(!is_valid_bus_name(".leadingdot"));
}

#[test]
fn member_name_validation() {
    assert!(is_valid_member_name("Hello"));
    assert!(is_valid_member_name("_leading_underscore"));
    assert!(!is_valid_member_name("1leadingdigit"));
    assert!(!is_valid_member_name("has.dot"));
}

#[test]
fn align_pads_correctly() {
    let mut m = Marshaler::new(false);
    m.write_u8(1);
    assert_eq!(m.pos(), 1);
    m.align(4);
    assert_eq!(m.pos(), 4);
}

#[test]
fn string_marshals_with_length_prefix_and_nul() {
    let mut m = Marshaler::new(false);
    m.write_value(&Value::String("hi".into())).unwrap();
    assert_eq!(m.pos(), 7);
    assert_eq!(&m.buf[0..4], &2u32.to_le_bytes());
    assert_eq!(&m.buf[4..6], b"hi");
    assert_eq!(m.buf[6], 0);
}

#[test]
fn array_of_bytes_length_is_element_count() {
    let mut m = Marshaler::new(false);
    let arr = ArrayValue::new(Type::Byte, vec![Value::Byte(1), Value::Byte(2), Value::Byte(3)]);
    m.write_value(&Value::Array(arr)).unwrap();
    assert_eq!(&m.buf[0..4], &3u32.to_le_bytes());
    assert_eq!(&m.buf[4..7], &[1, 2, 3]);
}

#[test]
fn struct_aligns_to_8() {
    let mut m = Marshaler::new(false);
    m.write_u8(1);
    m.write_value(&Value::Struct(vec![Value::Int32(7)])).unwrap();
    assert_eq!(&m.buf[8..12], &7i32.to_le_bytes());
}

#[test]
fn embedded_nul_rejected() {
    let mut m = Marshaler::new(false);
    assert!(m.write_value(&Value::String("a\0b".into())).is_err());
}

#[test]
fn big_endian_u32_is_written_high_byte_first() {
    let mut m = Marshaler::new(true);
    m.write_u32(0x0102_0304);
    assert_eq!(m.buf, vec![1, 2, 3, 4]);
}

fn roundtrip(v: &Value) -> Value {
    let mut m = Marshaler::new(false);
    m.write_value(v).unwrap();
    let bytes = m.into_bytes();
    let mut u = Unmarshaler::new(&bytes, false);
    u.read_value(&v.value_type()).unwrap()
}

#[test]
fn roundtrip_scalars() {
    assert_eq!(roundtrip(&Value::Byte(42)), Value::Byte(42));
    assert_eq!(roundtrip(&Value::Boolean(true)), Value::Boolean(true));
    assert_eq!(roundtrip(&Value::Int64(-1)), Value::Int64(-1));
    assert_eq!(roundtrip(&Value::Double(3.5f64.to_bits())), Value::Double(3.5f64.to_bits()));
    assert_eq!(roundtrip(&Value::String("hello".into())), Value::String("hello".into()));
}

#[test]
fn roundtrip_variant() {
    let v = Value::Variant(Box::new(Value::UInt32(99)));
    assert_eq!(roundtrip(&v), v);
}

#[test]
fn roundtrip_dict() {
    let dict = Value::Array(ArrayValue::new(
        Type::DictEntry(Box::new(Type::String), Box::new(Type::Variant)),
        vec![Value::DictEntry(
            Box::new(Value::String("k".into())),
            Box::new(Value::Variant(Box::new(Value::Int32(1)))),
        )],
    ));
    assert_eq!(roundtrip(&dict), dict);
}

#[test]
fn roundtrip_nested_struct_and_negative_numbers() {
    let v = Value::Struct(vec![
        Value::Int16(-2),
        Value::ObjectPath(ObjectPath::new("/a/b").unwrap()),
        Value::Array(ArrayValue::new(Type::Int32, vec![Value::Int32(-7), Value::Int32(9)])),
    ]);
    assert_eq!(roundtrip(&v), v);
}

#[test]
fn invalid_boolean_rejected() {
    let mut m = Marshaler::new(false);
    m.write_u32(5);
    let bytes = m.into_bytes();
    let mut u = Unmarshaler::new(&bytes, false);
    assert!(u.read_value(&Type::Boolean).is_err());
}

#[test]
fn truncated_buffer_errs_not_panics() {
    let mut u = Unmarshaler::new(&[1, 2], false);
    assert!(u.read_u32().is_err());
}

#[test]
fn failed_reads_leave_the_position() {
    let mut u = Unmarshaler::new(&[1, 2], false);
    assert_eq!(u.read_u32(), Err(CoreError::UnexpectedEof { needed: 4, have: 2 }));
    assert_eq!(u.pos, 0);
    let mut w = Unmarshaler::new(&[9, 0, 0, 0, 5], false);
    assert_eq!(w.read_u8(), Ok(9));
    assert!(w.read_u32().is_err());
    assert_eq!(w.pos, 4);
    assert_eq!(Unmarshaler::new(&[4, 3, 2, 1], false).read_u32(), Ok(0x01020304));
    assert_eq!(Unmarshaler::new(&[4, 3, 2, 1], true).read_u32(), Ok(0x04030201));
}

#[test]
fn method_call_roundtrip_through_bytes() {
    let mut serial = SerialGenerator::new();
    let msg = MessageBuilder::method_call(ObjectPath::new("/org/freedesktop/DBus").unwrap(), "Hello")
        .interface("org.freedesktop.DBus")
        .destination("org.freedesktop.DBus")
        .build(serial.next());

    let bytes = msg.to_bytes().unwrap();
    let frame_len = MessageHeader::peek_frame_len(&bytes).unwrap().unwrap();
    assert_eq!(frame_len, bytes.len());

    let parsed = Message::from_bytes(&bytes, Vec::new()).unwrap();
    assert_eq!(parsed.member(), Some("Hello"));
    assert_eq!(parsed.destination(), Some("org.freedesktop.DBus"));
}

#[test]
fn method_call_with_body_roundtrips() {
    let mut serial = SerialGenerator::new();
    let msg = MessageBuilder::method_call(ObjectPath::new("/org/freedesktop/DBus").unwrap(), "RequestName")
        .interface("org.freedesktop.DBus")
        .arg(Value::string("com.example.Foo"))
        .arg(Value::UInt32(4))
        .build(serial.next());

    let bytes = msg.to_bytes().unwrap();
    let parsed = Message::from_bytes(&bytes, Vec::new()).unwrap();
    assert_eq!(parsed.body.len(), 2);
    assert_eq!(parsed.body[0], Value::String("com.example.Foo".into()));
    assert_eq!(parsed.body[1], Value::UInt32(4));
}

#[test]
fn serial_generator_skips_zero_and_increments() {
    let mut g = SerialGenerator::new();
    assert_eq!(g.next(), 1);
    assert_eq!(g.next(), 2);
}

#[test]
fn reply_to_sets_destination_from_sender() {
    let mut serial = SerialGenerator::new();
    let mut call = MessageBuilder::method_call(ObjectPath::new("/").unwrap(), "Ping").build(serial.next());
    call.set_sender(":1.5");

    let reply = reply_to(&call, None).build(serial.next());
    assert_eq!(reply.destination(), Some(":1.5"));
    assert_eq!(reply.reply_serial(), Some(call.serial()));
}

#[test]
fn error_reply_carries_error_name() {
    let mut serial = SerialGenerator::new();
    let mut call = MessageBuilder::method_call(ObjectPath::new("/").unwrap(), "Ping").build(serial.next());
    call.set_sender(":1.9");
    let reply = reply_to(&call, Some("org.example.Error.Failed")).build(serial.next());
    assert_eq!(reply.message_type(), MessageType::Error);
    assert_eq!(reply.header.error_name(), Some("org.example.Error.Failed"));
}

#[test]
fn basic_types() {
    assert_eq!(parse_signature("y").unwrap(), vec![Type::Byte]);
    assert_eq!(parse_signature("sss").unwrap(), vec![Type::String, Type::String, Type::String]);
}

#[test]
fn array_and_dict() {
    let t = parse_single_complete_type("a{sv}").unwrap();
    assert_eq!(
        t,
        Type::Array(Box::new(Type::DictEntry(Box::new(Type::String), Box::new(Type::Variant))))
    );
}

#[test]
fn struct_nested() {
    let t = parse_single_complete_type("(iai)").unwrap();
    assert_eq!(t, Type::Struct(vec![Type::Int32, Type::Array(Box::new(Type::Int32))]));
}

#[test]
fn dict_entry_outside_array_rejected() {
    assert!(parse_signature("{sv}").is_err());
}

#[test]
fn empty_struct_rejected() {
    assert!(parse_signature("()").is_err());
}

#[test]
fn unterminated_struct_rejected() {
    assert!(parse_signature("(i").is_err());
}

#[test]
fn dict_entry_non_basic_key_rejected() {
    assert!(parse_signature("a{vs}").is_err());
}

#[test]
fn roundtrip_to_signature_string() {
    let t = parse_single_complete_type("a{sv}").unwrap();
    assert_eq!(t.to_signature_string(), "a{sv}");
    let t2 = parse_single_complete_type("(oa{sv})").unwrap();
    assert_eq!(t2.to_signature_string(), "(oa{sv})");
}

#[test]
fn array_depth_limit() {
    let sig = "a".repeat(33) + "y";
    assert!(parse_signature(&sig).is_err());
    let sig_ok = "a".repeat(32) + "y";
    assert!(parse_signature(&sig_ok).is_ok());
}

#[test]
fn object_path_validation() {
    assert!(is_valid_object_path("/"));
    assert!(is_valid_object_path("/org/freedesktop/DBus"));
    assert!(is_valid_object_path("/a_1/b_2"));
    assert!(!is_valid_object_path(""));
    assert!(!is_valid_object_path("no-leading-slash"));
    assert!(!is_valid_object_path("/trailing/"));
    assert!(!is_valid_object_path("/double//slash"));
    assert!(!is_valid_object_path("/bad-dash"));
}

#[test]
fn path_namespace_matching() {
    let p = ObjectPath::new("/org/freedesktop/DBus").unwrap();
    assert!(p.is_within_namespace("/org/freedesktop"));
    assert!(p.is_within_namespace("/org/freedesktop/DBus"));
    assert!(!p.is_within_namespace("/org/freedesktop/DBusX"));
    assert!(p.is_within_namespace("/"));
}

#[test]
fn alignment_table() {
    assert_eq!(Type::Byte.alignment(), 1);
    assert_eq!(Type::Int64.alignment(), 8);
    assert_eq!(Type::Struct(vec![]).alignment(), 8);
    assert_eq!(Type::Array(Box::new(Type::Byte)).alignment(), 4);
}

#[test]
fn defaults_match_zainium_layout() {
    let cfg = GlobalConfig::default();
    assert_eq!(cfg.paths.prefix, "/overlayer/syshub");
    assert_eq!(cfg.paths.bin_dir(), "/overlayer/syshub/bin");
    assert_eq!(cfg.paths.system_socket(), "/run/oxibus/system_bus_socket");
    assert!(!cfg.features.systemd);
    assert!(!cfg.features.selinux);
    assert!(cfg.features.message_bus);
}
