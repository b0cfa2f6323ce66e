//! D-Bus message header encoding and decoding.

pub mod flags;

use crate::error::CoreError;
use crate::marshal::{is_enc_error, Marshaler};
use crate::text::{concat_str, decimal, u64_to_string};
use crate::types::{wf_type, ArrayValue, ObjectPath, Signature, Type, TypeSpec, Value, ValueSpec};
use crate::unmarshal::{is_dec_error, Unmarshaler};
use crate::wire::{align_at, dec, enc, pad_len, u32_at, u32_bytes, zeros};
use vstd::prelude::*;

verus! {

broadcast use vstd::std_specs::vec::group_vec_axioms;

/// The protocol version this implementation speaks.
pub const PROTOCOL_VERSION: u8 = 1;

/// The four kinds of message.
#[derive(Debug, Clone, Copy, PartialEq, Eq, Structural)]
pub enum MessageType {
    MethodCall,
    MethodReturn,
    Error,
    Signal,
}

impl MessageType {
    /// The wire code of the message type.
    pub open spec fn code_spec(self) -> u8 {
        match self {
            MessageType::MethodCall => 1,
            MessageType::MethodReturn => 2,
            MessageType::Error => 3,
            MessageType::Signal => 4,
        }
    }

    /// The wire code of the message type.
    pub fn code(&self) -> (c: u8)
        ensures
            c == self.code_spec(),
    {
        match self {
            MessageType::MethodCall => 1,
            MessageType::MethodReturn => 2,
            MessageType::Error => 3,
            MessageType::Signal => 4,
        }
    }

    /// The message type with wire code `v`; codes 1 to 4 are known.
    pub fn from_u8(v: u8) -> (r: Result<MessageType, CoreError>)
        ensures
            r is Ok <==> 1 <= v <= 4,
            r matches Ok(t) ==> t.code_spec() == v,
            r matches Err(e) ==> e matches CoreError::InvalidSignature(s, m) && s@ == decimal(
                v as nat,
            ) && m@ == "unknown message type"@,
    {
        if v == 1 {
            Ok(MessageType::MethodCall)
        } else if v == 2 {
            Ok(MessageType::MethodReturn)
        } else if v == 3 {
            Ok(MessageType::Error)
        } else if v == 4 {
            Ok(MessageType::Signal)
        } else {
            proof {
                reveal_strlit("unknown message type");
            }
            Err(CoreError::InvalidSignature(u64_to_string(v as u64), "unknown message type"))
        }
    }
}

/// One header field.
#[derive(Debug, PartialEq)]
pub enum HeaderField {
    Path(ObjectPath),
    Interface(String),
    Member(String),
    ErrorName(String),
    ReplySerial(u32),
    Destination(String),
    Sender(String),
    Signature(Signature),
    UnixFds(u32),
}

/// The model of a header field: texts as character sequences.
pub enum FieldSpec {
    Path(Seq<char>),
    Interface(Seq<char>),
    Member(Seq<char>),
    ErrorName(Seq<char>),
    ReplySerial(u32),
    Destination(Seq<char>),
    Sender(Seq<char>),
    Signature(Seq<char>),
    UnixFds(u32),
}

impl View for HeaderField {
    type V = FieldSpec;

    open spec fn view(&self) -> FieldSpec {
        match self {
            HeaderField::Path(p) => FieldSpec::Path(p@),
            HeaderField::Interface(s) => FieldSpec::Interface(s@),
            HeaderField::Member(s) => FieldSpec::Member(s@),
            HeaderField::ErrorName(s) => FieldSpec::ErrorName(s@),
            HeaderField::ReplySerial(v) => FieldSpec::ReplySerial(*v),
            HeaderField::Destination(s) => FieldSpec::Destination(s@),
            HeaderField::Sender(s) => FieldSpec::Sender(s@),
            HeaderField::Signature(s) => FieldSpec::Signature(s@),
            HeaderField::UnixFds(v) => FieldSpec::UnixFds(*v),
        }
    }
}

impl FieldSpec {
    /// The field code.
    pub open spec fn code(self) -> u8 {
        match self {
            FieldSpec::Path(_) => 1,
            FieldSpec::Interface(_) => 2,
            FieldSpec::Member(_) => 3,
            FieldSpec::ErrorName(_) => 4,
            FieldSpec::ReplySerial(_) => 5,
            FieldSpec::Destination(_) => 6,
            FieldSpec::Sender(_) => 7,
            FieldSpec::Signature(_) => 8,
            FieldSpec::UnixFds(_) => 9,
        }
    }

    /// The value a field carries on the wire.
    pub open spec fn value(self) -> ValueSpec {
        match self {
            FieldSpec::Path(p) => ValueSpec::ObjectPath(p),
            FieldSpec::Interface(s) => ValueSpec::String(s),
            FieldSpec::Member(s) => ValueSpec::String(s),
            FieldSpec::ErrorName(s) => ValueSpec::String(s),
            FieldSpec::ReplySerial(v) => ValueSpec::UInt32(v),
            FieldSpec::Destination(s) => ValueSpec::String(s),
            FieldSpec::Sender(s) => ValueSpec::String(s),
            FieldSpec::Signature(s) => ValueSpec::Signature(s),
            FieldSpec::UnixFds(v) => ValueSpec::UInt32(v),
        }
    }
}

/// The name of the field with the given code, as errors spell it.
pub open spec fn field_name(code: u8) -> Seq<char> {
    if code == 1 {
        "PATH"@
    } else if code == 5 {
        "REPLY_SERIAL"@
    } else if code == 8 {
        "SIGNATURE"@
    } else if code == 9 {
        "UNIX_FDS"@
    } else if code == 2 {
        "INTERFACE"@
    } else if code == 3 {
        "MEMBER"@
    } else if code == 4 {
        "ERROR_NAME"@
    } else if code == 6 {
        "DESTINATION"@
    } else {
        "SENDER"@
    }
}

/// The text of a string or object path value.
pub open spec fn text_of(v: ValueSpec) -> Option<Seq<char>> {
    match v {
        ValueSpec::String(s) => Some(s),
        ValueSpec::ObjectPath(s) => Some(s),
        _ => None,
    }
}

/// The field that code `code` and value `v` make: `Ok(None)` for an
/// unknown code, `Err(code)` where the value has the wrong type.
pub open spec fn field_of(code: u8, v: ValueSpec) -> Result<Option<FieldSpec>, u8> {
    if code == 1 {
        match v {
            ValueSpec::ObjectPath(p) => Ok(Some(FieldSpec::Path(p))),
            _ => Err(code),
        }
    } else if code == 5 || code == 9 {
        match v {
            ValueSpec::UInt32(x) => Ok(
                Some(
                    if code == 5 {
                        FieldSpec::ReplySerial(x)
                    } else {
                        FieldSpec::UnixFds(x)
                    },
                ),
            ),
            _ => Err(code),
        }
    } else if code == 8 {
        match v {
            ValueSpec::Signature(s) => Ok(Some(FieldSpec::Signature(s))),
            _ => Err(code),
        }
    } else if 2 <= code <= 7 {
        match text_of(v) {
            Some(s) => Ok(
                Some(
                    if code == 2 {
                        FieldSpec::Interface(s)
                    } else if code == 3 {
                        FieldSpec::Member(s)
                    } else if code == 4 {
                        FieldSpec::ErrorName(s)
                    } else if code == 6 {
                        FieldSpec::Destination(s)
                    } else {
                        FieldSpec::Sender(s)
                    },
                ),
            ),
            None => Err(code),
        }
    } else {
        Ok(None)
    }
}

/// The error reported for a field value of the wrong type.
pub open spec fn is_field_error(e: CoreError, code: u8) -> bool {
    e matches CoreError::TypeMismatch { expected } && expected@ == "header field "@ + field_name(
        code,
    ) + " has wrong variant type"@
}

fn bad_field(name: &str) -> (e: CoreError)
    ensures
        e matches CoreError::TypeMismatch { expected } && expected@ == "header field "@ + name@
            + " has wrong variant type"@,
{
    let a = concat_str("header field ", name);
    let b = concat_str(a.as_str(), " has wrong variant type");
    CoreError::TypeMismatch { expected: b }
}

fn field_name_str(code: u8) -> (s: &'static str)
    ensures
        s@ == field_name(code),
{
    proof {
        reveal_strlit("PATH");
        reveal_strlit("REPLY_SERIAL");
        reveal_strlit("SIGNATURE");
        reveal_strlit("UNIX_FDS");
        reveal_strlit("INTERFACE");
        reveal_strlit("MEMBER");
        reveal_strlit("ERROR_NAME");
        reveal_strlit("DESTINATION");
        reveal_strlit("SENDER");
    }
    if code == 1 {
        "PATH"
    } else if code == 5 {
        "REPLY_SERIAL"
    } else if code == 8 {
        "SIGNATURE"
    } else if code == 9 {
        "UNIX_FDS"
    } else if code == 2 {
        "INTERFACE"
    } else if code == 3 {
        "MEMBER"
    } else if code == 4 {
        "ERROR_NAME"
    } else if code == 6 {
        "DESTINATION"
    } else {
        "SENDER"
    }
}

impl HeaderField {
    /// The field code.
    pub fn code(&self) -> (c: u8)
        ensures
            c == self@.code(),
    {
        match self {
            HeaderField::Path(_) => 1,
            HeaderField::Interface(_) => 2,
            HeaderField::Member(_) => 3,
            HeaderField::ErrorName(_) => 4,
            HeaderField::ReplySerial(_) => 5,
            HeaderField::Destination(_) => 6,
            HeaderField::Sender(_) => 7,
            HeaderField::Signature(_) => 8,
            HeaderField::UnixFds(_) => 9,
        }
    }

    /// The value the field carries on the wire.
    pub fn to_value(&self) -> (v: Value)
        ensures
            v@ == self@.value(),
    {
        match self {
            HeaderField::Path(p) => Value::ObjectPath(p.duplicate()),
            HeaderField::Interface(s) => Value::String(s.clone()),
            HeaderField::Member(s) => Value::String(s.clone()),
            HeaderField::ErrorName(s) => Value::String(s.clone()),
            HeaderField::ReplySerial(v) => Value::UInt32(*v),
            HeaderField::Destination(s) => Value::String(s.clone()),
            HeaderField::Sender(s) => Value::String(s.clone()),
            HeaderField::Signature(sig) => Value::Signature(sig.duplicate()),
            HeaderField::UnixFds(v) => Value::UInt32(*v),
        }
    }

    /// A copy of the field.
    pub fn duplicate(&self) -> (f: HeaderField)
        ensures
            f@ == self@,
    {
        match self {
            HeaderField::Path(p) => HeaderField::Path(p.duplicate()),
            HeaderField::Interface(s) => HeaderField::Interface(s.clone()),
            HeaderField::Member(s) => HeaderField::Member(s.clone()),
            HeaderField::ErrorName(s) => HeaderField::ErrorName(s.clone()),
            HeaderField::ReplySerial(v) => HeaderField::ReplySerial(*v),
            HeaderField::Destination(s) => HeaderField::Destination(s.clone()),
            HeaderField::Sender(s) => HeaderField::Sender(s.clone()),
            HeaderField::Signature(sig) => HeaderField::Signature(sig.duplicate()),
            HeaderField::UnixFds(v) => HeaderField::UnixFds(*v),
        }
    }

    /// The field that `code` and `value` make; `None` for an unknown code,
    /// an error where the value has the wrong type for the code.
    pub fn from_code_and_value(code: u8, value: &Value) -> (r: Result<Option<HeaderField>, CoreError>)
        ensures
            match field_of(code, value@) {
                Ok(None) => r matches Ok(None),
                Ok(Some(f)) => r matches Ok(Some(g)) && g@ == f,
                Err(c) => r matches Err(e) && is_field_error(e, c),
            },
    {
        let text: Option<String> = match value {
            Value::String(s) => Some(s.clone()),
            Value::ObjectPath(p) => Some(p.duplicate().into_string()),
            _ => None,
        };
        assert(text matches Some(t) ==> text_of(value@) == Some(t@));
        assert(text is None ==> text_of(value@) is None);
        if code == 1 {
            match value {
                Value::ObjectPath(p) => Ok(Some(HeaderField::Path(p.duplicate()))),
                _ => Err(bad_field(field_name_str(code))),
            }
        } else if code == 5 || code == 9 {
            match value {
                Value::UInt32(x) => Ok(
                    Some(
                        if code == 5 {
                            HeaderField::ReplySerial(*x)
                        } else {
                            HeaderField::UnixFds(*x)
                        },
                    ),
                ),
                _ => Err(bad_field(field_name_str(code))),
            }
        } else if code == 8 {
            match value {
                Value::Signature(s) => Ok(Some(HeaderField::Signature(s.duplicate()))),
                _ => Err(bad_field(field_name_str(code))),
            }
        } else if 2 <= code && code <= 7 {
            match text {
                Some(s) => Ok(
                    Some(
                        if code == 2 {
                            HeaderField::Interface(s)
                        } else if code == 3 {
                            HeaderField::Member(s)
                        } else if code == 4 {
                            HeaderField::ErrorName(s)
                        } else if code == 6 {
                            HeaderField::Destination(s)
                        } else {
                            HeaderField::Sender(s)
                        },
                    ),
                ),
                None => Err(bad_field(field_name_str(code))),
            }
        } else {
            Ok(None)
        }
    }
}

/// The first field of `fs` with code `code`.
pub open spec fn first_with_code(fs: Seq<FieldSpec>, code: u8) -> Option<FieldSpec>
    decreases fs.len(),
{
    if fs.len() == 0 {
        None
    } else if fs[0].code() == code {
        Some(fs[0])
    } else {
        first_with_code(fs.drop_first(), code)
    }
}

/// The first field with a code has that code.
pub proof fn lemma_first_with_code(fs: Seq<FieldSpec>, code: u8)
    ensures
        first_with_code(fs, code) matches Some(f) ==> f.code() == code,
    decreases fs.len(),
{
    if fs.len() > 0 && fs[0].code() != code {
        lemma_first_with_code(fs.drop_first(), code);
    }
}

/// The models of the fields `fs`.
pub open spec fn fields_view(fs: Seq<HeaderField>) -> Seq<FieldSpec> {
    Seq::new(fs.len(), |i: int| fs[i]@)
}

/// The fields of `fs` that are not a sender.
pub open spec fn without_sender(fs: Seq<FieldSpec>) -> Seq<FieldSpec>
    decreases fs.len(),
{
    if fs.len() == 0 {
        Seq::empty()
    } else if fs.last() is Sender {
        without_sender(fs.drop_last())
    } else {
        without_sender(fs.drop_last()).push(fs.last())
    }
}

/// The header array entries for the fields `fs`: a struct of the code and
/// the value in a variant, per field.
pub open spec fn header_entries(fs: Seq<FieldSpec>) -> Seq<ValueSpec> {
    Seq::new(
        fs.len(),
        |i: int|
            ValueSpec::Struct(
                seq![ValueSpec::Byte(fs[i].code()), ValueSpec::Variant(Box::new(fs[i].value()))],
            ),
    )
}

/// The type of the header field array, `a(yv)`.
pub open spec fn header_array_type() -> TypeSpec {
    TypeSpec::Array(Box::new(TypeSpec::Struct(seq![TypeSpec::Byte, TypeSpec::Variant])))
}

/// The fixed part of a header as written: byte order, type, flags,
/// version, then (aligned) body length and serial.
pub open spec fn header_prefix(
    pos: int,
    be_mark: bool,
    mt: MessageType,
    flags: u8,
    version: u8,
    body_length: u32,
    serial: u32,
    be: bool,
) -> Seq<u8> {
    seq![
        if be_mark {
            66u8
        } else {
            108u8
        },
        mt.code_spec(),
        flags,
        version,
    ] + zeros(pad_len(pos + 4, 4)) + u32_bytes(body_length, be) + u32_bytes(serial, be)
}

/// A message header.
#[derive(Debug, PartialEq)]
pub struct MessageHeader {
    pub big_endian: bool,
    pub message_type: MessageType,
    pub flags: u8,
    pub protocol_version: u8,
    pub body_length: u32,
    pub serial: u32,
    pub fields: Vec<HeaderField>,
}

/// What a header getter for code `code` returns: the text of the first
/// such field.
pub open spec fn text_field(fs: Seq<FieldSpec>, code: u8) -> Option<Seq<char>> {
    match first_with_code(fs, code) {
        Some(FieldSpec::Path(s)) => Some(s),
        Some(FieldSpec::Interface(s)) => Some(s),
        Some(FieldSpec::Member(s)) => Some(s),
        Some(FieldSpec::ErrorName(s)) => Some(s),
        Some(FieldSpec::Destination(s)) => Some(s),
        Some(FieldSpec::Sender(s)) => Some(s),
        Some(FieldSpec::Signature(s)) => Some(s),
        _ => None,
    }
}

/// What a header getter for a number field returns.
pub open spec fn number_field(fs: Seq<FieldSpec>, code: u8) -> Option<u32> {
    match first_with_code(fs, code) {
        Some(FieldSpec::ReplySerial(v)) => Some(v),
        Some(FieldSpec::UnixFds(v)) => Some(v),
        _ => None,
    }
}

impl MessageHeader {
    /// The models of the header's fields.
    pub open spec fn fields_spec(&self) -> Seq<FieldSpec> {
        fields_view(self.fields@)
    }

    fn find(&self, code: u8) -> (r: Option<usize>)
        ensures
            match first_with_code(self.fields_spec(), code) {
                Some(f) => r matches Some(i) && i < self.fields@.len() && self.fields@[i as int]@ == f
                    && f.code() == code,
                None => r is None,
            },
    {
        proof {
            lemma_first_with_code(self.fields_spec(), code);
        }
        let ghost fs = self.fields_spec();
        let mut i: usize = 0;
        assert(fs.skip(0) =~= fs);
        while i < self.fields.len()
            invariant
                i <= self.fields@.len(),
                fs == self.fields_spec(),
                first_with_code(fs, code) == first_with_code(fs.skip(i as int), code),
            decreases self.fields.len() - i,
        {
            if self.fields[i].code() == code {
                assert(fs.skip(i as int)[0] == self.fields@[i as int]@);
                return Some(i);
            }
            assert(fs.skip(i as int).drop_first() =~= fs.skip(i + 1));
            i = i + 1;
        }
        assert(fs.skip(i as int).len() == 0);
        None
    }

    /// The first field with code `code`.
    pub fn field(&self, code: u8) -> (r: Option<&HeaderField>)
        ensures
            match first_with_code(self.fields_spec(), code) {
                Some(f) => r matches Some(g) && g@ == f,
                None => r is None,
            },
    {
        match self.find(code) {
            Some(i) => Some(&self.fields[i]),
            None => None,
        }
    }

    /// The object path of the message.
    pub fn path(&self) -> (r: Option<&ObjectPath>)
        ensures
            match text_field(self.fields_spec(), 1) {
                Some(s) => r matches Some(p) && p@ == s,
                None => r is None,
            },
    {
        match self.find(1) {
            Some(i) => match &self.fields[i] {
                HeaderField::Path(p) => Some(p),
                _ => None,
            },
            None => None,
        }
    }

    fn text(&self, code: u8) -> (r: Option<&str>)
        requires
            2 <= code <= 8 && code != 5,
        ensures
            match text_field(self.fields_spec(), code) {
                Some(s) => r matches Some(t) && t@ == s,
                None => r is None,
            },
    {
        match self.find(code) {
            Some(i) => match &self.fields[i] {
                HeaderField::Interface(s) => Some(s.as_str()),
                HeaderField::Member(s) => Some(s.as_str()),
                HeaderField::ErrorName(s) => Some(s.as_str()),
                HeaderField::Destination(s) => Some(s.as_str()),
                HeaderField::Sender(s) => Some(s.as_str()),
                HeaderField::Signature(s) => Some(s.as_str()),
                _ => None,
            },
            None => None,
        }
    }

    fn number(&self, code: u8) -> (r: Option<u32>)
        ensures
            r == number_field(self.fields_spec(), code),
    {
        match self.find(code) {
            Some(i) => match &self.fields[i] {
                HeaderField::ReplySerial(v) => Some(*v),
                HeaderField::UnixFds(v) => Some(*v),
                _ => None,
            },
            None => None,
        }
    }

    /// The interface of the message.
    pub fn interface(&self) -> (r: Option<&str>)
        ensures
            match text_field(self.fields_spec(), 2) {
                Some(s) => r matches Some(t) && t@ == s,
                None => r is None,
            },
    {
        self.text(2)
    }

    /// The member (method or signal name) of the message.
    pub fn member(&self) -> (r: Option<&str>)
        ensures
            match text_field(self.fields_spec(), 3) {
                Some(s) => r matches Some(t) && t@ == s,
                None => r is None,
            },
    {
        self.text(3)
    }

    /// The error name of an error message.
    pub fn error_name(&self) -> (r: Option<&str>)
        ensures
            match text_field(self.fields_spec(), 4) {
                Some(s) => r matches Some(t) && t@ == s,
                None => r is None,
            },
    {
        self.text(4)
    }

    /// The serial this message replies to.
    pub fn reply_serial(&self) -> (r: Option<u32>)
        ensures
            r == number_field(self.fields_spec(), 5),
    {
        self.number(5)
    }

    /// The destination of the message.
    pub fn destination(&self) -> (r: Option<&str>)
        ensures
            match text_field(self.fields_spec(), 6) {
                Some(s) => r matches Some(t) && t@ == s,
                None => r is None,
            },
    {
        self.text(6)
    }

    /// The sender of the message.
    pub fn sender(&self) -> (r: Option<&str>)
        ensures
            match text_field(self.fields_spec(), 7) {
                Some(s) => r matches Some(t) && t@ == s,
                None => r is None,
            },
    {
        self.text(7)
    }

    /// The body signature; empty where the header has none.
    pub fn signature(&self) -> (r: &str)
        ensures
            r@ == match text_field(self.fields_spec(), 8) {
                Some(s) => s,
                None => Seq::<char>::empty(),
            },
    {
        match self.text(8) {
            Some(s) => s,
            None => {
                proof {
                    reveal_strlit("");
                }
                ""
            },
        }
    }

    /// The number of unix fds that come with the message; 0 where the
    /// header does not say.
    pub fn unix_fds(&self) -> (r: u32)
        ensures
            r == match number_field(self.fields_spec(), 9) {
                Some(v) => v,
                None => 0,
            },
    {
        match self.number(9) {
            Some(v) => v,
            None => 0,
        }
    }

    /// Replace any sender fields by one sender field at the end.
    pub fn set_sender(&mut self, sender: String)
        ensures
            final(self).fields_spec() == without_sender(old(self).fields_spec()).push(
                FieldSpec::Sender(sender@),
            ),
            final(self).big_endian == old(self).big_endian,
            final(self).message_type == old(self).message_type,
            final(self).flags == old(self).flags,
            final(self).protocol_version == old(self).protocol_version,
            final(self).body_length == old(self).body_length,
            final(self).serial == old(self).serial,
    {
        let ghost fs = self.fields_spec();
        let mut kept: Vec<HeaderField> = Vec::new();
        let mut i: usize = 0;
        while i < self.fields.len()
            invariant
                i <= self.fields@.len(),
                fs == self.fields_spec(),
                fields_view(kept@) == without_sender(fs.take(i as int)),
            decreases self.fields.len() - i,
        {
            let ghost before = kept@;
            proof {
                assert(fs.take(i + 1).drop_last() =~= fs.take(i as int));
            }
            match &self.fields[i] {
                HeaderField::Sender(_) => {},
                other => {
                    kept.push(other.duplicate());
                    assert(fields_view(kept@) =~= fields_view(before).push(fs[i as int]));
                },
            }
            i = i + 1;
        }
        let ghost before = kept@;
        kept.push(HeaderField::Sender(sender));
        proof {
            assert(fs.take(fs.len() as int) =~= fs);
            assert(fields_view(kept@) =~= fields_view(before).push(FieldSpec::Sender(sender@)));
        }
        self.fields = kept;
    }

    /// Check that the fields the message type requires are there.
    pub fn validate(&self) -> (r: Result<(), CoreError>)
        ensures
            match missing_field(self.message_type, self.fields_spec()) {
                Some(name) => r matches Err(e) && e matches CoreError::MissingHeaderField(n) && n@
                    == name,
                None => r is Ok,
            },
    {
        proof {
            reveal_strlit("PATH");
            reveal_strlit("MEMBER");
            reveal_strlit("INTERFACE");
            reveal_strlit("ERROR_NAME");
            reveal_strlit("REPLY_SERIAL");
        }
        match self.message_type {
            MessageType::MethodCall => {
                if self.find(1).is_none() {
                    return Err(CoreError::MissingHeaderField("PATH"));
                }
                if self.find(3).is_none() {
                    return Err(CoreError::MissingHeaderField("MEMBER"));
                }
            },
            MessageType::Signal => {
                if self.find(1).is_none() {
                    return Err(CoreError::MissingHeaderField("PATH"));
                }
                if self.find(2).is_none() {
                    return Err(CoreError::MissingHeaderField("INTERFACE"));
                }
                if self.find(3).is_none() {
                    return Err(CoreError::MissingHeaderField("MEMBER"));
                }
            },
            MessageType::Error => {
                if self.find(4).is_none() {
                    return Err(CoreError::MissingHeaderField("ERROR_NAME"));
                }
                if self.find(5).is_none() {
                    return Err(CoreError::MissingHeaderField("REPLY_SERIAL"));
                }
            },
            MessageType::MethodReturn => {
                if self.find(5).is_none() {
                    return Err(CoreError::MissingHeaderField("REPLY_SERIAL"));
                }
            },
        }
        Ok(())
    }

    fn write_prefix(&self, m: &mut Marshaler)
        ensures
            final(m).big_endian == old(m).big_endian,
            final(m).buf@ == old(m).buf@ + header_prefix(
                old(m).buf@.len() as int,
                self.big_endian,
                self.message_type,
                self.flags,
                self.protocol_version,
                self.body_length,
                self.serial,
                old(m).big_endian,
            ),
    {
        let ghost b0 = m.buf@;
        m.write_u8(if self.big_endian { 66 } else { 108 });
        m.write_u8(self.message_type.code());
        m.write_u8(self.flags);
        m.write_u8(self.protocol_version);
        let ghost mid = m.buf@;
        m.write_u32(self.body_length);
        let ghost mid2 = m.buf@;
        m.write_u32(self.serial);
        proof {
            assert(mid.len() == b0.len() + 4);
            assert(u32_bytes(self.body_length, old(m).big_endian).len() == 4);
            assert(mid2.len() % 4 == 0);
            assert(pad_len(mid2.len() as int, 4) == 0);
            assert(zeros(0) =~= Seq::<u8>::empty());
            assert(m.buf@ =~= b0 + header_prefix(
                b0.len() as int,
                self.big_endian,
                self.message_type,
                self.flags,
                self.protocol_version,
                self.body_length,
                self.serial,
                old(m).big_endian,
            ));
        }
    }

    fn entries(&self) -> (v: Vec<Value>)
        ensures
            crate::types::values_view(v@) == header_entries(self.fields_spec()),
    {
        let mut elements: Vec<Value> = Vec::new();
        let mut i: usize = 0;
        while i < self.fields.len()
            invariant
                i <= self.fields@.len(),
                elements@.len() == i,
                forall|j: int| 0 <= j < i ==> (#[trigger] elements@[j])@ == header_entries(
                    self.fields_spec(),
                )[j],
            decreases self.fields.len() - i,
        {
            let f = &self.fields[i];
            let mut pair: Vec<Value> = Vec::new();
            pair.push(Value::Byte(f.code()));
            pair.push(Value::Variant(Box::new(f.to_value())));
            proof {
                crate::types::lemma_values_view(pair@);
                assert(crate::types::values_view(pair@) =~= seq![
                    ValueSpec::Byte(f@.code()),
                    ValueSpec::Variant(Box::new(f@.value())),
                ]);
            }
            elements.push(Value::Struct(pair));
            i = i + 1;
        }
        proof {
            crate::types::lemma_values_view(elements@);
            assert(crate::types::values_view(elements@) =~= header_entries(self.fields_spec()));
        }
        elements
    }

    /// Append the header to `m`: the fixed part, the field array, and
    /// padding to 8.
    #[verifier::rlimit(40)]
    pub fn write(&self, m: &mut Marshaler) -> (r: Result<(), CoreError>)
        ensures
            final(m).big_endian == old(m).big_endian,
            ({
                let p1 = old(m).buf@ + header_prefix(
                    old(m).buf@.len() as int,
                    self.big_endian,
                    self.message_type,
                    self.flags,
                    self.protocol_version,
                    self.body_length,
                    self.serial,
                    old(m).big_endian,
                );
                match enc(
                    ValueSpec::Array(
                        TypeSpec::Struct(seq![TypeSpec::Byte, TypeSpec::Variant]),
                        header_entries(self.fields_spec()),
                    ),
                    p1.len() as int,
                    old(m).big_endian,
                ) {
                    Ok(b) => r is Ok && final(m).buf@ == p1 + b + zeros(
                        pad_len((p1.len() + b.len()) as int, 8),
                    ),
                    Err(e) => r matches Err(ce) && is_enc_error(ce, e),
                }
            }),
    {
        let ghost b0 = m.buf@;
        self.write_prefix(m);
        let ghost p1 = m.buf@;
        let elements = self.entries();
        let mut ftys: Vec<Type> = Vec::new();
        ftys.push(Type::Byte);
        ftys.push(Type::Variant);
        assert(ftys@ =~= seq![Type::Byte, Type::Variant]);
        let ghost ftys_v = ftys@;
        let elem_ty = Type::Struct(ftys);
        proof {
            let st = elem_ty@->Struct_0;
            assert(st.len() == 2);
            assert(elem_ty == Type::Struct(elem_ty->Struct_0));
            assert(elem_ty->Struct_0@ == ftys_v);
            assert(ftys_v[0] == Type::Byte);
            assert(ftys_v[0]@ == TypeSpec::Byte);
            assert(ftys_v[1]@ == TypeSpec::Variant);
            assert(st[0] == TypeSpec::Byte);
            assert(st[1] == TypeSpec::Variant);
            assert(st =~= seq![TypeSpec::Byte, TypeSpec::Variant]);
        }
        let arr = ArrayValue::new(elem_ty, elements);
        let v = Value::Array(arr);
        let ghost vs = ValueSpec::Array(
            TypeSpec::Struct(seq![TypeSpec::Byte, TypeSpec::Variant]),
            header_entries(self.fields_spec()),
        );
        assert(v@ == vs);
        let res = m.write_value(&v);
        if res.is_err() {
            return res;
        }
        let ghost p2 = m.buf@;
        m.align(8);
        Ok(())
    }
}

/// The field that is missing for a message of type `mt` with fields `fs`,
/// by name, checked in the order the protocol lists them.
pub open spec fn missing_field(mt: MessageType, fs: Seq<FieldSpec>) -> Option<Seq<char>> {
    match mt {
        MessageType::MethodCall => if first_with_code(fs, 1) is None {
            Some("PATH"@)
        } else if first_with_code(fs, 3) is None {
            Some("MEMBER"@)
        } else {
            None
        },
        MessageType::Signal => if first_with_code(fs, 1) is None {
            Some("PATH"@)
        } else if first_with_code(fs, 2) is None {
            Some("INTERFACE"@)
        } else if first_with_code(fs, 3) is None {
            Some("MEMBER"@)
        } else {
            None
        },
        MessageType::Error => if first_with_code(fs, 4) is None {
            Some("ERROR_NAME"@)
        } else if first_with_code(fs, 5) is None {
            Some("REPLY_SERIAL"@)
        } else {
            None
        },
        MessageType::MethodReturn => if first_with_code(fs, 5) is None {
            Some("REPLY_SERIAL"@)
        } else {
            None
        },
    }
}


/// Whether the first 16 bytes of `b` make a header prefix this
/// implementation reads: byte order mark, known type, version 1.
pub open spec fn prefix_ok(b: Seq<u8>) -> bool {
    &&& b.len() >= 16
    &&& (b[0] == 108 || b[0] == 66)
    &&& 1 <= b[1] <= 4
    &&& b[3] == PROTOCOL_VERSION
}

/// The error reported for a buffer whose prefix is not readable.
pub open spec fn prefix_error(b: Seq<u8>, e: CoreError) -> bool {
    if b.len() < 16 {
        e == CoreError::UnexpectedEof { needed: 16, have: b.len() as usize }
    } else if !(b[0] == 108 || b[0] == 66) {
        e == CoreError::BadByteOrder(b[0])
    } else if !(1 <= b[1] <= 4) {
        e matches CoreError::InvalidSignature(s, m) && s@ == decimal(b[1] as nat) && m@
            == "unknown message type"@
    } else {
        e == CoreError::BadProtocolVersion(b[3])
    }
}

/// The byte order a readable prefix declares.
pub open spec fn prefix_big_endian(b: Seq<u8>) -> bool {
    b[0] == 66
}

/// The total length of the message whose readable prefix starts `b`: the
/// header padded to 8, then the body.
pub open spec fn frame_len(b: Seq<u8>) -> int {
    let be = prefix_big_endian(b);
    (16 + u32_at(b, 12, be) + 7) / 8 * 8 + u32_at(b, 4, be)
}

/// The field a header array entry makes: `Ok(None)` for an entry that is
/// not a pair of a byte and a value, or has an unknown code.
pub open spec fn entry_field(el: ValueSpec) -> Result<Option<FieldSpec>, u8> {
    match el {
        ValueSpec::Struct(pair) => if pair.len() != 2 {
            Ok(None)
        } else {
            match pair[0] {
                ValueSpec::Byte(code) => field_of(
                    code,
                    match pair[1] {
                        ValueSpec::Variant(x) => *x,
                        other => other,
                    },
                ),
                _ => Ok(None),
            }
        },
        _ => Ok(None),
    }
}

/// The fields that the header array entries `es` make, or the code of the
/// first entry whose value has the wrong type.
pub open spec fn fields_from_entries(es: Seq<ValueSpec>) -> Result<Seq<FieldSpec>, u8>
    decreases es.len(),
{
    if es.len() == 0 {
        Ok(Seq::empty())
    } else {
        match fields_from_entries(es.drop_last()) {
            Err(c) => Err(c),
            Ok(fs) => match entry_field(es.last()) {
                Err(c) => Err(c),
                Ok(None) => Ok(fs),
                Ok(Some(f)) => Ok(fs.push(f)),
            },
        }
    }
}

/// Where the entries up to `k` already fail, all of them fail alike.
pub proof fn lemma_fields_err_prefix(es: Seq<ValueSpec>, k: int)
    requires
        0 <= k <= es.len(),
        fields_from_entries(es.take(k)) is Err,
    ensures
        fields_from_entries(es) == fields_from_entries(es.take(k)),
    decreases es.len() - k,
{
    if k < es.len() {
        assert(es.take(k + 1).drop_last() =~= es.take(k));
        lemma_fields_err_prefix(es, k + 1);
    } else {
        assert(es.take(k) =~= es);
    }
}

/// What reading a header from `b` gives: the header and the offset of the
/// body, or the error.
pub open spec fn header_read_outcome(b: Seq<u8>, r: Result<(MessageHeader, usize), CoreError>) -> bool {
    if !prefix_ok(b) {
        r matches Err(e) && prefix_error(b, e)
    } else {
        let be = prefix_big_endian(b);
        match dec(header_array_type(), b, 12, be) {
            Err(e) => r matches Err(ce) && is_dec_error(ce, e),
            Ok((v, p)) => {
                let es = match v {
                    ValueSpec::Array(_, es) => es,
                    _ => Seq::empty(),
                };
                match fields_from_entries(es) {
                    Err(c) => r matches Err(e) && is_field_error(e, c),
                    Ok(fs) => match align_at(b, p, 8) {
                        Err(e) => r matches Err(ce) && is_dec_error(ce, e),
                        Ok(q) => r matches Ok((h, n)) && n == q && h.big_endian == be
                            && h.message_type.code_spec() == b[1] && h.flags == b[2]
                            && h.protocol_version == b[3] && h.body_length == u32_at(b, 4, be)
                            && h.serial == u32_at(b, 8, be) && h.fields_spec() == fs,
                    },
                }
            },
        }
    }
}

impl MessageHeader {
    fn read_prefix(buf: &[u8]) -> (r: Result<(bool, MessageType, u8, u8, u32, u32, u32), CoreError>)
        ensures
            !prefix_ok(buf@) ==> (r matches Err(e) && prefix_error(buf@, e)),
            prefix_ok(buf@) ==> (r matches Ok((be, mt, fl, ver, bl, ser, fal)) && be
                == prefix_big_endian(buf@) && mt.code_spec() == buf@[1] && fl == buf@[2] && ver
                == buf@[3] && bl == u32_at(buf@, 4, be) && ser == u32_at(buf@, 8, be) && fal
                == u32_at(buf@, 12, be)),
    {
        if buf.len() < 16 {
            return Err(CoreError::UnexpectedEof { needed: 16, have: buf.len() });
        }
        let big_endian = if buf[0] == 108 {
            false
        } else if buf[0] == 66 {
            true
        } else {
            return Err(CoreError::BadByteOrder(buf[0]));
        };
        let message_type = MessageType::from_u8(buf[1])?;
        let msg_flags = buf[2];
        let protocol_version = buf[3];
        if protocol_version != PROTOCOL_VERSION {
            return Err(CoreError::BadProtocolVersion(protocol_version));
        }
        let rest = vstd::slice::slice_subrange(buf, 4, buf.len());
        let mut u = Unmarshaler::new(rest, big_endian);
        proof {
            assert(rest@[0] == buf@[4] && rest@[1] == buf@[5] && rest@[2] == buf@[6] && rest@[3] == buf@[7]);
            assert(rest@[4] == buf@[8] && rest@[5] == buf@[9] && rest@[6] == buf@[10] && rest@[7] == buf@[11]);
            assert(rest@[8] == buf@[12] && rest@[9] == buf@[13] && rest@[10] == buf@[14] && rest@[11] == buf@[15]);
        }
        let body_length = u.read_u32()?;
        let serial = u.read_u32()?;
        let fields_array_len = u.read_u32()?;
        Ok((big_endian, message_type, msg_flags, protocol_version, body_length, serial, fields_array_len))
    }

    /// The length of the whole message that `buf` starts, once its first 16
    /// bytes are there; `None` before that.
    pub fn peek_frame_len(buf: &[u8]) -> (r: Result<Option<usize>, CoreError>)
        ensures
            buf@.len() < 16 ==> r == Ok::<Option<usize>, CoreError>(None),
            buf@.len() >= 16 && prefix_ok(buf@) ==> r == Ok::<Option<usize>, CoreError>(
                Some(frame_len(buf@) as usize),
            ),
            buf@.len() >= 16 && !prefix_ok(buf@) ==> (r matches Err(e) && prefix_error(buf@, e)),
    {
        if buf.len() < 16 {
            return Ok(None);
        }
        let (_, _, _, _, body_length, _, fields_array_len) = Self::read_prefix(buf)?;
        let header_len_before_pad: u64 = 16 + fields_array_len as u64;
        let header_len: u64 = (header_len_before_pad + 7) / 8 * 8;
        let total: u64 = header_len + body_length as u64;
        Ok(Some(total as usize))
    }

    /// Read a header from the start of `buf`: the header and the offset of
    /// the body.
    pub fn read(buf: &[u8]) -> (r: Result<(MessageHeader, usize), CoreError>)
        ensures
            header_read_outcome(buf@, r),
    {
        let (big_endian, message_type, msg_flags, protocol_version, body_length, serial, _) =
            Self::read_prefix(buf)?;
        let mut u = Unmarshaler::new(buf, big_endian);
        u.pos = 4;
        let _body_length_dup = u.read_u32()?;
        let _serial_dup = u.read_u32()?;
        let fields_array_ty = header_fields_type();
        proof {
            crate::signature::lemma_sig_parse_wf(Seq::empty());
        }
        let fields_value = u.read_value(&fields_array_ty)?;
        let fields = match &fields_value {
            Value::Array(arr) => fields_of_entries(&arr.elements)?,
            _ => {
                let empty: Vec<HeaderField> = Vec::new();
                assert(fields_view(empty@) =~= Seq::<FieldSpec>::empty());
                empty
            },
        };
        u.align(8)?;
        let header = MessageHeader {
            big_endian,
            message_type,
            flags: msg_flags,
            protocol_version,
            body_length,
            serial,
            fields,
        };
        Ok((header, u.pos))
    }
}

/// The fields that the header array entries `els` make.
fn fields_of_entries(els: &Vec<Value>) -> (r: Result<Vec<HeaderField>, CoreError>)
    ensures
        match fields_from_entries(crate::types::values_view(els@)) {
            Ok(fs) => r matches Ok(v) && fields_view(v@) == fs,
            Err(c) => r matches Err(e) && is_field_error(e, c),
        },
{
    let ghost es = crate::types::values_view(els@);
    let mut fields: Vec<HeaderField> = Vec::new();
    proof {
        crate::types::lemma_values_view(els@);
        assert(es.take(0) =~= Seq::<ValueSpec>::empty());
        assert(fields_view(fields@) =~= Seq::<FieldSpec>::empty());
    }
    let mut i: usize = 0;
    while i < els.len()
        invariant
            i <= els@.len(),
            es == crate::types::values_view(els@),
            es.len() == els@.len(),
            forall|j: int| 0 <= j < es.len() ==> #[trigger] es[j] == els@[j]@,
            fields_from_entries(es.take(i as int)) == Ok::<Seq<FieldSpec>, u8>(fields_view(fields@)),
        decreases els.len() - i,
    {
        let ghost before = fields@;
        proof {
            assert(es.take(i + 1).drop_last() =~= es.take(i as int));
            assert(es.take(i + 1).last() == es[i as int]);
        }
        let res = entry_to_field(&els[i]);
        match res {
            Err(e) => {
                proof {
                    lemma_fields_err_prefix(es, i + 1);
                }
                return Err(e);
            },
            Ok(None) => {},
            Ok(Some(f)) => {
                fields.push(f);
                assert(fields_view(fields@) =~= fields_view(before).push(fields@.last()@));
            },
        }
        i = i + 1;
    }
    proof {
        assert(es.take(i as int) =~= es);
    }
    Ok(fields)
}

/// The type `a(yv)` of the header field array.
fn header_fields_type() -> (t: Type)
    ensures
        t@ == header_array_type(),
        wf_type(t@),
{
    let mut ftys: Vec<Type> = Vec::new();
    ftys.push(Type::Byte);
    ftys.push(Type::Variant);
    let ghost ftys_v = ftys@;
    let st = Type::Struct(ftys);
    proof {
        assert(ftys_v[0]@ == TypeSpec::Byte);
        assert(ftys_v[1]@ == TypeSpec::Variant);
        assert(st@->Struct_0 =~= seq![TypeSpec::Byte, TypeSpec::Variant]);
        assert(wf_type(st@->Struct_0[0]) && wf_type(st@->Struct_0[1]));
        assert(wf_type(st@));
    }
    Type::Array(Box::new(st))
}

/// The field a header array entry makes.
fn entry_to_field(el: &Value) -> (r: Result<Option<HeaderField>, CoreError>)
    ensures
        match entry_field(el@) {
            Ok(None) => r matches Ok(None),
            Ok(Some(f)) => r matches Ok(Some(g)) && g@ == f,
            Err(c) => r matches Err(e) && is_field_error(e, c),
        },
{
    match el {
        Value::Struct(pair) => {
            proof {
                crate::types::lemma_values_view(pair@);
            }
            if pair.len() != 2 {
                return Ok(None);
            }
            let code = match &pair[0] {
                Value::Byte(b) => *b,
                _ => {
                    return Ok(None);
                },
            };
            let inner: &Value = match &pair[1] {
                Value::Variant(v) => v,
                other => other,
            };
            HeaderField::from_code_and_value(code, inner)
        },
        _ => Ok(None),
    }
}

} // verus!
