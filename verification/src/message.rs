//! Messages: building them, and turning them into bytes and back.

use crate::error::CoreError;
use crate::header::flags;
use crate::header::{
    fields_view, header_entries, header_prefix, header_read_outcome, missing_field, number_field,
    text_field, FieldSpec, HeaderField, MessageHeader, MessageType, PROTOCOL_VERSION,
};
use crate::marshal::{is_enc_error, marshal_body, types_of, Marshaler};
use crate::signature::signature_outcome;
use crate::types::{sigs_of, valid_signature, values_view, ObjectPath, Signature, TypeSpec, Value, ValueSpec};
use crate::unmarshal::{body_outcome, unmarshal_body};
use crate::wire::{enc, enc_seq, pad_len, zeros};
use vstd::prelude::*;

verus! {

broadcast use vstd::std_specs::vec::group_vec_axioms;

/// Hands out message serials: 1, 2, 3, ... around the `u32` range, never 0.
#[derive(Debug)]
pub struct SerialGenerator {
    next_serial: u32,
}

impl SerialGenerator {
    /// The serial the next call of `next` considers first.
    pub closed spec fn upcoming(&self) -> u32 {
        self.next_serial
    }

    /// A generator that starts at 1.
    pub fn new() -> (g: SerialGenerator)
        ensures
            g.upcoming() == 1,
    {
        SerialGenerator { next_serial: 1 }
    }

    /// The next serial: the counter's value, skipping 0 where the counter
    /// has wrapped around.
    pub fn next(&mut self) -> (s: u32)
        ensures
            s != 0,
            s == if old(self).upcoming() == 0 {
                1
            } else {
                old(self).upcoming()
            },
            final(self).upcoming() == (s as int + 1) % 0x1_0000_0000,
    {
        let mut v = self.next_serial;
        if v == 0 {
            v = 1;
        }
        self.next_serial = if v == u32::MAX {
            0
        } else {
            v + 1
        };
        v
    }
}

impl Default for SerialGenerator {
    fn default() -> (g: SerialGenerator)
        ensures
            g.upcoming() == 1,
    {
        SerialGenerator::new()
    }
}

/// Whether the host stores numbers big-endian.
#[verifier::external_body]
fn host_is_big_endian() -> (r: bool) {
    1u16.to_be() == 1
}

/// A message: header, body values and the unix fds that travel with it.
#[derive(Debug)]
pub struct Message {
    pub header: MessageHeader,
    pub body: Vec<Value>,
    pub fds: Vec<i32>,
}

/// The fields of `fs` other than the signature and unix-fd count.
pub open spec fn without_body_fields(fs: Seq<FieldSpec>) -> Seq<FieldSpec>
    decreases fs.len(),
{
    if fs.len() == 0 {
        Seq::empty()
    } else if fs.last() is Signature || fs.last() is UnixFds {
        without_body_fields(fs.drop_last())
    } else {
        without_body_fields(fs.drop_last()).push(fs.last())
    }
}

/// The header fields a message is written with: the given fields without
/// signature and fd count, then the body signature where it is not
/// empty, then the fd count where there are fds.
pub open spec fn finished_fields(fs: Seq<FieldSpec>, sig: Seq<char>, nfds: nat) -> Seq<FieldSpec> {
    let a = without_body_fields(fs);
    let b = if sig.len() > 0 {
        a.push(FieldSpec::Signature(sig))
    } else {
        a
    };
    if nfds > 0 {
        b.push(FieldSpec::UnixFds(nfds as u32))
    } else {
        b
    }
}

/// The bytes of a message with header `h`, body `body` and `nfds` fds, or
/// why there are none: `Err(None)` stands for every error.
pub open spec fn message_bytes(h: MessageHeader, body: Seq<ValueSpec>, nfds: nat) -> Option<Seq<u8>> {
    let be = h.big_endian;
    match enc_seq(body, 0, be) {
        Err(_) => None,
        Ok(bb) => {
            let sig = sigs_of(types_of(body));
            if sig.len() > 0 && !valid_signature(sig) {
                None
            } else {
                let fs = finished_fields(h.fields_spec(), sig, nfds);
                if missing_field(h.message_type, fs) is Some {
                    None
                } else {
                    let p1 = header_prefix(
                        0,
                        be,
                        h.message_type,
                        h.flags,
                        h.protocol_version,
                        bb.len() as u32,
                        h.serial,
                        be,
                    );
                    match enc(
                        ValueSpec::Array(
                            TypeSpec::Struct(seq![TypeSpec::Byte, TypeSpec::Variant]),
                            header_entries(fs),
                        ),
                        p1.len() as int,
                        be,
                    ) {
                        Ok(hb) => Some(p1 + hb + zeros(pad_len((p1.len() + hb.len()) as int, 8)) + bb),
                        Err(_) => None,
                    }
                }
            }
        },
    }
}

/// The error `to_bytes` reports for a message it cannot write.
pub open spec fn message_bytes_error(h: MessageHeader, body: Seq<ValueSpec>, nfds: nat, ce: CoreError) -> bool {
    let be = h.big_endian;
    match enc_seq(body, 0, be) {
        Err(e) => is_enc_error(ce, e),
        Ok(bb) => {
            let sig = sigs_of(types_of(body));
            if sig.len() > 0 && !valid_signature(sig) {
                signature_outcome(sig, Err(ce))
            } else {
                let fs = finished_fields(h.fields_spec(), sig, nfds);
                match missing_field(h.message_type, fs) {
                    Some(name) => ce matches CoreError::MissingHeaderField(n) && n@ == name,
                    None => {
                        let p1 = header_prefix(
                            0,
                            be,
                            h.message_type,
                            h.flags,
                            h.protocol_version,
                            bb.len() as u32,
                            h.serial,
                            be,
                        );
                        match enc(
                            ValueSpec::Array(
                                TypeSpec::Struct(seq![TypeSpec::Byte, TypeSpec::Variant]),
                                header_entries(fs),
                            ),
                            p1.len() as int,
                            be,
                        ) {
                            Ok(_) => false,
                            Err(e) => is_enc_error(ce, e),
                        }
                    },
                }
            }
        },
    }
}

/// Where the body of the message that `buf` starts ends, once its header
/// reads.
pub open spec fn body_end(buf: Seq<u8>) -> Option<int> {
    if exists|h: MessageHeader, n: usize| header_read_outcome(buf, Ok((h, n))) {
        let (h, n) = choose|h: MessageHeader, n: usize| header_read_outcome(buf, Ok((h, n)));
        Some(n + h.body_length)
    } else {
        None
    }
}

impl Message {
    /// The message type.
    pub fn message_type(&self) -> (t: MessageType)
        ensures
            t == self.header.message_type,
    {
        self.header.message_type
    }

    /// The serial.
    pub fn serial(&self) -> (s: u32)
        ensures
            s == self.header.serial,
    {
        self.header.serial
    }

    /// The object path.
    pub fn path(&self) -> (r: Option<&ObjectPath>)
        ensures
            match text_field(self.header.fields_spec(), 1) {
                Some(s) => r matches Some(p) && p@ == s,
                None => r is None,
            },
    {
        self.header.path()
    }

    /// The interface.
    pub fn interface(&self) -> (r: Option<&str>)
        ensures
            match text_field(self.header.fields_spec(), 2) {
                Some(s) => r matches Some(t) && t@ == s,
                None => r is None,
            },
    {
        self.header.interface()
    }

    /// The member.
    pub fn member(&self) -> (r: Option<&str>)
        ensures
            match text_field(self.header.fields_spec(), 3) {
                Some(s) => r matches Some(t) && t@ == s,
                None => r is None,
            },
    {
        self.header.member()
    }

    /// The destination.
    pub fn destination(&self) -> (r: Option<&str>)
        ensures
            match text_field(self.header.fields_spec(), 6) {
                Some(s) => r matches Some(t) && t@ == s,
                None => r is None,
            },
    {
        self.header.destination()
    }

    /// The sender.
    pub fn sender(&self) -> (r: Option<&str>)
        ensures
            match text_field(self.header.fields_spec(), 7) {
                Some(s) => r matches Some(t) && t@ == s,
                None => r is None,
            },
    {
        self.header.sender()
    }

    /// The serial this message replies to.
    pub fn reply_serial(&self) -> (r: Option<u32>)
        ensures
            r == number_field(self.header.fields_spec(), 5),
    {
        self.header.reply_serial()
    }

    /// Whether the sender said it expects no reply.
    pub fn no_reply_expected(&self) -> (b: bool)
        ensures
            b == (self.header.flags & flags::NO_REPLY_EXPECTED != 0),
    {
        self.header.flags & flags::NO_REPLY_EXPECTED != 0
    }

    /// Whether the bus may not start a service for this message.
    pub fn no_auto_start(&self) -> (b: bool)
        ensures
            b == (self.header.flags & flags::NO_AUTO_START != 0),
    {
        self.header.flags & flags::NO_AUTO_START != 0
    }

    /// Replace the sender field.
    pub fn set_sender(&mut self, sender: &str)
        ensures
            final(self).header.fields_spec() == crate::header::without_sender(
                old(self).header.fields_spec(),
            ).push(FieldSpec::Sender(sender@)),
            final(self).header.serial == old(self).header.serial,
            final(self).header.message_type == old(self).header.message_type,
            final(self).header.flags == old(self).header.flags,
            final(self).header.big_endian == old(self).header.big_endian,
            final(self).body@ == old(self).body@,
            final(self).fds@ == old(self).fds@,
    {
        self.header.set_sender(sender.to_owned());
    }

    /// The message as bytes: the header (with the body's signature, length
    /// and fd count filled in) and the body.
    pub fn to_bytes(&self) -> (r: Result<Vec<u8>, CoreError>)
        ensures
            match message_bytes(self.header, values_view(self.body@), self.fds@.len()) {
                Some(b) => r matches Ok(v) && v@ == b,
                None => r matches Err(ce) && message_bytes_error(
                    self.header,
                    values_view(self.body@),
                    self.fds@.len(),
                    ce,
                ),
            },
    {
        let be = self.header.big_endian;
        let (body_bytes, sig) = marshal_body(self.body.as_slice(), be)?;
        let ghost fs0 = self.header.fields_spec();
        let mut fields: Vec<HeaderField> = Vec::new();
        let mut i: usize = 0;
        proof {
            assert(fields_view(fields@) =~= Seq::<FieldSpec>::empty());
            assert(fs0.take(0) =~= Seq::<FieldSpec>::empty());
        }
        while i < self.header.fields.len()
            invariant
                i <= self.header.fields@.len(),
                fs0 == self.header.fields_spec(),
                fields_view(fields@) == without_body_fields(fs0.take(i as int)),
            decreases self.header.fields.len() - i,
        {
            let ghost before = fields@;
            proof {
                assert(fs0.take(i + 1).drop_last() =~= fs0.take(i as int));
            }
            match &self.header.fields[i] {
                HeaderField::Signature(_) => {},
                HeaderField::UnixFds(_) => {},
                other => {
                    fields.push(other.duplicate());
                    assert(fields_view(fields@) =~= fields_view(before).push(fs0[i as int]));
                },
            }
            i = i + 1;
        }
        proof {
            assert(fs0.take(fs0.len() as int) =~= fs0);
        }
        if !sig.as_str().is_empty() {
            let s = Signature::new(sig.as_str())?;
            let ghost before = fields@;
            fields.push(HeaderField::Signature(s));
            assert(fields_view(fields@) =~= fields_view(before).push(FieldSpec::Signature(sig@)));
        }
        if self.fds.len() > 0 {
            let ghost before = fields@;
            fields.push(HeaderField::UnixFds(self.fds.len() as u32));
            assert(fields_view(fields@) =~= fields_view(before).push(
                FieldSpec::UnixFds(self.fds@.len() as u32),
            ));
        }
        let header = MessageHeader {
            big_endian: be,
            message_type: self.header.message_type,
            flags: self.header.flags,
            protocol_version: self.header.protocol_version,
            body_length: body_bytes.len() as u32,
            serial: self.header.serial,
            fields,
        };
        header.validate()?;
        let mut m = Marshaler::new(be);
        header.write(&mut m)?;
        let mut k: usize = 0;
        let ghost hb = m.buf@;
        while k < body_bytes.len()
            invariant
                k <= body_bytes@.len(),
                m.buf@ == hb + body_bytes@.subrange(0, k as int),
            decreases body_bytes.len() - k,
        {
            m.buf.push(body_bytes[k]);
            k = k + 1;
            assert(m.buf@ =~= hb + body_bytes@.subrange(0, k as int));
        }
        assert(body_bytes@.subrange(0, body_bytes@.len() as int) =~= body_bytes@);
        Ok(m.into_bytes())
    }

    /// The message that `buf` holds, with the fds that came with it. The
    /// buffer holds the whole body the header announces.
    pub fn from_bytes(buf: &[u8], fds: Vec<i32>) -> (r: Result<Message, CoreError>)
        requires
            body_end(buf@) matches Some(e) ==> e <= buf@.len(),
        ensures
            match r {
                Ok(msg) => {
                    &&& exists|n: usize|
                        header_read_outcome(buf@, Ok((msg.header, n))) && body_matches(
                            buf@,
                            n as int,
                            msg.header,
                            Ok(msg.body),
                        )
                    &&& msg.fds@ == fds@
                    &&& fds@.len() >= number_or_zero(msg.header.fields_spec(), 9)
                },
                Err(e) => {
                    ||| header_read_outcome(buf@, Err(e))
                    ||| exists|h: MessageHeader, n: usize|
                        header_read_outcome(buf@, Ok((h, n))) && body_matches(
                            buf@,
                            n as int,
                            h,
                            Err(e),
                        )
                    ||| exists|h: MessageHeader, n: usize, v: Vec<Value>|
                        header_read_outcome(buf@, Ok((h, n))) && body_matches(
                            buf@,
                            n as int,
                            h,
                            Ok(v),
                        ) && fds@.len() < number_or_zero(h.fields_spec(), 9) && e
                            == CoreError::FdIndexOutOfRange(
                            number_or_zero(h.fields_spec(), 9) as u32,
                            fds@.len() as usize,
                        )
                },
            },
    {
        let (header, body_offset) = MessageHeader::read(buf)?;
        proof {
            assert(header_read_outcome(buf@, Ok((header, body_offset))));
            let (h2, n2) = choose|h: MessageHeader, n: usize| header_read_outcome(buf@, Ok((h, n)));
            assert(header_read_outcome(buf@, Ok((h2, n2))));
            assert(n2 == body_offset && h2.body_length == header.body_length);
        }
        let blen = buf.len();
        assert(body_offset + header.body_length <= blen);
        let end = body_offset + header.body_length as usize;
        let body_buf = vstd::slice::slice_subrange(buf, body_offset, end);
        let sig = header.signature();
        let body = if sig.is_empty() {
            let v: Vec<Value> = Vec::new();
            v
        } else {
            match unmarshal_body(body_buf, sig, header.big_endian) {
                Ok(v) => v,
                Err(e) => {
                    assert(body_matches(buf@, body_offset as int, header, Err(e)));
                    return Err(e);
                },
            }
        };
        assert(body_matches(buf@, body_offset as int, header, Ok(body)));
        let declared_fds = header.unix_fds();
        if fds.len() < declared_fds as usize {
            return Err(CoreError::FdIndexOutOfRange(declared_fds, fds.len()));
        }
        let msg = Message { header, body, fds };
        assert(header_read_outcome(buf@, Ok((msg.header, body_offset))) && body_matches(
            buf@,
            body_offset as int,
            msg.header,
            Ok(msg.body),
        ));
        Ok(msg)
    }
}

/// What decoding the body of a message with header `h` whose body starts
/// at `n` in `buf` gives: nothing where the signature is empty.
pub open spec fn body_matches(buf: Seq<u8>, n: int, h: MessageHeader, r: Result<Vec<Value>, CoreError>) -> bool {
    let sig = match text_field(h.fields_spec(), 8) {
        Some(s) => s,
        None => Seq::empty(),
    };
    if sig.len() == 0 {
        r matches Ok(v) && v@.len() == 0
    } else {
        body_outcome(buf.subrange(n, n + h.body_length), sig, h.big_endian, r)
    }
}

/// The number a number field holds, or 0.
pub open spec fn number_or_zero(fs: Seq<FieldSpec>, code: u8) -> nat {
    match number_field(fs, code) {
        Some(v) => v as nat,
        None => 0,
    }
}

/// Builds a message field by field.
pub struct MessageBuilder {
    message_type: MessageType,
    flags: u8,
    fields: Vec<HeaderField>,
    body: Vec<Value>,
    fds: Vec<i32>,
    big_endian: bool,
}

impl MessageBuilder {
    /// The message type.
    pub closed spec fn kind(&self) -> MessageType {
        self.message_type
    }

    /// The flags byte so far.
    pub closed spec fn flag_bits(&self) -> u8 {
        self.flags
    }

    /// The header fields so far.
    pub closed spec fn fields_spec(&self) -> Seq<FieldSpec> {
        fields_view(self.fields@)
    }

    /// The body so far.
    pub closed spec fn body_spec(&self) -> Seq<ValueSpec> {
        values_view(self.body@)
    }

    /// The fds so far.
    pub closed spec fn fds_spec(&self) -> Seq<i32> {
        self.fds@
    }

    /// The byte order the message is built in.
    pub closed spec fn is_big_endian(&self) -> bool {
        self.big_endian
    }

    fn new(message_type: MessageType) -> (b: MessageBuilder)
        ensures
            b.kind() == message_type,
            b.flag_bits() == 0,
            b.fields_spec() == Seq::<FieldSpec>::empty(),
            b.body_spec() == Seq::<ValueSpec>::empty(),
            b.fds_spec() == Seq::<i32>::empty(),
    {
        let b = MessageBuilder {
            message_type,
            flags: 0,
            fields: Vec::new(),
            body: Vec::new(),
            fds: Vec::new(),
            big_endian: host_is_big_endian(),
        };
        assert(fields_view(b.fields@) =~= Seq::<FieldSpec>::empty());
        assert(values_view(b.body@) =~= Seq::<ValueSpec>::empty());
        b
    }

    fn push_field(&mut self, f: HeaderField)
        ensures
            final(self).fields_spec() == old(self).fields_spec().push(f@),
            final(self).kind() == old(self).kind(),
            final(self).flag_bits() == old(self).flag_bits(),
            final(self).body_spec() == old(self).body_spec(),
            final(self).fds_spec() == old(self).fds_spec(),
            final(self).is_big_endian() == old(self).is_big_endian(),
    {
        let ghost before = self.fields@;
        self.fields.push(f);
        assert(fields_view(self.fields@) =~= fields_view(before).push(f@));
    }

    /// A method call of `member` on the object at `path`.
    pub fn method_call(path: ObjectPath, member: &str) -> (b: MessageBuilder)
        ensures
            b.kind() == MessageType::MethodCall,
            b.flag_bits() == 0,
            b.fields_spec() == seq![FieldSpec::Path(path@), FieldSpec::Member(member@)],
            b.body_spec() == Seq::<ValueSpec>::empty(),
            b.fds_spec() == Seq::<i32>::empty(),
    {
        let mut b = Self::new(MessageType::MethodCall);
        b.push_field(HeaderField::Path(path));
        b.push_field(HeaderField::Member(member.to_owned()));
        b
    }

    /// A signal `interface.member` from the object at `path`.
    pub fn signal(path: ObjectPath, interface: &str, member: &str) -> (b: MessageBuilder)
        ensures
            b.kind() == MessageType::Signal,
            b.flag_bits() == 0,
            b.fields_spec() == seq![
                FieldSpec::Path(path@),
                FieldSpec::Interface(interface@),
                FieldSpec::Member(member@),
            ],
            b.body_spec() == Seq::<ValueSpec>::empty(),
            b.fds_spec() == Seq::<i32>::empty(),
    {
        let mut b = Self::new(MessageType::Signal);
        b.push_field(HeaderField::Path(path));
        b.push_field(HeaderField::Interface(interface.to_owned()));
        b.push_field(HeaderField::Member(member.to_owned()));
        b
    }

    /// A reply to the call with serial `reply_to_serial`.
    pub fn method_return(reply_to_serial: u32) -> (b: MessageBuilder)
        ensures
            b.kind() == MessageType::MethodReturn,
            b.flag_bits() == 0,
            b.fields_spec() == seq![FieldSpec::ReplySerial(reply_to_serial)],
            b.body_spec() == Seq::<ValueSpec>::empty(),
            b.fds_spec() == Seq::<i32>::empty(),
    {
        let mut b = Self::new(MessageType::MethodReturn);
        b.push_field(HeaderField::ReplySerial(reply_to_serial));
        b
    }

    /// An error `error_name` in reply to the call with serial
    /// `reply_to_serial`.
    pub fn error(reply_to_serial: u32, error_name: &str) -> (b: MessageBuilder)
        ensures
            b.kind() == MessageType::Error,
            b.flag_bits() == 0,
            b.fields_spec() == seq![
                FieldSpec::ReplySerial(reply_to_serial),
                FieldSpec::ErrorName(error_name@),
            ],
            b.body_spec() == Seq::<ValueSpec>::empty(),
            b.fds_spec() == Seq::<i32>::empty(),
    {
        let mut b = Self::new(MessageType::Error);
        b.push_field(HeaderField::ReplySerial(reply_to_serial));
        b.push_field(HeaderField::ErrorName(error_name.to_owned()));
        b
    }

    /// Add an interface field.
    pub fn interface(self, iface: &str) -> (b: MessageBuilder)
        ensures
            b.fields_spec() == self.fields_spec().push(FieldSpec::Interface(iface@)),
            b.kind() == self.kind(),
            b.flag_bits() == self.flag_bits(),
            b.body_spec() == self.body_spec(),
            b.fds_spec() == self.fds_spec(),
    {
        let mut b = self;
        b.push_field(HeaderField::Interface(iface.to_owned()));
        b
    }

    /// Add a destination field.
    pub fn destination(self, dest: &str) -> (b: MessageBuilder)
        ensures
            b.fields_spec() == self.fields_spec().push(FieldSpec::Destination(dest@)),
            b.kind() == self.kind(),
            b.flag_bits() == self.flag_bits(),
            b.body_spec() == self.body_spec(),
            b.fds_spec() == self.fds_spec(),
    {
        let mut b = self;
        b.push_field(HeaderField::Destination(dest.to_owned()));
        b
    }

    /// Add a sender field.
    pub fn sender(self, sender: &str) -> (b: MessageBuilder)
        ensures
            b.fields_spec() == self.fields_spec().push(FieldSpec::Sender(sender@)),
            b.kind() == self.kind(),
            b.flag_bits() == self.flag_bits(),
            b.body_spec() == self.body_spec(),
            b.fds_spec() == self.fds_spec(),
    {
        let mut b = self;
        b.push_field(HeaderField::Sender(sender.to_owned()));
        b
    }

    /// Set the no-reply-expected flag.
    pub fn no_reply_expected(self) -> (b: MessageBuilder)
        ensures
            b.flag_bits() == self.flag_bits() | flags::NO_REPLY_EXPECTED,
            b.fields_spec() == self.fields_spec(),
            b.kind() == self.kind(),
            b.body_spec() == self.body_spec(),
            b.fds_spec() == self.fds_spec(),
    {
        let mut b = self;
        b.flags = b.flags | flags::NO_REPLY_EXPECTED;
        b
    }

    /// Set the no-auto-start flag.
    pub fn no_auto_start(self) -> (b: MessageBuilder)
        ensures
            b.flag_bits() == self.flag_bits() | flags::NO_AUTO_START,
            b.fields_spec() == self.fields_spec(),
            b.kind() == self.kind(),
            b.body_spec() == self.body_spec(),
            b.fds_spec() == self.fds_spec(),
    {
        let mut b = self;
        b.flags = b.flags | flags::NO_AUTO_START;
        b
    }

    /// Set the allow-interactive-authorization flag.
    pub fn allow_interactive_authorization(self) -> (b: MessageBuilder)
        ensures
            b.flag_bits() == self.flag_bits() | flags::ALLOW_INTERACTIVE_AUTHORIZATION,
            b.fields_spec() == self.fields_spec(),
            b.kind() == self.kind(),
            b.body_spec() == self.body_spec(),
            b.fds_spec() == self.fds_spec(),
    {
        let mut b = self;
        b.flags = b.flags | flags::ALLOW_INTERACTIVE_AUTHORIZATION;
        b
    }

    /// Append a body value.
    pub fn arg(self, v: Value) -> (b: MessageBuilder)
        ensures
            b.body_spec() == self.body_spec().push(v@),
            b.fields_spec() == self.fields_spec(),
            b.kind() == self.kind(),
            b.flag_bits() == self.flag_bits(),
            b.fds_spec() == self.fds_spec(),
    {
        let mut b = self;
        let ghost before = b.body@;
        b.body.push(v);
        proof {
            assert(b.body@.drop_last() =~= before);
            crate::types::lemma_values_view(b.body@);
            crate::types::lemma_values_view(before);
            assert(values_view(b.body@) =~= values_view(before).push(v@));
        }
        b
    }

    /// Append body values.
    pub fn args(self, vs: Vec<Value>) -> (b: MessageBuilder)
        ensures
            b.body_spec() == self.body_spec() + values_view(vs@),
            b.fields_spec() == self.fields_spec(),
            b.kind() == self.kind(),
            b.flag_bits() == self.flag_bits(),
            b.fds_spec() == self.fds_spec(),
    {
        let mut b = self;
        let ghost before = b.body@;
        let ghost added = vs@;
        let mut vs = vs;
        b.body.append(&mut vs);
        proof {
            crate::types::lemma_values_view(b.body@);
            crate::types::lemma_values_view(before);
            crate::types::lemma_values_view(added);
            assert(values_view(b.body@) =~= values_view(before) + values_view(added));
        }
        b
    }

    /// Attach an fd.
    pub fn fd(self, fd: i32) -> (b: MessageBuilder)
        ensures
            b.fds_spec() == self.fds_spec().push(fd),
            b.fields_spec() == self.fields_spec(),
            b.kind() == self.kind(),
            b.flag_bits() == self.flag_bits(),
            b.body_spec() == self.body_spec(),
    {
        let mut b = self;
        b.fds.push(fd);
        b
    }

    /// The message with serial `serial`.
    pub fn build(self, serial: u32) -> (m: Message)
        ensures
            m.header.message_type == self.kind(),
            m.header.flags == self.flag_bits(),
            m.header.protocol_version == PROTOCOL_VERSION,
            m.header.body_length == 0,
            m.header.serial == serial,
            m.header.big_endian == self.is_big_endian(),
            m.header.fields_spec() == self.fields_spec(),
            values_view(m.body@) == self.body_spec(),
            m.fds@ == self.fds_spec(),
    {
        let header = MessageHeader {
            big_endian: self.big_endian,
            message_type: self.message_type,
            flags: self.flags,
            protocol_version: PROTOCOL_VERSION,
            body_length: 0,
            serial,
            fields: self.fields,
        };
        Message { header, body: self.body, fds: self.fds }
    }
}

/// A reply to `call`: an error named `error_name` where there is one, else
/// a method return; addressed to the call's sender where it has one.
pub fn reply_to(call: &Message, error_name: Option<&str>) -> (b: MessageBuilder)
    ensures
        b.kind() == if error_name is Some {
            MessageType::Error
        } else {
            MessageType::MethodReturn
        },
        b.flag_bits() == 0,
        b.body_spec() == Seq::<ValueSpec>::empty(),
        b.fds_spec() == Seq::<i32>::empty(),
        ({
            let base = match error_name {
                Some(n) => seq![FieldSpec::ReplySerial(call.header.serial), FieldSpec::ErrorName(n@)],
                None => seq![FieldSpec::ReplySerial(call.header.serial)],
            };
            b.fields_spec() == match text_field(call.header.fields_spec(), 7) {
                Some(s) => base.push(FieldSpec::Destination(s)),
                None => base,
            }
        }),
{
    let mut b = match error_name {
        None => MessageBuilder::method_return(call.serial()),
        Some(name) => MessageBuilder::error(call.serial(), name),
    };
    if let Some(sender) = call.sender() {
        b = b.destination(sender);
    }
    b
}

} // verus!
