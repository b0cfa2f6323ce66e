//! The D-Bus type system: types, values, object paths and signatures.

use crate::error::CoreError;
use crate::text::{char_is_alnum, chars_of, concat_str, is_alnum, push_char, str_eq, has_prefix};
use vstd::prelude::*;
use vstd::string::StringSliceAdditionalSpecFns;
use crate::signature::{parse_signature, sig_parse, signature_outcome};

verus! {

pub const MAX_ARRAY_DEPTH: u32 = 32;
pub const MAX_STRUCT_DEPTH: u32 = 32;
pub const MAX_SIGNATURE_LEN: usize = 255;
pub const MAX_ARRAY_LEN: usize = 67_108_864;
pub const DEFAULT_MAX_MESSAGE_LEN: u32 = 134_217_728;

// ---------------------------------------------------------------------------
// Types
// ---------------------------------------------------------------------------

/// A D-Bus type.
#[derive(Debug, PartialEq, Eq, Hash)]
pub enum Type {
    Byte,
    Boolean,
    Int16,
    UInt16,
    Int32,
    UInt32,
    Int64,
    UInt64,
    Double,
    String,
    ObjectPath,
    Signature,
    UnixFd,
    Array(Box<Type>),
    Struct(Vec<Type>),
    DictEntry(Box<Type>, Box<Type>),
    Variant,
}

/// The mathematical model of a [`Type`].
pub enum TypeSpec {
    Byte,
    Boolean,
    Int16,
    UInt16,
    Int32,
    UInt32,
    Int64,
    UInt64,
    Double,
    String,
    ObjectPath,
    Signature,
    UnixFd,
    Array(Box<TypeSpec>),
    Struct(Seq<TypeSpec>),
    DictEntry(Box<TypeSpec>, Box<TypeSpec>),
    Variant,
}

impl View for Type {
    type V = TypeSpec;

    open spec fn view(&self) -> TypeSpec
        decreases self,
    {
        match self {
            Type::Byte => TypeSpec::Byte,
            Type::Boolean => TypeSpec::Boolean,
            Type::Int16 => TypeSpec::Int16,
            Type::UInt16 => TypeSpec::UInt16,
            Type::Int32 => TypeSpec::Int32,
            Type::UInt32 => TypeSpec::UInt32,
            Type::Int64 => TypeSpec::Int64,
            Type::UInt64 => TypeSpec::UInt64,
            Type::Double => TypeSpec::Double,
            Type::String => TypeSpec::String,
            Type::ObjectPath => TypeSpec::ObjectPath,
            Type::Signature => TypeSpec::Signature,
            Type::UnixFd => TypeSpec::UnixFd,
            Type::Array(e) => TypeSpec::Array(Box::new((**e).view())),
            Type::Struct(fs) => TypeSpec::Struct(
                Seq::new(
                    fs@.len(),
                    |i: int|
                        if 0 <= i < fs@.len() {
                            fs@[i].view()
                        } else {
                            TypeSpec::Byte
                        },
                ),
            ),
            Type::DictEntry(k, v) => TypeSpec::DictEntry(
                Box::new((**k).view()),
                Box::new((**v).view()),
            ),
            Type::Variant => TypeSpec::Variant,
        }
    }
}

/// The models of the types `ts`.
pub open spec fn types_view(ts: Seq<Type>) -> Seq<TypeSpec> {
    Seq::new(ts.len(), |i: int| ts[i]@)
}

impl TypeSpec {
    /// The type code character.
    pub open spec fn code(self) -> char {
        match self {
            TypeSpec::Byte => 'y',
            TypeSpec::Boolean => 'b',
            TypeSpec::Int16 => 'n',
            TypeSpec::UInt16 => 'q',
            TypeSpec::Int32 => 'i',
            TypeSpec::UInt32 => 'u',
            TypeSpec::Int64 => 'x',
            TypeSpec::UInt64 => 't',
            TypeSpec::Double => 'd',
            TypeSpec::String => 's',
            TypeSpec::ObjectPath => 'o',
            TypeSpec::Signature => 'g',
            TypeSpec::UnixFd => 'h',
            TypeSpec::Array(_) => 'a',
            TypeSpec::Struct(_) => '(',
            TypeSpec::DictEntry(_, _) => '{',
            TypeSpec::Variant => 'v',
        }
    }

    /// Wire alignment in bytes.
    pub open spec fn alignment(self) -> nat {
        match self {
            TypeSpec::Byte | TypeSpec::Signature | TypeSpec::Variant => 1,
            TypeSpec::Int16 | TypeSpec::UInt16 => 2,
            TypeSpec::Boolean
            | TypeSpec::Int32
            | TypeSpec::UInt32
            | TypeSpec::UnixFd
            | TypeSpec::String
            | TypeSpec::ObjectPath
            | TypeSpec::Array(_) => 4,
            TypeSpec::Int64
            | TypeSpec::UInt64
            | TypeSpec::Double
            | TypeSpec::Struct(_)
            | TypeSpec::DictEntry(_, _) => 8,
        }
    }

    /// Basic (non-container) types.
    pub open spec fn is_basic(self) -> bool {
        !(self is Array || self is Struct || self is DictEntry || self is Variant)
    }
}

/// Whether every struct type within `t` has at least one field.
pub open spec fn wf_type(t: TypeSpec) -> bool
    decreases t,
{
    match t {
        TypeSpec::Array(e) => wf_type(*e),
        TypeSpec::Struct(fs) => fs.len() > 0 && forall|i: int| 0 <= i < fs.len() ==> wf_type(#[trigger] fs[i]),
        TypeSpec::DictEntry(k, v) => wf_type(*k) && wf_type(*v),
        _ => true,
    }
}

/// The signature text of a type.
pub open spec fn sig_of(t: TypeSpec) -> Seq<char>
    decreases t,
{
    match t {
        TypeSpec::Array(e) => seq!['a'] + sig_of(*e),
        TypeSpec::Struct(fs) => seq!['('] + sigs_of(fs) + seq![')'],
        TypeSpec::DictEntry(k, v) => seq!['{'] + sig_of(*k) + sig_of(*v) + seq!['}'],
        _ => seq![t.code()],
    }
}

/// The signature text of a sequence of types, concatenated.
pub open spec fn sigs_of(ts: Seq<TypeSpec>) -> Seq<char>
    decreases ts,
{
    if ts.len() == 0 {
        Seq::empty()
    } else {
        sigs_of(ts.subrange(0, ts.len() - 1)) + sig_of(ts[ts.len() - 1])
    }
}

pub proof fn lemma_sigs_of_push(ts: Seq<TypeSpec>, t: TypeSpec)
    ensures
        sigs_of(ts.push(t)) == sigs_of(ts) + sig_of(t),
{
    assert(ts.push(t).subrange(0, ts.len() as int) =~= ts);
}

impl Type {
    /// The type code character.
    pub fn code(&self) -> (c: char)
        ensures
            c == self@.code(),
    {
        match self {
            Type::Byte => 'y',
            Type::Boolean => 'b',
            Type::Int16 => 'n',
            Type::UInt16 => 'q',
            Type::Int32 => 'i',
            Type::UInt32 => 'u',
            Type::Int64 => 'x',
            Type::UInt64 => 't',
            Type::Double => 'd',
            Type::String => 's',
            Type::ObjectPath => 'o',
            Type::Signature => 'g',
            Type::UnixFd => 'h',
            Type::Array(_) => 'a',
            Type::Struct(_) => '(',
            Type::DictEntry(_, _) => '{',
            Type::Variant => 'v',
        }
    }

    /// Wire alignment in bytes.
    pub fn alignment(&self) -> (a: usize)
        ensures
            a == self@.alignment(),
    {
        match self {
            Type::Byte | Type::Signature | Type::Variant => 1,
            Type::Int16 | Type::UInt16 => 2,
            Type::Boolean
            | Type::Int32
            | Type::UInt32
            | Type::UnixFd
            | Type::String
            | Type::ObjectPath
            | Type::Array(_) => 4,
            Type::Int64 | Type::UInt64 | Type::Double | Type::Struct(_) | Type::DictEntry(_, _) => {
                8
            },
        }
    }

    /// Whether the type is basic (not a container).
    pub fn is_basic(&self) -> (r: bool)
        ensures
            r == self@.is_basic(),
    {
        match self {
            Type::Array(_) | Type::Struct(_) | Type::DictEntry(_, _) | Type::Variant => false,
            _ => true,
        }
    }

    /// Whether the type is a container.
    pub fn is_container(&self) -> (r: bool)
        ensures
            r == !self@.is_basic(),
    {
        !self.is_basic()
    }

    /// The signature text of this type.
    pub fn to_signature_string(&self) -> (s: String)
        ensures
            s@ == sig_of(self@),
    {
        let mut s = String::new();
        self.write_signature(&mut s);
        assert(s@ =~= sig_of(self@));
        s
    }

    fn write_signature(&self, out: &mut String)
        ensures
            final(out)@ == old(out)@ + sig_of(self@),
        decreases self,
    {
        match self {
            Type::Array(elem) => {
                push_char(out, 'a');
                elem.write_signature(out);
                assert(final(out)@ =~= old(out)@ + sig_of(self@));
            },
            Type::Struct(fields) => {
                push_char(out, '(');
                let ghost start = out@;
                let mut i: usize = 0;
                while i < fields.len()
                    invariant
                        i <= fields@.len(),
                        out@ == start + sigs_of(types_view(fields@).take(i as int)),
                        start == old(out)@.push('('),
                        *self == Type::Struct(*fields),
                    decreases fields.len() - i,
                {
                    proof {
                        broadcast use vstd::std_specs::vec::group_vec_axioms;
                        assert(decreases_to!(*self => self->Struct_0));
                        assert(self->Struct_0 == *fields);
                        assert(decreases_to!(*fields => fields@));
                        assert(decreases_to!(fields@ => fields@[i as int]));
                        assert(decreases_to!(*self => fields@[i as int]));
                    }
                    fields[i].write_signature(out);
                    proof {
                        lemma_sigs_of_push(types_view(fields@).take(i as int), fields@[i as int]@);
                        assert(types_view(fields@).take(i + 1) =~= types_view(fields@).take(
                            i as int,
                        ).push(fields@[i as int]@));
                    }
                    i = i + 1;
                }
                push_char(out, ')');
                assert(types_view(fields@).take(i as int) =~= types_view(fields@));
                assert(types_view(fields@) =~= self@->Struct_0);
                assert(final(out)@ =~= old(out)@ + sig_of(self@));
            },
            Type::DictEntry(k, v) => {
                push_char(out, '{');
                k.write_signature(out);
                v.write_signature(out);
                push_char(out, '}');
                assert(final(out)@ =~= old(out)@ + sig_of(self@));
            },
            other => {
                push_char(out, other.code());
                assert(final(out)@ =~= old(out)@ + sig_of(self@));
            },
        }
    }

    /// A copy of this type.
    pub fn duplicate(&self) -> (r: Type)
        ensures
            r@ == self@,
        decreases self,
    {
        match self {
            Type::Byte => Type::Byte,
            Type::Boolean => Type::Boolean,
            Type::Int16 => Type::Int16,
            Type::UInt16 => Type::UInt16,
            Type::Int32 => Type::Int32,
            Type::UInt32 => Type::UInt32,
            Type::Int64 => Type::Int64,
            Type::UInt64 => Type::UInt64,
            Type::Double => Type::Double,
            Type::String => Type::String,
            Type::ObjectPath => Type::ObjectPath,
            Type::Signature => Type::Signature,
            Type::UnixFd => Type::UnixFd,
            Type::Array(e) => Type::Array(Box::new(e.duplicate())),
            Type::Struct(fs) => {
                let mut out: Vec<Type> = Vec::new();
                let mut i: usize = 0;
                while i < fs.len()
                    invariant
                        i <= fs@.len(),
                        out@.len() == i,
                        forall|j: int| 0 <= j < i ==> (#[trigger] out@[j])@ == fs@[j]@,
                        *self == Type::Struct(*fs),
                    decreases fs.len() - i,
                {
                    proof {
                        broadcast use vstd::std_specs::vec::group_vec_axioms;
                        assert(decreases_to!(*self => self->Struct_0));
                        assert(self->Struct_0 == *fs);
                        assert(decreases_to!(*fs => fs@));
                        assert(decreases_to!(fs@ => fs@[i as int]));
                        assert(decreases_to!(*self => fs@[i as int]));
                    }
                    out.push(fs[i].duplicate());
                    i = i + 1;
                }
                let r = Type::Struct(out);
                assert(r@->Struct_0 =~= self@->Struct_0);
                r
            },
            Type::DictEntry(k, v) => Type::DictEntry(Box::new(k.duplicate()), Box::new(v.duplicate())),
            Type::Variant => Type::Variant,
        }
    }
}

// ---------------------------------------------------------------------------
// Object paths
// ---------------------------------------------------------------------------

/// A character allowed inside an object path element.
pub open spec fn is_path_char(c: char) -> bool {
    is_alnum(c) || c == '_'
}

/// A valid object path: `/`, or `/` followed by non-empty `/`-separated
/// elements of letters, digits and `_`.
pub open spec fn valid_object_path(s: Seq<char>) -> bool {
    &&& s.len() > 0
    &&& s[0] == '/'
    &&& s.len() == 1 || {
        &&& s.last() != '/'
        &&& forall|i: int|
            1 <= i < s.len() ==> is_path_char(#[trigger] s[i]) || (s[i] == '/' && s[i - 1] != '/')
    }
}

/// Whether `s` is a valid object path.
pub fn is_valid_object_path(s: &str) -> (r: bool)
    ensures
        r == valid_object_path(s@),
{
    let cs = chars_of(s);
    let n = cs.len();
    if n == 0 || cs[0] != '/' {
        return false;
    }
    if n == 1 {
        return true;
    }
    if cs[n - 1] == '/' {
        return false;
    }
    let mut i: usize = 1;
    while i < n
        invariant
            n == cs@.len(),
            cs@ == s@,
            1 <= i <= n,
            forall|j: int|
                1 <= j < i ==> is_path_char(#[trigger] cs@[j]) || (cs@[j] == '/' && cs@[j - 1]
                    != '/'),
        decreases n - i,
    {
        let c = cs[i];
        if !(char_is_alnum(c) || c == '_') {
            if c != '/' || cs[i - 1] == '/' {
                assert(!(is_path_char(cs@[i as int]) || (cs@[i as int] == '/' && cs@[i - 1]
                    != '/')));
                return false;
            }
        }
        i = i + 1;
    }
    true
}

/// An object path such as `/org/freedesktop/DBus`.
#[derive(Debug, Clone, PartialEq, Eq, Hash, PartialOrd, Ord)]
pub struct ObjectPath(String);

impl View for ObjectPath {
    type V = Seq<char>;

    closed spec fn view(&self) -> Seq<char> {
        self.0@
    }
}

impl ObjectPath {
    /// The path `s`, or `InvalidObjectPath` where it is not a valid path.
    pub fn new(s: &str) -> (r: Result<ObjectPath, CoreError>)
        ensures
            r is Ok <==> valid_object_path(s@),
            r matches Ok(p) ==> p@ == s@,
            r matches Err(e) ==> e matches CoreError::InvalidObjectPath(t) && t@ == s@,
    {
        let owned = s.to_owned();
        if !is_valid_object_path(s) {
            return Err(CoreError::InvalidObjectPath(owned));
        }
        Ok(ObjectPath(owned))
    }

    /// The path `s`, unchecked.
    pub fn new_unchecked(s: String) -> (p: ObjectPath)
        ensures
            p@ == s@,
    {
        ObjectPath(s)
    }

    /// The path text.
    pub fn as_str(&self) -> (s: &str)
        ensures
            s@ == self@,
    {
        self.0.as_str()
    }

    /// The path text, owned.
    pub fn into_string(self) -> (s: String)
        ensures
            s@ == self@,
    {
        self.0
    }

    /// A copy of this path.
    pub fn duplicate(&self) -> (p: ObjectPath)
        ensures
            p@ == self@,
    {
        ObjectPath(self.0.clone())
    }

    /// Whether the path lies in the namespace `prefix`: `prefix` is `/`,
    /// equals the path, or is a proper ancestor of it.
    pub fn is_within_namespace(&self, prefix: &str) -> (r: bool)
        ensures
            r == in_namespace(self@, prefix@),
    {
        proof {
            reveal_strlit("/");
            assert("/"@ =~= seq!['/']);
        }
        if str_eq(prefix, "/") {
            return true;
        }
        if str_eq(self.0.as_str(), prefix) {
            return true;
        }
        let p = concat_str(prefix, "/");
        let me = chars_of(self.0.as_str());
        let pc = chars_of(p.as_str());
        assert(pc@ =~= prefix@.push('/'));
        crate::text::starts_with(me.as_slice(), pc.as_slice())
    }
}

/// Whether `path` lies within the namespace `prefix`.
pub open spec fn in_namespace(path: Seq<char>, prefix: Seq<char>) -> bool {
    prefix == seq!['/'] || path == prefix || has_prefix(path, prefix.push('/'))
}

// ---------------------------------------------------------------------------
// Signatures
// ---------------------------------------------------------------------------

/// Whether `s` is a valid signature: at most 255 characters, all ASCII,
/// that parse into complete types.
pub open spec fn valid_signature(s: Seq<char>) -> bool {
    s.len() <= 255 && vstd::utf8::is_ascii_chars(s) && sig_parse(s) is Ok
}

/// A signature as text: ASCII, so one byte per character.
pub proof fn lemma_valid_signature_text(s: &str)
    ensures
        (s.spec_bytes().len() <= 255 && vstd::string::is_ascii(s) && sig_parse(s@) is Ok)
            <==> valid_signature(s@),
{
    broadcast use vstd::string::is_ascii_spec_bytes;

    if vstd::string::is_ascii(s) {
        assert(s.spec_bytes().len() == s@.len());
    } else {
        assert(!vstd::utf8::is_ascii_chars(s@));
    }
}

/// A signature string such as `a{sv}`.
#[derive(Debug, Clone, PartialEq, Eq, Hash, Default)]
pub struct Signature(String);

impl View for Signature {
    type V = Seq<char>;

    closed spec fn view(&self) -> Seq<char> {
        self.0@
    }
}

impl Signature {
    /// The signature `s`, or the error that parsing it gives.
    pub fn new(s: &str) -> (r: Result<Signature, CoreError>)
        ensures
            r is Ok <==> valid_signature(s@),
            r matches Ok(sig) ==> sig@ == s@,
            r matches Err(e) ==> signature_outcome(s@, Err(e)),
    {
        proof {
            lemma_valid_signature_text(s);
        }
        let byte_len = s.as_bytes().len();
        if byte_len > MAX_SIGNATURE_LEN {
            return Err(CoreError::SignatureTooLong(byte_len));
        }
        let _ = parse_signature(s)?;
        Ok(Signature(s.to_owned()))
    }

    /// The empty signature.
    pub fn empty() -> (sig: Signature)
        ensures
            sig@ == Seq::<char>::empty(),
    {
        Signature(String::new())
    }

    /// The signature text.
    pub fn as_str(&self) -> (s: &str)
        ensures
            s@ == self@,
    {
        self.0.as_str()
    }

    /// A copy of this signature.
    pub fn duplicate(&self) -> (sig: Signature)
        ensures
            sig@ == self@,
    {
        Signature(self.0.clone())
    }

    /// The complete types of this signature.
    pub fn types(&self) -> (r: Result<Vec<Type>, CoreError>)
        ensures
            r is Ok <==> valid_signature(self@),
            r matches Ok(v) ==> types_view(v@) == sig_parse(self@)->Ok_0,
    {
        let s = self.0.as_str();
        proof {
            lemma_valid_signature_text(s);
        }
        parse_signature(s)
    }
}

// ---------------------------------------------------------------------------
// Values
// ---------------------------------------------------------------------------

/// A D-Bus value. A `Double` is held as the bit pattern of the IEEE-754
/// number (`f64::to_bits`), which is also its wire form.
#[derive(Debug, PartialEq)]
pub enum Value {
    Byte(u8),
    Boolean(bool),
    Int16(i16),
    UInt16(u16),
    Int32(i32),
    UInt32(u32),
    Int64(i64),
    UInt64(u64),
    Double(u64),
    String(String),
    ObjectPath(ObjectPath),
    Signature(Signature),
    UnixFd(u32),
    Array(ArrayValue),
    Struct(Vec<Value>),
    DictEntry(Box<Value>, Box<Value>),
    Variant(Box<Value>),
}

/// An array value together with its element type.
#[derive(Debug, PartialEq)]
pub struct ArrayValue {
    pub element_type: Type,
    pub elements: Vec<Value>,
}

/// The mathematical model of a [`Value`].
pub enum ValueSpec {
    Byte(u8),
    Boolean(bool),
    Int16(i16),
    UInt16(u16),
    Int32(i32),
    UInt32(u32),
    Int64(i64),
    UInt64(u64),
    Double(u64),
    String(Seq<char>),
    ObjectPath(Seq<char>),
    Signature(Seq<char>),
    UnixFd(u32),
    Array(TypeSpec, Seq<ValueSpec>),
    Struct(Seq<ValueSpec>),
    DictEntry(Box<ValueSpec>, Box<ValueSpec>),
    Variant(Box<ValueSpec>),
}

impl View for Value {
    type V = ValueSpec;

    open spec fn view(&self) -> ValueSpec {
        value_view(*self)
    }
}

/// The model of a value.
pub open spec fn value_view(v: Value) -> ValueSpec
    decreases v,
{
    match v {
        Value::Byte(x) => ValueSpec::Byte(x),
        Value::Boolean(x) => ValueSpec::Boolean(x),
        Value::Int16(x) => ValueSpec::Int16(x),
        Value::UInt16(x) => ValueSpec::UInt16(x),
        Value::Int32(x) => ValueSpec::Int32(x),
        Value::UInt32(x) => ValueSpec::UInt32(x),
        Value::Int64(x) => ValueSpec::Int64(x),
        Value::UInt64(x) => ValueSpec::UInt64(x),
        Value::Double(x) => ValueSpec::Double(x),
        Value::String(s) => ValueSpec::String(s@),
        Value::ObjectPath(p) => ValueSpec::ObjectPath(p@),
        Value::Signature(s) => ValueSpec::Signature(s@),
        Value::UnixFd(x) => ValueSpec::UnixFd(x),
        Value::Array(a) => ValueSpec::Array(a.element_type@, values_view(a.elements@)),
        Value::Struct(fs) => ValueSpec::Struct(values_view(fs@)),
        Value::DictEntry(k, x) => ValueSpec::DictEntry(
            Box::new(value_view(*k)),
            Box::new(value_view(*x)),
        ),
        Value::Variant(x) => ValueSpec::Variant(Box::new(value_view(*x))),
    }
}

/// The models of the values `vs`.
pub open spec fn values_view(vs: Seq<Value>) -> Seq<ValueSpec>
    decreases vs,
{
    if vs.len() == 0 {
        Seq::empty()
    } else {
        values_view(vs.subrange(0, vs.len() - 1)).push(value_view(vs[vs.len() - 1]))
    }
}

/// `values_view` is the element-wise model.
pub broadcast proof fn lemma_values_view(vs: Seq<Value>)
    ensures
        #[trigger] values_view(vs).len() == vs.len(),
        forall|i: int| 0 <= i < vs.len() ==> #[trigger] values_view(vs)[i] == vs[i]@,
    decreases vs.len(),
{
    if vs.len() > 0 {
        lemma_values_view(vs.subrange(0, vs.len() - 1));
    }
}

/// The type of a value.
pub open spec fn type_of(v: ValueSpec) -> TypeSpec
    decreases v,
{
    match v {
        ValueSpec::Byte(_) => TypeSpec::Byte,
        ValueSpec::Boolean(_) => TypeSpec::Boolean,
        ValueSpec::Int16(_) => TypeSpec::Int16,
        ValueSpec::UInt16(_) => TypeSpec::UInt16,
        ValueSpec::Int32(_) => TypeSpec::Int32,
        ValueSpec::UInt32(_) => TypeSpec::UInt32,
        ValueSpec::Int64(_) => TypeSpec::Int64,
        ValueSpec::UInt64(_) => TypeSpec::UInt64,
        ValueSpec::Double(_) => TypeSpec::Double,
        ValueSpec::String(_) => TypeSpec::String,
        ValueSpec::ObjectPath(_) => TypeSpec::ObjectPath,
        ValueSpec::Signature(_) => TypeSpec::Signature,
        ValueSpec::UnixFd(_) => TypeSpec::UnixFd,
        ValueSpec::Array(t, _) => TypeSpec::Array(Box::new(t)),
        ValueSpec::Struct(fs) => TypeSpec::Struct(
            Seq::new(
                fs.len(),
                |i: int|
                    if 0 <= i < fs.len() {
                        type_of(fs[i])
                    } else {
                        TypeSpec::Byte
                    },
            ),
        ),
        ValueSpec::DictEntry(k, v) => TypeSpec::DictEntry(
            Box::new(type_of(*k)),
            Box::new(type_of(*v)),
        ),
        ValueSpec::Variant(_) => TypeSpec::Variant,
    }
}

/// The value under all variant wrappers.
pub open spec fn unwrap_variants(v: ValueSpec) -> ValueSpec
    decreases v,
{
    match v {
        ValueSpec::Variant(inner) => unwrap_variants(*inner),
        _ => v,
    }
}

impl ArrayValue {
    /// An array of `elements` with element type `element_type`.
    pub fn new(element_type: Type, elements: Vec<Value>) -> (a: ArrayValue)
        ensures
            a.element_type@ == element_type@,
            values_view(a.elements@) == values_view(elements@),
    {
        ArrayValue { element_type, elements }
    }

    /// An empty array with element type `element_type`.
    pub fn empty(element_type: Type) -> (a: ArrayValue)
        ensures
            a.element_type@ == element_type@,
            a.elements@.len() == 0,
    {
        ArrayValue { element_type, elements: Vec::new() }
    }
}

impl Value {
    /// The type of this value.
    pub fn value_type(&self) -> (t: Type)
        ensures
            t@ == type_of(self@),
        decreases self,
    {
        match self {
            Value::Byte(_) => Type::Byte,
            Value::Boolean(_) => Type::Boolean,
            Value::Int16(_) => Type::Int16,
            Value::UInt16(_) => Type::UInt16,
            Value::Int32(_) => Type::Int32,
            Value::UInt32(_) => Type::UInt32,
            Value::Int64(_) => Type::Int64,
            Value::UInt64(_) => Type::UInt64,
            Value::Double(_) => Type::Double,
            Value::String(_) => Type::String,
            Value::ObjectPath(_) => Type::ObjectPath,
            Value::Signature(_) => Type::Signature,
            Value::UnixFd(_) => Type::UnixFd,
            Value::Array(a) => Type::Array(Box::new(a.element_type.duplicate())),
            Value::Struct(fields) => {
                let mut out: Vec<Type> = Vec::new();
                let mut i: usize = 0;
                while i < fields.len()
                    invariant
                        i <= fields@.len(),
                        out@.len() == i,
                        forall|j: int| 0 <= j < i ==> (#[trigger] out@[j])@ == type_of(fields@[j]@),
                        *self == Value::Struct(*fields),
                    decreases fields.len() - i,
                {
                    proof {
                        broadcast use vstd::std_specs::vec::group_vec_axioms;

                        assert(decreases_to!(*self => self->Struct_0));
                        assert(self->Struct_0 == *fields);
                        assert(decreases_to!(*fields => fields@));
                        assert(decreases_to!(fields@ => fields@[i as int]));
                    }
                    out.push(fields[i].value_type());
                    i = i + 1;
                }
                proof {
                    lemma_values_view(fields@);
                }
                let ghost fv = self@->Struct_0;
                assert(fv.len() == fields@.len());
                assert forall|j: int| 0 <= j < fv.len() implies fv[j] == fields@[j]@ by {}
                let ghost tv = type_of(self@)->Struct_0;
                assert(tv.len() == fv.len());
                assert forall|j: int| 0 <= j < tv.len() implies tv[j] == type_of(fv[j]) by {}
                let t = Type::Struct(out);
                assert(t@->Struct_0 =~= type_of(self@)->Struct_0);
                t
            },
            Value::DictEntry(k, v) => Type::DictEntry(
                Box::new(k.value_type()),
                Box::new(v.value_type()),
            ),
            Value::Variant(_) => Type::Variant,
        }
    }

    /// The text of a string, object path or signature value.
    pub fn as_str(&self) -> (r: Option<&str>)
        ensures
            match self@ {
                ValueSpec::String(s) => r matches Some(t) && t@ == s,
                ValueSpec::ObjectPath(s) => r matches Some(t) && t@ == s,
                ValueSpec::Signature(s) => r matches Some(t) && t@ == s,
                _ => r is None,
            },
    {
        match self {
            Value::String(s) => Some(s.as_str()),
            Value::ObjectPath(p) => Some(p.as_str()),
            Value::Signature(s) => Some(s.as_str()),
            _ => None,
        }
    }

    /// The number held by a `UInt32` or `UnixFd` value.
    pub fn as_u32(&self) -> (r: Option<u32>)
        ensures
            match self@ {
                ValueSpec::UInt32(v) => r == Some(v),
                ValueSpec::UnixFd(v) => r == Some(v),
                _ => r is None,
            },
    {
        match self {
            Value::UInt32(v) => Some(*v),
            Value::UnixFd(v) => Some(*v),
            _ => None,
        }
    }

    /// The value under all variant wrappers.
    pub fn unwrap_variant(&self) -> (r: &Value)
        ensures
            r@ == unwrap_variants(self@),
        decreases self,
    {
        match self {
            Value::Variant(inner) => inner.unwrap_variant(),
            other => other,
        }
    }

    /// A string value.
    pub fn string(s: &str) -> (v: Value)
        ensures
            v@ == ValueSpec::String(s@),
    {
        Value::String(s.to_owned())
    }
}

} // verus!
