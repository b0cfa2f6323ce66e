//! Parsing and validation of D-Bus signature strings.

use crate::error::CoreError;
use crate::text::{chars_of, push_char};
use crate::types::{types_view, wf_type, Type, TypeSpec, MAX_ARRAY_DEPTH, MAX_STRUCT_DEPTH};
use vstd::prelude::*;
use vstd::string::StringSliceAdditionalSpecFns;
use vstd::utf8::{encode_utf8, is_ascii_chars};

verus! {

/// Why a signature does not parse.
pub enum SigErr {
    /// The text ended where a type was expected.
    Eof,
    /// A `(` without its `)`.
    Unterminated,
    /// `()`.
    EmptyStruct,
    /// A `{` that is not the element type of an array.
    DictNotAllowed,
    /// A dict entry whose key is not a basic type.
    DictKey,
    /// A dict entry without its `}`.
    DictUnterminated,
    /// A `)` or `}` where a type was expected.
    Closing,
    /// A character that is no type code.
    Unknown(char),
    /// More than 32 nested arrays, or more than 32 nested structs and dict
    /// entries.
    TooDeep,
}

/// The basic and variant types by their code.
pub open spec fn simple_type_of(c: char) -> Option<TypeSpec> {
    if c == 'y' {
        Some(TypeSpec::Byte)
    } else if c == 'b' {
        Some(TypeSpec::Boolean)
    } else if c == 'n' {
        Some(TypeSpec::Int16)
    } else if c == 'q' {
        Some(TypeSpec::UInt16)
    } else if c == 'i' {
        Some(TypeSpec::Int32)
    } else if c == 'u' {
        Some(TypeSpec::UInt32)
    } else if c == 'x' {
        Some(TypeSpec::Int64)
    } else if c == 't' {
        Some(TypeSpec::UInt64)
    } else if c == 'd' {
        Some(TypeSpec::Double)
    } else if c == 's' {
        Some(TypeSpec::String)
    } else if c == 'o' {
        Some(TypeSpec::ObjectPath)
    } else if c == 'g' {
        Some(TypeSpec::Signature)
    } else if c == 'h' {
        Some(TypeSpec::UnixFd)
    } else if c == 'v' {
        Some(TypeSpec::Variant)
    } else {
        None
    }
}

/// One complete type read from `s` at `pos`, with `ad` arrays and `sd`
/// structs or dict entries open around it; the type and the position
/// after it.
pub open spec fn parse_one_at(s: Seq<char>, pos: int, ad: int, sd: int, allow_dict: bool) -> Result<
    (TypeSpec, int),
    SigErr,
>
    decreases s.len() - pos, 0int,
{
    if pos < 0 || pos >= s.len() {
        Err(SigErr::Eof)
    } else {
        let c = s[pos];
        if simple_type_of(c) is Some {
            Ok((simple_type_of(c)->0, pos + 1))
        } else if c == 'a' {
            if ad + 1 > 32 {
                Err(SigErr::TooDeep)
            } else {
                match parse_one_at(s, pos + 1, ad + 1, sd, true) {
                    Ok((e, p)) => Ok((TypeSpec::Array(Box::new(e)), p)),
                    Err(x) => Err(x),
                }
            }
        } else if c == '(' {
            if sd + 1 > 32 {
                Err(SigErr::TooDeep)
            } else {
                match parse_fields_at(s, pos + 1, ad, sd + 1, Seq::empty()) {
                    Ok((fs, p)) => if fs.len() == 0 {
                        Err(SigErr::EmptyStruct)
                    } else {
                        Ok((TypeSpec::Struct(fs), p))
                    },
                    Err(x) => Err(x),
                }
            }
        } else if c == '{' {
            if !allow_dict {
                Err(SigErr::DictNotAllowed)
            } else if sd + 1 > 32 {
                Err(SigErr::TooDeep)
            } else {
                match parse_one_at(s, pos + 1, ad, sd + 1, false) {
                    Ok((k, p1)) => if !k.is_basic() {
                        Err(SigErr::DictKey)
                    } else if p1 <= pos || p1 > s.len() {
                        Err(SigErr::Eof)
                    } else {
                        match parse_one_at(s, p1, ad, sd + 1, false) {
                            Ok((v, p2)) => if 0 <= p2 < s.len() && s[p2] == '}' {
                                Ok((TypeSpec::DictEntry(Box::new(k), Box::new(v)), p2 + 1))
                            } else {
                                Err(SigErr::DictUnterminated)
                            },
                            Err(x) => Err(x),
                        }
                    },
                    Err(x) => Err(x),
                }
            }
        } else if c == ')' || c == '}' {
            Err(SigErr::Closing)
        } else {
            Err(SigErr::Unknown(c))
        }
    }
}

/// The fields of a struct read from `s` at `pos` (just after `(`), after
/// the fields `acc` already read; the fields and the position after `)`.
pub open spec fn parse_fields_at(
    s: Seq<char>,
    pos: int,
    ad: int,
    sd: int,
    acc: Seq<TypeSpec>,
) -> Result<(Seq<TypeSpec>, int), SigErr>
    decreases s.len() - pos, 1int,
{
    if pos < 0 || pos >= s.len() {
        Err(SigErr::Unterminated)
    } else if s[pos] == ')' {
        Ok((acc, pos + 1))
    } else {
        match parse_one_at(s, pos, ad, sd, false) {
            Ok((t, p)) => if p <= pos || p > s.len() {
                Err(SigErr::Eof)
            } else {
                parse_fields_at(s, p, ad, sd, acc.push(t))
            },
            Err(x) => Err(x),
        }
    }
}

/// The complete types of `s` from `pos` on, after the types `acc`.
pub open spec fn parse_all_at(s: Seq<char>, pos: int, acc: Seq<TypeSpec>) -> Result<
    Seq<TypeSpec>,
    SigErr,
>
    decreases s.len() - pos,
{
    if pos < 0 || pos >= s.len() {
        Ok(acc)
    } else {
        match parse_one_at(s, pos, 0, 0, false) {
            Ok((t, p)) => if p <= pos || p > s.len() {
                Err(SigErr::Eof)
            } else {
                parse_all_at(s, p, acc.push(t))
            },
            Err(x) => Err(x),
        }
    }
}

/// The types of the signature text `s` (ASCII, at most 255 bytes).
pub open spec fn sig_parse(s: Seq<char>) -> Result<Seq<TypeSpec>, SigErr> {
    parse_all_at(s, 0, Seq::empty())
}

/// The reason text carried by the error for `e`.
pub open spec fn sig_err_reason(e: SigErr) -> Seq<char> {
    match e {
        SigErr::Eof => "unexpected end of signature"@,
        SigErr::Unterminated => "unterminated struct: missing ')'"@,
        SigErr::EmptyStruct => "struct must have at least one field"@,
        SigErr::DictNotAllowed => "dict-entry '{' only allowed as an array element type"@,
        SigErr::DictKey => "dict-entry key must be a basic type"@,
        SigErr::DictUnterminated => "unterminated dict-entry: missing '}'"@,
        SigErr::Closing => "unexpected closing bracket"@,
        SigErr::Unknown(_) => "unknown type code"@,
        SigErr::TooDeep => Seq::empty(),
    }
}

/// Whether `e` is the error reported for the parse failure `se`.
pub open spec fn is_sig_error(e: CoreError, se: SigErr) -> bool {
    match se {
        SigErr::TooDeep => e == CoreError::NestingTooDeep {
            max_array: MAX_ARRAY_DEPTH,
            max_struct: MAX_STRUCT_DEPTH,
        },
        SigErr::Unknown(c) => e matches CoreError::InvalidSignature(t, m) && t@ == seq![c] && m@
            == sig_err_reason(se),
        _ => e matches CoreError::InvalidSignature(t, m) && t@ == Seq::<char>::empty() && m@
            == sig_err_reason(se),
    }
}

/// The error for the parse failure `se`.
fn sig_error(se: &SigErr) -> (e: CoreError)
    ensures
        is_sig_error(e, *se),
{
    proof {
        reveal_strlit("unexpected end of signature");
        reveal_strlit("unterminated struct: missing ')'");
        reveal_strlit("struct must have at least one field");
        reveal_strlit("dict-entry '{' only allowed as an array element type");
        reveal_strlit("dict-entry key must be a basic type");
        reveal_strlit("unterminated dict-entry: missing '}'");
        reveal_strlit("unexpected closing bracket");
        reveal_strlit("unknown type code");
    }
    match se {
        SigErr::Eof => CoreError::InvalidSignature(String::new(), "unexpected end of signature"),
        SigErr::Unterminated => CoreError::InvalidSignature(
            String::new(),
            "unterminated struct: missing ')'",
        ),
        SigErr::EmptyStruct => CoreError::InvalidSignature(
            String::new(),
            "struct must have at least one field",
        ),
        SigErr::DictNotAllowed => CoreError::InvalidSignature(
            String::new(),
            "dict-entry '{' only allowed as an array element type",
        ),
        SigErr::DictKey => CoreError::InvalidSignature(
            String::new(),
            "dict-entry key must be a basic type",
        ),
        SigErr::DictUnterminated => CoreError::InvalidSignature(
            String::new(),
            "unterminated dict-entry: missing '}'",
        ),
        SigErr::Closing => CoreError::InvalidSignature(String::new(), "unexpected closing bracket"),
        SigErr::Unknown(c) => {
            let mut t = String::new();
            push_char(&mut t, *c);
            assert(t@ =~= seq![*c]);
            CoreError::InvalidSignature(t, "unknown type code")
        },
        SigErr::TooDeep => CoreError::NestingTooDeep {
            max_array: MAX_ARRAY_DEPTH,
            max_struct: MAX_STRUCT_DEPTH,
        },
    }
}

/// Cursor over the characters of a signature.
struct Parser {
    chars: Vec<char>,
    pos: usize,
    array_depth: u32,
    struct_depth: u32,
}

impl Parser {
    spec fn inv(&self) -> bool {
        &&& self.pos <= self.chars@.len()
        &&& self.array_depth <= 32
        &&& self.struct_depth <= 32
    }

    fn peek(&self) -> (r: Option<char>)
        requires
            self.inv(),
        ensures
            r == (if self.pos < self.chars@.len() {
                Some(self.chars@[self.pos as int])
            } else {
                None
            }),
    {
        if self.pos < self.chars.len() {
            Some(self.chars[self.pos])
        } else {
            None
        }
    }

    fn advance(&mut self) -> (r: Option<char>)
        requires
            old(self).inv(),
        ensures
            final(self).inv(),
            final(self).chars@ == old(self).chars@,
            final(self).array_depth == old(self).array_depth,
            final(self).struct_depth == old(self).struct_depth,
            old(self).pos < old(self).chars@.len() ==> r == Some(old(self).chars@[old(self).pos as int])
                && final(self).pos == old(self).pos + 1,
            old(self).pos >= old(self).chars@.len() ==> r is None && final(self).pos == old(self).pos,
    {
        if self.pos < self.chars.len() {
            let b = self.chars[self.pos];
            self.pos = self.pos + 1;
            Some(b)
        } else {
            None
        }
    }

    fn parse_one(&mut self, allow_dict_entry: bool) -> (r: Result<Type, CoreError>)
        requires
            old(self).inv(),
        ensures
            final(self).inv(),
            final(self).chars@ == old(self).chars@,
            match parse_one_at(
                old(self).chars@,
                old(self).pos as int,
                old(self).array_depth as int,
                old(self).struct_depth as int,
                allow_dict_entry,
            ) {
                Ok((t, p)) => r matches Ok(rt) && rt@ == t && final(self).pos == p
                    && final(self).array_depth == old(self).array_depth
                    && final(self).struct_depth == old(self).struct_depth,
                Err(se) => r matches Err(e) && is_sig_error(e, se),
            },
        decreases old(self).chars@.len() - old(self).pos, 0int,
    {
        let ghost s = self.chars@;
        let ghost pos0 = self.pos as int;
        let ghost ad = self.array_depth as int;
        let ghost sd = self.struct_depth as int;
        let b = match self.advance() {
            Some(b) => b,
            None => {
                return Err(sig_error(&SigErr::Eof));
            },
        };
        let ty = if b == 'y' {
            Type::Byte
        } else if b == 'b' {
            Type::Boolean
        } else if b == 'n' {
            Type::Int16
        } else if b == 'q' {
            Type::UInt16
        } else if b == 'i' {
            Type::Int32
        } else if b == 'u' {
            Type::UInt32
        } else if b == 'x' {
            Type::Int64
        } else if b == 't' {
            Type::UInt64
        } else if b == 'd' {
            Type::Double
        } else if b == 's' {
            Type::String
        } else if b == 'o' {
            Type::ObjectPath
        } else if b == 'g' {
            Type::Signature
        } else if b == 'h' {
            Type::UnixFd
        } else if b == 'v' {
            Type::Variant
        } else if b == 'a' {
            if self.array_depth + 1 > MAX_ARRAY_DEPTH {
                return Err(sig_error(&SigErr::TooDeep));
            }
            self.array_depth = self.array_depth + 1;
            let elem = self.parse_one(true)?;
            self.array_depth = self.array_depth - 1;
            Type::Array(Box::new(elem))
        } else if b == '(' {
            if self.struct_depth + 1 > MAX_STRUCT_DEPTH {
                return Err(sig_error(&SigErr::TooDeep));
            }
            self.struct_depth = self.struct_depth + 1;
            let mut fields: Vec<Type> = Vec::new();
            assert(types_view(fields@) =~= Seq::<TypeSpec>::empty());
            loop
                invariant_except_break
                    parse_fields_at(s, pos0 + 1, ad, sd + 1, Seq::empty()) == parse_fields_at(
                        s,
                        self.pos as int,
                        ad,
                        sd + 1,
                        types_view(fields@),
                    ),
                invariant
                    self.inv(),
                    self.chars@ == s,
                    s == old(self).chars@,
                    pos0 == old(self).pos,
                    ad == old(self).array_depth,
                    sd == old(self).struct_depth,
                    b == '(',
                    s[pos0] == '(',
                    self.array_depth == ad,
                    self.struct_depth == sd + 1,
                    self.pos > pos0,
                    sd + 1 <= 32,
                ensures
                    parse_fields_at(s, pos0 + 1, ad, sd + 1, Seq::empty()) == Ok::<
                        (Seq<TypeSpec>, int),
                        SigErr,
                    >((types_view(fields@), self.pos as int)),
                decreases s.len() - self.pos,
            {
                match self.peek() {
                    Some(c) => {
                        if c == ')' {
                            self.advance();
                            break ;
                        }
                        let ghost before = self.pos;
                        let ghost old_fields = fields@;
                        let f = self.parse_one(false)?;
                        proof {
                            lemma_parse_one_advances(s, before as int, ad, sd + 1, false);
                        }
                        fields.push(f);
                        assert(types_view(fields@) =~= types_view(fields@.drop_last()).push(f@));
                        assert(fields@.drop_last() == old_fields);
                    },
                    None => {
                        return Err(sig_error(&SigErr::Unterminated));
                    },
                }
            }
            self.struct_depth = self.struct_depth - 1;
            if fields.len() == 0 {
                return Err(sig_error(&SigErr::EmptyStruct));
            }
            let ghost fv = types_view(fields@);
            let st = Type::Struct(fields);
            assert(st@->Struct_0 =~= fv);
            st
        } else if b == '{' {
            if !allow_dict_entry {
                return Err(sig_error(&SigErr::DictNotAllowed));
            }
            if self.struct_depth + 1 > MAX_STRUCT_DEPTH {
                return Err(sig_error(&SigErr::TooDeep));
            }
            self.struct_depth = self.struct_depth + 1;
            let key = self.parse_one(false)?;
            if !key.is_basic() {
                return Err(sig_error(&SigErr::DictKey));
            }
            proof {
                lemma_parse_one_advances(s, pos0 + 1, ad, sd + 1, false);
            }
            let val = self.parse_one(false)?;
            match self.advance() {
                Some(c) => {
                    if c != '}' {
                        return Err(sig_error(&SigErr::DictUnterminated));
                    }
                },
                None => {
                    return Err(sig_error(&SigErr::DictUnterminated));
                },
            }
            self.struct_depth = self.struct_depth - 1;
            Type::DictEntry(Box::new(key), Box::new(val))
        } else if b == ')' || b == '}' {
            return Err(sig_error(&SigErr::Closing));
        } else {
            return Err(sig_error(&SigErr::Unknown(b)));
        };
        Ok(ty)
    }
}

/// A successful `parse_one_at` consumes at least one character.
pub proof fn lemma_parse_one_advances(s: Seq<char>, pos: int, ad: int, sd: int, allow: bool)
    ensures
        parse_one_at(s, pos, ad, sd, allow) matches Ok((_, p)) ==> pos < p <= s.len(),
    decreases s.len() - pos, 0int,
{
    if 0 <= pos < s.len() {
        let c = s[pos];
        if simple_type_of(c) is Some {
        } else if c == 'a' {
            if ad + 1 <= 32 {
                lemma_parse_one_advances(s, pos + 1, ad + 1, sd, true);
            }
        } else if c == '(' {
            if sd + 1 <= 32 {
                lemma_parse_fields_advances(s, pos + 1, ad, sd + 1, Seq::empty());
            }
        } else if c == '{' {
            if allow && sd + 1 <= 32 {
                lemma_parse_one_advances(s, pos + 1, ad, sd + 1, false);
                if let Ok((k, p1)) = parse_one_at(s, pos + 1, ad, sd + 1, false) {
                    if p1 > pos {
                        lemma_parse_one_advances(s, p1, ad, sd + 1, false);
                    }
                }
            }
        }
    }
}

/// A successful `parse_fields_at` consumes at least the closing `)`.
pub proof fn lemma_parse_fields_advances(
    s: Seq<char>,
    pos: int,
    ad: int,
    sd: int,
    acc: Seq<TypeSpec>,
)
    ensures
        parse_fields_at(s, pos, ad, sd, acc) matches Ok((_, p)) ==> pos < p <= s.len(),
    decreases s.len() - pos, 1int,
{
    if 0 <= pos < s.len() && s[pos] != ')' {
        lemma_parse_one_advances(s, pos, ad, sd, false);
        if let Ok((t, p)) = parse_one_at(s, pos, ad, sd, false) {
            if p > pos {
                lemma_parse_fields_advances(s, p, ad, sd, acc.push(t));
            }
        }
    }
}

/// Every struct in a type that parsing gives has at least one field.
pub proof fn lemma_parse_one_wf(s: Seq<char>, pos: int, ad: int, sd: int, allow: bool)
    ensures
        parse_one_at(s, pos, ad, sd, allow) matches Ok((t, _)) ==> wf_type(t),
    decreases s.len() - pos, 0int,
{
    if 0 <= pos < s.len() {
        let c = s[pos];
        if simple_type_of(c) is Some {
        } else if c == 'a' {
            if ad + 1 <= 32 {
                lemma_parse_one_wf(s, pos + 1, ad + 1, sd, true);
            }
        } else if c == '(' {
            if sd + 1 <= 32 {
                lemma_parse_fields_wf(s, pos + 1, ad, sd + 1, Seq::empty());
            }
        } else if c == '{' {
            if allow && sd + 1 <= 32 {
                lemma_parse_one_wf(s, pos + 1, ad, sd + 1, false);
                lemma_parse_one_advances(s, pos + 1, ad, sd + 1, false);
                if let Ok((k, p1)) = parse_one_at(s, pos + 1, ad, sd + 1, false) {
                    if p1 > pos && p1 <= s.len() {
                        lemma_parse_one_wf(s, p1, ad, sd + 1, false);
                    }
                }
            }
        }
    }
}

/// The fields that parsing gives are well formed where `acc`'s are.
pub proof fn lemma_parse_fields_wf(s: Seq<char>, pos: int, ad: int, sd: int, acc: Seq<TypeSpec>)
    requires
        forall|i: int| 0 <= i < acc.len() ==> wf_type(#[trigger] acc[i]),
    ensures
        parse_fields_at(s, pos, ad, sd, acc) matches Ok((fs, _)) ==> forall|i: int|
            0 <= i < fs.len() ==> wf_type(#[trigger] fs[i]),
    decreases s.len() - pos, 1int,
{
    if 0 <= pos < s.len() && s[pos] != ')' {
        lemma_parse_one_wf(s, pos, ad, sd, false);
        if let Ok((t, p)) = parse_one_at(s, pos, ad, sd, false) {
            if p > pos && p <= s.len() {
                assert forall|i: int| 0 <= i < acc.push(t).len() implies wf_type(
                    #[trigger] acc.push(t)[i],
                ) by {
                    if i < acc.len() {
                        assert(acc.push(t)[i] == acc[i]);
                    }
                }
                lemma_parse_fields_wf(s, p, ad, sd, acc.push(t));
            }
        }
    }
}

/// The types that `parse_all_at` gives are well formed where `acc`'s are.
pub proof fn lemma_parse_all_wf(s: Seq<char>, pos: int, acc: Seq<TypeSpec>)
    requires
        forall|i: int| 0 <= i < acc.len() ==> wf_type(#[trigger] acc[i]),
    ensures
        parse_all_at(s, pos, acc) matches Ok(ts) ==> forall|i: int|
            0 <= i < ts.len() ==> wf_type(#[trigger] ts[i]),
    decreases s.len() - pos,
{
    if 0 <= pos < s.len() {
        lemma_parse_one_wf(s, pos, 0, 0, false);
        if let Ok((t, p)) = parse_one_at(s, pos, 0, 0, false) {
            if p > pos && p <= s.len() {
                assert forall|i: int| 0 <= i < acc.push(t).len() implies wf_type(
                    #[trigger] acc.push(t)[i],
                ) by {
                    if i < acc.len() {
                        assert(acc.push(t)[i] == acc[i]);
                    }
                }
                lemma_parse_all_wf(s, p, acc.push(t));
            }
        }
    }
}

/// Every type of a signature that parses is well formed.
pub proof fn lemma_sig_parse_wf(s: Seq<char>)
    ensures
        sig_parse(s) matches Ok(ts) ==> forall|i: int| 0 <= i < ts.len() ==> wf_type(#[trigger] ts[i]),
{
    lemma_parse_all_wf(s, 0, Seq::empty());
}

/// The outcome of parsing the signature text `s`: too long (in bytes), not
/// ASCII, or what `sig_parse` gives.
pub open spec fn signature_outcome(s: Seq<char>, r: Result<Vec<Type>, CoreError>) -> bool {
    if encode_utf8(s).len() > 255 {
        r matches Err(e) && e == CoreError::SignatureTooLong(encode_utf8(s).len() as usize)
    } else if !is_ascii_chars(s) {
        r matches Err(e) && e matches CoreError::InvalidSignature(t, m) && t@ == s && m@
            == "signature must be ASCII"@
    } else {
        match sig_parse(s) {
            Ok(ts) => r matches Ok(v) && types_view(v@) == ts,
            Err(se) => r matches Err(e) && is_sig_error(e, se),
        }
    }
}

/// Parse a signature into its complete types.
pub fn parse_signature(s: &str) -> (r: Result<Vec<Type>, CoreError>)
    ensures
        signature_outcome(s@, r),
{
    let byte_len = s.as_bytes().len();
    if byte_len > crate::types::MAX_SIGNATURE_LEN {
        return Err(CoreError::SignatureTooLong(byte_len));
    }
    if !s.is_ascii() {
        proof {
            reveal_strlit("signature must be ASCII");
        }
        return Err(CoreError::InvalidSignature(s.to_owned(), "signature must be ASCII"));
    }
    let mut p = Parser { chars: chars_of(s), pos: 0, array_depth: 0, struct_depth: 0 };
    let ghost cs = s@;
    let mut out: Vec<Type> = Vec::new();
    assert(types_view(out@) =~= Seq::<TypeSpec>::empty());
    while p.peek().is_some()
        invariant
            p.inv(),
            p.chars@ == cs,
            cs == s@,
            encode_utf8(s@).len() <= 255,
            is_ascii_chars(s@),
            p.array_depth == 0,
            p.struct_depth == 0,
            sig_parse(cs) == parse_all_at(cs, p.pos as int, types_view(out@)),
        decreases cs.len() - p.pos,
    {
        let ghost before = p.pos as int;
        let ghost old_out = out@;
        proof {
            lemma_parse_one_advances(cs, before, 0, 0, false);
        }
        let t = p.parse_one(false)?;
        out.push(t);
        assert(types_view(out@) =~= types_view(old_out).push(t@));
    }
    Ok(out)
}

/// The outcome of parsing `s` as exactly one complete type.
pub open spec fn single_type_outcome(s: Seq<char>, r: Result<Type, CoreError>) -> bool {
    if encode_utf8(s).len() <= 255 && is_ascii_chars(s) && sig_parse(s) is Ok {
        let ts = sig_parse(s)->Ok_0;
        if ts.len() == 1 {
            r matches Ok(t) && t@ == ts[0]
        } else {
            r matches Err(e) && e matches CoreError::InvalidSignature(t, m) && t@ == s && m@
                == "expected exactly one complete type"@
        }
    } else {
        r matches Err(e) && signature_outcome(s, Err(e))
    }
}

/// Parse a signature holding exactly one complete type.
pub fn parse_single_complete_type(s: &str) -> (r: Result<Type, CoreError>)
    ensures
        single_type_outcome(s@, r),
{
    let mut types = parse_signature(s)?;
    if types.len() != 1 {
        proof {
            reveal_strlit("expected exactly one complete type");
        }
        return Err(
            CoreError::InvalidSignature(s.to_owned(), "expected exactly one complete type"),
        );
    }
    let t = types.pop().unwrap();
    Ok(t)
}

// ---------------------------------------------------------------------------
// Parsing then printing gives the text back
// ---------------------------------------------------------------------------

proof fn lemma_one_prints(s: Seq<char>, pos: int, ad: int, sd: int, allow: bool)
    ensures
        parse_one_at(s, pos, ad, sd, allow) matches Ok((t, p)) ==> 0 <= pos < p <= s.len()
            && crate::types::sig_of(t) == s.subrange(pos, p),
    decreases s.len() - pos, 0int,
{
    lemma_parse_one_advances(s, pos, ad, sd, allow);
    if 0 <= pos < s.len() {
        let c = s[pos];
        if simple_type_of(c) is Some {
            assert(s.subrange(pos, pos + 1) =~= seq![c]);
        } else if c == 'a' {
            if ad + 1 <= 32 {
                lemma_one_prints(s, pos + 1, ad + 1, sd, true);
                if let Ok((e, p)) = parse_one_at(s, pos + 1, ad + 1, sd, true) {
                    assert(s.subrange(pos, p) =~= seq!['a'] + s.subrange(pos + 1, p));
                }
            }
        } else if c == '(' {
            if sd + 1 <= 32 {
                lemma_fields_print(s, pos + 1, ad, sd + 1, Seq::empty());
                if let Ok((fs, p)) = parse_fields_at(s, pos + 1, ad, sd + 1, Seq::empty()) {
                    assert(crate::types::sigs_of(Seq::<TypeSpec>::empty()) =~= Seq::<char>::empty());
                    assert(s.subrange(pos, p) =~= seq!['('] + s.subrange(pos + 1, p));
                    assert(seq!['('] + crate::types::sigs_of(fs) + seq![')'] =~= seq!['('] + (
                    crate::types::sigs_of(fs) + seq![')']));
                }
            }
        } else if c == '{' {
            if allow && sd + 1 <= 32 {
                lemma_one_prints(s, pos + 1, ad, sd + 1, false);
                if let Ok((k, p1)) = parse_one_at(s, pos + 1, ad, sd + 1, false) {
                    if p1 > pos && p1 <= s.len() {
                        lemma_one_prints(s, p1, ad, sd + 1, false);
                        if let Ok((v, p2)) = parse_one_at(s, p1, ad, sd + 1, false) {
                            if 0 <= p2 < s.len() && s[p2] == '}' {
                                assert(s.subrange(pos, p2 + 1) =~= seq!['{'] + s.subrange(
                                    pos + 1,
                                    p1,
                                ) + s.subrange(p1, p2) + seq!['}']);
                            }
                        }
                    }
                }
            }
        }
    }
}

proof fn lemma_fields_print(s: Seq<char>, pos: int, ad: int, sd: int, acc: Seq<TypeSpec>)
    ensures
        parse_fields_at(s, pos, ad, sd, acc) matches Ok((fs, p)) ==> 0 <= pos < p <= s.len()
            && crate::types::sigs_of(fs) + seq![')'] == crate::types::sigs_of(acc) + s.subrange(
            pos,
            p,
        ),
    decreases s.len() - pos, 1int,
{
    lemma_parse_fields_advances(s, pos, ad, sd, acc);
    if 0 <= pos < s.len() {
        if s[pos] == ')' {
            assert(s.subrange(pos, pos + 1) =~= seq![')']);
        } else {
            lemma_one_prints(s, pos, ad, sd, false);
            if let Ok((t, p1)) = parse_one_at(s, pos, ad, sd, false) {
                if p1 > pos && p1 <= s.len() {
                    lemma_fields_print(s, p1, ad, sd, acc.push(t));
                    crate::types::lemma_sigs_of_push(acc, t);
                    if let Ok((fs, p)) = parse_fields_at(s, p1, ad, sd, acc.push(t)) {
                        assert(s.subrange(pos, p) =~= s.subrange(pos, p1) + s.subrange(p1, p));
                        assert(crate::types::sigs_of(acc) + s.subrange(pos, p) =~= (
                        crate::types::sigs_of(acc) + s.subrange(pos, p1)) + s.subrange(p1, p));
                    }
                }
            }
        }
    }
}

proof fn lemma_all_print(s: Seq<char>, pos: int, acc: Seq<TypeSpec>)
    requires
        0 <= pos <= s.len(),
    ensures
        parse_all_at(s, pos, acc) matches Ok(ts) ==> crate::types::sigs_of(ts) == crate::types::sigs_of(
            acc,
        ) + s.subrange(pos, s.len() as int),
    decreases s.len() - pos,
{
    if pos >= s.len() {
        assert(s.subrange(pos, s.len() as int) =~= Seq::<char>::empty());
        assert(crate::types::sigs_of(acc) + Seq::<char>::empty() =~= crate::types::sigs_of(acc));
    } else {
        lemma_one_prints(s, pos, 0, 0, false);
        if let Ok((t, p)) = parse_one_at(s, pos, 0, 0, false) {
            if p > pos && p <= s.len() {
                lemma_all_print(s, p, acc.push(t));
                crate::types::lemma_sigs_of_push(acc, t);
                assert(s.subrange(pos, s.len() as int) =~= s.subrange(pos, p) + s.subrange(
                    p,
                    s.len() as int,
                ));
                assert(crate::types::sigs_of(acc) + s.subrange(pos, s.len() as int) =~= (
                crate::types::sigs_of(acc) + s.subrange(pos, p)) + s.subrange(p, s.len() as int));
            }
        }
    }
}

/// Printing the types that a signature parses into gives back the
/// signature text.
pub proof fn sig_parse_then_print(s: Seq<char>)
    requires
        sig_parse(s) is Ok,
    ensures
        crate::types::sigs_of(sig_parse(s)->Ok_0) == s,
{
    lemma_all_print(s, 0, Seq::empty());
    assert(crate::types::sigs_of(Seq::<TypeSpec>::empty()) =~= Seq::<char>::empty());
    assert(s.subrange(0, s.len() as int) =~= s);
    assert(Seq::<char>::empty() + s =~= s);
}

} // verus!
