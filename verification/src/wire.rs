//! The D-Bus wire format as mathematics: what marshalling appends for a
//! value at a given position, and what unmarshalling reads back.

use crate::signature::sig_parse;
use crate::types::{sig_of, type_of, valid_object_path, valid_signature, TypeSpec, ValueSpec};
use vstd::prelude::*;
use vstd::utf8::{decode_utf8, encode_utf8, valid_utf8};

verus! {

/// Largest array body, in bytes.
pub open spec fn max_array_len() -> nat {
    67_108_864
}

/// Number of padding bytes that bring `pos` to a multiple of `n`.
pub open spec fn pad_len(pos: int, n: int) -> int {
    if n <= 0 || pos % n == 0 {
        0
    } else {
        n - pos % n
    }
}

/// `k` zero bytes.
pub open spec fn zeros(k: int) -> Seq<u8> {
    Seq::new(k as nat, |i: int| 0u8)
}

pub open spec fn u16_le(v: u16) -> Seq<u8> {
    seq![(v % 256) as u8, (v / 256) as u8]
}

pub open spec fn u16_be(v: u16) -> Seq<u8> {
    seq![(v / 256) as u8, (v % 256) as u8]
}

/// The two bytes of `v` in the given byte order.
pub open spec fn u16_bytes(v: u16, be: bool) -> Seq<u8> {
    if be {
        u16_be(v)
    } else {
        u16_le(v)
    }
}

pub open spec fn u32_le(v: u32) -> Seq<u8> {
    seq![
        (v % 256) as u8,
        ((v / 256) % 256) as u8,
        ((v / 65536) % 256) as u8,
        (v / 16777216) as u8,
    ]
}

/// The four bytes of `v` in the given byte order.
pub open spec fn u32_bytes(v: u32, be: bool) -> Seq<u8> {
    if be {
        u32_le(v).reverse()
    } else {
        u32_le(v)
    }
}

pub open spec fn u64_le(v: u64) -> Seq<u8> {
    seq![
        (v % 0x100) as u8,
        ((v / 0x100) % 0x100) as u8,
        ((v / 0x1_0000) % 0x100) as u8,
        ((v / 0x100_0000) % 0x100) as u8,
        ((v / 0x1_0000_0000) % 0x100) as u8,
        ((v / 0x100_0000_0000) % 0x100) as u8,
        ((v / 0x1_0000_0000_0000) % 0x100) as u8,
        (v / 0x100_0000_0000_0000) as u8,
    ]
}

/// The eight bytes of `v` in the given byte order.
pub open spec fn u64_bytes(v: u64, be: bool) -> Seq<u8> {
    if be {
        u64_le(v).reverse()
    } else {
        u64_le(v)
    }
}

/// The number whose bytes in the given order are `b[at..at + 2]`.
pub open spec fn u16_at(b: Seq<u8>, at: int, be: bool) -> u16 {
    if be {
        (b[at] * 256 + b[at + 1]) as u16
    } else {
        (b[at] + b[at + 1] * 256) as u16
    }
}

/// The number whose bytes in the given order are `b[at..at + 4]`.
pub open spec fn u32_at(b: Seq<u8>, at: int, be: bool) -> u32 {
    if be {
        (b[at] * 16777216 + b[at + 1] * 65536 + b[at + 2] * 256 + b[at + 3]) as u32
    } else {
        (b[at] + b[at + 1] * 256 + b[at + 2] * 65536 + b[at + 3] * 16777216) as u32
    }
}

/// The number whose bytes in the given order are `b[at..at + 8]`.
pub open spec fn u64_at(b: Seq<u8>, at: int, be: bool) -> u64 {
    if be {
        (b[at] * 0x100_0000_0000_0000 + b[at + 1] * 0x1_0000_0000_0000 + b[at + 2]
            * 0x100_0000_0000 + b[at + 3] * 0x1_0000_0000 + b[at + 4] * 0x100_0000 + b[at + 5]
            * 0x1_0000 + b[at + 6] * 0x100 + b[at + 7]) as u64
    } else {
        (b[at] + b[at + 1] * 0x100 + b[at + 2] * 0x1_0000 + b[at + 3] * 0x100_0000 + b[at + 4]
            * 0x1_0000_0000 + b[at + 5] * 0x100_0000_0000 + b[at + 6] * 0x1_0000_0000_0000 + b[at
            + 7] * 0x100_0000_0000_0000) as u64
    }
}

// ---------------------------------------------------------------------------
// Encoding
// ---------------------------------------------------------------------------

/// Why a value cannot be encoded.
pub enum EncErr {
    /// A string or object path holding a NUL byte.
    EmbeddedNul,
    /// A signature longer than 255 bytes; its length.
    SignatureTooLong(nat),
    /// An array body longer than the maximum; its length.
    ArrayTooLong(nat),
}

/// Bytes of a string as written: padding to 4, the byte length, the bytes
/// and a NUL.
pub open spec fn enc_str(s: Seq<char>, pos: int, be: bool) -> Result<Seq<u8>, EncErr> {
    let b = encode_utf8(s);
    if b.contains(0u8) {
        Err(EncErr::EmbeddedNul)
    } else {
        Ok(zeros(pad_len(pos, 4)) + u32_bytes(b.len() as u32, be) + b + seq![0u8])
    }
}

/// Bytes of a signature as written: the byte length, the bytes and a NUL.
pub open spec fn enc_sig(s: Seq<char>) -> Result<Seq<u8>, EncErr> {
    let b = encode_utf8(s);
    if b.len() > 255 {
        Err(EncErr::SignatureTooLong(b.len()))
    } else {
        Ok(seq![b.len() as u8] + b + seq![0u8])
    }
}

/// The bytes that writing `v` appends to a buffer of length `pos`.
pub open spec fn enc(v: ValueSpec, pos: int, be: bool) -> Result<Seq<u8>, EncErr>
    decreases v,
{
    match v {
        ValueSpec::Byte(x) => Ok(seq![x]),
        ValueSpec::Boolean(x) => Ok(
            zeros(pad_len(pos, 4)) + u32_bytes(
                if x {
                    1u32
                } else {
                    0u32
                },
                be,
            ),
        ),
        ValueSpec::Int16(x) => Ok(zeros(pad_len(pos, 2)) + u16_bytes(x as u16, be)),
        ValueSpec::UInt16(x) => Ok(zeros(pad_len(pos, 2)) + u16_bytes(x, be)),
        ValueSpec::Int32(x) => Ok(zeros(pad_len(pos, 4)) + u32_bytes(x as u32, be)),
        ValueSpec::UInt32(x) => Ok(zeros(pad_len(pos, 4)) + u32_bytes(x, be)),
        ValueSpec::Int64(x) => Ok(zeros(pad_len(pos, 8)) + u64_bytes(x as u64, be)),
        ValueSpec::UInt64(x) => Ok(zeros(pad_len(pos, 8)) + u64_bytes(x, be)),
        ValueSpec::Double(x) => Ok(zeros(pad_len(pos, 8)) + u64_bytes(x, be)),
        ValueSpec::String(s) => enc_str(s, pos, be),
        ValueSpec::ObjectPath(s) => enc_str(s, pos, be),
        ValueSpec::Signature(s) => enc_sig(s),
        ValueSpec::UnixFd(x) => Ok(zeros(pad_len(pos, 4)) + u32_bytes(x, be)),
        ValueSpec::Array(t, elems) => {
            let p1 = pos + pad_len(pos, 4) + 4;
            let p2 = p1 + pad_len(p1, t.alignment() as int);
            match enc_seq(elems, p2, be) {
                Ok(body) => if body.len() > max_array_len() {
                    Err(EncErr::ArrayTooLong(body.len()))
                } else {
                    Ok(
                        zeros(pad_len(pos, 4)) + u32_bytes(body.len() as u32, be) + zeros(
                            pad_len(p1, t.alignment() as int),
                        ) + body,
                    )
                },
                Err(e) => Err(e),
            }
        },
        ValueSpec::Struct(fs) => match enc_seq(fs, pos + pad_len(pos, 8), be) {
            Ok(body) => Ok(zeros(pad_len(pos, 8)) + body),
            Err(e) => Err(e),
        },
        ValueSpec::DictEntry(k, x) => {
            let p1 = pos + pad_len(pos, 8);
            match enc(*k, p1, be) {
                Ok(kb) => match enc(*x, p1 + kb.len(), be) {
                    Ok(xb) => Ok(zeros(pad_len(pos, 8)) + kb + xb),
                    Err(e) => Err(e),
                },
                Err(e) => Err(e),
            }
        },
        ValueSpec::Variant(inner) => match enc_sig(sig_of(type_of(*inner))) {
            Ok(sb) => match enc(*inner, pos + sb.len(), be) {
                Ok(ib) => Ok(sb + ib),
                Err(e) => Err(e),
            },
            Err(e) => Err(e),
        },
    }
}

/// The bytes that writing the values `vs` one after the other appends to
/// a buffer of length `pos`.
pub open spec fn enc_seq(vs: Seq<ValueSpec>, pos: int, be: bool) -> Result<Seq<u8>, EncErr>
    decreases vs,
{
    if vs.len() == 0 {
        Ok(Seq::empty())
    } else {
        match enc_seq(vs.subrange(0, vs.len() - 1), pos, be) {
            Ok(front) => match enc(vs[vs.len() - 1], pos + front.len(), be) {
                Ok(last) => Ok(front + last),
                Err(e) => Err(e),
            },
            Err(e) => Err(e),
        }
    }
}


// ---------------------------------------------------------------------------
// Decoding
// ---------------------------------------------------------------------------

/// Why bytes cannot be decoded as a value of a given type.
pub enum DecErr {
    /// The buffer ends `needed` bytes short; `have` bytes were left.
    Eof { needed: nat, have: nat },
    /// A boolean whose wire value is neither 0 nor 1.
    BadBoolean(u32),
    /// String bytes that are not UTF-8.
    Utf8,
    /// A string whose terminating byte is not NUL.
    StringNotNul(Seq<char>),
    /// A signature whose terminating byte is not NUL.
    SignatureNotNul(Seq<char>),
    /// A string that is no valid object path.
    BadObjectPath(Seq<char>),
    /// A signature value that is no valid signature.
    BadSignature(Seq<char>),
    /// A variant whose signature is not exactly one complete type.
    BadVariantSignature(Seq<char>),
    /// An array length beyond the maximum.
    ArrayTooLong(nat),
    /// Array elements that overrun the declared array length.
    ArrayBoundary,
}

/// Whether `n` more bytes are there at `pos`.
pub open spec fn need(b: Seq<u8>, pos: int, n: int) -> Option<DecErr> {
    if pos + n > b.len() {
        Some(
            DecErr::Eof {
                needed: n as nat,
                have: if pos <= b.len() {
                    (b.len() - pos) as nat
                } else {
                    0
                },
            },
        )
    } else {
        None
    }
}

/// The position after skipping the padding to a multiple of `n`.
pub open spec fn align_at(b: Seq<u8>, pos: int, n: int) -> Result<int, DecErr> {
    let pad = pad_len(pos, n);
    if pad > 0 && need(b, pos, pad) is Some {
        Err(need(b, pos, pad)->0)
    } else {
        Ok(pos + pad)
    }
}

/// A byte read at `pos`, and the position after it.
pub open spec fn dec_u8(b: Seq<u8>, pos: int) -> Result<(u8, int), DecErr> {
    if need(b, pos, 1) is Some {
        Err(need(b, pos, 1)->0)
    } else {
        Ok((b[pos], pos + 1))
    }
}

/// An aligned 16-bit number read at `pos`, and the position after it.
pub open spec fn dec_u16(b: Seq<u8>, pos: int, be: bool) -> Result<(u16, int), DecErr> {
    match align_at(b, pos, 2) {
        Err(e) => Err(e),
        Ok(p) => if need(b, p, 2) is Some {
            Err(need(b, p, 2)->0)
        } else {
            Ok((u16_at(b, p, be), p + 2))
        },
    }
}

/// An aligned 32-bit number read at `pos`, and the position after it.
pub open spec fn dec_u32(b: Seq<u8>, pos: int, be: bool) -> Result<(u32, int), DecErr> {
    match align_at(b, pos, 4) {
        Err(e) => Err(e),
        Ok(p) => if need(b, p, 4) is Some {
            Err(need(b, p, 4)->0)
        } else {
            Ok((u32_at(b, p, be), p + 4))
        },
    }
}

/// An aligned 64-bit number read at `pos`, and the position after it.
pub open spec fn dec_u64(b: Seq<u8>, pos: int, be: bool) -> Result<(u64, int), DecErr> {
    match align_at(b, pos, 8) {
        Err(e) => Err(e),
        Ok(p) => if need(b, p, 8) is Some {
            Err(need(b, p, 8)->0)
        } else {
            Ok((u64_at(b, p, be), p + 8))
        },
    }
}

/// A string read at `pos` (length, UTF-8 bytes, NUL), and the position
/// after it.
pub open spec fn dec_str(b: Seq<u8>, pos: int, be: bool) -> Result<(Seq<char>, int), DecErr> {
    match dec_u32(b, pos, be) {
        Err(e) => Err(e),
        Ok((len, p)) => if need(b, p, len + 1) is Some {
            Err(need(b, p, len + 1)->0)
        } else {
            let bytes = b.subrange(p, p + len);
            if !valid_utf8(bytes) {
                Err(DecErr::Utf8)
            } else if b[p + len] != 0 {
                Err(DecErr::StringNotNul(decode_utf8(bytes)))
            } else {
                Ok((decode_utf8(bytes), p + len + 1))
            }
        },
    }
}

/// A signature read at `pos` (length byte, bytes, NUL), and the position
/// after it.
pub open spec fn dec_sig(b: Seq<u8>, pos: int) -> Result<(Seq<char>, int), DecErr> {
    match dec_u8(b, pos) {
        Err(e) => Err(e),
        Ok((len, p)) => if need(b, p, len + 1) is Some {
            Err(need(b, p, len + 1)->0)
        } else {
            let bytes = b.subrange(p, p + len);
            if !valid_utf8(bytes) {
                Err(DecErr::Utf8)
            } else if b[p + len] != 0 {
                Err(DecErr::SignatureNotNul(decode_utf8(bytes)))
            } else {
                Ok((decode_utf8(bytes), p + len + 1))
            }
        },
    }
}

/// The one complete type of a variant's signature text `s`, where it has
/// exactly one.
pub open spec fn single_type(s: Seq<char>) -> Option<TypeSpec> {
    if encode_utf8(s).len() <= 255 && vstd::utf8::is_ascii_chars(s) && sig_parse(s) is Ok
        && sig_parse(s)->Ok_0.len() == 1 {
        Some(sig_parse(s)->Ok_0[0])
    } else {
        None
    }
}

/// A value of a type without components read at `pos`, and the position
/// after it.
pub open spec fn dec_basic(t: TypeSpec, b: Seq<u8>, pos: int, be: bool) -> Result<
    (ValueSpec, int),
    DecErr,
> {
    match t {
        TypeSpec::Byte => match dec_u8(b, pos) {
            Ok((x, p)) => Ok((ValueSpec::Byte(x), p)),
            Err(e) => Err(e),
        },
        TypeSpec::Boolean => match dec_u32(b, pos, be) {
            Ok((x, p)) => if x == 0 {
                Ok((ValueSpec::Boolean(false), p))
            } else if x == 1 {
                Ok((ValueSpec::Boolean(true), p))
            } else {
                Err(DecErr::BadBoolean(x))
            },
            Err(e) => Err(e),
        },
        TypeSpec::Int16 => match dec_u16(b, pos, be) {
            Ok((x, p)) => Ok((ValueSpec::Int16(x as i16), p)),
            Err(e) => Err(e),
        },
        TypeSpec::UInt16 => match dec_u16(b, pos, be) {
            Ok((x, p)) => Ok((ValueSpec::UInt16(x), p)),
            Err(e) => Err(e),
        },
        TypeSpec::Int32 => match dec_u32(b, pos, be) {
            Ok((x, p)) => Ok((ValueSpec::Int32(x as i32), p)),
            Err(e) => Err(e),
        },
        TypeSpec::UInt32 => match dec_u32(b, pos, be) {
            Ok((x, p)) => Ok((ValueSpec::UInt32(x), p)),
            Err(e) => Err(e),
        },
        TypeSpec::Int64 => match dec_u64(b, pos, be) {
            Ok((x, p)) => Ok((ValueSpec::Int64(x as i64), p)),
            Err(e) => Err(e),
        },
        TypeSpec::UInt64 => match dec_u64(b, pos, be) {
            Ok((x, p)) => Ok((ValueSpec::UInt64(x), p)),
            Err(e) => Err(e),
        },
        TypeSpec::Double => match dec_u64(b, pos, be) {
            Ok((x, p)) => Ok((ValueSpec::Double(x), p)),
            Err(e) => Err(e),
        },
        TypeSpec::String => match dec_str(b, pos, be) {
            Ok((s, p)) => Ok((ValueSpec::String(s), p)),
            Err(e) => Err(e),
        },
        TypeSpec::ObjectPath => match dec_str(b, pos, be) {
            Ok((s, p)) => if valid_object_path(s) {
                Ok((ValueSpec::ObjectPath(s), p))
            } else {
                Err(DecErr::BadObjectPath(s))
            },
            Err(e) => Err(e),
        },
        TypeSpec::Signature => match dec_sig(b, pos) {
            Ok((s, p)) => if valid_signature(s) {
                Ok((ValueSpec::Signature(s), p))
            } else {
                Err(DecErr::BadSignature(s))
            },
            Err(e) => Err(e),
        },
        _ => match dec_u32(b, pos, be) {
            Ok((x, p)) => Ok((ValueSpec::UnixFd(x), p)),
            Err(e) => Err(e),
        },
    }
}

/// Whether decoding moved forward from `pos` and stayed in the buffer.
pub open spec fn advanced(b: Seq<u8>, pos: int, p: int) -> bool {
    pos < p <= b.len()
}

/// A value of type `t` read from `b` at `pos`, and the position after it.
#[verifier::opaque]
pub open spec fn dec(t: TypeSpec, b: Seq<u8>, pos: int, be: bool) -> Result<(ValueSpec, int), DecErr>
    decreases b.len() - pos, t, 1int, 0int,
{
    {
        match t {
            TypeSpec::Array(et) => match dec_u32(b, pos, be) {
                Err(e) => Err(e),
                Ok((len, p1)) => if len > max_array_len() {
                    Err(DecErr::ArrayTooLong(len as nat))
                } else {
                    match align_at(b, p1, et.alignment() as int) {
                        Err(e) => Err(e),
                        Ok(p2) => if need(b, p2, len as int) is Some {
                            Err(need(b, p2, len as int)->0)
                        } else if !advanced(b, pos, p2) {
                            Err(DecErr::ArrayBoundary)
                        } else {
                            match dec_elems(t, b, p2, p2 + len, be, Seq::empty()) {
                                Ok((es, p)) => Ok((ValueSpec::Array(*et, es), p)),
                                Err(e) => Err(e),
                            }
                        },
                    }
                },
            },
            TypeSpec::Struct(_) => match align_at(b, pos, 8) {
                Err(e) => Err(e),
                Ok(p) => if !(p == pos || advanced(b, pos, p)) {
                    Err(DecErr::Eof { needed: 0, have: 0 })
                } else {
                    match dec_fields(t, b, p, be, Seq::empty()) {
                        Ok((fs, q)) => Ok((ValueSpec::Struct(fs), q)),
                        Err(e) => Err(e),
                    }
                },
            },
            TypeSpec::DictEntry(kt, vt) => match align_at(b, pos, 8) {
                Err(e) => Err(e),
                Ok(p) => if !(p == pos || advanced(b, pos, p)) {
                    Err(DecErr::Eof { needed: 0, have: 0 })
                } else {
                    match dec(*kt, b, p, be) {
                        Err(e) => Err(e),
                        Ok((k, p1)) => if !(p1 == p || advanced(b, p, p1)) {
                            Err(DecErr::Eof { needed: 0, have: 0 })
                        } else {
                            match dec(*vt, b, p1, be) {
                                Err(e) => Err(e),
                                Ok((v, p2)) => Ok(
                                    (ValueSpec::DictEntry(Box::new(k), Box::new(v)), p2),
                                ),
                            }
                        },
                    }
                },
            },
            TypeSpec::Variant => match dec_sig(b, pos) {
                Err(e) => Err(e),
                Ok((s, p)) => match single_type(s) {
                    None => Err(DecErr::BadVariantSignature(s)),
                    Some(it) => if !advanced(b, pos, p) {
                        Err(DecErr::Eof { needed: 0, have: 0 })
                    } else {
                        match dec(it, b, p, be) {
                            Ok((v, q)) => Ok((ValueSpec::Variant(Box::new(v)), q)),
                            Err(e) => Err(e),
                        }
                    },
                },
            },
            _ => dec_basic(t, b, pos, be),
        }
    }
}

/// The fields of the struct type `st` read from `pos` on, after the fields
/// `acc` already read; the fields and the position after them.
pub open spec fn dec_fields(st: TypeSpec, b: Seq<u8>, pos: int, be: bool, acc: Seq<ValueSpec>) -> Result<
    (Seq<ValueSpec>, int),
    DecErr,
>
    decreases b.len() - pos, st, 0int, st->Struct_0.len() - acc.len(),
{
    match st {
        TypeSpec::Struct(fts) => if acc.len() >= fts.len() {
            Ok((acc, pos))
        } else {
            match dec(fts[acc.len() as int], b, pos, be) {
                Err(e) => Err(e),
                Ok((v, p)) => if !(p == pos || advanced(b, pos, p)) {
                    Err(DecErr::Eof { needed: 0, have: 0 })
                } else {
                    dec_fields(st, b, p, be, acc.push(v))
                },
            }
        },
        _ => Ok((acc, pos)),
    }
}

/// The elements of the array type `at` read from `pos` up to `end`, after
/// the elements `acc` already read; the elements and the position after
/// them.
pub open spec fn dec_elems(
    at: TypeSpec,
    b: Seq<u8>,
    pos: int,
    end: int,
    be: bool,
    acc: Seq<ValueSpec>,
) -> Result<(Seq<ValueSpec>, int), DecErr>
    decreases b.len() - pos, at, 0int, 0int,
{
    match at {
        TypeSpec::Array(et) => if pos == end {
            Ok((acc, pos))
        } else if pos > end || pos < 0 || pos > b.len() {
            Err(DecErr::ArrayBoundary)
        } else {
            match dec(*et, b, pos, be) {
                Err(e) => Err(e),
                Ok((v, p)) => if !advanced(b, pos, p) || p > end {
                    Err(DecErr::ArrayBoundary)
                } else {
                    dec_elems(at, b, p, end, be, acc.push(v))
                },
            }
        },
        _ => Ok((acc, pos)),
    }
}


/// How an array is read: its byte length, padding to the element
/// alignment, then elements up to the end the length gives.
pub proof fn lemma_dec_array(t: TypeSpec, b: Seq<u8>, pos: int, be: bool)
    requires
        t is Array,
    ensures
        dec(t, b, pos, be) == match dec_u32(b, pos, be) {
            Err(e) => Err(e),
            Ok((len, p1)) => if len > max_array_len() {
                Err(DecErr::ArrayTooLong(len as nat))
            } else {
                match align_at(b, p1, t->Array_0.alignment() as int) {
                    Err(e) => Err(e),
                    Ok(p2) => if need(b, p2, len as int) is Some {
                        Err(need(b, p2, len as int)->0)
                    } else if !advanced(b, pos, p2) {
                        Err(DecErr::ArrayBoundary)
                    } else {
                        match dec_elems(t, b, p2, p2 + len, be, Seq::empty()) {
                            Ok((es, p)) => Ok((ValueSpec::Array(*t->Array_0, es), p)),
                            Err(e) => Err(e),
                        }
                    },
                }
            },
        },
{
    reveal(dec);
}

/// How a struct is read: padding to 8, then its fields.
pub proof fn lemma_dec_struct(t: TypeSpec, b: Seq<u8>, pos: int, be: bool)
    requires
        t is Struct,
    ensures
        dec(t, b, pos, be) == match align_at(b, pos, 8) {
            Err(e) => Err(e),
            Ok(p) => if !(p == pos || advanced(b, pos, p)) {
                Err(DecErr::Eof { needed: 0, have: 0 })
            } else {
                match dec_fields(t, b, p, be, Seq::empty()) {
                    Ok((fs, q)) => Ok((ValueSpec::Struct(fs), q)),
                    Err(e) => Err(e),
                }
            },
        },
{
    reveal(dec);
}

/// How a dict entry is read: padding to 8, the key, then the value.
pub proof fn lemma_dec_dict_entry(t: TypeSpec, b: Seq<u8>, pos: int, be: bool)
    requires
        t is DictEntry,
    ensures
        dec(t, b, pos, be) == match align_at(b, pos, 8) {
            Err(e) => Err(e),
            Ok(p) => if !(p == pos || advanced(b, pos, p)) {
                Err(DecErr::Eof { needed: 0, have: 0 })
            } else {
                match dec(*t->DictEntry_0, b, p, be) {
                    Err(e) => Err(e),
                    Ok((k, p1)) => if !(p1 == p || advanced(b, p, p1)) {
                        Err(DecErr::Eof { needed: 0, have: 0 })
                    } else {
                        match dec(*t->DictEntry_1, b, p1, be) {
                            Err(e) => Err(e),
                            Ok((v, p2)) => Ok((ValueSpec::DictEntry(Box::new(k), Box::new(v)), p2)),
                        }
                    },
                }
            },
        },
{
    reveal(dec);
}

/// How a variant is read: its signature, then a value of the one type
/// the signature holds.
pub proof fn lemma_dec_variant(b: Seq<u8>, pos: int, be: bool)
    ensures
        dec(TypeSpec::Variant, b, pos, be) == match dec_sig(b, pos) {
            Err(e) => Err(e),
            Ok((s, p)) => match single_type(s) {
                None => Err(DecErr::BadVariantSignature(s)),
                Some(it) => if !advanced(b, pos, p) {
                    Err(DecErr::Eof { needed: 0, have: 0 })
                } else {
                    match dec(it, b, p, be) {
                        Ok((v, q)) => Ok((ValueSpec::Variant(Box::new(v)), q)),
                        Err(e) => Err(e),
                    }
                },
            },
        },
{
    reveal(dec);
}

/// A value of a type without components is read by `dec_basic`.
pub proof fn lemma_dec_basic(t: TypeSpec, b: Seq<u8>, pos: int, be: bool)
    requires
        !(t is Array || t is Struct || t is DictEntry || t is Variant),
    ensures
        dec(t, b, pos, be) == dec_basic(t, b, pos, be),
{
    reveal(dec);
}

} // verus!
