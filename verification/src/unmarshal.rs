//! Decoding values from the D-Bus wire format.

use crate::error::CoreError;
use crate::signature::{
    lemma_sig_parse_wf, parse_signature, parse_single_complete_type, signature_outcome,
    single_type_outcome, sig_parse,
};
use crate::text::str_from_utf8;
use crate::types::{
    is_valid_object_path, types_view, values_view, wf_type, ArrayValue, ObjectPath, Signature,
    Type, TypeSpec, Value, ValueSpec, MAX_ARRAY_LEN,
};
use crate::wire::{
    advanced, align_at, dec, dec_basic, lemma_dec_array, lemma_dec_basic, lemma_dec_dict_entry,
    lemma_dec_struct, lemma_dec_variant, dec_elems, dec_fields, dec_sig, dec_str, dec_u16,
    dec_u32, dec_u64, dec_u8, need, single_type, u16_at, u32_at, u64_at, DecErr,
};
use vstd::prelude::*;

verus! {

broadcast use {vstd::std_specs::vec::group_vec_axioms, crate::types::lemma_values_view};

/// The error reported for the decoding failure `e`.
pub open spec fn is_dec_error(ce: CoreError, e: DecErr) -> bool {
    match e {
        DecErr::Eof { needed, have } => ce == CoreError::UnexpectedEof {
            needed: needed as usize,
            have: have as usize,
        },
        DecErr::BadBoolean(x) => ce == CoreError::InvalidBoolean(x),
        DecErr::Utf8 => ce == CoreError::InvalidUtf8,
        DecErr::StringNotNul(s) => ce matches CoreError::InvalidSignature(t, m) && t@ == s && m@
            == "string not NUL-terminated"@,
        DecErr::SignatureNotNul(s) => ce matches CoreError::InvalidSignature(t, m) && t@ == s
            && m@ == "signature not NUL-terminated"@,
        DecErr::BadObjectPath(s) => ce matches CoreError::InvalidObjectPath(t) && t@ == s,
        DecErr::BadSignature(s) => signature_outcome(s, Err(ce)),
        DecErr::BadVariantSignature(s) => single_type_outcome(s, Err(ce)),
        DecErr::ArrayTooLong(n) => ce == CoreError::ArrayTooLong(n as usize),
        DecErr::ArrayBoundary => ce matches CoreError::InvalidSignature(t, m) && t@
            == Seq::<char>::empty() && m@ == "array element did not end on declared boundary"@,
    }
}

/// Where a failed aligned read of a number `n` bytes wide leaves the
/// position: past the padding where the padding fits, else where it was.
pub open spec fn failed_read_pos(b: Seq<u8>, pos: int, n: int) -> int {
    match align_at(b, pos, n) {
        Ok(p) => p,
        Err(_) => pos,
    }
}

/// A read that returned `r` and left the position at `pos` did what the
/// decoding `d` says: the value and the position after it, or the error.
pub open spec fn read_matches(d: Result<(ValueSpec, int), DecErr>, r: Result<Value, CoreError>, pos: int) -> bool {
    match d {
        Ok((v, p)) => r matches Ok(x) && x@ == v && pos == p,
        Err(e) => r matches Err(ce) && is_dec_error(ce, e),
    }
}

/// The values of the types `ts` read one after the other from `pos` on,
/// after the values `acc` already read; the values and the position after
/// them.
pub open spec fn dec_list(ts: Seq<TypeSpec>, b: Seq<u8>, pos: int, be: bool, acc: Seq<ValueSpec>) -> Result<
    (Seq<ValueSpec>, int),
    DecErr,
>
    decreases ts.len() - acc.len(),
{
    if acc.len() >= ts.len() {
        Ok((acc, pos))
    } else {
        match dec(ts[acc.len() as int], b, pos, be) {
            Err(e) => Err(e),
            Ok((v, p)) => dec_list(ts, b, p, be, acc.push(v)),
        }
    }
}

/// Decoder for D-Bus wire-marshaled values.
pub struct Unmarshaler<'a> {
    /// The buffer of marshaled bytes to read from.
    pub buf: &'a [u8],
    /// The current byte offset inside the buffer.
    pub pos: usize,
    /// Whether the wire representation is big-endian.
    pub big_endian: bool,
}

impl<'a> Unmarshaler<'a> {
    /// A decoder at the start of `buf`.
    pub fn new(buf: &'a [u8], big_endian: bool) -> (u: Self)
        ensures
            u.buf@ == buf@,
            u.pos == 0,
            u.big_endian == big_endian,
    {
        Unmarshaler { buf, pos: 0, big_endian }
    }

    fn need(&self, n: usize) -> (r: Result<(), CoreError>)
        ensures
            match need(self.buf@, self.pos as int, n as int) {
                Some(e) => r matches Err(ce) && is_dec_error(ce, e),
                None => r is Ok,
            },
    {
        let len = self.buf.len();
        if self.pos > len || n > len - self.pos {
            let have = if self.pos > len {
                0
            } else {
                len - self.pos
            };
            Err(CoreError::UnexpectedEof { needed: n, have })
        } else {
            Ok(())
        }
    }

    /// Skip padding up to a multiple of `n`; fails where the buffer ends
    /// first.
    pub fn align(&mut self, n: usize) -> (r: Result<(), CoreError>)
        requires
            n > 0,
        ensures
            final(self).buf@ == old(self).buf@,
            final(self).big_endian == old(self).big_endian,
            match align_at(old(self).buf@, old(self).pos as int, n as int) {
                Ok(p) => r is Ok && final(self).pos == p,
                Err(e) => r matches Err(ce) && is_dec_error(ce, e) && final(self).pos == old(self).pos,
            },
    {
        let _ = self.buf.len();
        let rem = self.pos % n;
        if rem != 0 {
            let pad = n - rem;
            self.need(pad)?;
            self.pos = self.pos + pad;
        }
        Ok(())
    }

    /// Read one byte.
    pub fn read_u8(&mut self) -> (r: Result<u8, CoreError>)
        ensures
            final(self).buf@ == old(self).buf@,
            final(self).big_endian == old(self).big_endian,
            match dec_u8(old(self).buf@, old(self).pos as int) {
                Ok((x, p)) => r == Ok::<u8, CoreError>(x) && final(self).pos == p,
                Err(e) => r matches Err(ce) && is_dec_error(ce, e) && final(self).pos == old(self).pos,
            },
    {
        self.need(1)?;
        let v = self.buf[self.pos];
        self.pos = self.pos + 1;
        Ok(v)
    }

    /// Read an aligned unsigned 16-bit number.
    pub fn read_u16(&mut self) -> (r: Result<u16, CoreError>)
        ensures
            final(self).buf@ == old(self).buf@,
            final(self).big_endian == old(self).big_endian,
            match dec_u16(old(self).buf@, old(self).pos as int, old(self).big_endian) {
                Ok((x, p)) => r == Ok::<u16, CoreError>(x) && final(self).pos == p,
                Err(e) => r matches Err(ce) && is_dec_error(ce, e) && final(self).pos
                    == failed_read_pos(old(self).buf@, old(self).pos as int, 2),
            },
    {
        self.align(2)?;
        self.need(2)?;
        let b0 = self.buf[self.pos] as u16;
        let b1 = self.buf[self.pos + 1] as u16;
        self.pos = self.pos + 2;
        if self.big_endian {
            Ok(b0 * 256 + b1)
        } else {
            Ok(b0 + b1 * 256)
        }
    }

    /// Read an aligned signed 16-bit number.
    pub fn read_i16(&mut self) -> (r: Result<i16, CoreError>)
        ensures
            final(self).buf@ == old(self).buf@,
            final(self).big_endian == old(self).big_endian,
            match dec_u16(old(self).buf@, old(self).pos as int, old(self).big_endian) {
                Ok((x, p)) => r == Ok::<i16, CoreError>(x as i16) && final(self).pos == p,
                Err(e) => r matches Err(ce) && is_dec_error(ce, e) && final(self).pos
                    == failed_read_pos(old(self).buf@, old(self).pos as int, 2),
            },
    {
        let x = self.read_u16()?;
        Ok(x as i16)
    }

    /// Read an aligned unsigned 32-bit number.
    pub fn read_u32(&mut self) -> (r: Result<u32, CoreError>)
        ensures
            final(self).buf@ == old(self).buf@,
            final(self).big_endian == old(self).big_endian,
            match dec_u32(old(self).buf@, old(self).pos as int, old(self).big_endian) {
                Ok((x, p)) => r == Ok::<u32, CoreError>(x) && final(self).pos == p,
                Err(e) => r matches Err(ce) && is_dec_error(ce, e) && final(self).pos
                    == failed_read_pos(old(self).buf@, old(self).pos as int, 4),
            },
    {
        self.align(4)?;
        self.need(4)?;
        let p = self.pos;
        let b0 = self.buf[p] as u32;
        let b1 = self.buf[p + 1] as u32;
        let b2 = self.buf[p + 2] as u32;
        let b3 = self.buf[p + 3] as u32;
        self.pos = p + 4;
        if self.big_endian {
            Ok(b0 * 16777216 + b1 * 65536 + b2 * 256 + b3)
        } else {
            Ok(b0 + b1 * 256 + b2 * 65536 + b3 * 16777216)
        }
    }

    /// Read an aligned signed 32-bit number.
    pub fn read_i32(&mut self) -> (r: Result<i32, CoreError>)
        ensures
            final(self).buf@ == old(self).buf@,
            final(self).big_endian == old(self).big_endian,
            match dec_u32(old(self).buf@, old(self).pos as int, old(self).big_endian) {
                Ok((x, p)) => r == Ok::<i32, CoreError>(x as i32) && final(self).pos == p,
                Err(e) => r matches Err(ce) && is_dec_error(ce, e) && final(self).pos
                    == failed_read_pos(old(self).buf@, old(self).pos as int, 4),
            },
    {
        let x = self.read_u32()?;
        Ok(x as i32)
    }

    /// Read an aligned unsigned 64-bit number.
    pub fn read_u64(&mut self) -> (r: Result<u64, CoreError>)
        ensures
            final(self).buf@ == old(self).buf@,
            final(self).big_endian == old(self).big_endian,
            match dec_u64(old(self).buf@, old(self).pos as int, old(self).big_endian) {
                Ok((x, p)) => r == Ok::<u64, CoreError>(x) && final(self).pos == p,
                Err(e) => r matches Err(ce) && is_dec_error(ce, e) && final(self).pos
                    == failed_read_pos(old(self).buf@, old(self).pos as int, 8),
            },
    {
        self.align(8)?;
        self.need(8)?;
        let p = self.pos;
        let b0 = self.buf[p] as u64;
        let b1 = self.buf[p + 1] as u64;
        let b2 = self.buf[p + 2] as u64;
        let b3 = self.buf[p + 3] as u64;
        let b4 = self.buf[p + 4] as u64;
        let b5 = self.buf[p + 5] as u64;
        let b6 = self.buf[p + 6] as u64;
        let b7 = self.buf[p + 7] as u64;
        self.pos = p + 8;
        if self.big_endian {
            Ok(b0 * 0x100_0000_0000_0000 + b1 * 0x1_0000_0000_0000 + b2 * 0x100_0000_0000 + b3
                * 0x1_0000_0000 + b4 * 0x100_0000 + b5 * 0x1_0000 + b6 * 0x100 + b7)
        } else {
            Ok(b0 + b1 * 0x100 + b2 * 0x1_0000 + b3 * 0x100_0000 + b4 * 0x1_0000_0000 + b5
                * 0x100_0000_0000 + b6 * 0x1_0000_0000_0000 + b7 * 0x100_0000_0000_0000)
        }
    }

    /// Read an aligned signed 64-bit number.
    pub fn read_i64(&mut self) -> (r: Result<i64, CoreError>)
        ensures
            final(self).buf@ == old(self).buf@,
            final(self).big_endian == old(self).big_endian,
            match dec_u64(old(self).buf@, old(self).pos as int, old(self).big_endian) {
                Ok((x, p)) => r == Ok::<i64, CoreError>(x as i64) && final(self).pos == p,
                Err(e) => r matches Err(ce) && is_dec_error(ce, e) && final(self).pos
                    == failed_read_pos(old(self).buf@, old(self).pos as int, 8),
            },
    {
        let x = self.read_u64()?;
        Ok(x as i64)
    }

    fn read_raw_string(&mut self) -> (r: Result<String, CoreError>)
        ensures
            final(self).buf@ == old(self).buf@,
            final(self).big_endian == old(self).big_endian,
            match dec_str(old(self).buf@, old(self).pos as int, old(self).big_endian) {
                Ok((t, p)) => r matches Ok(s) && s@ == t && final(self).pos == p,
                Err(e) => r matches Err(ce) && is_dec_error(ce, e),
            },
    {
        let len = self.read_u32()? as usize;
        let blen = self.buf.len();
        if self.pos > blen || len >= blen - self.pos {
            let have = if self.pos > blen {
                0
            } else {
                blen - self.pos
            };
            let needed = if len < usize::MAX {
                len + 1
            } else {
                proof {
                    lemma_usize_max_plus_one(len);
                }
                0
            };
            return Err(CoreError::UnexpectedEof { needed, have });
        }
        let p = self.pos;
        let bytes = vstd::slice::slice_subrange(self.buf, p, p + len);
        let s = match str_from_utf8(bytes) {
            Some(s) => s.to_owned(),
            None => {
                return Err(CoreError::InvalidUtf8);
            },
        };
        if self.buf[p + len] != 0 {
            proof {
                reveal_strlit("string not NUL-terminated");
            }
            return Err(CoreError::InvalidSignature(s, "string not NUL-terminated"));
        }
        self.pos = p + len + 1;
        Ok(s)
    }

    fn read_signature_str(&mut self) -> (r: Result<String, CoreError>)
        ensures
            final(self).buf@ == old(self).buf@,
            final(self).big_endian == old(self).big_endian,
            match dec_sig(old(self).buf@, old(self).pos as int) {
                Ok((t, p)) => r matches Ok(s) && s@ == t && final(self).pos == p,
                Err(e) => r matches Err(ce) && is_dec_error(ce, e),
            },
    {
        let len = self.read_u8()? as usize;
        let blen = self.buf.len();
        if self.pos > blen || len >= blen - self.pos {
            let have = if self.pos > blen {
                0
            } else {
                blen - self.pos
            };
            let needed = if len < usize::MAX {
                len + 1
            } else {
                proof {
                    lemma_usize_max_plus_one(len);
                }
                0
            };
            return Err(CoreError::UnexpectedEof { needed, have });
        }
        let p = self.pos;
        let bytes = vstd::slice::slice_subrange(self.buf, p, p + len);
        let s = match str_from_utf8(bytes) {
            Some(s) => s.to_owned(),
            None => {
                return Err(CoreError::InvalidUtf8);
            },
        };
        if self.buf[p + len] != 0 {
            proof {
                reveal_strlit("signature not NUL-terminated");
            }
            return Err(CoreError::InvalidSignature(s, "signature not NUL-terminated"));
        }
        self.pos = p + len + 1;
        Ok(s)
    }

    /// Read one complete value of type `ty`. Every struct type in `ty`
    /// has at least one field, so that each array element takes room.
    pub fn read_value(&mut self, ty: &Type) -> (r: Result<Value, CoreError>)
        requires
            wf_type(ty@),
        ensures
            final(self).buf@ == old(self).buf@,
            final(self).big_endian == old(self).big_endian,
            read_matches(dec(ty@, old(self).buf@, old(self).pos as int, old(self).big_endian), r, final(self).pos as int),
            r is Ok ==> advanced(old(self).buf@, old(self).pos as int, final(self).pos as int),
        decreases old(self).buf@.len() - old(self).pos, ty, 1int, 0int,
    {
        match ty {
            Type::Array(_) => self.read_array(ty),
            Type::Struct(_) => self.read_struct(ty),
            Type::DictEntry(_, _) => self.read_dict_entry(ty),
            Type::Variant => self.read_variant(),
            _ => {
                proof {
                    lemma_dec_basic(ty@, self.buf@, self.pos as int, self.big_endian);
                }
                self.read_basic(ty)
            },
        }
    }

    fn read_basic(&mut self, ty: &Type) -> (r: Result<Value, CoreError>)
        requires
            !(ty is Array || ty is Struct || ty is DictEntry || ty is Variant),
        ensures
            final(self).buf@ == old(self).buf@,
            final(self).big_endian == old(self).big_endian,
            read_matches(dec_basic(ty@, old(self).buf@, old(self).pos as int, old(self).big_endian), r, final(self).pos as int),
            r is Ok ==> advanced(old(self).buf@, old(self).pos as int, final(self).pos as int),
    {
        match ty {
            Type::Byte => Ok(Value::Byte(self.read_u8()?)),
            Type::Boolean => {
                let raw = self.read_u32()?;
                if raw == 0 {
                    Ok(Value::Boolean(false))
                } else if raw == 1 {
                    Ok(Value::Boolean(true))
                } else {
                    Err(CoreError::InvalidBoolean(raw))
                }
            },
            Type::Int16 => Ok(Value::Int16(self.read_i16()?)),
            Type::UInt16 => Ok(Value::UInt16(self.read_u16()?)),
            Type::Int32 => Ok(Value::Int32(self.read_i32()?)),
            Type::UInt32 => Ok(Value::UInt32(self.read_u32()?)),
            Type::Int64 => Ok(Value::Int64(self.read_i64()?)),
            Type::UInt64 => Ok(Value::UInt64(self.read_u64()?)),
            Type::Double => Ok(Value::Double(self.read_u64()?)),
            Type::String => Ok(Value::String(self.read_raw_string()?)),
            Type::ObjectPath => {
                let s = self.read_raw_string()?;
                if !is_valid_object_path(s.as_str()) {
                    return Err(CoreError::InvalidObjectPath(s));
                }
                Ok(Value::ObjectPath(ObjectPath::new_unchecked(s)))
            },
            Type::Signature => {
                let s = self.read_signature_str()?;
                let sig = Signature::new(s.as_str())?;
                Ok(Value::Signature(sig))
            },
            _ => Ok(Value::UnixFd(self.read_u32()?)),
        }
    }

    fn read_array(&mut self, ty: &Type) -> (r: Result<Value, CoreError>)
        requires
            ty is Array,
            wf_type(ty@),
        ensures
            final(self).buf@ == old(self).buf@,
            final(self).big_endian == old(self).big_endian,
            read_matches(dec(ty@, old(self).buf@, old(self).pos as int, old(self).big_endian), r, final(self).pos as int),
            r is Ok ==> advanced(old(self).buf@, old(self).pos as int, final(self).pos as int),
        decreases old(self).buf@.len() - old(self).pos, ty, 0int, 0int,
    {
        proof {
            lemma_dec_array(ty@, self.buf@, self.pos as int, self.big_endian);
        }
        let ghost b = self.buf@;
        let ghost be = self.big_endian;
        let ghost pos0 = self.pos as int;
        let len = self.read_u32()?;
        let byte_len = len as usize;
        if byte_len > MAX_ARRAY_LEN {
            return Err(CoreError::ArrayTooLong(byte_len));
        }
        match ty {
            Type::Array(elem_ty) => {
                self.align(elem_ty.alignment())?;
                self.need(byte_len)?;
                let blen = self.buf.len();
                let start = self.pos;
                let end = start + byte_len;
                let mut elements: Vec<Value> = Vec::new();
                proof {
                    assert(values_view(elements@) =~= Seq::<ValueSpec>::empty());
                }
                while self.pos < end
                    invariant
                        self.buf@ == b,
                        self.big_endian == be,
                        b == old(self).buf@,
                        be == old(self).big_endian,
                        pos0 == old(self).pos,
                        ty is Array,
                        *elem_ty == ty->Array_0,
                        wf_type(elem_ty@),
                        pos0 < start <= self.pos <= b.len(),
                        end == start + byte_len,
                        dec(ty@, b, pos0, be) == match dec_elems(ty@, b, start as int, end as int, be, Seq::empty()) {
                            Ok((es, p)) => Ok((ValueSpec::Array(elem_ty@, es), p)),
                            Err(e) => Err(e),
                        },
                        dec_elems(ty@, b, start as int, end as int, be, Seq::empty()) == dec_elems(
                            ty@,
                            b,
                            self.pos as int,
                            end as int,
                            be,
                            values_view(elements@),
                        ),
                    decreases b.len() - self.pos,
                {
                    proof {
                        assert(decreases_to!(*ty => ty->Array_0));
                    }
                    let ghost acc_vals = elements@;
                    let v = self.read_value(elem_ty)?;
                    elements.push(v);
                    proof {
                        lemma_values_view_push(acc_vals, v);
                        assert(elements@ =~= acc_vals.push(v));
                    }
                }
                if self.pos != end {
                    proof {
                        reveal_strlit("array element did not end on declared boundary");
                    }
                    return Err(
                        CoreError::InvalidSignature(
                            String::new(),
                            "array element did not end on declared boundary",
                        ),
                    );
                }
                Ok(Value::Array(ArrayValue::new(elem_ty.duplicate(), elements)))
            },
            _ => Ok(Value::Byte(0)),
        }
    }

    fn read_struct(&mut self, ty: &Type) -> (r: Result<Value, CoreError>)
        requires
            ty is Struct,
            wf_type(ty@),
        ensures
            final(self).buf@ == old(self).buf@,
            final(self).big_endian == old(self).big_endian,
            read_matches(dec(ty@, old(self).buf@, old(self).pos as int, old(self).big_endian), r, final(self).pos as int),
            r is Ok ==> advanced(old(self).buf@, old(self).pos as int, final(self).pos as int),
        decreases old(self).buf@.len() - old(self).pos, ty, 0int, 0int,
    {
        proof {
            lemma_dec_struct(ty@, self.buf@, self.pos as int, self.big_endian);
        }
        let ghost b = self.buf@;
        let ghost be = self.big_endian;
        let ghost pos0 = self.pos as int;
        self.align(8)?;
        let ghost start = self.pos as int;
        match ty {
            Type::Struct(fts) => {
                let mut fields: Vec<Value> = Vec::new();
                let mut i: usize = 0;
                proof {
                    assert(values_view(fields@) =~= Seq::<ValueSpec>::empty());
                    assert(ty@->Struct_0 =~= types_view(fts@));
                }
                while i < fts.len()
                    invariant
                        self.buf@ == b,
                        self.big_endian == be,
                        b == old(self).buf@,
                        be == old(self).big_endian,
                        pos0 == old(self).pos,
                        ty is Struct,
                        *fts == ty->Struct_0,
                        ty@->Struct_0 == types_view(fts@),
                        wf_type(ty@),
                        i <= fts.len(),
                        fields@.len() == i,
                        pos0 <= start <= self.pos,
                        start == pos0 || start <= b.len(),
                        i == 0 ==> self.pos == start,
                        i > 0 ==> advanced(b, pos0, self.pos as int),
                        dec(ty@, b, pos0, be) == match dec_fields(ty@, b, start, be, Seq::empty()) {
                            Ok((fs, q)) => Ok((ValueSpec::Struct(fs), q)),
                            Err(e) => Err(e),
                        },
                        dec_fields(ty@, b, start, be, Seq::empty()) == dec_fields(
                            ty@,
                            b,
                            self.pos as int,
                            be,
                            values_view(fields@),
                        ),
                    decreases fts.len() - i,
                {
                    proof {
                        assert(decreases_to!(*ty => ty->Struct_0));
                        assert(decreases_to!(*fts => fts@));
                        assert(decreases_to!(fts@ => fts@[i as int]));
                        assert(types_view(fts@)[i as int] == fts@[i as int]@);
                    }
                    let ghost acc_vals = fields@;
                    let v = self.read_value(&fts[i])?;
                    fields.push(v);
                    i = i + 1;
                    proof {
                        lemma_values_view_push(acc_vals, v);
                        assert(fields@ =~= acc_vals.push(v));
                    }
                }
                Ok(Value::Struct(fields))
            },
            _ => Ok(Value::Byte(0)),
        }
    }

    fn read_dict_entry(&mut self, ty: &Type) -> (r: Result<Value, CoreError>)
        requires
            ty is DictEntry,
            wf_type(ty@),
        ensures
            final(self).buf@ == old(self).buf@,
            final(self).big_endian == old(self).big_endian,
            read_matches(dec(ty@, old(self).buf@, old(self).pos as int, old(self).big_endian), r, final(self).pos as int),
            r is Ok ==> advanced(old(self).buf@, old(self).pos as int, final(self).pos as int),
        decreases old(self).buf@.len() - old(self).pos, ty, 0int, 0int,
    {
        proof {
            lemma_dec_dict_entry(ty@, self.buf@, self.pos as int, self.big_endian);
        }
        self.align(8)?;
        match ty {
            Type::DictEntry(kt, vt) => {
                proof {
                    assert(decreases_to!(*ty => ty->DictEntry_0));
                }
                let k = self.read_value(kt)?;
                let v = self.read_value(vt)?;
                Ok(Value::DictEntry(Box::new(k), Box::new(v)))
            },
            _ => Ok(Value::Byte(0)),
        }
    }

    fn read_variant(&mut self) -> (r: Result<Value, CoreError>)
        ensures
            final(self).buf@ == old(self).buf@,
            final(self).big_endian == old(self).big_endian,
            read_matches(dec(TypeSpec::Variant, old(self).buf@, old(self).pos as int, old(self).big_endian), r, final(self).pos as int),
            r is Ok ==> advanced(old(self).buf@, old(self).pos as int, final(self).pos as int),
        decreases old(self).buf@.len() - old(self).pos, Type::Variant, 0int, 0int,
    {
        proof {
            lemma_dec_variant(self.buf@, self.pos as int, self.big_endian);
        }
        let sig_str = self.read_signature_str()?;
        let inner_ty = parse_single_complete_type(sig_str.as_str())?;
        proof {
            lemma_sig_parse_wf(sig_str@);
            assert(single_type(sig_str@) == Some(inner_ty@));
            assert(wf_type(sig_parse(sig_str@)->Ok_0[0]));
        }
        let inner = self.read_value(&inner_ty)?;
        Ok(Value::Variant(Box::new(inner)))
    }

    /// Read one value of each of `types`, one after the other.
    pub fn read_values(&mut self, types: &[Type]) -> (r: Result<Vec<Value>, CoreError>)
        requires
            forall|i: int| 0 <= i < types@.len() ==> wf_type(#[trigger] types@[i]@),
        ensures
            final(self).buf@ == old(self).buf@,
            final(self).big_endian == old(self).big_endian,
            match dec_list(types_view(types@), old(self).buf@, old(self).pos as int, old(self).big_endian, Seq::empty()) {
                Ok((vs, p)) => r matches Ok(v) && values_view(v@) == vs && final(self).pos == p,
                Err(e) => r matches Err(ce) && is_dec_error(ce, e),
            },
    {
        let ghost b = self.buf@;
        let ghost be = self.big_endian;
        let ghost ts = types_view(types@);
        let ghost pos0 = self.pos as int;
        let mut out: Vec<Value> = Vec::new();
        let mut i: usize = 0;
        proof {
            assert(values_view(out@) =~= Seq::<ValueSpec>::empty());
        }
        while i < types.len()
            invariant
                self.buf@ == b,
                self.big_endian == be,
                b == old(self).buf@,
                be == old(self).big_endian,
                pos0 == old(self).pos,
                ts == types_view(types@),
                forall|j: int| 0 <= j < types@.len() ==> wf_type(#[trigger] types@[j]@),
                i <= types.len(),
                out@.len() == i,
                dec_list(ts, b, pos0, be, Seq::empty()) == dec_list(ts, b, self.pos as int, be, values_view(out@)),
            decreases types.len() - i,
        {
            let ghost acc_vals = out@;
            let v = self.read_value(&types[i])?;
            out.push(v);
            i = i + 1;
            proof {
                lemma_values_view_push(acc_vals, v);
                assert(out@ =~= acc_vals.push(v));
            }
        }
        Ok(out)
    }

    /// The number of bytes left after the position.
    pub fn remaining(&self) -> (n: usize)
        ensures
            n == if self.pos <= self.buf@.len() {
                self.buf@.len() - self.pos
            } else {
                0
            },
    {
        let len = self.buf.len();
        if self.pos <= len {
            len - self.pos
        } else {
            0
        }
    }
}

/// One past the largest `usize`, truncated to a `usize`, is zero; it
/// happens to a 32-bit length only where `usize` has 32 bits.
proof fn lemma_usize_max_plus_one(x: usize)
    requires
        x == usize::MAX,
        x <= 0xffff_ffff,
    ensures
        (x + 1) as usize == 0,
{
    assert(usize::BITS == 32);
    assert((x + 1) as usize == 0) by (bit_vector)
        requires
            x == 0xffff_ffff,
            usize::BITS == 32,
    ;
}

/// Viewing one more value appends its model.
proof fn lemma_values_view_push(vs: Seq<Value>, v: Value)
    ensures
        values_view(vs.push(v)) == values_view(vs).push(v@),
{
    assert(vs.push(v).subrange(0, vs.len() as int) =~= vs);
}

/// The values of a body with the given signature text.
pub open spec fn body_outcome(buf: Seq<u8>, sig: Seq<char>, be: bool, r: Result<Vec<Value>, CoreError>) -> bool {
    if vstd::utf8::encode_utf8(sig).len() <= 255 && vstd::utf8::is_ascii_chars(sig) && sig_parse(
        sig,
    ) is Ok {
        match dec_list(sig_parse(sig)->Ok_0, buf, 0, be, Seq::empty()) {
            Ok((vs, _)) => r matches Ok(v) && values_view(v@) == vs,
            Err(e) => r matches Err(ce) && is_dec_error(ce, e),
        }
    } else {
        r matches Err(ce) && signature_outcome(sig, Err(ce))
    }
}

/// Unmarshal a whole body given its signature text.
pub fn unmarshal_body(buf: &[u8], signature: &str, big_endian: bool) -> (r: Result<Vec<Value>, CoreError>)
    ensures
        body_outcome(buf@, signature@, big_endian, r),
{
    let types = parse_signature(signature)?;
    proof {
        lemma_sig_parse_wf(signature@);
        let ts = sig_parse(signature@)->Ok_0;
        assert forall|i: int| 0 <= i < types@.len() implies wf_type(#[trigger] types@[i]@) by {
            assert(types_view(types@)[i] == types@[i]@);
            assert(wf_type(ts[i]));
        }
    }
    let mut u = Unmarshaler::new(buf, big_endian);
    u.read_values(types.as_slice())
}

} // verus!
