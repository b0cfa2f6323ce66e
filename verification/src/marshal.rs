//! Encoding values to the D-Bus wire format.

use crate::error::CoreError;
use crate::text::concat_str;
use crate::types::{
    lemma_sigs_of_push, lemma_values_view, sigs_of, type_of, values_view, ArrayValue, TypeSpec, Value,
    ValueSpec, MAX_ARRAY_LEN,
};
use crate::wire::{enc, enc_seq, enc_sig, enc_str, pad_len, u16_bytes, u32_bytes, u64_bytes, zeros, u16_be, u16_le, u32_le, u64_le, EncErr};
use vstd::prelude::*;
use vstd::string::StringSliceAdditionalSpecFns;
use vstd::utf8::encode_utf8;

verus! {

broadcast use vstd::std_specs::vec::group_vec_axioms;

/// The error reported for the encoding failure `e`.
pub open spec fn is_enc_error(ce: CoreError, e: EncErr) -> bool {
    match e {
        EncErr::EmbeddedNul => ce == CoreError::EmbeddedNul,
        EncErr::SignatureTooLong(n) => ce == CoreError::SignatureTooLong(n as usize),
        EncErr::ArrayTooLong(n) => ce == CoreError::ArrayTooLong(n as usize),
    }
}

/// Accumulates a byte buffer while encoding values, keeping track of
/// alignment (relative to the start of the buffer).
pub struct Marshaler {
    /// The bytes written so far.
    pub buf: Vec<u8>,
    /// Byte order of multi-byte values (`true` = big-endian).
    pub big_endian: bool,
}

impl Marshaler {
    /// An empty marshaler for the given byte order.
    pub fn new(big_endian: bool) -> (m: Marshaler)
        ensures
            m.buf@ == Seq::<u8>::empty(),
            m.big_endian == big_endian,
    {
        Marshaler { buf: Vec::new(), big_endian }
    }

    /// An empty marshaler with room for `cap` bytes.
    pub fn with_capacity(big_endian: bool, cap: usize) -> (m: Marshaler)
        ensures
            m.buf@ == Seq::<u8>::empty(),
            m.big_endian == big_endian,
    {
        Marshaler { buf: Vec::with_capacity(cap), big_endian }
    }

    /// The write position: the number of bytes written so far.
    pub fn pos(&self) -> (p: usize)
        ensures
            p == self.buf@.len(),
    {
        self.buf.len()
    }

    /// Pad with zero bytes up to a multiple of `n`.
    pub fn align(&mut self, n: usize)
        requires
            n > 0,
        ensures
            final(self).big_endian == old(self).big_endian,
            final(self).buf@ == old(self).buf@ + zeros(pad_len(old(self).buf@.len() as int, n as int)),
    {
        let rem = self.buf.len() % n;
        if rem != 0 {
            let mut k: usize = n - rem;
            let ghost start = self.buf@;
            while k > 0
                invariant
                    k <= n - rem,
                    self.big_endian == old(self).big_endian,
                    start == old(self).buf@,
                    self.buf@ == start + zeros((n - rem) - k),
                decreases k,
            {
                self.buf.push(0);
                k = k - 1;
                assert(self.buf@ =~= start + zeros((n - rem) - k));
            }
        } else {
            assert(self.buf@ =~= old(self).buf@ + zeros(0));
        }
    }

    /// Append one byte (bytes need no alignment).
    pub fn write_u8(&mut self, v: u8)
        ensures
            final(self).big_endian == old(self).big_endian,
            final(self).buf@ == old(self).buf@.push(v),
    {
        self.buf.push(v);
    }

    /// Align to 2 and append `v` in the marshaler's byte order.
    pub fn write_u16(&mut self, v: u16)
        ensures
            final(self).big_endian == old(self).big_endian,
            final(self).buf@ == old(self).buf@ + zeros(pad_len(old(self).buf@.len() as int, 2))
                + u16_bytes(v, old(self).big_endian),
    {
        self.align(2);
        let ghost mid = self.buf@;
        if self.big_endian {
            self.buf.push((v / 256) as u8);
            self.buf.push((v % 256) as u8);
            assert(self.buf@ =~= mid + u16_be(v));
        } else {
            self.buf.push((v % 256) as u8);
            self.buf.push((v / 256) as u8);
            assert(self.buf@ =~= mid + u16_le(v));
        }
    }

    /// As `write_u16`, of the two's-complement bits of `v`.
    pub fn write_i16(&mut self, v: i16)
        ensures
            final(self).big_endian == old(self).big_endian,
            final(self).buf@ == old(self).buf@ + zeros(pad_len(old(self).buf@.len() as int, 2))
                + u16_bytes(v as u16, old(self).big_endian),
    {
        self.write_u16(v as u16);
    }

    /// Align to 4 and append `v` in the marshaler's byte order.
    pub fn write_u32(&mut self, v: u32)
        ensures
            final(self).big_endian == old(self).big_endian,
            final(self).buf@ == old(self).buf@ + zeros(pad_len(old(self).buf@.len() as int, 4))
                + u32_bytes(v, old(self).big_endian),
    {
        self.align(4);
        let ghost mid = self.buf@;
        let b0 = (v % 256) as u8;
        let b1 = ((v / 256) % 256) as u8;
        let b2 = ((v / 65536) % 256) as u8;
        let b3 = (v / 16777216) as u8;
        if self.big_endian {
            self.buf.push(b3);
            self.buf.push(b2);
            self.buf.push(b1);
            self.buf.push(b0);
            assert(self.buf@ =~= mid + u32_le(v).reverse());
        } else {
            self.buf.push(b0);
            self.buf.push(b1);
            self.buf.push(b2);
            self.buf.push(b3);
            assert(self.buf@ =~= mid + u32_le(v));
        }
    }

    /// As `write_u32`, of the two's-complement bits of `v`.
    pub fn write_i32(&mut self, v: i32)
        ensures
            final(self).big_endian == old(self).big_endian,
            final(self).buf@ == old(self).buf@ + zeros(pad_len(old(self).buf@.len() as int, 4))
                + u32_bytes(v as u32, old(self).big_endian),
    {
        self.write_u32(v as u32);
    }

    /// Align to 8 and append `v` in the marshaler's byte order.
    pub fn write_u64(&mut self, v: u64)
        ensures
            final(self).big_endian == old(self).big_endian,
            final(self).buf@ == old(self).buf@ + zeros(pad_len(old(self).buf@.len() as int, 8))
                + u64_bytes(v, old(self).big_endian),
    {
        self.align(8);
        let ghost mid = self.buf@;
        let b0 = (v % 0x100) as u8;
        let b1 = ((v / 0x100) % 0x100) as u8;
        let b2 = ((v / 0x1_0000) % 0x100) as u8;
        let b3 = ((v / 0x100_0000) % 0x100) as u8;
        let b4 = ((v / 0x1_0000_0000) % 0x100) as u8;
        let b5 = ((v / 0x100_0000_0000) % 0x100) as u8;
        let b6 = ((v / 0x1_0000_0000_0000) % 0x100) as u8;
        let b7 = (v / 0x100_0000_0000_0000) as u8;
        if self.big_endian {
            self.buf.push(b7);
            self.buf.push(b6);
            self.buf.push(b5);
            self.buf.push(b4);
            self.buf.push(b3);
            self.buf.push(b2);
            self.buf.push(b1);
            self.buf.push(b0);
            assert(self.buf@ =~= mid + u64_le(v).reverse());
        } else {
            self.buf.push(b0);
            self.buf.push(b1);
            self.buf.push(b2);
            self.buf.push(b3);
            self.buf.push(b4);
            self.buf.push(b5);
            self.buf.push(b6);
            self.buf.push(b7);
            assert(self.buf@ =~= mid + u64_le(v));
        }
    }

    /// As `write_u64`, of the two's-complement bits of `v`.
    pub fn write_i64(&mut self, v: i64)
        ensures
            final(self).big_endian == old(self).big_endian,
            final(self).buf@ == old(self).buf@ + zeros(pad_len(old(self).buf@.len() as int, 8))
                + u64_bytes(v as u64, old(self).big_endian),
    {
        self.write_u64(v as u64);
    }

    /// Overwrite the four bytes at `at` with `v` in the marshaler's byte
    /// order (used for lengths known only after their payload).
    pub fn patch_u32(&mut self, at: usize, v: u32)
        requires
            at + 4 <= old(self).buf@.len(),
        ensures
            final(self).big_endian == old(self).big_endian,
            final(self).buf@ == old(self).buf@.subrange(0, at as int) + u32_bytes(
                v,
                old(self).big_endian,
            ) + old(self).buf@.subrange(at + 4, old(self).buf@.len() as int),
    {
        let b0 = (v % 256) as u8;
        let b1 = ((v / 256) % 256) as u8;
        let b2 = ((v / 65536) % 256) as u8;
        let b3 = (v / 16777216) as u8;
        let n = self.buf.len();
        assert(at + 4 <= n);
        if self.big_endian {
            self.buf.set(at, b3);
            self.buf.set(at + 1, b2);
            self.buf.set(at + 2, b1);
            self.buf.set(at + 3, b0);
        } else {
            self.buf.set(at, b0);
            self.buf.set(at + 1, b1);
            self.buf.set(at + 2, b2);
            self.buf.set(at + 3, b3);
        }
        assert(self.buf@ =~= old(self).buf@.subrange(0, at as int) + u32_bytes(
            v,
            old(self).big_endian,
        ) + old(self).buf@.subrange(at + 4, old(self).buf@.len() as int));
    }

    fn push_bytes(&mut self, b: &[u8])
        ensures
            final(self).big_endian == old(self).big_endian,
            final(self).buf@ == old(self).buf@ + b@,
    {
        let mut i: usize = 0;
        while i < b.len()
            invariant
                i <= b@.len(),
                self.big_endian == old(self).big_endian,
                self.buf@ == old(self).buf@ + b@.subrange(0, i as int),
            decreases b.len() - i,
        {
            self.buf.push(b[i]);
            i = i + 1;
            assert(self.buf@ =~= old(self).buf@ + b@.subrange(0, i as int));
        }
        assert(b@.subrange(0, b@.len() as int) =~= b@);
    }

    fn write_raw_string(&mut self, s: &str) -> (r: Result<(), CoreError>)
        ensures
            final(self).big_endian == old(self).big_endian,
            match enc_str(s@, old(self).buf@.len() as int, old(self).big_endian) {
                Ok(b) => r is Ok && final(self).buf@ == old(self).buf@ + b,
                Err(e) => r matches Err(ce) && is_enc_error(ce, e),
            },
    {
        let bytes = s.as_bytes();
        if crate::text::bytes_contain(bytes, 0) {
            return Err(CoreError::EmbeddedNul);
        }
        self.write_u32(bytes.len() as u32);
        self.push_bytes(bytes);
        self.buf.push(0);
        proof {
            let b = encode_utf8(s@);
            assert(bytes@ == b);
        }
        assert(self.buf@ =~= old(self).buf@ + enc_str(
            s@,
            old(self).buf@.len() as int,
            old(self).big_endian,
        )->Ok_0);
        Ok(())
    }

    fn write_signature_str(&mut self, s: &str) -> (r: Result<(), CoreError>)
        ensures
            final(self).big_endian == old(self).big_endian,
            match enc_sig(s@) {
                Ok(b) => r is Ok && final(self).buf@ == old(self).buf@ + b,
                Err(e) => r matches Err(ce) && is_enc_error(ce, e),
            },
    {
        let bytes = s.as_bytes();
        if bytes.len() > crate::types::MAX_SIGNATURE_LEN {
            return Err(CoreError::SignatureTooLong(bytes.len()));
        }
        self.buf.push(bytes.len() as u8);
        self.push_bytes(bytes);
        self.buf.push(0);
        assert(self.buf@ =~= old(self).buf@ + enc_sig(s@)->Ok_0);
        Ok(())
    }

    /// Marshal one value of any type, recursing into containers with the
    /// alignment each type asks for. Fails where a string holds a NUL, a
    /// signature is too long, or an array body is too long; what was
    /// written before the failure stays in the buffer.
    pub fn write_value(&mut self, value: &Value) -> (r: Result<(), CoreError>)
        ensures
            final(self).big_endian == old(self).big_endian,
            match enc(value@, old(self).buf@.len() as int, old(self).big_endian) {
                Ok(b) => r is Ok && final(self).buf@ == old(self).buf@ + b,
                Err(e) => r matches Err(ce) && is_enc_error(ce, e),
            },
        decreases value, 1int,
    {
        let ghost old_buf = self.buf@;
        match value {
            Value::Byte(v) => {
                self.write_u8(*v);
                assert(self.buf@ =~= old_buf + seq![*v]);
                Ok(())
            },
            Value::Boolean(v) => {
                self.write_u32(if *v { 1 } else { 0 });
                Ok(())
            },
            Value::Int16(v) => {
                self.write_i16(*v);
                Ok(())
            },
            Value::UInt16(v) => {
                self.write_u16(*v);
                Ok(())
            },
            Value::Int32(v) => {
                self.write_i32(*v);
                Ok(())
            },
            Value::UInt32(v) => {
                self.write_u32(*v);
                Ok(())
            },
            Value::Int64(v) => {
                self.write_i64(*v);
                Ok(())
            },
            Value::UInt64(v) => {
                self.write_u64(*v);
                Ok(())
            },
            Value::Double(v) => {
                self.write_u64(*v);
                Ok(())
            },
            Value::String(s) => self.write_raw_string(s.as_str()),
            Value::ObjectPath(p) => self.write_raw_string(p.as_str()),
            Value::Signature(sig) => self.write_signature_str(sig.as_str()),
            Value::UnixFd(idx) => {
                self.write_u32(*idx);
                Ok(())
            },
            Value::Array(arr) => {
                proof {
                    assert(decreases_to!(*value => value->Array_0));
                }
                self.write_array(arr)
            },
            Value::Struct(_) => self.write_struct(value),
            Value::DictEntry(_, _) => self.write_dict_entry(value),
            Value::Variant(_) => self.write_variant(value),
        }
    }

    fn write_struct(&mut self, value: &Value) -> (r: Result<(), CoreError>)
        requires
            value is Struct,
        ensures
            final(self).big_endian == old(self).big_endian,
            match enc(value@, old(self).buf@.len() as int, old(self).big_endian) {
                Ok(b) => r is Ok && final(self).buf@ == old(self).buf@ + b,
                Err(e) => r matches Err(ce) && is_enc_error(ce, e),
            },
        decreases value, 0int,
    {
        let ghost old_buf = self.buf@;
        let ghost be = self.big_endian;
        match value {
            Value::Struct(fields) => {
                self.align(8);
                proof {
                    assert(decreases_to!(*value => value->Struct_0));
                }
                let res = self.write_elements(fields);
                match res {
                    Ok(()) => {
                        assert(self.buf@ =~= old_buf + enc(value@, old_buf.len() as int, be)->Ok_0);
                        Ok(())
                    },
                    Err(e) => Err(e),
                }
            },
            _ => Ok(()),
        }
    }

    fn write_dict_entry(&mut self, value: &Value) -> (r: Result<(), CoreError>)
        requires
            value is DictEntry,
        ensures
            final(self).big_endian == old(self).big_endian,
            match enc(value@, old(self).buf@.len() as int, old(self).big_endian) {
                Ok(b) => r is Ok && final(self).buf@ == old(self).buf@ + b,
                Err(e) => r matches Err(ce) && is_enc_error(ce, e),
            },
        decreases value, 0int,
    {
        let ghost old_buf = self.buf@;
        let ghost be = self.big_endian;
        match value {
            Value::DictEntry(k, v) => {
                self.align(8);
                let ghost mid1 = self.buf@;
                let rk = self.write_value(k);
                if rk.is_err() {
                    return rk;
                }
                let ghost mid2 = self.buf@;
                let rv = self.write_value(v);
                if rv.is_err() {
                    return rv;
                }
                assert(self.buf@ =~= old_buf + enc(value@, old_buf.len() as int, be)->Ok_0);
                Ok(())
            },
            _ => Ok(()),
        }
    }

    fn write_variant(&mut self, value: &Value) -> (r: Result<(), CoreError>)
        requires
            value is Variant,
        ensures
            final(self).big_endian == old(self).big_endian,
            match enc(value@, old(self).buf@.len() as int, old(self).big_endian) {
                Ok(b) => r is Ok && final(self).buf@ == old(self).buf@ + b,
                Err(e) => r matches Err(ce) && is_enc_error(ce, e),
            },
        decreases value, 0int,
    {
        let ghost old_buf = self.buf@;
        let ghost be = self.big_endian;
        match value {
            Value::Variant(inner) => {
                let sig = inner.value_type().to_signature_string();
                let rs = self.write_signature_str(sig.as_str());
                if rs.is_err() {
                    return rs;
                }
                let ri = self.write_value(inner);
                if ri.is_err() {
                    return ri;
                }
                assert(self.buf@ =~= old_buf + enc(value@, old_buf.len() as int, be)->Ok_0);
                Ok(())
            },
            _ => Ok(()),
        }
    }

    fn write_array(&mut self, arr: &ArrayValue) -> (r: Result<(), CoreError>)
        ensures
            final(self).big_endian == old(self).big_endian,
            match enc(
                ValueSpec::Array(arr.element_type@, values_view(arr.elements@)),
                old(self).buf@.len() as int,
                old(self).big_endian,
            ) {
                Ok(b) => r is Ok && final(self).buf@ == old(self).buf@ + b,
                Err(e) => r matches Err(ce) && is_enc_error(ce, e),
            },
        decreases arr, 0int,
    {
        let ghost old_buf = self.buf@;
        let ghost be = self.big_endian;
        self.align(4);
        let len_pos = self.pos();
        self.write_u32(0);
        assert(pad_len(len_pos as int, 4) == 0);
        self.align(arr.element_type.alignment());
        let start = self.pos();
        let ghost before_elems = self.buf@;
        proof {
            assert(decreases_to!(*arr => arr.elements));
        }
        let res = self.write_elements(&arr.elements);
        if res.is_err() {
            return res;
        }
        let byte_len = self.pos() - start;
        if byte_len > MAX_ARRAY_LEN {
            return Err(CoreError::ArrayTooLong(byte_len));
        }
        let ghost before_patch = self.buf@;
        self.patch_u32(len_pos, byte_len as u32);
        proof {
            let ta = arr.element_type@.alignment() as int;
            let body = before_patch.subrange(start as int, before_patch.len() as int);
            assert(before_patch =~= before_elems + body);
            lemma_array_bytes(old_buf, before_patch, self.buf@, body, ta, be);
            assert(self.buf@ =~= old_buf + enc(
                ValueSpec::Array(arr.element_type@, values_view(arr.elements@)),
                old_buf.len() as int,
                be,
            )->Ok_0);
        }
        Ok(())
    }

    fn write_elements(&mut self, vals: &Vec<Value>) -> (r: Result<(), CoreError>)
        ensures
            final(self).big_endian == old(self).big_endian,
            match enc_seq(values_view(vals@), old(self).buf@.len() as int, old(self).big_endian) {
                Ok(b) => r is Ok && final(self).buf@ == old(self).buf@ + b,
                Err(e) => r matches Err(ce) && is_enc_error(ce, e),
            },
        decreases vals, 1int,
    {
        let ghost start = self.buf@.len() as int;
        let ghost vs = values_view(vals@);
        proof {
            lemma_values_view(vals@);
            assert(vs.take(0) =~= Seq::<ValueSpec>::empty());
            assert(self.buf@.subrange(start, start) =~= Seq::<u8>::empty());
        }
        let mut i: usize = 0;
        while i < vals.len()
            invariant
                i <= vals@.len(),
                vs == values_view(vals@),
                vs.len() == vals@.len(),
                forall|j: int| 0 <= j < vs.len() ==> #[trigger] vs[j] == vals@[j]@,
                self.big_endian == old(self).big_endian,
                start == old(self).buf@.len(),
                start <= self.buf@.len(),
                self.buf@.subrange(0, start) == old(self).buf@,
                enc_seq(vs.take(i as int), start, self.big_endian) == Ok::<Seq<u8>, EncErr>(
                    self.buf@.subrange(start, self.buf@.len() as int),
                ),
            decreases vals.len() - i,
        {
            proof {
                assert(decreases_to!(*vals => vals@));
                assert(decreases_to!(vals@ => vals@[i as int]));
            }
            let ghost before = self.buf@;
            let res = self.write_value(&vals[i]);
            proof {
                lemma_elements_step(vs, i as int, start, self.big_endian, before, self.buf@, res);
            }
            if res.is_err() {
                return res;
            }
            i = i + 1;
        }
        proof {
            assert(vs.take(i as int) =~= vs);
            assert(self.buf@ =~= self.buf@.subrange(0, start) + self.buf@.subrange(start, self.buf@.len() as int));
        }
        Ok(())
    }

    /// Marshal values one after the other (a message body).
    pub fn write_values(&mut self, values: &[Value]) -> (r: Result<(), CoreError>)
        ensures
            final(self).big_endian == old(self).big_endian,
            match enc_seq(values_view(values@), old(self).buf@.len() as int, old(self).big_endian) {
                Ok(b) => r is Ok && final(self).buf@ == old(self).buf@ + b,
                Err(e) => r matches Err(ce) && is_enc_error(ce, e),
            },
    {
        let ghost start = self.buf@.len() as int;
        let ghost vs = values_view(values@);
        proof {
            lemma_values_view(values@);
            assert(vs.take(0) =~= Seq::<ValueSpec>::empty());
            assert(self.buf@.subrange(start, start) =~= Seq::<u8>::empty());
        }
        let mut i: usize = 0;
        while i < values.len()
            invariant
                i <= values@.len(),
                vs == values_view(values@),
                vs.len() == values@.len(),
                forall|j: int| 0 <= j < vs.len() ==> #[trigger] vs[j] == values@[j]@,
                self.big_endian == old(self).big_endian,
                start == old(self).buf@.len(),
                start <= self.buf@.len(),
                self.buf@.subrange(0, start) == old(self).buf@,
                enc_seq(vs.take(i as int), start, self.big_endian) == Ok::<Seq<u8>, EncErr>(
                    self.buf@.subrange(start, self.buf@.len() as int),
                ),
            decreases values.len() - i,
        {
            let ghost before = self.buf@;
            let res = self.write_value(&values[i]);
            proof {
                lemma_elements_step(vs, i as int, start, self.big_endian, before, self.buf@, res);
            }
            if res.is_err() {
                return res;
            }
            i = i + 1;
        }
        proof {
            assert(vs.take(i as int) =~= vs);
            assert(self.buf@ =~= self.buf@.subrange(0, start) + self.buf@.subrange(start, self.buf@.len() as int));
        }
        Ok(())
    }

    /// The bytes written.
    pub fn into_bytes(self) -> (b: Vec<u8>)
        ensures
            b@ == self.buf@,
    {
        self.buf
    }
}


/// The types of the values `vs`.
pub open spec fn types_of(vs: Seq<ValueSpec>) -> Seq<TypeSpec> {
    Seq::new(vs.len(), |i: int| type_of(vs[i]))
}

/// Marshal values into fresh bytes, and give the concatenated signature of
/// their types alongside.
pub fn marshal_body(values: &[Value], big_endian: bool) -> (r: Result<(Vec<u8>, String), CoreError>)
    ensures
        match enc_seq(values_view(values@), 0, big_endian) {
            Ok(b) => r matches Ok((bytes, sig)) && bytes@ == b && sig@ == sigs_of(
                types_of(values_view(values@)),
            ),
            Err(e) => r matches Err(ce) && is_enc_error(ce, e),
        },
{
    let mut m = Marshaler::new(big_endian);
    m.write_values(values)?;
    let ghost ts = types_of(values_view(values@));
    proof {
        lemma_values_view(values@);
        assert(ts.take(0) =~= Seq::<TypeSpec>::empty());
    }
    let mut sig = String::new();
    let mut i: usize = 0;
    while i < values.len()
        invariant
            i <= values@.len(),
            ts == types_of(values_view(values@)),
            ts.len() == values@.len(),
            forall|j: int| 0 <= j < values@.len() ==> #[trigger] ts[j] == type_of(values@[j]@),
            sig@ == sigs_of(ts.take(i as int)),
        decreases values.len() - i,
    {
        let part = values[i].value_type().to_signature_string();
        sig = concat_str(sig.as_str(), part.as_str());
        proof {
            assert(ts.take(i + 1) =~= ts.take(i as int).push(ts[i as int]));
            lemma_sigs_of_push(ts.take(i as int), ts[i as int]);
        }
        i = i + 1;
    }
    proof {
        assert(ts.take(i as int) =~= ts);
    }
    Ok((m.into_bytes(), sig))
}

/// Encoding `i + 1` values is encoding `i` of them, then the next.
pub proof fn lemma_enc_seq_step(vs: Seq<ValueSpec>, i: int, pos: int, be: bool)
    requires
        0 <= i < vs.len(),
    ensures
        enc_seq(vs.take(i + 1), pos, be) == match enc_seq(vs.take(i), pos, be) {
            Ok(front) => match enc(vs[i], pos + front.len(), be) {
                Ok(last) => Ok(front + last),
                Err(e) => Err(e),
            },
            Err(e) => Err(e),
        },
{
    assert(vs.take(i + 1).subrange(0, i) =~= vs.take(i));
    assert(vs.take(i + 1)[i] == vs[i]);
}

/// Where encoding a prefix of `vs` fails, encoding all of `vs` fails with
/// the same error.
pub proof fn lemma_enc_seq_err_prefix(vs: Seq<ValueSpec>, k: int, pos: int, be: bool)
    requires
        0 <= k <= vs.len(),
        enc_seq(vs.take(k), pos, be) is Err,
    ensures
        enc_seq(vs, pos, be) == enc_seq(vs.take(k), pos, be),
    decreases vs.len() - k,
{
    if k < vs.len() {
        assert(vs.take(k + 1).subrange(0, k) =~= vs.take(k));
        lemma_enc_seq_err_prefix(vs, k + 1, pos, be);
    } else {
        assert(vs.take(k) =~= vs);
    }
}


/// One step of writing a sequence of values: what writing element `i`
/// does to the invariant on the bytes written so far.
proof fn lemma_elements_step(
    vs: Seq<ValueSpec>,
    i: int,
    start: int,
    be: bool,
    before: Seq<u8>,
    after: Seq<u8>,
    res: Result<(), CoreError>,
)
    requires
        0 <= i < vs.len(),
        0 <= start <= before.len(),
        enc_seq(vs.take(i), start, be) == Ok::<Seq<u8>, EncErr>(
            before.subrange(start, before.len() as int),
        ),
        match enc(vs[i], before.len() as int, be) {
            Ok(b) => res is Ok && after == before + b,
            Err(e) => res matches Err(ce) && is_enc_error(ce, e),
        },
    ensures
        res is Ok ==> {
            &&& start <= after.len()
            &&& after.subrange(0, start) == before.subrange(0, start)
            &&& enc_seq(vs.take(i + 1), start, be) == Ok::<Seq<u8>, EncErr>(
                after.subrange(start, after.len() as int),
            )
        },
        res matches Err(ce) ==> enc_seq(vs, start, be) matches Err(e) && is_enc_error(ce, e),
{
    lemma_enc_seq_step(vs, i, start, be);
    let front = before.subrange(start, before.len() as int);
    assert(start + front.len() == before.len());
    match enc(vs[i], before.len() as int, be) {
        Ok(b) => {
            assert(after.subrange(start, after.len() as int) =~= front + b);
            assert(after.subrange(0, start) =~= before.subrange(0, start));
        },
        Err(e) => {
            lemma_enc_seq_err_prefix(vs, i + 1, start, be);
        },
    }
}

/// The bytes an array write leaves: padding, the patched length, padding
/// to the element alignment, then the elements.
proof fn lemma_array_bytes(
    old_buf: Seq<u8>,
    before_patch: Seq<u8>,
    after: Seq<u8>,
    body: Seq<u8>,
    ta: int,
    be: bool,
)
    requires
        body.len() <= u32::MAX,
        before_patch == old_buf + zeros(pad_len(old_buf.len() as int, 4)) + u32_bytes(0, be)
            + zeros(pad_len(old_buf.len() + pad_len(old_buf.len() as int, 4) + 4, ta)) + body,
        after == before_patch.subrange(0, old_buf.len() + pad_len(old_buf.len() as int, 4))
            + u32_bytes(body.len() as u32, be) + before_patch.subrange(
            old_buf.len() + pad_len(old_buf.len() as int, 4) + 4,
            before_patch.len() as int,
        ),
    ensures
        after == old_buf + (zeros(pad_len(old_buf.len() as int, 4)) + u32_bytes(
            body.len() as u32,
            be,
        ) + zeros(pad_len(old_buf.len() + pad_len(old_buf.len() as int, 4) + 4, ta)) + body),
{
    let l = old_buf.len() as int;
    let p0 = pad_len(l, 4);
    assert(0 <= p0) by {
        assert(l % 4 >= 0);
    }
    let z1 = zeros(p0);
    let z2 = zeros(pad_len(l + p0 + 4, ta));
    assert(u32_bytes(0, be).len() == 4);
    assert(u32_bytes(body.len() as u32, be).len() == 4);
    assert(before_patch.subrange(0, l + p0) =~= old_buf + z1);
    assert(before_patch.subrange(l + p0 + 4, before_patch.len() as int) =~= z2 + body);
    assert(after =~= old_buf + (z1 + u32_bytes(body.len() as u32, be) + z2 + body));
}

} // verus!
