//! What is written can be read back: decoding the bytes that encoding a
//! value wrote gives the value again, and the position just after them.

use crate::signature::sig_parse;
use crate::unmarshal::dec_list;
use crate::header::{header_entries, header_prefix, header_read_outcome, prefix_big_endian, prefix_ok, FieldSpec, MessageHeader, MessageType};
use crate::marshal::types_of;
use crate::message::{finished_fields, without_body_fields};
use crate::types::{sig_of, sigs_of, type_of, valid_object_path, valid_signature, wf_type, TypeSpec, ValueSpec};
use crate::wire::{
    align_at, dec, dec_basic, dec_elems, dec_u16, dec_u32, dec_u64, dec_fields, dec_sig, dec_str, enc, enc_seq, enc_sig, enc_str,
    need, pad_len, single_type, u16_at, u16_bytes, u32_at, u32_bytes, u32_le, u64_at, u64_bytes,
    u64_le, zeros, DecErr, EncErr,
};
use vstd::prelude::*;
use vstd::utf8::{decode_utf8, encode_utf8, valid_utf8};

verus! {

// ---------------------------------------------------------------------------
// Numbers
// ---------------------------------------------------------------------------

proof fn lemma_u16_le(x: u16)
    ensures
        ((x % 256) as u8) as int + ((x / 256) as u8) as int * 256 == x as int,
{
    assert(((x % 256) as u8) as int + ((x / 256) as u8) as int * 256 == x as int) by (nonlinear_arith);
}

/// Two bytes written for `x` read back as `x`.
pub proof fn lemma_u16_read(x: u16, be: bool, b: Seq<u8>, p: int)
    requires
        0 <= p,
        p + 2 <= b.len(),
        b.subrange(p, p + 2) == u16_bytes(x, be),
    ensures
        u16_at(b, p, be) == x,
{
    let bs = u16_bytes(x, be);
    assert(b[p] == bs[0] && b[p + 1] == bs[1]);
    lemma_u16_le(x);
}

proof fn lemma_u32_le(x: u32)
    ensures
        ((x % 256) as u8) as int + (((x / 256) % 256) as u8) as int * 256 + (((x / 65536) % 256) as u8) as int * 65536
            + ((x / 16777216) as u8) as int * 16777216 == x as int,
{
    assert(((x % 256) as u8) as int + (((x / 256) % 256) as u8) as int * 256 + (((x / 65536) % 256) as u8) as int
        * 65536 + ((x / 16777216) as u8) as int * 16777216 == x as int) by (nonlinear_arith);
}

/// Four bytes written for `x` read back as `x`.
pub proof fn lemma_u32_read(x: u32, be: bool, b: Seq<u8>, p: int)
    requires
        0 <= p,
        p + 4 <= b.len(),
        b.subrange(p, p + 4) == u32_bytes(x, be),
    ensures
        u32_at(b, p, be) == x,
{
    let bs = u32_bytes(x, be);
    let le = u32_le(x);
    assert(b[p] == bs[0] && b[p + 1] == bs[1] && b[p + 2] == bs[2] && b[p + 3] == bs[3]);
    if be {
        assert(bs[0] == le[3] && bs[1] == le[2] && bs[2] == le[1] && bs[3] == le[0]);
    }
    lemma_u32_le(x);
}

proof fn lemma_u64_le(x: u64)
    ensures
        ((x % 0x100) as u8) as int + (((x / 0x100) % 0x100) as u8) as int * 0x100 + (((x / 0x1_0000) % 0x100) as u8) as int
            * 0x1_0000 + (((x / 0x100_0000) % 0x100) as u8) as int * 0x100_0000 + (((x / 0x1_0000_0000) % 0x100) as u8) as int
            * 0x1_0000_0000 + (((x / 0x100_0000_0000) % 0x100) as u8) as int * 0x100_0000_0000 + (((x
            / 0x1_0000_0000_0000) % 0x100) as u8) as int * 0x1_0000_0000_0000 + ((x / 0x100_0000_0000_0000) as u8) as int
            * 0x100_0000_0000_0000 == x as int,
{
    assert(((x % 0x100) as u8) as int + (((x / 0x100) % 0x100) as u8) as int * 0x100 + (((x / 0x1_0000) % 0x100) as u8) as int
        * 0x1_0000 + (((x / 0x100_0000) % 0x100) as u8) as int * 0x100_0000 + (((x / 0x1_0000_0000) % 0x100) as u8) as int
        * 0x1_0000_0000 + (((x / 0x100_0000_0000) % 0x100) as u8) as int * 0x100_0000_0000 + (((x
        / 0x1_0000_0000_0000) % 0x100) as u8) as int * 0x1_0000_0000_0000 + ((x / 0x100_0000_0000_0000) as u8) as int
        * 0x100_0000_0000_0000 == x as int) by (bit_vector);
}

/// Eight bytes written for `x` read back as `x`.
pub proof fn lemma_u64_read(x: u64, be: bool, b: Seq<u8>, p: int)
    requires
        0 <= p,
        p + 8 <= b.len(),
        b.subrange(p, p + 8) == u64_bytes(x, be),
    ensures
        u64_at(b, p, be) == x,
{
    let bs = u64_bytes(x, be);
    let le = u64_le(x);
    assert(b[p] == bs[0] && b[p + 1] == bs[1] && b[p + 2] == bs[2] && b[p + 3] == bs[3]);
    assert(b[p + 4] == bs[4] && b[p + 5] == bs[5] && b[p + 6] == bs[6] && b[p + 7] == bs[7]);
    if be {
        assert(bs[0] == le[7] && bs[1] == le[6] && bs[2] == le[5] && bs[3] == le[4]);
        assert(bs[4] == le[3] && bs[5] == le[2] && bs[6] == le[1] && bs[7] == le[0]);
    }
    lemma_u64_le(x);
}

proof fn lemma_zeros_len(k: int)
    requires
        k >= 0,
    ensures
        zeros(k).len() == k,
{
}

/// A string written at `pos` reads back, with the position after it.
pub proof fn lemma_str_read(s: Seq<char>, pos: int, be: bool, b: Seq<u8>)
    requires
        0 <= pos,
        enc_str(s, pos, be) is Ok,
        encode_utf8(s).len() <= u32::MAX,
        pos + enc_str(s, pos, be)->Ok_0.len() <= b.len(),
        b.subrange(pos, pos + enc_str(s, pos, be)->Ok_0.len()) == enc_str(s, pos, be)->Ok_0,
    ensures
        dec_str(b, pos, be) == Ok::<(Seq<char>, int), DecErr>((s, pos + enc_str(s, pos, be)->Ok_0.len())),
{
    broadcast use vstd::utf8::group_utf8_lib;

    let bytes = enc_str(s, pos, be)->Ok_0;
    let e = encode_utf8(s);
    let l = e.len();
    let pad = pad_len(pos, 4);
    assert(0 <= pad < 4);
    lemma_zeros_len(pad);
    let w = u32_bytes(l as u32, be);
    assert(bytes == zeros(pad) + w + e + seq![0u8]);
    assert(w.len() == 4);
    let p = pos + pad;
    assert(b.subrange(p, p + 4) =~= w) by {
        assert forall|i: int| 0 <= i < 4 implies b.subrange(p, p + 4)[i] == w[i] by {
            assert(b[p + i] == bytes[pad + i]);
        }
    }
    lemma_u32_read(l as u32, be, b, p);
    assert(align_at(b, pos, 4) == Ok::<int, DecErr>(p));
    assert(dec_u32(b, pos, be) == Ok::<(u32, int), DecErr>((l as u32, p + 4)));
    assert(b.subrange(p + 4, p + 4 + l) =~= e) by {
        assert forall|i: int| 0 <= i < l implies b.subrange(p + 4, p + 4 + l)[i] == e[i] by {
            assert(b[p + 4 + i] == bytes[pad + 4 + i]);
        }
    }
    assert(b[p + 4 + l] == bytes[pad + 4 + l]);
    vstd::utf8::encode_utf8_valid_utf8(s);
    vstd::utf8::encode_utf8_decode_utf8(s);
}

/// A signature written at `pos` reads back, with the position after it.
pub proof fn lemma_sig_read(s: Seq<char>, pos: int, b: Seq<u8>)
    requires
        0 <= pos,
        enc_sig(s) is Ok,
        pos + enc_sig(s)->Ok_0.len() <= b.len(),
        b.subrange(pos, pos + enc_sig(s)->Ok_0.len()) == enc_sig(s)->Ok_0,
    ensures
        dec_sig(b, pos) == Ok::<(Seq<char>, int), DecErr>((s, pos + enc_sig(s)->Ok_0.len())),
{
    let bytes = enc_sig(s)->Ok_0;
    let e = encode_utf8(s);
    let l = e.len();
    assert(bytes == seq![l as u8] + e + seq![0u8]);
    assert(b[pos] == bytes[0]);
    assert(b.subrange(pos + 1, pos + 1 + l) =~= e) by {
        assert forall|i: int| 0 <= i < l implies b.subrange(pos + 1, pos + 1 + l)[i] == e[i] by {
            assert(b[pos + 1 + i] == bytes[1 + i]);
        }
    }
    assert(b[pos + 1 + l] == bytes[(1 + l) as int]);
    vstd::utf8::encode_utf8_valid_utf8(s);
    vstd::utf8::encode_utf8_decode_utf8(s);
}

proof fn lemma_signed_casts(a: i16, c: i32, d: i64)
    ensures
        ((a as u16) as i16) == a,
        ((c as u32) as i32) == c,
        ((d as u64) as i64) == d,
{
    assert(((a as u16) as i16) == a) by (bit_vector);
    assert(((c as u32) as i32) == c) by (bit_vector);
    assert(((d as u64) as i64) == d) by (bit_vector);
}

/// Reading back a number of `n` bytes (2, 4 or 8) written after padding.
proof fn lemma_aligned(pos: int, n: int, b: Seq<u8>, bytes: Seq<u8>, w: Seq<u8>)
    requires
        0 <= pos,
        n == 2 || n == 4 || n == 8,
        w.len() == n,
        bytes == zeros(pad_len(pos, n)) + w,
        pos + bytes.len() <= b.len(),
        b.subrange(pos, pos + bytes.len()) == bytes,
    ensures
        align_at(b, pos, n) == Ok::<int, DecErr>(pos + pad_len(pos, n)),
        need(b, pos + pad_len(pos, n), n) is None,
        b.subrange(pos + pad_len(pos, n), pos + pad_len(pos, n) + n) == w,
        pos + bytes.len() == pos + pad_len(pos, n) + n,
{
    let pad = pad_len(pos, n);
    lemma_zeros_len(pad);
    assert(b.subrange(pos + pad, pos + pad + n) =~= w) by {
        assert forall|i: int| 0 <= i < n implies b.subrange(pos + pad, pos + pad + n)[i] == w[i] by {
            assert(b[pos + pad + i] == bytes[pad + i]);
        }
    }
}

proof fn lemma_dec_u16_of(x: u16, pos: int, be: bool, b: Seq<u8>, bytes: Seq<u8>)
    requires
        0 <= pos,
        bytes == zeros(pad_len(pos, 2)) + u16_bytes(x, be),
        pos + bytes.len() <= b.len(),
        b.subrange(pos, pos + bytes.len()) == bytes,
    ensures
        dec_u16(b, pos, be) == Ok::<(u16, int), DecErr>((x, pos + bytes.len())),
{
    lemma_aligned(pos, 2, b, bytes, u16_bytes(x, be));
    lemma_u16_read(x, be, b, pos + pad_len(pos, 2));
}

proof fn lemma_dec_u32_of(x: u32, pos: int, be: bool, b: Seq<u8>, bytes: Seq<u8>)
    requires
        0 <= pos,
        bytes == zeros(pad_len(pos, 4)) + u32_bytes(x, be),
        pos + bytes.len() <= b.len(),
        b.subrange(pos, pos + bytes.len()) == bytes,
    ensures
        dec_u32(b, pos, be) == Ok::<(u32, int), DecErr>((x, pos + bytes.len())),
{
    lemma_aligned(pos, 4, b, bytes, u32_bytes(x, be));
    lemma_u32_read(x, be, b, pos + pad_len(pos, 4));
}

proof fn lemma_dec_u64_of(x: u64, pos: int, be: bool, b: Seq<u8>, bytes: Seq<u8>)
    requires
        0 <= pos,
        bytes == zeros(pad_len(pos, 8)) + u64_bytes(x, be),
        pos + bytes.len() <= b.len(),
        b.subrange(pos, pos + bytes.len()) == bytes,
    ensures
        dec_u64(b, pos, be) == Ok::<(u64, int), DecErr>((x, pos + bytes.len())),
{
    lemma_aligned(pos, 8, b, bytes, u64_bytes(x, be));
    lemma_u64_read(x, be, b, pos + pad_len(pos, 8));
}

/// A value without components, written at `pos`, reads back.
#[verifier::spinoff_prover]
pub proof fn lemma_basic_read(v: ValueSpec, pos: int, be: bool, b: Seq<u8>)
    requires
        0 <= pos,
        type_of(v).is_basic(),
        enc(v, pos, be) is Ok,
        v matches ValueSpec::String(s) ==> encode_utf8(s).len() <= u32::MAX,
        v matches ValueSpec::ObjectPath(s) ==> encode_utf8(s).len() <= u32::MAX && valid_object_path(s),
        v matches ValueSpec::Signature(s) ==> valid_signature(s),
        pos + enc(v, pos, be)->Ok_0.len() <= b.len(),
        b.subrange(pos, pos + enc(v, pos, be)->Ok_0.len()) == enc(v, pos, be)->Ok_0,
    ensures
        dec_basic(type_of(v), b, pos, be) == Ok::<(ValueSpec, int), DecErr>((v, pos + enc(v, pos, be)->Ok_0.len())),
{
    let bytes = enc(v, pos, be)->Ok_0;
    match v {
        ValueSpec::Byte(x) => {
            assert(b[pos] == bytes[0]);
        },
        ValueSpec::Boolean(x) => {
            lemma_dec_u32_of(if x { 1u32 } else { 0u32 }, pos, be, b, bytes);
        },
        ValueSpec::Int16(x) => {
            lemma_dec_u16_of(x as u16, pos, be, b, bytes);
            lemma_signed_casts(x, 0, 0);
        },
        ValueSpec::UInt16(x) => {
            lemma_dec_u16_of(x, pos, be, b, bytes);
        },
        ValueSpec::Int32(x) => {
            lemma_dec_u32_of(x as u32, pos, be, b, bytes);
            lemma_signed_casts(0, x, 0);
        },
        ValueSpec::UInt32(x) => {
            lemma_dec_u32_of(x, pos, be, b, bytes);
        },
        ValueSpec::Int64(x) => {
            lemma_dec_u64_of(x as u64, pos, be, b, bytes);
            lemma_signed_casts(0, 0, x);
        },
        ValueSpec::UInt64(x) => {
            lemma_dec_u64_of(x, pos, be, b, bytes);
        },
        ValueSpec::Double(x) => {
            lemma_dec_u64_of(x, pos, be, b, bytes);
        },
        ValueSpec::UnixFd(x) => {
            lemma_dec_u32_of(x, pos, be, b, bytes);
        },
        ValueSpec::String(s) => {
            lemma_str_read(s, pos, be, b);
        },
        ValueSpec::ObjectPath(s) => {
            lemma_str_read(s, pos, be, b);
        },
        ValueSpec::Signature(s) => {
            lemma_sig_read(s, pos, b);
        },
        _ => {},
    }
}

// ---------------------------------------------------------------------------
// Values
// ---------------------------------------------------------------------------

/// Whether a value reads back as written: strings short enough for their
/// 32-bit length, object paths and signatures valid, array elements of the
/// array's element type, structs with at least one field, and variants
/// whose inner type's signature reads back as that one type.
pub open spec fn value_ok(v: ValueSpec) -> bool
    decreases v,
{
    match v {
        ValueSpec::String(s) => encode_utf8(s).len() <= u32::MAX,
        ValueSpec::ObjectPath(s) => encode_utf8(s).len() <= u32::MAX && valid_object_path(s),
        ValueSpec::Signature(s) => valid_signature(s),
        ValueSpec::Array(t, es) => forall|i: int|
            0 <= i < es.len() ==> type_of(#[trigger] es[i]) == t && value_ok(es[i]),
        ValueSpec::Struct(fs) => fs.len() > 0 && forall|i: int| 0 <= i < fs.len() ==> value_ok(#[trigger] fs[i]),
        ValueSpec::DictEntry(k, x) => value_ok(*k) && value_ok(*x),
        ValueSpec::Variant(inner) => value_ok(*inner) && single_type(sig_of(type_of(*inner))) == Some(
            type_of(*inner),
        ),
        _ => true,
    }
}

/// A part of what was written at `pos` is where it was written.
proof fn lemma_located(b: Seq<u8>, pos: int, bytes: Seq<u8>, off: int, len: int)
    requires
        0 <= pos,
        pos + bytes.len() <= b.len(),
        b.subrange(pos, pos + bytes.len()) == bytes,
        0 <= off,
        0 <= len,
        off + len <= bytes.len(),
    ensures
        b.subrange(pos + off, pos + off + len) == bytes.subrange(off, off + len),
{
    assert forall|i: int| 0 <= i < len implies #[trigger] b.subrange(pos + off, pos + off + len)[i] == bytes.subrange(
        off,
        off + len,
    )[i] by {
        assert(b[pos + off + i] == b.subrange(pos, pos + bytes.len())[off + i]);
    }
    assert(b.subrange(pos + off, pos + off + len) =~= bytes.subrange(off, off + len));
}

/// Writing a list writes its first elements first: each prefix of the list
/// writes a prefix of the bytes, and one more element writes its own bytes
/// after them.
proof fn lemma_enc_seq_prefix(vs: Seq<ValueSpec>, pos: int, be: bool, k: int)
    requires
        enc_seq(vs, pos, be) is Ok,
        0 <= k <= vs.len(),
    ensures
        enc_seq(vs.take(k), pos, be) is Ok,
        enc_seq(vs.take(k), pos, be)->Ok_0.len() <= enc_seq(vs, pos, be)->Ok_0.len(),
        enc_seq(vs, pos, be)->Ok_0.subrange(0, enc_seq(vs.take(k), pos, be)->Ok_0.len() as int) == enc_seq(
            vs.take(k),
            pos,
            be,
        )->Ok_0,
        k < vs.len() ==> ({
            let front = enc_seq(vs.take(k), pos, be)->Ok_0;
            &&& enc(vs[k], pos + front.len(), be) is Ok
            &&& enc_seq(vs.take(k + 1), pos, be) == Ok::<Seq<u8>, EncErr>(front + enc(vs[k], pos + front.len(), be)->Ok_0)
        }),
    decreases vs.len() - k,
{
    let all = enc_seq(vs, pos, be)->Ok_0;
    if k == vs.len() {
        assert(vs.take(k) =~= vs);
        assert(all.subrange(0, all.len() as int) =~= all);
    } else {
        lemma_enc_seq_prefix(vs, pos, be, k + 1);
        let t1 = vs.take(k + 1);
        assert(t1.subrange(0, t1.len() - 1) =~= vs.take(k));
        assert(t1[t1.len() - 1] == vs[k]);
        let next = enc_seq(t1, pos, be)->Ok_0;
        let front = enc_seq(vs.take(k), pos, be)->Ok_0;
        assert(next == front + enc(vs[k], pos + front.len(), be)->Ok_0);
        assert(all.subrange(0, front.len() as int) =~= next.subrange(0, front.len() as int));
        assert(next.subrange(0, front.len() as int) =~= front);
    }
}

/// A list whose last element writes bytes writes bytes.
proof fn lemma_seq_nonempty(fs: Seq<ValueSpec>, p: int, be: bool)
    requires
        fs.len() > 0,
        enc_seq(fs, p, be) is Ok,
        forall|q: int| #[trigger] enc(fs[fs.len() - 1], q, be) is Ok ==> enc(fs[fs.len() - 1], q, be)->Ok_0.len() > 0,
    ensures
        enc_seq(fs, p, be)->Ok_0.len() > 0,
{
    let n = fs.len();
    let front = enc_seq(fs.subrange(0, n - 1), p, be);
    assert(front is Ok);
    assert(enc(fs[n - 1], p + front->Ok_0.len(), be) is Ok);
}

proof fn lemma_enc_nonempty_flat(v: ValueSpec, pos: int, be: bool)
    requires
        !(v is Struct || v is DictEntry),
        enc(v, pos, be) is Ok,
    ensures
        enc(v, pos, be)->Ok_0.len() > 0,
{
    match v {
        ValueSpec::Array(t, es) => {
            let p1 = pos + pad_len(pos, 4) + 4;
            let p2 = p1 + pad_len(p1, t.alignment() as int);
            let body = enc_seq(es, p2, be)->Ok_0;
            assert(u32_bytes(body.len() as u32, be).len() == 4);
        },
        ValueSpec::Variant(inner) => {
            let sb = enc_sig(sig_of(type_of(*inner)))->Ok_0;
            assert(sb.len() >= 2);
        },
        ValueSpec::Boolean(_) => {
            assert(u32_bytes(0, be).len() == 4 && u32_bytes(1, be).len() == 4);
        },
        ValueSpec::Int16(x) => {
            assert(u16_bytes(x as u16, be).len() == 2);
        },
        ValueSpec::UInt16(x) => {
            assert(u16_bytes(x, be).len() == 2);
        },
        ValueSpec::Int32(x) => {
            assert(u32_bytes(x as u32, be).len() == 4);
        },
        ValueSpec::UInt32(x) => {
            assert(u32_bytes(x, be).len() == 4);
        },
        ValueSpec::UnixFd(x) => {
            assert(u32_bytes(x, be).len() == 4);
        },
        ValueSpec::Int64(x) => {
            assert(u64_bytes(x as u64, be).len() == 8);
        },
        ValueSpec::UInt64(x) => {
            assert(u64_bytes(x, be).len() == 8);
        },
        ValueSpec::Double(x) => {
            assert(u64_bytes(x, be).len() == 8);
        },
        _ => {},
    }
}

/// A value that reads back writes at least one byte.
proof fn lemma_enc_nonempty(v: ValueSpec, pos: int, be: bool)
    requires
        value_ok(v),
        enc(v, pos, be) is Ok,
    ensures
        enc(v, pos, be)->Ok_0.len() > 0,
    decreases v,
{
    match v {
        ValueSpec::Struct(fs) => {
            let n = fs.len();
            assert(value_ok(fs[n - 1]));
            assert forall|q: int| #[trigger] enc(fs[n - 1], q, be) is Ok implies enc(fs[n - 1], q, be)->Ok_0.len() > 0 by {
                lemma_enc_nonempty(fs[n - 1], q, be);
            }
            lemma_seq_nonempty(fs, pos + pad_len(pos, 8), be);
        },
        ValueSpec::DictEntry(k, x) => {
            lemma_enc_nonempty(*k, pos + pad_len(pos, 8), be);
        },
        _ => {
            lemma_enc_nonempty_flat(v, pos, be);
        },
    }
}

/// Whether `bytes` lie in `b` from `pos` on.
pub open spec fn located(b: Seq<u8>, pos: int, bytes: Seq<u8>) -> bool {
    0 <= pos && pos + bytes.len() <= b.len() && b.subrange(pos, pos + bytes.len()) == bytes
}

/// The bytes of element `k` of a written list lie right after those of the
/// elements before it.
proof fn lemma_next_located(vs: Seq<ValueSpec>, start: int, be: bool, b: Seq<u8>, k: int)
    requires
        enc_seq(vs, start, be) is Ok,
        located(b, start, enc_seq(vs, start, be)->Ok_0),
        0 <= k < vs.len(),
    ensures
        enc_seq(vs.take(k), start, be) is Ok,
        enc(vs[k], start + enc_seq(vs.take(k), start, be)->Ok_0.len(), be) is Ok,
        located(
            b,
            start + enc_seq(vs.take(k), start, be)->Ok_0.len(),
            enc(vs[k], start + enc_seq(vs.take(k), start, be)->Ok_0.len(), be)->Ok_0,
        ),
        enc_seq(vs.take(k + 1), start, be) is Ok,
        enc_seq(vs.take(k + 1), start, be)->Ok_0.len() == enc_seq(vs.take(k), start, be)->Ok_0.len() + enc(
            vs[k],
            start + enc_seq(vs.take(k), start, be)->Ok_0.len(),
            be,
        )->Ok_0.len(),
        enc_seq(vs.take(k + 1), start, be)->Ok_0.len() <= enc_seq(vs, start, be)->Ok_0.len(),
{
    let all = enc_seq(vs, start, be)->Ok_0;
    lemma_enc_seq_prefix(vs, start, be, k);
    let front = enc_seq(vs.take(k), start, be)->Ok_0;
    let p = start + front.len();
    let e = enc(vs[k], p, be)->Ok_0;
    lemma_enc_seq_prefix(vs, start, be, k + 1);
    let next = enc_seq(vs.take(k + 1), start, be)->Ok_0;
    assert(next == front + e);
    assert(all.subrange(front.len() as int, (front.len() + e.len()) as int) =~= e) by {
        assert(all.subrange(0, next.len() as int) == next);
        assert forall|i: int| 0 <= i < e.len() implies #[trigger] all.subrange(
            front.len() as int,
            (front.len() + e.len()) as int,
        )[i] == e[i] by {
            assert(all[front.len() + i] == next[front.len() + i]);
        }
    }
    lemma_located(b, start, all, front.len() as int, e.len() as int);
}

/// The whole list is its longest prefix.
proof fn lemma_full_prefix(vs: Seq<ValueSpec>, start: int, be: bool)
    requires
        enc_seq(vs, start, be) is Ok,
    ensures
        vs.take(vs.len() as int) == vs,
        enc_seq(vs.take(vs.len() as int), start, be) == enc_seq(vs, start, be),
{
    assert(vs.take(vs.len() as int) =~= vs);
}

proof fn lemma_dec_fields_step(st: TypeSpec, b: Seq<u8>, p: int, be: bool, acc: Seq<ValueSpec>, v: ValueSpec, p2: int)
    requires
        st is Struct,
        acc.len() < st->Struct_0.len(),
        dec(st->Struct_0[acc.len() as int], b, p, be) == Ok::<(ValueSpec, int), DecErr>((v, p2)),
        p < p2 <= b.len(),
    ensures
        dec_fields(st, b, p, be, acc) == dec_fields(st, b, p2, be, acc.push(v)),
{
}

proof fn lemma_dec_elems_step(
    at: TypeSpec,
    b: Seq<u8>,
    p: int,
    end: int,
    be: bool,
    acc: Seq<ValueSpec>,
    v: ValueSpec,
    p2: int,
)
    requires
        at is Array,
        0 <= p < end,
        p <= b.len(),
        dec(*at->Array_0, b, p, be) == Ok::<(ValueSpec, int), DecErr>((v, p2)),
        p < p2 <= b.len(),
        p2 <= end,
    ensures
        dec_elems(at, b, p, end, be, acc) == dec_elems(at, b, p2, end, be, acc.push(v)),
{
}

/// A value written at `pos` reads back as itself, with the position just
/// after the bytes written.
pub proof fn lemma_value_read(v: ValueSpec, pos: int, be: bool, b: Seq<u8>)
    requires
        value_ok(v),
        enc(v, pos, be) is Ok,
        located(b, pos, enc(v, pos, be)->Ok_0),
    ensures
        dec(type_of(v), b, pos, be) == Ok::<(ValueSpec, int), DecErr>((v, pos + enc(v, pos, be)->Ok_0.len())),
    decreases v, 2int, 0int,
{
    match v {
        ValueSpec::Struct(_) => lemma_struct_read(v, pos, be, b),
        ValueSpec::Array(_, _) => lemma_array_read(v, pos, be, b),
        ValueSpec::DictEntry(_, _) => lemma_dict_read(v, pos, be, b),
        ValueSpec::Variant(_) => lemma_variant_read(v, pos, be, b),
        _ => {
            crate::wire::lemma_dec_basic(type_of(v), b, pos, be);
            lemma_basic_read(v, pos, be, b);
        },
    }
}

proof fn lemma_struct_read(v: ValueSpec, pos: int, be: bool, b: Seq<u8>)
    requires
        v is Struct,
        value_ok(v),
        enc(v, pos, be) is Ok,
        located(b, pos, enc(v, pos, be)->Ok_0),
    ensures
        dec(type_of(v), b, pos, be) == Ok::<(ValueSpec, int), DecErr>((v, pos + enc(v, pos, be)->Ok_0.len())),
    decreases v, 1int, 0int,
{
    let fs = v->Struct_0;
    let bytes = enc(v, pos, be)->Ok_0;
    let pad = pad_len(pos, 8);
    lemma_zeros_len(pad);
    let p = pos + pad;
    let body = enc_seq(fs, p, be)->Ok_0;
    assert(bytes == zeros(pad) + body);
    lemma_located(b, pos, bytes, pad, body.len() as int);
    assert(bytes.subrange(pad, pad + body.len()) =~= body);
    crate::wire::lemma_dec_struct(type_of(v), b, pos, be);
    assert(align_at(b, pos, 8) == Ok::<int, DecErr>(p));
    assert(fs.take(0) =~= Seq::<ValueSpec>::empty());
    assert forall|i: int| 0 <= i < fs.len() implies value_ok(#[trigger] fs[i]) by {}
    lemma_enc_seq_prefix(fs, p, be, 0);
    assert(enc_seq(fs.take(0), p, be) == Ok::<Seq<u8>, EncErr>(Seq::empty()));
    lemma_fields_read(v, fs, p, be, b, 0);
}

proof fn lemma_fields_read(parent: ValueSpec, fs: Seq<ValueSpec>, start: int, be: bool, b: Seq<u8>, k: int)
    requires
        parent == ValueSpec::Struct(fs),
        forall|i: int| 0 <= i < fs.len() ==> value_ok(#[trigger] fs[i]),
        enc_seq(fs, start, be) is Ok,
        located(b, start, enc_seq(fs, start, be)->Ok_0),
        0 <= k <= fs.len(),
    ensures
        enc_seq(fs.take(k), start, be) is Ok,
        dec_fields(
            type_of(parent),
            b,
            start + enc_seq(fs.take(k), start, be)->Ok_0.len(),
            be,
            fs.take(k),
        ) == Ok::<(Seq<ValueSpec>, int), DecErr>((fs, start + enc_seq(fs, start, be)->Ok_0.len())),
    decreases parent, 0int, fs.len() - k,
{
    if k == fs.len() {
        lemma_full_prefix(fs, start, be);
    } else {
        lemma_next_located(fs, start, be, b, k);
        let p = start + enc_seq(fs.take(k), start, be)->Ok_0.len();
        let e = enc(fs[k], p, be)->Ok_0;
        lemma_value_read(fs[k], p, be, b);
        lemma_enc_nonempty(fs[k], p, be);
        let st = type_of(parent);
        assert(st->Struct_0[k] == type_of(fs[k]));
        assert(fs.take(k).len() == k);
        lemma_dec_fields_step(st, b, p, be, fs.take(k), fs[k], p + e.len());
        assert(fs.take(k).push(fs[k]) =~= fs.take(k + 1));
        lemma_fields_read(parent, fs, start, be, b, k + 1);
    }
}

/// The length and padding in front of a written array read back.
proof fn lemma_array_header(t: TypeSpec, es: Seq<ValueSpec>, pos: int, be: bool, b: Seq<u8>)
    requires
        enc(ValueSpec::Array(t, es), pos, be) is Ok,
        located(b, pos, enc(ValueSpec::Array(t, es), pos, be)->Ok_0),
    ensures
        ({
            let p1 = pos + pad_len(pos, 4) + 4;
            let p2 = p1 + pad_len(p1, t.alignment() as int);
            let body = enc_seq(es, p2, be);
            &&& body is Ok
            &&& body->Ok_0.len() <= crate::wire::max_array_len()
            &&& dec_u32(b, pos, be) == Ok::<(u32, int), DecErr>((body->Ok_0.len() as u32, p1))
            &&& (body->Ok_0.len() as u32) as int == body->Ok_0.len()
            &&& align_at(b, p1, t.alignment() as int) == Ok::<int, DecErr>(p2)
            &&& located(b, p2, body->Ok_0)
            &&& pos + enc(ValueSpec::Array(t, es), pos, be)->Ok_0.len() == p2 + body->Ok_0.len()
            &&& pos < p2
        }),
{
    let v = ValueSpec::Array(t, es);
    let bytes = enc(v, pos, be)->Ok_0;
    let pad = pad_len(pos, 4);
    lemma_zeros_len(pad);
    let p1 = pos + pad + 4;
    let pad2 = pad_len(p1, t.alignment() as int);
    lemma_zeros_len(pad2);
    let p2 = p1 + pad2;
    let body = enc_seq(es, p2, be)->Ok_0;
    let w = u32_bytes(body.len() as u32, be);
    assert(w.len() == 4);
    assert(bytes == zeros(pad) + w + zeros(pad2) + body);
    lemma_located(b, pos, bytes, 0, pad + 4);
    assert(bytes.subrange(0, pad + 4) =~= zeros(pad) + w);
    lemma_dec_u32_of(body.len() as u32, pos, be, b, zeros(pad) + w);
    lemma_located(b, pos, bytes, pad + 4 + pad2, body.len() as int);
    assert(bytes.subrange(pad + 4 + pad2, pad + 4 + pad2 + body.len()) =~= body);
}

proof fn lemma_array_read(v: ValueSpec, pos: int, be: bool, b: Seq<u8>)
    requires
        v is Array,
        value_ok(v),
        enc(v, pos, be) is Ok,
        located(b, pos, enc(v, pos, be)->Ok_0),
    ensures
        dec(type_of(v), b, pos, be) == Ok::<(ValueSpec, int), DecErr>((v, pos + enc(v, pos, be)->Ok_0.len())),
    decreases v, 1int, 0int,
{
    let t = v->Array_0;
    let es = v->Array_1;
    assert(v == ValueSpec::Array(t, es));
    lemma_array_header(t, es, pos, be, b);
    let p1 = pos + pad_len(pos, 4) + 4;
    let p2 = p1 + pad_len(p1, t.alignment() as int);
    let body = enc_seq(es, p2, be)->Ok_0;
    crate::wire::lemma_dec_array(type_of(v), b, pos, be);
    assert forall|i: int| 0 <= i < es.len() implies type_of(#[trigger] es[i]) == t && value_ok(es[i]) by {}
    assert(es.take(0) =~= Seq::<ValueSpec>::empty());
    assert(enc_seq(es.take(0), p2, be) == Ok::<Seq<u8>, EncErr>(Seq::empty()));
    lemma_elems_read(v, t, es, p2, be, b, 0);
}

proof fn lemma_elems_read(
    parent: ValueSpec,
    t: TypeSpec,
    es: Seq<ValueSpec>,
    start: int,
    be: bool,
    b: Seq<u8>,
    k: int,
)
    requires
        parent == ValueSpec::Array(t, es),
        forall|i: int| 0 <= i < es.len() ==> type_of(#[trigger] es[i]) == t && value_ok(es[i]),
        enc_seq(es, start, be) is Ok,
        located(b, start, enc_seq(es, start, be)->Ok_0),
        0 <= k <= es.len(),
    ensures
        enc_seq(es.take(k), start, be) is Ok,
        dec_elems(
            type_of(parent),
            b,
            start + enc_seq(es.take(k), start, be)->Ok_0.len(),
            start + enc_seq(es, start, be)->Ok_0.len(),
            be,
            es.take(k),
        ) == Ok::<(Seq<ValueSpec>, int), DecErr>((es, start + enc_seq(es, start, be)->Ok_0.len())),
    decreases parent, 0int, es.len() - k,
{
    if k == es.len() {
        lemma_full_prefix(es, start, be);
    } else {
        lemma_next_located(es, start, be, b, k);
        let p = start + enc_seq(es.take(k), start, be)->Ok_0.len();
        let e = enc(es[k], p, be)->Ok_0;
        assert(decreases_to!(parent => parent->Array_1));
        assert(decreases_to!(parent->Array_1 => es[k]));
        lemma_value_read(es[k], p, be, b);
        lemma_enc_nonempty(es[k], p, be);
        lemma_dec_elems_step(
            type_of(parent),
            b,
            p,
            start + enc_seq(es, start, be)->Ok_0.len(),
            be,
            es.take(k),
            es[k],
            p + e.len(),
        );
        assert(es.take(k).push(es[k]) =~= es.take(k + 1));
        lemma_elems_read(parent, t, es, start, be, b, k + 1);
    }
}

proof fn lemma_dict_read(v: ValueSpec, pos: int, be: bool, b: Seq<u8>)
    requires
        v is DictEntry,
        value_ok(v),
        enc(v, pos, be) is Ok,
        located(b, pos, enc(v, pos, be)->Ok_0),
    ensures
        dec(type_of(v), b, pos, be) == Ok::<(ValueSpec, int), DecErr>((v, pos + enc(v, pos, be)->Ok_0.len())),
    decreases v, 1int, 0int,
{
    let k = *v->DictEntry_0;
    let x = *v->DictEntry_1;
    let bytes = enc(v, pos, be)->Ok_0;
    let pad = pad_len(pos, 8);
    lemma_zeros_len(pad);
    let p1 = pos + pad;
    let kb = enc(k, p1, be)->Ok_0;
    let p2 = p1 + kb.len();
    let xb = enc(x, p2, be)->Ok_0;
    assert(bytes == zeros(pad) + kb + xb);
    lemma_located(b, pos, bytes, pad, kb.len() as int);
    assert(bytes.subrange(pad, pad + kb.len()) =~= kb);
    lemma_located(b, pos, bytes, pad + kb.len(), xb.len() as int);
    assert(bytes.subrange(pad + kb.len(), pad + kb.len() + xb.len()) =~= xb);
    crate::wire::lemma_dec_dict_entry(type_of(v), b, pos, be);
    assert(align_at(b, pos, 8) == Ok::<int, DecErr>(p1));
    lemma_value_read(k, p1, be, b);
    lemma_value_read(x, p2, be, b);
}

proof fn lemma_variant_read(v: ValueSpec, pos: int, be: bool, b: Seq<u8>)
    requires
        v is Variant,
        value_ok(v),
        enc(v, pos, be) is Ok,
        located(b, pos, enc(v, pos, be)->Ok_0),
    ensures
        dec(type_of(v), b, pos, be) == Ok::<(ValueSpec, int), DecErr>((v, pos + enc(v, pos, be)->Ok_0.len())),
    decreases v, 1int, 0int,
{
    let inner = *v->Variant_0;
    let bytes = enc(v, pos, be)->Ok_0;
    let sb = enc_sig(sig_of(type_of(inner)))->Ok_0;
    let p = pos + sb.len();
    let ib = enc(inner, p, be)->Ok_0;
    assert(bytes == sb + ib);
    assert(sb.len() >= 2);
    lemma_located(b, pos, bytes, 0, sb.len() as int);
    assert(bytes.subrange(0, sb.len() as int) =~= sb);
    lemma_sig_read(sig_of(type_of(inner)), pos, b);
    lemma_located(b, pos, bytes, sb.len() as int, ib.len() as int);
    assert(bytes.subrange(sb.len() as int, (sb.len() + ib.len()) as int) =~= ib);
    crate::wire::lemma_dec_variant(b, pos, be);
    lemma_value_read(inner, p, be, b);
}

proof fn lemma_list_read(vs: Seq<ValueSpec>, start: int, be: bool, b: Seq<u8>, k: int)
    requires
        forall|i: int| 0 <= i < vs.len() ==> value_ok(#[trigger] vs[i]),
        enc_seq(vs, start, be) is Ok,
        located(b, start, enc_seq(vs, start, be)->Ok_0),
        0 <= k <= vs.len(),
    ensures
        enc_seq(vs.take(k), start, be) is Ok,
        dec_list(
            types_of(vs),
            b,
            start + enc_seq(vs.take(k), start, be)->Ok_0.len(),
            be,
            vs.take(k),
        ) == Ok::<(Seq<ValueSpec>, int), DecErr>((vs, start + enc_seq(vs, start, be)->Ok_0.len())),
    decreases vs.len() - k,
{
    if k == vs.len() {
        lemma_full_prefix(vs, start, be);
    } else {
        lemma_next_located(vs, start, be, b, k);
        let p = start + enc_seq(vs.take(k), start, be)->Ok_0.len();
        lemma_value_read(vs[k], p, be, b);
        assert(types_of(vs)[k] == type_of(vs[k]));
        assert(vs.take(k).len() == k);
        assert(vs.take(k).push(vs[k]) =~= vs.take(k + 1));
        lemma_list_read(vs, start, be, b, k + 1);
    }
}

/// Values written one after the other from `start` read back one after the
/// other as themselves, by their types.
pub proof fn written_values_read_back(vs: Seq<ValueSpec>, start: int, be: bool, b: Seq<u8>)
    requires
        forall|i: int| 0 <= i < vs.len() ==> value_ok(#[trigger] vs[i]),
        enc_seq(vs, start, be) is Ok,
        located(b, start, enc_seq(vs, start, be)->Ok_0),
    ensures
        dec_list(types_of(vs), b, start, be, Seq::empty()) == Ok::<(Seq<ValueSpec>, int), DecErr>(
            (vs, start + enc_seq(vs, start, be)->Ok_0.len()),
        ),
{
    assert(vs.take(0) =~= Seq::<ValueSpec>::empty());
    assert(enc_seq(vs.take(0), start, be) == Ok::<Seq<u8>, EncErr>(Seq::empty()));
    lemma_list_read(vs, start, be, b, 0);
}

/// A message body that `marshal_body` writes, read by `unmarshal_body`
/// with the signature `marshal_body` gives, is the values written: for
/// values that read back, and a signature that reads back as their types.
pub proof fn body_reads_back(vs: Seq<ValueSpec>, be: bool)
    requires
        forall|i: int| 0 <= i < vs.len() ==> value_ok(#[trigger] vs[i]),
        enc_seq(vs, 0, be) is Ok,
        sig_parse(sigs_of(types_of(vs))) == Ok::<Seq<TypeSpec>, crate::signature::SigErr>(types_of(vs)),
    ensures
        dec_list(sig_parse(sigs_of(types_of(vs)))->Ok_0, enc_seq(vs, 0, be)->Ok_0, 0, be, Seq::empty())
            == Ok::<(Seq<ValueSpec>, int), DecErr>((vs, enc_seq(vs, 0, be)->Ok_0.len() as int)),
{
    let bytes = enc_seq(vs, 0, be)->Ok_0;
    assert(bytes.subrange(0, bytes.len() as int) =~= bytes);
    written_values_read_back(vs, 0, be, bytes);
}

// ---------------------------------------------------------------------------
// Headers
// ---------------------------------------------------------------------------

/// Whether a header field reads back: its path or signature valid, its
/// text short enough for a 32-bit length.
pub open spec fn field_ok(f: FieldSpec) -> bool {
    match f.value() {
        ValueSpec::ObjectPath(p) => valid_object_path(p) && encode_utf8(p).len() <= u32::MAX,
        ValueSpec::String(x) => encode_utf8(x).len() <= u32::MAX,
        ValueSpec::Signature(x) => valid_signature(x),
        _ => true,
    }
}

/// The bytes `MessageHeader::write` appends to an empty buffer for a header
/// with these parts, in byte order `be`.
pub open spec fn written_header(
    mt: MessageType,
    flags: u8,
    version: u8,
    body_length: u32,
    serial: u32,
    fs: Seq<FieldSpec>,
    be: bool,
) -> Result<Seq<u8>, EncErr> {
    let p1 = header_prefix(0, be, mt, flags, version, body_length, serial, be);
    match enc(
        ValueSpec::Array(TypeSpec::Struct(seq![TypeSpec::Byte, TypeSpec::Variant]), header_entries(fs)),
        p1.len() as int,
        be,
    ) {
        Ok(a) => Ok(p1 + a + zeros(pad_len((p1.len() + a.len()) as int, 8))),
        Err(e) => Err(e),
    }
}

/// A one-character signature of a type without components reads back as
/// that type.
proof fn lemma_single_simple(t: TypeSpec)
    requires
        crate::signature::simple_type_of(t.code()) == Some(t),
    ensures
        single_type(sig_of(t)) == Some(t),
{
    broadcast use vstd::utf8::group_utf8_lib;

    let s = seq![t.code()];
    assert(sig_of(t) == s);
    assert('a' <= t.code() <= 'z' || t.code() == '(' || t.code() == '{');
    assert(vstd::utf8::is_ascii_chars(s));
    vstd::utf8::is_ascii_chars_encode_utf8(s);
    assert(crate::signature::parse_one_at(s, 0, 0, 0, false) == Ok::<(TypeSpec, int), crate::signature::SigErr>((t, 1)));
    assert(crate::signature::parse_all_at(s, 1, seq![t]) == Ok::<Seq<TypeSpec>, crate::signature::SigErr>(seq![t]));
    assert(Seq::<TypeSpec>::empty().push(t) =~= seq![t]);
    assert(sig_parse(s) == Ok::<Seq<TypeSpec>, crate::signature::SigErr>(seq![t]));
}

/// Every entry of the header array is a value that reads back.
proof fn lemma_entry_ok(f: FieldSpec)
    requires
        field_ok(f),
    ensures
        value_ok(ValueSpec::Struct(seq![ValueSpec::Byte(f.code()), ValueSpec::Variant(Box::new(f.value()))])),
        type_of(ValueSpec::Struct(seq![ValueSpec::Byte(f.code()), ValueSpec::Variant(Box::new(f.value()))]))
            == TypeSpec::Struct(seq![TypeSpec::Byte, TypeSpec::Variant]),
        crate::header::entry_field(
            ValueSpec::Struct(seq![ValueSpec::Byte(f.code()), ValueSpec::Variant(Box::new(f.value()))]),
        ) == Ok::<Option<FieldSpec>, u8>(Some(f)),
{
    let inner = f.value();
    match f {
        FieldSpec::Path(_) => {
            assert(type_of(inner) == TypeSpec::ObjectPath);
        },
        FieldSpec::Signature(_) => {
            assert(type_of(inner) == TypeSpec::Signature);
        },
        FieldSpec::ReplySerial(_) => {
            assert(type_of(inner) == TypeSpec::UInt32);
        },
        FieldSpec::UnixFds(_) => {
            assert(type_of(inner) == TypeSpec::UInt32);
        },
        _ => {
            assert(type_of(inner) == TypeSpec::String);
        },
    }
    lemma_single_simple(type_of(inner));
    assert(value_ok(inner));
    let pair = seq![ValueSpec::Byte(f.code()), ValueSpec::Variant(Box::new(inner))];
    assert(value_ok(pair[0]));
    assert(value_ok(pair[1]));
    assert(type_of(pair[0]) == TypeSpec::Byte);
    assert(type_of(pair[1]) == TypeSpec::Variant);
    assert(type_of(ValueSpec::Struct(pair))->Struct_0 =~= seq![TypeSpec::Byte, TypeSpec::Variant]);
}

proof fn lemma_entries_fields(fs: Seq<FieldSpec>)
    requires
        forall|i: int| 0 <= i < fs.len() ==> field_ok(#[trigger] fs[i]),
    ensures
        crate::header::fields_from_entries(header_entries(fs)) == Ok::<Seq<FieldSpec>, u8>(fs),
    decreases fs.len(),
{
    if fs.len() > 0 {
        let init = fs.drop_last();
        assert(header_entries(fs).drop_last() =~= header_entries(init));
        lemma_entries_fields(init);
        lemma_entry_ok(fs.last());
        assert(header_entries(fs).last() == ValueSpec::Struct(
            seq![ValueSpec::Byte(fs.last().code()), ValueSpec::Variant(Box::new(fs.last().value()))],
        ));
        assert(init.push(fs.last()) =~= fs);
        let es = header_entries(fs);
        assert(es.len() > 0);
        assert(crate::header::fields_from_entries(es.drop_last()) == Ok::<Seq<FieldSpec>, u8>(init));
        assert(crate::header::entry_field(es.last()) == Ok::<Option<FieldSpec>, u8>(Some(fs.last())));
        assert(crate::header::fields_from_entries(es) == Ok::<Seq<FieldSpec>, u8>(init.push(fs.last())));
    } else {
        assert(header_entries(fs) =~= Seq::<ValueSpec>::empty());
        assert(fs =~= Seq::<FieldSpec>::empty());
    }
}

/// A header written by `MessageHeader::write` (protocol version 1, in its
/// own byte order, fields that read back) is read back by
/// `MessageHeader::read`, whatever follows it: the same type, flags,
/// version, body length, serial and fields, with the body starting right
/// after the written bytes.
pub proof fn header_reads_back(
    mt: MessageType,
    flags: u8,
    body_length: u32,
    serial: u32,
    fs: Seq<FieldSpec>,
    be: bool,
    rest: Seq<u8>,
    r: Result<(MessageHeader, usize), crate::error::CoreError>,
)
    requires
        written_header(mt, flags, 1, body_length, serial, fs, be) is Ok,
        forall|i: int| 0 <= i < fs.len() ==> field_ok(#[trigger] fs[i]),
        header_read_outcome(written_header(mt, flags, 1, body_length, serial, fs, be)->Ok_0 + rest, r),
    ensures
        r matches Ok((h, n)) && n == written_header(mt, flags, 1, body_length, serial, fs, be)->Ok_0.len()
            && h.big_endian == be && h.message_type == mt && h.flags == flags && h.protocol_version == 1
            && h.body_length == body_length && h.serial == serial && h.fields_spec() == fs,
{
    let p1 = header_prefix(0, be, mt, flags, 1, body_length, serial, be);
    let av = ValueSpec::Array(TypeSpec::Struct(seq![TypeSpec::Byte, TypeSpec::Variant]), header_entries(fs));
    let a = enc(av, p1.len() as int, be)->Ok_0;
    let w = written_header(mt, flags, 1, body_length, serial, fs, be)->Ok_0;
    let b = w + rest;
    assert(pad_len(4, 4) == 0);
    lemma_zeros_len(0);
    let wb = u32_bytes(body_length, be);
    let ws = u32_bytes(serial, be);
    assert(wb.len() == 4 && ws.len() == 4);
    assert(p1 == seq![if be { 66u8 } else { 108u8 }, mt.code_spec(), flags, 1u8] + zeros(0) + wb + ws);
    assert(p1.len() == 12);
    assert(b[0] == p1[0] && b[1] == p1[1] && b[2] == p1[2] && b[3] == p1[3]);
    assert(b.len() >= 16) by {
        assert(a.len() >= 4) by {
            lemma_enc_nonempty_flat(av, 12, be);
            let pad = pad_len(12, 4);
            assert(pad == 0);
        }
    }
    assert(prefix_ok(b));
    assert(prefix_big_endian(b) == be);
    assert(b.subrange(0, w.len() as int) =~= w);
    lemma_located(b, 0, w, 4, 4);
    assert(w.subrange(4, 8) =~= wb);
    lemma_u32_read(body_length, be, b, 4);
    lemma_located(b, 0, w, 8, 4);
    assert(w.subrange(8, 12) =~= ws);
    lemma_u32_read(serial, be, b, 8);
    // The field array.
    assert forall|i: int| 0 <= i < header_entries(fs).len() implies type_of(#[trigger] header_entries(fs)[i])
        == TypeSpec::Struct(seq![TypeSpec::Byte, TypeSpec::Variant]) && value_ok(header_entries(fs)[i]) by {
        lemma_entry_ok(fs[i]);
    }
    assert(value_ok(av));
    lemma_located(b, 0, w, 12, a.len() as int);
    assert(w.subrange(12, (12 + a.len()) as int) =~= a);
    lemma_value_read(av, 12, be, b);
    assert(type_of(av) == crate::header::header_array_type());
    lemma_entries_fields(fs);
    let q: int = (12 + a.len()) as int;
    let pad = pad_len(q, 8);
    lemma_zeros_len(pad);
    assert(w.len() == q + pad);
    assert(align_at(b, q, 8) == Ok::<int, DecErr>(q + pad));
    assert(mt.code_spec() == b[1]);
    match r {
        Ok((h, n)) => {
            assert(h.message_type.code_spec() == mt.code_spec());
        },
        Err(_) => {},
    }
}

// ---------------------------------------------------------------------------
// Messages
// ---------------------------------------------------------------------------

proof fn lemma_first_none(fs: Seq<FieldSpec>, code: u8)
    requires
        forall|i: int| 0 <= i < fs.len() ==> (#[trigger] fs[i]).code() != code,
    ensures
        crate::header::first_with_code(fs, code) is None,
    decreases fs.len(),
{
    if fs.len() > 0 {
        assert forall|i: int| 0 <= i < fs.drop_first().len() implies (#[trigger] fs.drop_first()[i]).code() != code by {
            assert(fs.drop_first()[i] == fs[i + 1]);
        }
        lemma_first_none(fs.drop_first(), code);
    }
}

proof fn lemma_first_append(a: Seq<FieldSpec>, b: Seq<FieldSpec>, code: u8)
    requires
        forall|i: int| 0 <= i < a.len() ==> (#[trigger] a[i]).code() != code,
    ensures
        crate::header::first_with_code(a + b, code) == crate::header::first_with_code(b, code),
    decreases a.len(),
{
    if a.len() > 0 {
        assert((a + b).drop_first() =~= a.drop_first() + b);
        assert((a + b)[0] == a[0]);
        assert forall|i: int| 0 <= i < a.drop_first().len() implies (#[trigger] a.drop_first()[i]).code() != code by {
            assert(a.drop_first()[i] == a[i + 1]);
        }
        lemma_first_append(a.drop_first(), b, code);
    } else {
        assert(a + b =~= b);
    }
}

/// The fields kept apart from the body's are fields of the header, and no
/// signature or fd count.
proof fn lemma_without_body_fields(fs: Seq<FieldSpec>)
    ensures
        forall|i: int| 0 <= i < without_body_fields(fs).len() ==> {
            let f = #[trigger] without_body_fields(fs)[i];
            &&& !(f is Signature || f is UnixFds)
            &&& exists|j: int| 0 <= j < fs.len() && fs[j] == f
        },
    decreases fs.len(),
{
    if fs.len() > 0 {
        let init = fs.drop_last();
        lemma_without_body_fields(init);
        let w = without_body_fields(fs);
        let wi = without_body_fields(init);
        assert forall|i: int| 0 <= i < w.len() implies {
            let f = #[trigger] w[i];
            &&& !(f is Signature || f is UnixFds)
            &&& exists|j: int| 0 <= j < fs.len() && fs[j] == f
        } by {
            if i < wi.len() {
                assert(w[i] == wi[i]);
                let j = choose|j: int| 0 <= j < init.len() && init[j] == wi[i];
                assert(fs[j] == init[j]);
            } else {
                assert(w[i] == fs.last());
                assert(fs[fs.len() - 1] == w[i]);
            }
        }
    }
}

proof fn lemma_sigs_empty(ts: Seq<TypeSpec>)
    requires
        sigs_of(ts).len() == 0,
    ensures
        ts.len() == 0,
{
    if ts.len() > 0 {
        let t = ts[ts.len() - 1];
        assert(sig_of(t).len() > 0) by {
            match t {
                TypeSpec::Array(_) => {},
                TypeSpec::Struct(_) => {},
                TypeSpec::DictEntry(_, _) => {},
                _ => {},
            }
        }
    }
}

proof fn lemma_message_shape(h: MessageHeader, body: Seq<ValueSpec>, nfds: nat)
    requires
        crate::message::message_bytes(h, body, nfds) is Some,
        h.protocol_version == 1,
    ensures
        enc_seq(body, 0, h.big_endian) is Ok,
        written_header(
            h.message_type,
            h.flags,
            1,
            enc_seq(body, 0, h.big_endian)->Ok_0.len() as u32,
            h.serial,
            finished_fields(h.fields_spec(), sigs_of(types_of(body)), nfds),
            h.big_endian,
        ) is Ok,
        crate::message::message_bytes(h, body, nfds)->Some_0 == written_header(
            h.message_type,
            h.flags,
            1,
            enc_seq(body, 0, h.big_endian)->Ok_0.len() as u32,
            h.serial,
            finished_fields(h.fields_spec(), sigs_of(types_of(body)), nfds),
            h.big_endian,
        )->Ok_0 + enc_seq(body, 0, h.big_endian)->Ok_0,
        sigs_of(types_of(body)).len() > 0 ==> valid_signature(sigs_of(types_of(body))),
{
}

proof fn lemma_finished_ok(fs0: Seq<FieldSpec>, sig: Seq<char>, nfds: nat)
    requires
        forall|i: int| 0 <= i < fs0.len() ==> field_ok(#[trigger] fs0[i]),
        sig.len() > 0 ==> valid_signature(sig),
    ensures
        forall|i: int| 0 <= i < finished_fields(fs0, sig, nfds).len() ==> field_ok(#[trigger] finished_fields(fs0, sig, nfds)[i]),
        crate::header::text_field(finished_fields(fs0, sig, nfds), 8) == if sig.len() > 0 {
            Some(sig)
        } else {
            None::<Seq<char>>
        },
{
    let fs = finished_fields(fs0, sig, nfds);
    lemma_without_body_fields(fs0);
    let a = without_body_fields(fs0);
    assert forall|i: int| 0 <= i < fs.len() implies field_ok(#[trigger] fs[i]) by {
        if i < a.len() {
            assert(fs[i] == a[i]);
            let j = choose|j: int| 0 <= j < fs0.len() && fs0[j] == a[i];
            assert(field_ok(fs0[j]));
        }
    }
    let tail = fs.skip(a.len() as int);
    assert(fs =~= a + tail);
    assert forall|i: int| 0 <= i < a.len() implies (#[trigger] a[i]).code() != 8 by {}
    lemma_first_append(a, tail, 8);
    if sig.len() > 0 {
        assert(tail[0] == FieldSpec::Signature(sig));
        assert(crate::header::first_with_code(tail, 8) == Some(FieldSpec::Signature(sig)));
    } else {
        if nfds > 0 {
            assert(tail =~= seq![FieldSpec::UnixFds(nfds as u32)]);
            assert(tail.drop_first() =~= Seq::<FieldSpec>::empty());
            assert(crate::header::first_with_code(tail.drop_first(), 8) is None);
        } else {
            assert(tail =~= Seq::<FieldSpec>::empty());
        }
        assert(crate::header::first_with_code(tail, 8) is None);
    }
}

proof fn lemma_body_back(
    body: Seq<ValueSpec>,
    be: bool,
    sig_read: Option<Seq<char>>,
    bb: Seq<u8>,
    r_body: Result<Vec<crate::types::Value>, crate::error::CoreError>,
)
    requires
        enc_seq(body, 0, be) == Ok::<Seq<u8>, EncErr>(bb),
        forall|i: int| 0 <= i < body.len() ==> value_ok(#[trigger] body[i]),
        sig_read == if sigs_of(types_of(body)).len() > 0 {
            Some(sigs_of(types_of(body)))
        } else {
            None::<Seq<char>>
        },
        sigs_of(types_of(body)).len() > 0 ==> valid_signature(sigs_of(types_of(body))),
        sigs_of(types_of(body)).len() > 0 ==> sig_parse(sigs_of(types_of(body))) == Ok::<
            Seq<TypeSpec>,
            crate::signature::SigErr,
        >(types_of(body)),
        ({
            let sig = match sig_read {
                Some(s) => s,
                None => Seq::empty(),
            };
            if sig.len() == 0 {
                r_body matches Ok(v) && v@.len() == 0
            } else {
                crate::unmarshal::body_outcome(bb, sig, be, r_body)
            }
        }),
    ensures
        r_body matches Ok(v) && crate::types::values_view(v@) == body,
{
    broadcast use vstd::utf8::group_utf8_lib;

    let sig = sigs_of(types_of(body));
    if sig.len() > 0 {
        assert(vstd::utf8::is_ascii_chars(sig));
        vstd::utf8::is_ascii_chars_encode_utf8(sig);
        body_reads_back(body, be);
    } else {
        lemma_sigs_empty(types_of(body));
        assert(body =~= Seq::<ValueSpec>::empty());
        match r_body {
            Ok(v) => {
                crate::types::lemma_values_view(v@);
                assert(crate::types::values_view(v@) =~= body);
            },
            Err(_) => {},
        }
    }
}

/// A message that `to_bytes` writes (protocol version 1, header fields and
/// body values that read back, a body signature that reads back as the
/// body's types, a body within the 32-bit length) is read back by
/// `from_bytes`: the header with the fields it was written with, and the
/// body.
#[verifier::spinoff_prover]
#[verifier::rlimit(40)]
pub proof fn message_reads_back(
    h: MessageHeader,
    body: Seq<ValueSpec>,
    nfds: nat,
    r_header: Result<(MessageHeader, usize), crate::error::CoreError>,
    r_body: Result<Vec<crate::types::Value>, crate::error::CoreError>,
)
    requires
        crate::message::message_bytes(h, body, nfds) is Some,
        h.protocol_version == 1,
        forall|i: int| 0 <= i < h.fields_spec().len() ==> field_ok(#[trigger] h.fields_spec()[i]),
        forall|i: int| 0 <= i < body.len() ==> value_ok(#[trigger] body[i]),
        sigs_of(types_of(body)).len() > 0 ==> sig_parse(sigs_of(types_of(body))) == Ok::<
            Seq<TypeSpec>,
            crate::signature::SigErr,
        >(types_of(body)),
        enc_seq(body, 0, h.big_endian)->Ok_0.len() <= u32::MAX,
        header_read_outcome(crate::message::message_bytes(h, body, nfds)->Some_0, r_header),
        r_header matches Ok((h2, n)) ==> crate::message::body_matches(
            crate::message::message_bytes(h, body, nfds)->Some_0,
            n as int,
            h2,
            r_body,
        ),
    ensures
        r_header matches Ok((h2, n)) && h2.message_type == h.message_type && h2.flags == h.flags
            && h2.serial == h.serial && h2.big_endian == h.big_endian && h2.fields_spec()
            == finished_fields(h.fields_spec(), sigs_of(types_of(body)), nfds) && h2.body_length
            == enc_seq(body, 0, h.big_endian)->Ok_0.len(),
        r_body matches Ok(v) && crate::types::values_view(v@) == body,
{
    let be = h.big_endian;
    lemma_message_shape(h, body, nfds);
    let bb = enc_seq(body, 0, be)->Ok_0;
    let sig = sigs_of(types_of(body));
    let fs = finished_fields(h.fields_spec(), sig, nfds);
    let w = written_header(h.message_type, h.flags, 1, bb.len() as u32, h.serial, fs, be)->Ok_0;
    let bytes = crate::message::message_bytes(h, body, nfds)->Some_0;
    lemma_finished_ok(h.fields_spec(), sig, nfds);
    header_reads_back(h.message_type, h.flags, bb.len() as u32, h.serial, fs, be, bb, r_header);
    let n = w.len();
    assert(bytes.subrange(n as int, (n + bb.len()) as int) =~= bb);
    lemma_body_back(body, be, crate::header::text_field(fs, 8), bb, r_body);
}

} // verus!
