//! The calls a client makes on a remote object: the message each call
//! sends, with the unix fds among its arguments handed over beside the
//! body, and what is read back out of the replies.

use crate::header::FieldSpec;
use crate::message::{Message, MessageBuilder};
use crate::types::{values_view, ArrayValue, Value, ValueSpec};
use vstd::prelude::*;

verus! {

broadcast use crate::types::lemma_values_view;

/// The raw fds that a value carries, in the order a depth-first walk
/// meets them.
pub open spec fn fds_of(v: ValueSpec) -> Seq<i32>
    decreases v,
{
    match v {
        ValueSpec::UnixFd(f) => seq![f as i32],
        ValueSpec::Array(_, es) => fds_of_all(es),
        ValueSpec::Struct(fs) => fds_of_all(fs),
        ValueSpec::DictEntry(k, x) => fds_of(*k) + fds_of(*x),
        ValueSpec::Variant(inner) => fds_of(*inner),
        _ => Seq::empty(),
    }
}

/// The raw fds that the values `vs` carry, one value after the other.
pub open spec fn fds_of_all(vs: Seq<ValueSpec>) -> Seq<i32>
    decreases vs,
{
    if vs.len() == 0 {
        Seq::empty()
    } else {
        fds_of_all(vs.subrange(0, vs.len() - 1)) + fds_of(vs[vs.len() - 1])
    }
}

/// `v` with each fd replaced by its index among the fds handed over,
/// where the first fd that `v` carries gets index `start`.
pub open spec fn with_fd_indices(v: ValueSpec, start: int) -> ValueSpec
    decreases v,
{
    match v {
        ValueSpec::UnixFd(_) => ValueSpec::UnixFd(start as u32),
        ValueSpec::Array(t, es) => ValueSpec::Array(t, all_with_fd_indices(es, start)),
        ValueSpec::Struct(fs) => ValueSpec::Struct(all_with_fd_indices(fs, start)),
        ValueSpec::DictEntry(k, x) => ValueSpec::DictEntry(
            Box::new(with_fd_indices(*k, start)),
            Box::new(with_fd_indices(*x, start + fds_of(*k).len())),
        ),
        ValueSpec::Variant(inner) => ValueSpec::Variant(Box::new(with_fd_indices(*inner, start))),
        _ => v,
    }
}

/// The values `vs` with each fd replaced by its index, numbering on from
/// `start` across the values.
pub open spec fn all_with_fd_indices(vs: Seq<ValueSpec>, start: int) -> Seq<ValueSpec>
    decreases vs,
{
    if vs.len() == 0 {
        Seq::empty()
    } else {
        let front = vs.subrange(0, vs.len() - 1);
        all_with_fd_indices(front, start).push(
            with_fd_indices(vs[vs.len() - 1], start + fds_of_all(front).len()),
        )
    }
}

proof fn lemma_fds_step(vs: Seq<ValueSpec>, i: int, start: int)
    requires
        0 <= i < vs.len(),
    ensures
        fds_of_all(vs.take(i + 1)) == fds_of_all(vs.take(i)) + fds_of(vs[i]),
        all_with_fd_indices(vs.take(i + 1), start) == all_with_fd_indices(vs.take(i), start).push(
            with_fd_indices(vs[i], start + fds_of_all(vs.take(i)).len()),
        ),
{
    let t = vs.take(i + 1);
    assert(t.subrange(0, t.len() - 1) =~= vs.take(i));
    assert(t[t.len() - 1] == vs[i]);
}

/// A copy of `v` with each fd it carries appended to `fds` and replaced
/// by its index there.
fn walk(v: &Value, fds: &mut Vec<i32>) -> (r: Value)
    ensures
        final(fds)@ == old(fds)@ + fds_of(v@),
        r@ == with_fd_indices(v@, old(fds)@.len() as int),
    decreases v,
{
    let ghost before = fds@;
    match v {
        Value::UnixFd(f) => {
            let idx = fds.len() as u32;
            fds.push(*f as i32);
            assert(fds@ =~= before + seq![*f as i32]);
            Value::UnixFd(idx)
        },
        Value::Array(a) => {
            proof {
                assert(decreases_to!(*v => v->Array_0));
                assert(decreases_to!(v->Array_0 => v->Array_0.elements));
            }
            let elems = extract_fds(&a.elements, fds);
            Value::Array(ArrayValue { element_type: a.element_type.duplicate(), elements: elems })
        },
        Value::Struct(fs) => {
            proof {
                assert(decreases_to!(*v => v->Struct_0));
            }
            Value::Struct(extract_fds(fs, fds))
        },
        Value::DictEntry(k, x) => {
            let k2 = walk(k, fds);
            let ghost mid = fds@;
            let x2 = walk(x, fds);
            assert(fds@ =~= before + (fds_of(k@) + fds_of(x@)));
            Value::DictEntry(Box::new(k2), Box::new(x2))
        },
        Value::Variant(inner) => Value::Variant(Box::new(walk(inner, fds))),
        Value::Byte(b) => {
            assert(fds@ =~= before + fds_of(v@));
            Value::Byte(*b)
        },
        Value::Boolean(b) => {
            assert(fds@ =~= before + fds_of(v@));
            Value::Boolean(*b)
        },
        Value::Int16(n) => {
            assert(fds@ =~= before + fds_of(v@));
            Value::Int16(*n)
        },
        Value::UInt16(n) => {
            assert(fds@ =~= before + fds_of(v@));
            Value::UInt16(*n)
        },
        Value::Int32(n) => {
            assert(fds@ =~= before + fds_of(v@));
            Value::Int32(*n)
        },
        Value::UInt32(n) => {
            assert(fds@ =~= before + fds_of(v@));
            Value::UInt32(*n)
        },
        Value::Int64(n) => {
            assert(fds@ =~= before + fds_of(v@));
            Value::Int64(*n)
        },
        Value::UInt64(n) => {
            assert(fds@ =~= before + fds_of(v@));
            Value::UInt64(*n)
        },
        Value::Double(n) => {
            assert(fds@ =~= before + fds_of(v@));
            Value::Double(*n)
        },
        Value::String(s) => {
            assert(fds@ =~= before + fds_of(v@));
            Value::String(s.clone())
        },
        Value::ObjectPath(p) => {
            assert(fds@ =~= before + fds_of(v@));
            Value::ObjectPath(p.duplicate())
        },
        Value::Signature(s) => {
            assert(fds@ =~= before + fds_of(v@));
            Value::Signature(s.duplicate())
        },
    }
}

/// Copies of `values` with each unix fd among them (at any depth)
/// appended to `fds` and replaced by its index there, in the order a
/// depth-first walk meets them: the fds go beside the body, and the
/// body refers to them by index.
pub fn extract_fds(values: &Vec<Value>, fds: &mut Vec<i32>) -> (r: Vec<Value>)
    ensures
        final(fds)@ == old(fds)@ + fds_of_all(values_view(values@)),
        values_view(r@) == all_with_fd_indices(values_view(values@), old(fds)@.len() as int),
    decreases values,
{
    let ghost start = fds@.len() as int;
    let ghost vs = values_view(values@);
    let ghost first = fds@;
    let mut out: Vec<Value> = Vec::new();
    assert(vs.take(0) =~= Seq::<ValueSpec>::empty());
    assert(values_view(out@) =~= Seq::<ValueSpec>::empty());
    assert(fds@ =~= first + fds_of_all(vs.take(0)));
    let mut i: usize = 0;
    while i < values.len()
        invariant
            i <= values@.len(),
            vs == values_view(values@),
            vs.len() == values@.len(),
            forall|j: int| 0 <= j < vs.len() ==> #[trigger] vs[j] == values@[j]@,
            start == first.len(),
            fds@ == first + fds_of_all(vs.take(i as int)),
            values_view(out@) == all_with_fd_indices(vs.take(i as int), start),
        decreases values.len() - i,
    {
        proof {
            assert(decreases_to!(*values => values@));
            assert(decreases_to!(values@ => values@[i as int]));
            lemma_fds_step(vs, i as int, start);
        }
        let ghost out_before = out@;
        let r = walk(&values[i], fds);
        out.push(r);
        proof {
            assert(out@.drop_last() =~= out_before);
            crate::types::lemma_values_view(out@);
            crate::types::lemma_values_view(out_before);
            assert(values_view(out@) =~= values_view(out_before).push(r@));
        }
        i = i + 1;
    }
    assert(vs.take(i as int) =~= vs);
    out
}

} // verus!
