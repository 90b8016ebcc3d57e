//! What decoding a record from the front of a byte sequence yields: the
//! decoded fields and the number of bytes consumed, or the field that failed.
use vstd::prelude::*;
use crate::error::ErrorView;
use crate::layout::{Decoded, FieldKind, RecordLayout};
use crate::primitive::{Primitive, spec_parse_primitive};

verus! {

broadcast use vstd::std_specs::vec::group_vec_axioms;

/// A decoding outcome: the value and the bytes consumed, or the failure.
pub type Outcome<T> = Result<(T, nat), ErrorView>;

/// The error that names field `i` of `layout`.
pub open spec fn field_error(layout: RecordLayout, i: int) -> ErrorView {
    ErrorView { record_type: layout.record_type@, field_name: layout.fields[i].name@ }
}

/// The length or count that the already decoded field `j` holds.
pub open spec fn count_of(vals: Seq<Decoded>, j: usize) -> nat {
    match vals[j as int] {
        Decoded::Scalar(n) => n,
        _ => 0,
    }
}

/// Position of the first zero byte of `s`, if there is one.
pub open spec fn first_zero(s: Seq<u8>) -> Option<nat>
    decreases s.len(),
{
    if s.len() == 0 {
        None
    } else if s[0] == 0 {
        Some(0)
    } else {
        match first_zero(s.drop_first()) {
            Some(k) => Some(k + 1),
            None => None,
        }
    }
}

/// `n` raw bytes from the front of `s`.
pub open spec fn decode_bytes(n: nat, s: Seq<u8>) -> Option<(Seq<u8>, nat)> {
    if n <= s.len() {
        Some((s.take(n as int), n))
    } else {
        None
    }
}

/// Bytes up to the first zero of `s`; the zero is consumed and not kept.
pub open spec fn decode_null_term(s: Seq<u8>) -> Option<(Seq<u8>, nat)> {
    match first_zero(s) {
        Some(k) => Some((s.take(k as int), k + 1)),
        None => None,
    }
}

/// `n` scalars of encoding `p`, one after the other, from the front of `s`.
pub open spec fn decode_primitives(p: Primitive, n: nat, s: Seq<u8>) -> Option<(Seq<nat>, nat)>
    decreases n,
{
    if n == 0 {
        Some((Seq::empty(), 0))
    } else {
        match decode_primitives(p, (n - 1) as nat, s) {
            None => None,
            Some((vs, used)) => match spec_parse_primitive(p, s.skip(used as int)) {
                None => None,
                Some(v) => Some((vs.push(v), used + p.width())),
            },
        }
    }
}

/// The first `k` fields of `layout`, decoded from the front of `s`.
pub open spec fn decode_fields(layout: RecordLayout, s: Seq<u8>, k: nat) -> Outcome<Seq<Decoded>>
    decreases layout, 0nat, k,
{
    if k == 0 {
        Ok((Seq::empty(), 0))
    } else {
        match decode_fields(layout, s, (k - 1) as nat) {
            Err(e) => Err(e),
            Ok((vals, used)) => match decode_field(layout, (k - 1) as nat, vals, s.skip(used as int)) {
                Err(e) => Err(e),
                Ok((v, n)) => Ok((vals.push(v), used + n)),
            },
        }
    }
}

/// A whole record of type `layout`, decoded from the front of `s`.
pub open spec fn decode_record(layout: RecordLayout, s: Seq<u8>) -> Outcome<Seq<Decoded>> {
    decode_fields(layout, s, layout.fields.len() as nat)
}

/// `n` records of type `layout`, one after the other, from the front of `s`.
pub open spec fn decode_records(layout: RecordLayout, n: nat, s: Seq<u8>) -> Outcome<
    Seq<Seq<Decoded>>,
>
    decreases layout, 1nat, n,
{
    if n == 0 {
        Ok((Seq::empty(), 0))
    } else {
        match decode_records(layout, (n - 1) as nat, s) {
            Err(e) => Err(e),
            Ok((rs, used)) => match decode_fields(
                layout,
                s.skip(used as int),
                layout.fields.len() as nat,
            ) {
                Err(e) => Err(e),
                Ok((r, c)) => Ok((rs.push(r), used + c)),
            },
        }
    }
}

/// Field `i` of `layout`, decoded from the front of `s`, where `vals` holds
/// the fields decoded before it.
pub open spec fn decode_field(layout: RecordLayout, i: nat, vals: Seq<Decoded>, s: Seq<u8>) -> Outcome<
    Decoded,
>
    decreases layout, 0nat, i,
{
    if i >= layout.fields.len() {
        Err(field_error(layout, i as int))
    } else {
        let err = field_error(layout, i as int);
        match layout.fields[i as int].kind {
            FieldKind::Value(p) => match spec_parse_primitive(p, s) {
                Some(v) => Ok((Decoded::Scalar(v), p.width())),
                None => Err(err),
            },
            FieldKind::BytesVec(j) => match decode_bytes(count_of(vals, j), s) {
                Some((b, c)) => Ok((Decoded::Bytes(b), c)),
                None => Err(err),
            },
            FieldKind::BytesVecLit(n) => match decode_bytes(n as nat, s) {
                Some((b, c)) => Ok((Decoded::Bytes(b), c)),
                None => Err(err),
            },
            FieldKind::BytesVecNullTerm => match decode_null_term(s) {
                Some((b, c)) => Ok((Decoded::Bytes(b), c)),
                None => Err(err),
            },
            FieldKind::PrimitiveVec(j, p) => match decode_primitives(p, count_of(vals, j), s) {
                Some((vs, c)) => Ok((Decoded::Scalars(vs), c)),
                None => Err(err),
            },
            FieldKind::PrimitiveVecLit(n, p) => match decode_primitives(p, n as nat, s) {
                Some((vs, c)) => Ok((Decoded::Scalars(vs), c)),
                None => Err(err),
            },
            FieldKind::CompositeVec(j, nested) => match decode_records(
                nested,
                count_of(vals, j),
                s,
            ) {
                Ok((rs, c)) => Ok((Decoded::Records(rs), c)),
                Err(e) => Err(e),
            },
            FieldKind::CompositeVecLit(n, nested) => match decode_records(nested, n as nat, s) {
                Ok((rs, c)) => Ok((Decoded::Records(rs), c)),
                Err(e) => Err(e),
            },
            FieldKind::Composite(nested) => match decode_fields(nested, s, nested.fields.len() as nat) {
                Ok((r, c)) => Ok((Decoded::Nested(r), c)),
                Err(e) => Err(e),
            },
        }
    }
}

/// A record that went from `before` to `after` in a decode of `s` that
/// failed at field `i`: the fields before `i` decoded, field `i` did not,
/// the earlier fields hold their decoded values and the others are as they
/// were.
pub open spec fn failed_at(
    layout: RecordLayout,
    s: Seq<u8>,
    i: int,
    before: Seq<Decoded>,
    after: Seq<Decoded>,
) -> bool {
    &&& 0 <= i < layout.fields.len()
    &&& decode_fields(layout, s, i as nat) matches Ok((vals, used)) && decode_field(
        layout,
        i as nat,
        vals,
        s.skip(used as int),
    ) is Err && after.take(i) == vals
    &&& after.skip(i) == before.skip(i)
}

/// Once the first `k1` fields fail, every longer prefix fails the same way.
pub proof fn lemma_fields_err_persists(layout: RecordLayout, s: Seq<u8>, k1: nat, k2: nat)
    requires
        k1 <= k2,
        decode_fields(layout, s, k1) is Err,
    ensures
        decode_fields(layout, s, k2) == decode_fields(layout, s, k1),
    decreases k2,
{
    if k2 > k1 {
        lemma_fields_err_persists(layout, s, k1, (k2 - 1) as nat);
    }
}

/// Once the first `k1` records fail, every longer run fails the same way.
pub proof fn lemma_records_err_persists(layout: RecordLayout, s: Seq<u8>, k1: nat, k2: nat)
    requires
        k1 <= k2,
        decode_records(layout, k1, s) is Err,
    ensures
        decode_records(layout, k2, s) == decode_records(layout, k1, s),
    decreases k2,
{
    if k2 > k1 {
        lemma_records_err_persists(layout, s, k1, (k2 - 1) as nat);
    }
}

/// Once `k1` scalars cannot be read, no longer run can.
pub proof fn lemma_primitives_none_persists(p: Primitive, s: Seq<u8>, k1: nat, k2: nat)
    requires
        k1 <= k2,
        decode_primitives(p, k1, s) is None,
    ensures
        decode_primitives(p, k2, s) is None,
    decreases k2,
{
    if k2 > k1 {
        lemma_primitives_none_persists(p, s, k1, (k2 - 1) as nat);
    }
}

/// `first_zero` is the position of the first zero byte.
pub proof fn lemma_first_zero(s: Seq<u8>, k: nat)
    requires
        k <= s.len(),
        forall|j: int| 0 <= j < k ==> s[j] != 0,
    ensures
        k < s.len() && s[k as int] == 0 ==> first_zero(s) == Some(k),
        k == s.len() ==> first_zero(s) is None,
    decreases k,
{
    if k > 0 {
        lemma_first_zero(s.drop_first(), (k - 1) as nat);
    }
}

} // verus!
