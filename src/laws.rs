//! Properties of decoding, proved over the spec decoder that the engine's
//! contracts are stated with.
use vstd::prelude::*;
use crate::decode::{
    count_of, decode_field, decode_fields, decode_primitives, decode_record, decode_records,
    field_error, first_zero, lemma_fields_err_persists, lemma_first_zero,
};
use crate::layout::{Decoded, FieldKind, RecordLayout};
use crate::primitive::{Primitive, spec_parse_primitive};

verus! {

broadcast use vstd::std_specs::vec::group_vec_axioms;

/// Where `first_zero` finds a position, the byte there is zero and none
/// before it is; where it finds none, no byte is zero.
pub proof fn lemma_first_zero_found(s: Seq<u8>)
    ensures
        match first_zero(s) {
            Some(k) => k < s.len() && s[k as int] == 0 && forall|j: int| 0 <= j < k ==> s[j] != 0,
            None => forall|j: int| 0 <= j < s.len() ==> s[j] != 0,
        },
    decreases s.len(),
{
    if s.len() > 0 {
        lemma_first_zero_found(s.drop_first());
        if s[0] != 0 {
            match first_zero(s.drop_first()) {
                Some(k) => {
                    assert forall|j: int| 0 <= j < k + 1 implies s[j] != 0 by {
                        if j > 0 {
                            assert(s[j] == s.drop_first()[j - 1]);
                        }
                    }
                },
                None => {
                    assert forall|j: int| 0 <= j < s.len() implies s[j] != 0 by {
                        if j > 0 {
                            assert(s[j] == s.drop_first()[j - 1]);
                        }
                    }
                },
            }
        }
    }
}

/// A run of `n` scalars consumes exactly `n` widths, never more than there is.
pub proof fn lemma_primitives_consumed(p: Primitive, n: nat, s: Seq<u8>)
    ensures
        decode_primitives(p, n, s) matches Some((vs, c)) ==> vs.len() == n && c == n * p.width()
            && c <= s.len(),
    decreases n,
{
    if n > 0 {
        lemma_primitives_consumed(p, (n - 1) as nat, s);
        let w = p.width();
        assert((n - 1) * w + w == n * w) by (nonlinear_arith);
    }
}

/// Decoding the first `k` fields never consumes more bytes than there are.
pub proof fn lemma_fields_bound(layout: RecordLayout, s: Seq<u8>, k: nat)
    ensures
        decode_fields(layout, s, k) matches Ok((_, c)) ==> c <= s.len(),
    decreases layout, 0nat, k,
{
    if k > 0 {
        lemma_fields_bound(layout, s, (k - 1) as nat);
        if let Ok((vals, used)) = decode_fields(layout, s, (k - 1) as nat) {
            lemma_field_bound(layout, (k - 1) as nat, vals, s.skip(used as int));
        }
    }
}

/// Decoding one field never consumes more bytes than there are.
pub proof fn lemma_field_bound(layout: RecordLayout, i: nat, vals: Seq<Decoded>, s: Seq<u8>)
    ensures
        decode_field(layout, i, vals, s) matches Ok((_, c)) ==> c <= s.len(),
    decreases layout, 0nat, i,
{
    if i < layout.fields.len() {
        match layout.fields[i as int].kind {
            FieldKind::BytesVecNullTerm => lemma_first_zero_found(s),
            FieldKind::PrimitiveVec(j, p) => lemma_primitives_consumed(p, count_of(vals, j), s),
            FieldKind::PrimitiveVecLit(n, p) => lemma_primitives_consumed(p, n as nat, s),
            FieldKind::CompositeVec(j, nested) => lemma_records_bound(nested, count_of(vals, j), s),
            FieldKind::CompositeVecLit(n, nested) => lemma_records_bound(nested, n as nat, s),
            FieldKind::Composite(nested) => lemma_fields_bound(nested, s, nested.fields.len() as nat),
            _ => {},
        }
    }
}

/// Decoding `n` records never consumes more bytes than there are.
pub proof fn lemma_records_bound(layout: RecordLayout, n: nat, s: Seq<u8>)
    ensures
        decode_records(layout, n, s) matches Ok((_, c)) ==> c <= s.len(),
    decreases layout, 1nat, n,
{
    if n > 0 {
        lemma_records_bound(layout, (n - 1) as nat, s);
        if let Ok((_, used)) = decode_records(layout, (n - 1) as nat, s) {
            lemma_fields_bound(layout, s.skip(used as int), layout.fields.len() as nat);
        }
    }
}

/// `s` and `t` both hold at least `c` bytes, and their first `c` agree.
pub open spec fn agree(s: Seq<u8>, t: Seq<u8>, c: nat) -> bool {
    c <= s.len() && c <= t.len() && s.take(c as int) == t.take(c as int)
}

proof fn lemma_agree_split(s: Seq<u8>, t: Seq<u8>, a: nat, b: nat)
    requires
        agree(s, t, a + b),
    ensures
        agree(s, t, a),
        agree(s.skip(a as int), t.skip(a as int), b),
{
    assert forall|x: int| 0 <= x < a + b implies s[x] == t[x] by {
        assert(s.take((a + b) as int)[x] == t.take((a + b) as int)[x]);
    }
    assert(s.take(a as int) =~= t.take(a as int));
    assert(s.skip(a as int).take(b as int) =~= t.skip(a as int).take(b as int));
}

proof fn lemma_primitive_agree(p: Primitive, s: Seq<u8>, t: Seq<u8>)
    requires
        agree(s, t, p.width()),
    ensures
        spec_parse_primitive(p, t) == spec_parse_primitive(p, s),
{
}

proof fn lemma_primitives_agree(p: Primitive, n: nat, s: Seq<u8>, t: Seq<u8>)
    requires
        decode_primitives(p, n, s) matches Some((_, c)) && agree(s, t, c),
    ensures
        decode_primitives(p, n, t) == decode_primitives(p, n, s),
    decreases n,
{
    if n > 0 {
        lemma_primitives_consumed(p, (n - 1) as nat, s);
        let (_, used) = decode_primitives(p, (n - 1) as nat, s)->Some_0;
        lemma_agree_split(s, t, used, p.width());
        lemma_primitives_agree(p, (n - 1) as nat, s, t);
        lemma_primitive_agree(p, s.skip(used as int), t.skip(used as int));
    }
}

/// Decoding the first `k` fields gives the same outcome on any input that
/// agrees with `s` on the bytes that decoding `s` consumed.
pub proof fn lemma_fields_agree(layout: RecordLayout, s: Seq<u8>, t: Seq<u8>, k: nat)
    requires
        decode_fields(layout, s, k) matches Ok((_, c)) && agree(s, t, c),
    ensures
        decode_fields(layout, t, k) == decode_fields(layout, s, k),
    decreases layout, 0nat, k,
{
    if k > 0 {
        let (vals, used) = decode_fields(layout, s, (k - 1) as nat)->Ok_0;
        let n = decode_field(layout, (k - 1) as nat, vals, s.skip(used as int))->Ok_0.1;
        lemma_agree_split(s, t, used, n);
        lemma_fields_agree(layout, s, t, (k - 1) as nat);
        lemma_field_agree(layout, (k - 1) as nat, vals, s.skip(used as int), t.skip(used as int));
    }
}

/// Decoding one field gives the same outcome on any input that agrees with
/// `s` on the bytes that decoding it from `s` consumed.
pub proof fn lemma_field_agree(layout: RecordLayout, i: nat, vals: Seq<Decoded>, s: Seq<u8>, t: Seq<u8>)
    requires
        decode_field(layout, i, vals, s) matches Ok((_, c)) && agree(s, t, c),
    ensures
        decode_field(layout, i, vals, t) == decode_field(layout, i, vals, s),
    decreases layout, 0nat, i,
{
    match layout.fields[i as int].kind {
        FieldKind::Value(p) => lemma_primitive_agree(p, s, t),
        FieldKind::BytesVecNullTerm => {
            lemma_first_zero_found(s);
            let k = first_zero(s)->Some_0;
            assert forall|j: int| 0 <= j <= k implies t[j] == s[j] by {
                assert(s.take((k + 1) as int)[j] == t.take((k + 1) as int)[j]);
            }
            lemma_first_zero(t, k);
            assert(s.take(k as int) =~= t.take(k as int));
        },
        FieldKind::PrimitiveVec(j, p) => lemma_primitives_agree(p, count_of(vals, j), s, t),
        FieldKind::PrimitiveVecLit(n, p) => lemma_primitives_agree(p, n as nat, s, t),
        FieldKind::CompositeVec(j, nested) => lemma_records_agree(nested, count_of(vals, j), s, t),
        FieldKind::CompositeVecLit(n, nested) => lemma_records_agree(nested, n as nat, s, t),
        FieldKind::Composite(nested) => lemma_fields_agree(nested, s, t, nested.fields.len() as nat),
        _ => {},
    }
}

/// Decoding `n` records gives the same outcome on any input that agrees
/// with `s` on the bytes that decoding them from `s` consumed.
pub proof fn lemma_records_agree(layout: RecordLayout, n: nat, s: Seq<u8>, t: Seq<u8>)
    requires
        decode_records(layout, n, s) matches Ok((_, c)) && agree(s, t, c),
    ensures
        decode_records(layout, n, t) == decode_records(layout, n, s),
    decreases layout, 1nat, n,
{
    if n > 0 {
        let (_, used) = decode_records(layout, (n - 1) as nat, s)->Ok_0;
        let c = decode_fields(layout, s.skip(used as int), layout.fields.len() as nat)->Ok_0.1;
        lemma_agree_split(s, t, used, c);
        lemma_records_agree(layout, (n - 1) as nat, s, t);
        lemma_fields_agree(layout, s.skip(used as int), t.skip(used as int), layout.fields.len() as nat);
    }
}

proof fn lemma_fields_count(layout: RecordLayout, s: Seq<u8>, k: nat)
    ensures
        decode_fields(layout, s, k) matches Ok((vals, _)) ==> vals.len() == k,
    decreases k,
{
    if k > 0 {
        lemma_fields_count(layout, s, (k - 1) as nat);
    }
}

/// The fields before field `i` decode, and field `i` is what
/// `decode_field` makes of the bytes that follow them.
proof fn lemma_field_of_record(layout: RecordLayout, s: Seq<u8>, k: nat, i: nat)
    requires
        decode_fields(layout, s, k) is Ok,
        i < k,
    ensures
        decode_fields(layout, s, i) matches Ok((before, used)) && decode_field(
            layout,
            i,
            before,
            s.skip(used as int),
        ) matches Ok((v, _)) && decode_fields(layout, s, k)->Ok_0.0[i as int] == v && before
            == decode_fields(layout, s, k)->Ok_0.0.take(i as int),
        decode_fields(layout, s, k)->Ok_0.0.len() == k,
    decreases k,
{
    let vals = decode_fields(layout, s, (k - 1) as nat)->Ok_0.0;
    let all = decode_fields(layout, s, k)->Ok_0.0;
    lemma_fields_count(layout, s, (k - 1) as nat);
    lemma_fields_count(layout, s, k);
    if k == i + 1 {
        assert(all.take(i as int) =~= vals);
    } else {
        lemma_field_of_record(layout, s, (k - 1) as nat, i);
        assert(all.take(i as int) =~= vals.take(i as int));
    }
}

proof fn lemma_records_count(layout: RecordLayout, n: nat, s: Seq<u8>)
    ensures
        decode_records(layout, n, s) matches Ok((rs, _)) ==> rs.len() == n,
    decreases n,
{
    if n > 0 {
        lemma_records_count(layout, (n - 1) as nat, s);
    }
}

/// How many elements a decoded sequence field holds.
pub open spec fn element_count(d: Decoded) -> nat {
    match d {
        Decoded::Bytes(b) => b.len(),
        Decoded::Scalars(v) => v.len(),
        Decoded::Records(r) => r.len(),
        _ => 0,
    }
}

/// A record decoded from the front of `s` decodes the same from exactly the
/// bytes it consumed, and there it consumes the whole input.
pub proof fn lemma_exact_input_fully_consumed(layout: RecordLayout, s: Seq<u8>)
    requires
        decode_record(layout, s) is Ok,
    ensures
        decode_record(layout, s)->Ok_0.1 <= s.len(),
        decode_record(layout, s.take(decode_record(layout, s)->Ok_0.1 as int)) == decode_record(
            layout,
            s,
        ),
{
    let c = decode_record(layout, s)->Ok_0.1;
    lemma_fields_bound(layout, s, layout.fields.len() as nat);
    assert(s.take(c as int).take(c as int) =~= s.take(c as int));
    lemma_fields_agree(layout, s, s.take(c as int), layout.fields.len() as nat);
}

/// Decoding is a function of the bytes it consumes: any input that agrees
/// with `s` on those bytes yields the same field values and the same
/// consumed length.
pub proof fn lemma_decoding_deterministic(layout: RecordLayout, s: Seq<u8>, t: Seq<u8>)
    requires
        decode_record(layout, s) matches Ok((_, c)) && c <= t.len() && s.take(c as int) == t.take(
            c as int,
        ),
    ensures
        decode_record(layout, t) == decode_record(layout, s),
{
    lemma_fields_bound(layout, s, layout.fields.len() as nat);
    lemma_fields_agree(layout, s, t, layout.fields.len() as nat);
}

/// In a decoded record, a field whose length or count comes from a sibling
/// holds exactly as many elements as that sibling's decoded value.
pub proof fn lemma_count_driven_length(layout: RecordLayout, s: Seq<u8>, i: nat)
    requires
        layout.wf(),
        decode_record(layout, s) is Ok,
        i < layout.fields.len(),
        layout.fields[i as int].kind.sibling() is Some,
    ensures
        ({
            let vals = decode_record(layout, s)->Ok_0.0;
            let j = layout.fields[i as int].kind.sibling()->Some_0;
            element_count(vals[i as int]) == count_of(vals, j)
        }),
{
    let vals = decode_record(layout, s)->Ok_0.0;
    lemma_field_of_record(layout, s, layout.fields.len() as nat, i);
    let (before, used) = decode_fields(layout, s, i)->Ok_0;
    let rest = s.skip(used as int);
    let j = layout.fields[i as int].kind.sibling()->Some_0;
    assert((i as int) < layout.fields.len() && (layout.fields[i as int]).kind.sibling() == Some(j));
    assert(before[j as int] == vals[j as int]);
    match layout.fields[i as int].kind {
        FieldKind::PrimitiveVec(_, p) => lemma_primitives_consumed(p, count_of(vals, j), rest),
        FieldKind::CompositeVec(_, nested) => lemma_records_count(nested, count_of(vals, j), rest),
        _ => {},
    }
}

/// A field whose sibling count is zero decodes, from any input, to an empty
/// sequence and consumes nothing.
pub proof fn lemma_zero_count_is_empty(layout: RecordLayout, i: nat, vals: Seq<Decoded>, s: Seq<u8>)
    requires
        i < layout.fields.len(),
        layout.fields[i as int].kind.sibling() matches Some(j) && count_of(vals, j) == 0,
    ensures
        decode_field(layout, i, vals, s) matches Ok((v, c)) && c == 0 && element_count(v) == 0,
{
}

/// A null-terminated field keeps the bytes before the first zero byte and
/// consumes that zero too; with no zero byte in the input it fails, naming
/// the field.
pub proof fn lemma_null_terminated_field(layout: RecordLayout, i: nat, vals: Seq<Decoded>, s: Seq<u8>)
    requires
        i < layout.fields.len(),
        layout.fields[i as int].kind is BytesVecNullTerm,
    ensures
        (forall|j: int| 0 <= j < s.len() ==> s[j] != 0) ==> decode_field(layout, i, vals, s) == Err::<(Decoded, nat), _>(
            field_error(layout, i as int),
        ),
        forall|k: nat|
            k < s.len() && s[k as int] == 0 && (forall|j: int| 0 <= j < k ==> s[j] != 0)
                ==> decode_field(layout, i, vals, s) == Ok::<_, crate::error::ErrorView>(
                (Decoded::Bytes(s.take(k as int)), k + 1),
            ),
{
    lemma_first_zero_found(s);
    assert forall|k: nat|
        k < s.len() && s[k as int] == 0 && (forall|j: int| 0 <= j < k ==> s[j] != 0) implies decode_field(
        layout,
        i,
        vals,
        s,
    ) == Ok::<_, crate::error::ErrorView>((Decoded::Bytes(s.take(k as int)), k + 1)) by {
        lemma_first_zero(s, k);
    }
}

/// The bytes that field `i` needs when its size is known before reading it.
pub open spec fn bytes_needed(kind: FieldKind, vals: Seq<Decoded>) -> Option<nat> {
    match kind {
        FieldKind::Value(p) => Some(p.width()),
        FieldKind::BytesVec(j) => Some(count_of(vals, j)),
        FieldKind::BytesVecLit(n) => Some(n as nat),
        FieldKind::PrimitiveVec(j, p) => Some(count_of(vals, j) * p.width()),
        FieldKind::PrimitiveVecLit(n, p) => Some(n as nat * p.width()),
        _ => None,
    }
}

/// When the fields before field `i` decode and fewer bytes remain than
/// field `i` needs, decoding the record fails naming field `i`.
pub proof fn lemma_truncated_input_names_field(layout: RecordLayout, s: Seq<u8>, i: nat)
    requires
        i < layout.fields.len(),
        decode_fields(layout, s, i) matches Ok((vals, used)) && bytes_needed(
            layout.fields[i as int].kind,
            vals,
        ) matches Some(m) && s.len() < used + m,
    ensures
        decode_record(layout, s) == Err::<(Seq<Decoded>, nat), _>(field_error(layout, i as int)),
{
    let (vals, used) = decode_fields(layout, s, i)->Ok_0;
    let rest = s.skip(used as int);
    lemma_fields_bound(layout, s, i);
    assert(rest.len() == s.len() - used);
    match layout.fields[i as int].kind {
        FieldKind::PrimitiveVec(j, p) => lemma_primitives_consumed(p, count_of(vals, j), rest),
        FieldKind::PrimitiveVecLit(n, p) => lemma_primitives_consumed(p, n as nat, rest),
        _ => {},
    }
    assert(decode_field(layout, i, vals, rest) == Err::<(Decoded, nat), _>(field_error(layout, i as int)));
    lemma_fields_err_persists(layout, s, i + 1, layout.fields.len() as nat);
}

/// Decoding stops at the first field that fails: the record's error is that
/// field's error, whatever follows it.
pub proof fn lemma_first_failure_reported(layout: RecordLayout, s: Seq<u8>, i: nat)
    requires
        i < layout.fields.len(),
        decode_fields(layout, s, i) matches Ok((vals, used)) && decode_field(
            layout,
            i,
            vals,
            s.skip(used as int),
        ) is Err,
    ensures
        ({
            let (vals, used) = decode_fields(layout, s, i)->Ok_0;
            decode_record(layout, s) == Err::<(Seq<Decoded>, nat), _>(
                decode_field(layout, i, vals, s.skip(used as int))->Err_0,
            )
        }),
{
    lemma_fields_err_persists(layout, s, i + 1, layout.fields.len() as nat);
}

} // verus!
