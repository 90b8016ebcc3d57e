//! The decoding engine: threads one cursor through a layout's fields in
//! declaration order, filling a record in place.
use vstd::prelude::*;
use crate::decode::{
    count_of, decode_field, decode_fields, decode_null_term, decode_primitives, decode_record,
    decode_records, failed_at, field_error, lemma_fields_err_persists, lemma_first_zero,
    lemma_primitives_none_persists, lemma_records_err_persists,
};
use crate::error::ByteLayoutParsingError;
use crate::layout::{Decoded, FieldKind, FieldValue, Record, RecordLayout};
use crate::primitive::{Primitive, parse_primitive, take_bytes};

verus! {

broadcast use vstd::std_specs::vec::group_vec_axioms;

/// The mathematical values of a run of decoded records.
pub open spec fn records_view(v: Seq<Record>) -> Seq<Seq<Decoded>> {
    Seq::new(v.len(), |i: int| v[i]@)
}

proof fn lemma_records_value(v: Vec<Record>)
    ensures
        FieldValue::Records(v)@ == Decoded::Records(records_view(v@)),
{
    let d = FieldValue::Records(v)@;
    assert(d->Records_0 =~= records_view(v@));
}

/// Reads `n` scalars of encoding `p` one after the other.
pub fn parse_primitives(p: Primitive, n: usize, input: &[u8]) -> (r: Option<(&[u8], Vec<u32>)>)
    ensures
        match decode_primitives(p, n as nat, input@) {
            Some((vs, c)) => r matches Some((rest, v)) && v@.map_values(|x: u32| x as nat) == vs
                && c <= input@.len() && rest@ == input@.skip(c as int),
            None => r is None,
        },
{
    let mut out: Vec<u32> = Vec::new();
    let mut cur = input;
    let ghost mut used: nat = 0;
    let mut k: usize = 0;
    assert(out@.map_values(|x: u32| x as nat) =~= Seq::<nat>::empty());
    assert(input@.skip(0) =~= input@);
    while k < n
        invariant
            k <= n,
            used <= input@.len(),
            cur@ == input@.skip(used as int),
            decode_primitives(p, k as nat, input@) == Some((out@.map_values(|x: u32| x as nat), used)),
        decreases n - k,
    {
        match parse_primitive(p, cur) {
            Some((rest, x)) => {
                proof {
                    assert(input@.skip(used as int).skip(p.width() as int) =~= input@.skip(
                        (used + p.width()) as int,
                    ));
                    used = used + p.width();
                }
                out.push(x);
                cur = rest;
                k = k + 1;
                assert(out@.map_values(|x: u32| x as nat) =~= decode_primitives(
                    p,
                    (k - 1) as nat,
                    input@,
                ).unwrap().0.push(x as nat));
            },
            None => {
                proof {
                    lemma_primitives_none_persists(p, input@, (k + 1) as nat, n as nat);
                }
                return None;
            },
        }
    }
    Some((cur, out))
}

/// Reads bytes up to the first zero byte; the zero is consumed and not kept.
pub fn parse_null_terminated(input: &[u8]) -> (r: Option<(&[u8], Vec<u8>)>)
    ensures
        match decode_null_term(input@) {
            Some((b, c)) => r matches Some((rest, v)) && v@ == b && c <= input@.len() && rest@
                == input@.skip(c as int),
            None => r is None,
        },
{
    let mut k: usize = 0;
    while k < input.len() && input[k] != 0
        invariant
            k <= input@.len(),
            forall|j: int| 0 <= j < k ==> input@[j] != 0,
        decreases input@.len() - k,
    {
        k = k + 1;
    }
    proof {
        lemma_first_zero(input@, k as nat);
    }
    if k == input.len() {
        return None;
    }
    match take_bytes(input, k) {
        Some((rest, taken)) => {
            let (_, after) = rest.split_at(1);
            assert(after@ =~= input@.skip(k + 1));
            Some((after, taken))
        },
        None => None,
    }
}

impl RecordLayout {
    /// A record of this type with every field at its default: zero for a
    /// scalar, empty for a sequence, a default record for a nested one.
    pub fn default_record(&self) -> (r: Record)
        ensures
            r.fields@.len() == self.fields@.len(),
            r@ == self.default_view(),
        decreases self,
    {
        let mut fields: Vec<FieldValue> = Vec::new();
        let mut i: usize = 0;
        while i < self.fields.len()
            invariant
                i <= self.fields@.len(),
                fields@.len() == i,
                forall|k: int| 0 <= k < i ==> (#[trigger] fields@[k])@ == self.default_field(k),
            decreases self.fields@.len() - i,
        {
            let v = match &self.fields[i].kind {
                FieldKind::Value(_) => FieldValue::Scalar(0),
                FieldKind::BytesVec(_) => FieldValue::Bytes(Vec::new()),
                FieldKind::BytesVecLit(_) => FieldValue::Bytes(Vec::new()),
                FieldKind::BytesVecNullTerm => FieldValue::Bytes(Vec::new()),
                FieldKind::PrimitiveVec(_, _) => FieldValue::Scalars(Vec::new()),
                FieldKind::PrimitiveVecLit(_, _) => FieldValue::Scalars(Vec::new()),
                FieldKind::CompositeVec(_, _) => FieldValue::Records(Vec::new()),
                FieldKind::CompositeVecLit(_, _) => FieldValue::Records(Vec::new()),
                FieldKind::Composite(nested) => {
                    assert(decreases_to!(self => self.fields@[i as int]));
                    FieldValue::Nested(nested.default_record())
                },
            };
            proof {
                let ghost g = v;
                match g {
                    FieldValue::Scalars(x) => {
                        assert(x@.map_values(|y: u32| y as nat) =~= Seq::<nat>::empty());
                    },
                    FieldValue::Records(x) => {
                        lemma_records_value(x);
                        assert(records_view(x@) =~= Seq::<Seq<Decoded>>::empty());
                    },
                    _ => {},
                }
            }
            fields.push(v);
            i = i + 1;
        }
        let r = Record { fields };
        assert(r@ =~= self.default_view());
        r
    }

    /// Whether every sibling reference names an earlier scalar field, in
    /// this layout and in every layout nested in it.
    pub fn is_well_formed(&self) -> (b: bool)
        ensures
            b == self.wf(),
        decreases self,
    {
        let mut i: usize = 0;
        while i < self.fields.len()
            invariant
                i <= self.fields@.len(),
                forall|k: int|
                    0 <= k < i ==> {
                        &&& ((#[trigger] self.fields[k]).kind.sibling() matches Some(j) ==> j < k
                            && self.fields[j as int].kind is Value)
                        &&& match self.fields[k].kind {
                            FieldKind::CompositeVec(_, n) => n.wf(),
                            FieldKind::CompositeVecLit(_, n) => n.wf(),
                            FieldKind::Composite(n) => n.wf(),
                            _ => true,
                        }
                    },
            decreases self.fields@.len() - i,
        {
            proof {
                assert(decreases_to!(self => self.fields@[i as int]));
            }
            let sibling_ok = match &self.fields[i].kind {
                FieldKind::BytesVec(j) => *j < i && matches!(self.fields[*j].kind, FieldKind::Value(_)),
                FieldKind::PrimitiveVec(j, _) => *j < i && matches!(
                    self.fields[*j].kind,
                    FieldKind::Value(_)
                ),
                FieldKind::CompositeVec(j, _) => *j < i && matches!(
                    self.fields[*j].kind,
                    FieldKind::Value(_)
                ),
                _ => true,
            };
            let nested_ok = match &self.fields[i].kind {
                FieldKind::CompositeVec(_, n) => n.is_well_formed(),
                FieldKind::CompositeVecLit(_, n) => n.is_well_formed(),
                FieldKind::Composite(n) => n.is_well_formed(),
                _ => true,
            };
            if !(sibling_ok && nested_ok) {
                return false;
            }
            i = i + 1;
        }
        true
    }

    /// The error that names field `i` of this layout.
    fn field_error(&self, i: usize) -> (e: ByteLayoutParsingError)
        requires
            i < self.fields@.len(),
        ensures
            e@ == field_error(*self, i as int),
    {
        ByteLayoutParsingError {
            record_type: self.record_type.clone(),
            field_name: self.fields[i].name.clone(),
        }
    }

    /// Decodes `n` records of this type one after the other, each into a
    /// freshly defaulted record.
    pub fn parse_records<'a>(&self, n: usize, input: &'a [u8]) -> (r: Result<
        (&'a [u8], Vec<Record>),
        ByteLayoutParsingError,
    >)
        requires
            self.wf(),
        ensures
            match decode_records(*self, n as nat, input@) {
                Ok((rs, c)) => r matches Ok((rest, v)) && records_view(v@) == rs && c
                    <= input@.len() && rest@ == input@.skip(c as int),
                Err(e) => r matches Err(err) && err@ == e,
            },
        decreases self, 2nat,
    {
        let mut out: Vec<Record> = Vec::new();
        let mut cur = input;
        let ghost mut used: nat = 0;
        let mut k: usize = 0;
        assert(records_view(out@) =~= Seq::<Seq<Decoded>>::empty());
        assert(input@.skip(0) =~= input@);
        while k < n
            invariant
                self.wf(),
                k <= n,
                used <= input@.len(),
                cur@ == input@.skip(used as int),
                decode_records(*self, k as nat, input@) == Ok::<_, crate::error::ErrorView>(
                    (records_view(out@), used),
                ),
            decreases n - k,
        {
            let mut other = self.default_record();
            match self.parse_bytes(&mut other, cur) {
                Ok(rest) => {
                    proof {
                        let c = decode_record(*self, cur@)->Ok_0.1;
                        assert(input@.skip(used as int).skip(c as int) =~= input@.skip(
                            (used + c) as int,
                        ));
                        used = used + c;
                    }
                    let ghost prev = records_view(out@);
                    out.push(other);
                    cur = rest;
                    k = k + 1;
                    assert(records_view(out@) =~= prev.push(other@));
                },
                Err(e) => {
                    proof {
                        lemma_records_err_persists(*self, input@, (k + 1) as nat, n as nat);
                    }
                    return Err(e);
                },
            }
        }
        Ok((cur, out))
    }

    /// Decodes field `i` from the front of `input` into `target.fields[i]`,
    /// reading lengths and counts from the fields before it.
    fn parse_field<'a>(&self, i: usize, target: &mut Record, input: &'a [u8]) -> (r: Result<
        &'a [u8],
        ByteLayoutParsingError,
    >)
        requires
            self.wf(),
            i < self.fields@.len(),
            old(target).fields@.len() == self.fields@.len(),
        ensures
            final(target).fields@.len() == self.fields@.len(),
            match decode_field(*self, i as nat, old(target)@.take(i as int), input@) {
                Ok((v, c)) => r matches Ok(rest) && final(target)@ == old(target)@.update(
                    i as int,
                    v,
                ) && c <= input@.len() && rest@ == input@.skip(c as int),
                Err(e) => r matches Err(err) && err@ == e && final(target)@ == old(target)@,
            },
        decreases self, 0nat,
    {
        let ghost vals = target@.take(i as int);
        proof {
            assert(decreases_to!(self => self.fields@[i as int]));
        }
        let (rest, v) = match &self.fields[i].kind {
            FieldKind::Value(p) => match parse_primitive(*p, input) {
                Some((rest, x)) => (rest, FieldValue::Scalar(x)),
                None => return Err(self.field_error(i)),
            },
            FieldKind::BytesVec(j) => {
                let n = self.count_at(target, *j, i);
                match take_bytes(input, n) {
                    Some((rest, b)) => (rest, FieldValue::Bytes(b)),
                    None => return Err(self.field_error(i)),
                }
            },
            FieldKind::BytesVecLit(n) => match take_bytes(input, *n) {
                Some((rest, b)) => (rest, FieldValue::Bytes(b)),
                None => return Err(self.field_error(i)),
            },
            FieldKind::BytesVecNullTerm => match parse_null_terminated(input) {
                Some((rest, b)) => (rest, FieldValue::Bytes(b)),
                None => return Err(self.field_error(i)),
            },
            FieldKind::PrimitiveVec(j, p) => {
                let n = self.count_at(target, *j, i);
                match parse_primitives(*p, n, input) {
                    Some((rest, xs)) => (rest, FieldValue::Scalars(xs)),
                    None => return Err(self.field_error(i)),
                }
            },
            FieldKind::PrimitiveVecLit(n, p) => match parse_primitives(*p, *n, input) {
                Some((rest, xs)) => (rest, FieldValue::Scalars(xs)),
                None => return Err(self.field_error(i)),
            },
            FieldKind::CompositeVec(j, nested) => {
                let n = self.count_at(target, *j, i);
                match nested.parse_records(n, input) {
                    Ok((rest, rs)) => {
                        proof {
                            lemma_records_value(rs);
                        }
                        (rest, FieldValue::Records(rs))
                    },
                    Err(e) => return Err(e),
                }
            },
            FieldKind::CompositeVecLit(n, nested) => match nested.parse_records(*n, input) {
                Ok((rest, rs)) => {
                    proof {
                        lemma_records_value(rs);
                    }
                    (rest, FieldValue::Records(rs))
                },
                Err(e) => return Err(e),
            },
            FieldKind::Composite(nested) => {
                let mut one = nested.default_record();
                match nested.parse_bytes(&mut one, input) {
                    Ok(rest) => (rest, FieldValue::Nested(one)),
                    Err(e) => return Err(e),
                }
            },
        };
        let ghost old_view = target@;
        target.fields[i] = v;
        assert(target@ =~= old_view.update(i as int, v@));
        Ok(rest)
    }

    /// The length or count that the sibling field `j` holds, for field `i`.
    fn count_at(&self, target: &Record, j: usize, i: usize) -> (n: usize)
        requires
            self.wf(),
            i < self.fields@.len(),
            self.fields@[i as int].kind.sibling() == Some(j),
            target.fields@.len() == self.fields@.len(),
        ensures
            n as nat == count_of(target@.take(i as int), j),
    {
        match &target.fields[j] {
            FieldValue::Scalar(x) => *x as usize,
            _ => 0,
        }
    }

    /// Decodes one record of this type from the front of `bytes` into
    /// `target`, field by field in declaration order, and returns the bytes
    /// left over. On failure the error names the first field that could not
    /// be decoded (a nested record's own error passes through unchanged); the
    /// fields before it hold their decoded values and the others are as they
    /// were.
    pub fn parse_bytes<'a>(&self, target: &mut Record, bytes: &'a [u8]) -> (r: Result<
        &'a [u8],
        ByteLayoutParsingError,
    >)
        requires
            self.wf(),
            old(target).fields@.len() == self.fields@.len(),
        ensures
            final(target).fields@.len() == self.fields@.len(),
            match decode_record(*self, bytes@) {
                Ok((vals, c)) => r matches Ok(rest) && final(target)@ == vals && c <= bytes@.len()
                    && rest@ == bytes@.skip(c as int),
                Err(e) => r matches Err(err) && err@ == e && exists|i: int|
                    #[trigger] failed_at(*self, bytes@, i, old(target)@, final(target)@),
            },
        decreases self, 1nat,
    {
        let mut tail = bytes;
        let ghost mut used: nat = 0;
        let mut i: usize = 0;
        assert(bytes@.skip(0) =~= bytes@);
        assert(target@.take(0) =~= Seq::<Decoded>::empty());
        assert(target@.skip(0) =~= target@);
        while i < self.fields.len()
            invariant
                self.wf(),
                i <= self.fields@.len(),
                target.fields@.len() == self.fields@.len(),
                used <= bytes@.len(),
                tail@ == bytes@.skip(used as int),
                decode_fields(*self, bytes@, i as nat) == Ok::<_, crate::error::ErrorView>(
                    (target@.take(i as int), used),
                ),
                old(target).fields@.len() == self.fields@.len(),
                target@.skip(i as int) == old(target)@.skip(i as int),
            decreases self.fields@.len() - i,
        {
            let ghost before = target@;
            match self.parse_field(i, target, tail) {
                Ok(rest) => {
                    proof {
                        let c = decode_field(*self, i as nat, before.take(i as int), tail@)->Ok_0.1;
                        assert(bytes@.skip(used as int).skip(c as int) =~= bytes@.skip(
                            (used + c) as int,
                        ));
                        assert(target@.take(i + 1) =~= before.take(i as int).push(target@[i as int]));
                        assert(target@.skip(i + 1) =~= before.skip(i + 1));
                        assert(before.skip(i + 1) =~= before.skip(i as int).skip(1));
                        assert(old(target)@.skip(i + 1) =~= old(target)@.skip(i as int).skip(1));
                        used = used + c;
                    }
                    tail = rest;
                    i = i + 1;
                },
                Err(e) => {
                    proof {
                        lemma_fields_err_persists(
                            *self,
                            bytes@,
                            (i + 1) as nat,
                            self.fields@.len() as nat,
                        );
                        assert(failed_at(*self, bytes@, i as int, old(target)@, target@));
                    }
                    return Err(e);
                },
            }
        }
        assert(target@.take(i as int) =~= target@);
        Ok(tail)
    }
}

} // verus!
