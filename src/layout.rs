//! Record layouts and decoded record values.
use vstd::prelude::*;
use crate::primitive::Primitive;

verus! {

broadcast use vstd::std_specs::vec::group_vec_axioms;

/// How one field is laid out on the wire. A `usize` sibling names an earlier
/// field of the same record, by its position, whose decoded value gives a
/// byte length or an element count.
pub enum FieldKind {
    /// One scalar.
    Value(Primitive),
    /// As many raw bytes as the sibling field says.
    BytesVec(usize),
    /// A fixed number of raw bytes.
    BytesVecLit(usize),
    /// Raw bytes up to the first zero byte, which is consumed and not kept.
    BytesVecNullTerm,
    /// As many scalars as the sibling field says.
    PrimitiveVec(usize, Primitive),
    /// A fixed number of scalars.
    PrimitiveVecLit(usize, Primitive),
    /// As many nested records as the sibling field says.
    CompositeVec(usize, RecordLayout),
    /// A fixed number of nested records.
    CompositeVecLit(usize, RecordLayout),
    /// Exactly one nested record.
    Composite(RecordLayout),
}

/// One field declaration: the field's name and its wire layout.
pub struct FieldDecl {
    pub name: String,
    pub kind: FieldKind,
}

/// A record type: its name and its fields, in wire order.
pub struct RecordLayout {
    pub record_type: String,
    pub fields: Vec<FieldDecl>,
}

/// The mathematical value of one decoded field.
pub enum Decoded {
    Scalar(nat),
    Bytes(Seq<u8>),
    Scalars(Seq<nat>),
    Records(Seq<Seq<Decoded>>),
    Nested(Seq<Decoded>),
}

/// One decoded field.
#[derive(Debug, PartialEq, Eq)]
pub enum FieldValue {
    Scalar(u32),
    Bytes(Vec<u8>),
    Scalars(Vec<u32>),
    Records(Vec<Record>),
    Nested(Record),
}

/// A record value: one entry per field of its layout, in the same order.
#[derive(Debug, PartialEq, Eq)]
pub struct Record {
    pub fields: Vec<FieldValue>,
}

impl FieldValue {
    /// The field's mathematical value.
    pub open spec fn view(&self) -> Decoded
        decreases self,
    {
        match self {
            FieldValue::Scalar(x) => Decoded::Scalar(*x as nat),
            FieldValue::Bytes(b) => Decoded::Bytes(b@),
            FieldValue::Scalars(v) => Decoded::Scalars(v@.map_values(|x: u32| x as nat)),
            FieldValue::Records(v) => Decoded::Records(
                Seq::new(
                    v.len() as nat,
                    |i: int|
                        if 0 <= i < v.len() {
                            v[i].view()
                        } else {
                            Seq::empty()
                        },
                ),
            ),
            FieldValue::Nested(r) => Decoded::Nested(r.view()),
        }
    }
}

impl Record {
    /// The record's fields as mathematical values, in layout order.
    pub open spec fn view(&self) -> Seq<Decoded>
        decreases self,
    {
        Seq::new(
            self.fields.len() as nat,
            |i: int|
                if 0 <= i < self.fields.len() {
                    self.fields[i].view()
                } else {
                    Decoded::Scalar(0)
                },
        )
    }
}

impl FieldKind {
    /// The sibling field this kind reads its length or count from, if any.
    pub open spec fn sibling(&self) -> Option<usize> {
        match self {
            FieldKind::BytesVec(j) => Some(*j),
            FieldKind::PrimitiveVec(j, _) => Some(*j),
            FieldKind::CompositeVec(j, _) => Some(*j),
            _ => None,
        }
    }
}

impl RecordLayout {
    /// The default value of field `i`: zero for a scalar, empty for a
    /// sequence, the default record for a nested one.
    pub open spec fn default_field(&self, i: int) -> Decoded
        decreases self, 0nat,
    {
        if 0 <= i < self.fields.len() {
            match self.fields[i].kind {
                FieldKind::Value(_) => Decoded::Scalar(0),
                FieldKind::BytesVec(_) => Decoded::Bytes(Seq::empty()),
                FieldKind::BytesVecLit(_) => Decoded::Bytes(Seq::empty()),
                FieldKind::BytesVecNullTerm => Decoded::Bytes(Seq::empty()),
                FieldKind::PrimitiveVec(_, _) => Decoded::Scalars(Seq::empty()),
                FieldKind::PrimitiveVecLit(_, _) => Decoded::Scalars(Seq::empty()),
                FieldKind::CompositeVec(_, _) => Decoded::Records(Seq::empty()),
                FieldKind::CompositeVecLit(_, _) => Decoded::Records(Seq::empty()),
                FieldKind::Composite(n) => Decoded::Nested(n.default_view()),
            }
        } else {
            Decoded::Scalar(0)
        }
    }

    /// A record of this type with every field at its default.
    pub open spec fn default_view(&self) -> Seq<Decoded>
        decreases self, 1nat,
    {
        Seq::new(self.fields.len() as nat, |i: int| self.default_field(i))
    }

    /// Every sibling reference names an earlier field declared as a scalar,
    /// and every nested layout is well formed too.
    pub open spec fn wf(&self) -> bool
        decreases self,
    {
        forall|i: int|
            0 <= i < self.fields.len() ==> {
                &&& ((#[trigger] self.fields[i]).kind.sibling() matches Some(j) ==> j < i
                    && self.fields[j as int].kind is Value)
                &&& match self.fields[i].kind {
                    FieldKind::CompositeVec(_, n) => n.wf(),
                    FieldKind::CompositeVecLit(_, n) => n.wf(),
                    FieldKind::Composite(n) => n.wf(),
                    _ => true,
                }
            }
    }
}

} // verus!
