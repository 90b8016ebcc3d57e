//! Primitive values read from the front of a byte cursor, and the raw-byte
//! operations that the engine needs. The decoding itself is nom's.
use vstd::prelude::*;

verus! {

/// Copies the elements that a byte view holds into an owned vector.
pub trait ToVec<T>: Sized {
    spec fn elements(&self) -> Seq<T>;

    fn to_vec(self) -> (r: Vec<T>)
        ensures
            r@ == self.elements(),
    ;
}

impl ToVec<u8> for &[u8] {
    open spec fn elements(&self) -> Seq<u8> {
        (**self)@
    }

    fn to_vec(self) -> (r: Vec<u8>) {
        vstd::slice::slice_to_vec(self)
    }
}

/// The unsigned big-endian number that the bytes `s` spell.
pub open spec fn be_value(s: Seq<u8>) -> nat
    decreases s.len(),
{
    if s.len() == 0 {
        0
    } else {
        be_value(s.drop_last()) * 256 + s.last() as nat
    }
}

/// The unsigned little-endian number that the bytes `s` spell.
pub open spec fn le_value(s: Seq<u8>) -> nat
    decreases s.len(),
{
    if s.len() == 0 {
        0
    } else {
        s[0] as nat + 256 * le_value(s.drop_first())
    }
}

/// The scalar encodings a field can be read with.
#[derive(Clone, Copy, Debug, PartialEq, Eq)]
pub enum Primitive {
    U8,
    U16Be,
    U24Be,
    U32Be,
    U16Le,
    U24Le,
    U32Le,
}

impl Primitive {
    /// Bytes that one value of this encoding occupies.
    pub open spec fn width(self) -> nat {
        match self {
            Primitive::U8 => 1,
            Primitive::U16Be => 2,
            Primitive::U24Be => 3,
            Primitive::U32Be => 4,
            Primitive::U16Le => 2,
            Primitive::U24Le => 3,
            Primitive::U32Le => 4,
        }
    }

    /// Whether the encoding puts the least significant byte first.
    pub open spec fn little_endian(self) -> bool {
        self is U16Le || self is U24Le || self is U32Le
    }
}

/// The value that encoding `p` reads from the front of `s`, or `None` when
/// `s` is shorter than one value.
pub open spec fn spec_parse_primitive(p: Primitive, s: Seq<u8>) -> Option<nat> {
    if s.len() >= p.width() && p.little_endian() {
        Some(le_value(s.take(p.width() as int)))
    } else if s.len() >= p.width() {
        Some(be_value(s.take(p.width() as int)))
    } else {
        None
    }
}

/// Relies on nom::number::complete::be_u8: on a non-empty input, its first
/// byte and the rest; on an empty one, an error.
#[verifier::external_body]
fn nom_be_u8(input: &[u8]) -> (r: Option<(&[u8], u8)>)
    ensures
        r is None <==> input@.len() < 1,
        r matches Some((rest, v)) ==> (rest@ == input@.skip(1) && v
            == input@[0]),
{
    match nom::number::complete::be_u8::<&[u8], nom::error::Error<&[u8]>>(input) {
        Ok((rest, v)) => Some((rest, v)),
        Err(_) => None,
    }
}

/// Relies on nom::number::complete::be_u16: on two bytes or more, the first
/// two read big-endian and the rest; on fewer, an error.
#[verifier::external_body]
fn nom_be_u16(input: &[u8]) -> (r: Option<(&[u8], u16)>)
    ensures
        r is None <==> input@.len() < 2,
        r matches Some((rest, v)) ==> (rest@ == input@.skip(2) && v as int
            == input@[0] as int * 256 + input@[1] as int),
{
    match nom::number::complete::be_u16::<&[u8], nom::error::Error<&[u8]>>(input) {
        Ok((rest, v)) => Some((rest, v)),
        Err(_) => None,
    }
}

/// Relies on nom::number::complete::be_u32: on four bytes or more, the first
/// four read big-endian and the rest; on fewer, an error.
#[verifier::external_body]
fn nom_be_u32(input: &[u8]) -> (r: Option<(&[u8], u32)>)
    ensures
        r is None <==> input@.len() < 4,
        r matches Some((rest, v)) ==> (rest@ == input@.skip(4) && v as int
            == ((input@[0] as int * 256 + input@[1] as int) * 256 + input@[2] as int) * 256
            + input@[3] as int),
{
    match nom::number::complete::be_u32::<&[u8], nom::error::Error<&[u8]>>(input) {
        Ok((rest, v)) => Some((rest, v)),
        Err(_) => None,
    }
}

/// Relies on nom::number::complete::be_u24: on three bytes or more, the
/// first three read big-endian and the rest; on fewer, an error.
#[verifier::external_body]
fn nom_be_u24(input: &[u8]) -> (r: Option<(&[u8], u32)>)
    ensures
        r is None <==> input@.len() < 3,
        r matches Some((rest, v)) ==> (rest@ == input@.skip(3) && v as int == (input@[0] as int
            * 256 + input@[1] as int) * 256 + input@[2] as int),
{
    match nom::number::complete::be_u24::<&[u8], nom::error::Error<&[u8]>>(input) {
        Ok((rest, v)) => Some((rest, v)),
        Err(_) => None,
    }
}

/// Relies on nom::number::complete::le_u16: on two bytes or more, the first
/// two read little-endian and the rest; on fewer, an error.
#[verifier::external_body]
fn nom_le_u16(input: &[u8]) -> (r: Option<(&[u8], u16)>)
    ensures
        r is None <==> input@.len() < 2,
        r matches Some((rest, v)) ==> (rest@ == input@.skip(2) && v as int == input@[0] as int
            + 256 * input@[1] as int),
{
    match nom::number::complete::le_u16::<&[u8], nom::error::Error<&[u8]>>(input) {
        Ok((rest, v)) => Some((rest, v)),
        Err(_) => None,
    }
}

/// Relies on nom::number::complete::le_u24: on three bytes or more, the
/// first three read little-endian and the rest; on fewer, an error.
#[verifier::external_body]
fn nom_le_u24(input: &[u8]) -> (r: Option<(&[u8], u32)>)
    ensures
        r is None <==> input@.len() < 3,
        r matches Some((rest, v)) ==> (rest@ == input@.skip(3) && v as int == input@[0] as int
            + 256 * (input@[1] as int + 256 * input@[2] as int)),
{
    match nom::number::complete::le_u24::<&[u8], nom::error::Error<&[u8]>>(input) {
        Ok((rest, v)) => Some((rest, v)),
        Err(_) => None,
    }
}

/// Relies on nom::number::complete::le_u32: on four bytes or more, the first
/// four read little-endian and the rest; on fewer, an error.
#[verifier::external_body]
fn nom_le_u32(input: &[u8]) -> (r: Option<(&[u8], u32)>)
    ensures
        r is None <==> input@.len() < 4,
        r matches Some((rest, v)) ==> (rest@ == input@.skip(4) && v as int == input@[0] as int
            + 256 * (input@[1] as int + 256 * (input@[2] as int + 256 * input@[3] as int))),
{
    match nom::number::complete::le_u32::<&[u8], nom::error::Error<&[u8]>>(input) {
        Ok((rest, v)) => Some((rest, v)),
        Err(_) => None,
    }
}

/// Relies on nom::bytes::complete::take on a byte slice: when `n` bytes
/// remain, the rest and the first `n` bytes; otherwise an error.
#[verifier::external_body]
fn nom_take(input: &[u8], n: usize) -> (r: Option<(&[u8], &[u8])>)
    ensures
        r is None <==> input@.len() < n,
        r matches Some((rest, taken)) ==> (rest@ == input@.skip(n as int)
            && taken@ == input@.take(n as int)),
{
    match nom::bytes::complete::take::<usize, &[u8], nom::error::Error<&[u8]>>(n)(input) {
        Ok((rest, taken)) => Some((rest, taken)),
        Err(_) => None,
    }
}

/// Reads one value of encoding `p` from the front of `input`, returning the
/// rest of the input and the value.
pub fn parse_primitive(p: Primitive, input: &[u8]) -> (r: Option<(&[u8], u32)>)
    ensures
        match spec_parse_primitive(p, input@) {
            None => r is None,
            Some(v) => r matches Some((rest, x)) && x as nat == v && rest@ == input@.skip(
                p.width() as int,
            ),
        },
{
    let s = Ghost(input@);
    reveal_with_fuel(be_value, 5);
    reveal_with_fuel(le_value, 5);
    match p {
        Primitive::U8 => match nom_be_u8(input) {
            Some((rest, v)) => {
                assert(s@.take(1).drop_last() =~= Seq::<u8>::empty());
                Some((rest, v as u32))
            },
            None => None,
        },
        Primitive::U16Be => match nom_be_u16(input) {
            Some((rest, v)) => {
                assert(s@.take(2).drop_last() =~= s@.take(1));
                assert(s@.take(1).drop_last() =~= Seq::<u8>::empty());
                Some((rest, v as u32))
            },
            None => None,
        },
        Primitive::U24Be => match nom_be_u24(input) {
            Some((rest, v)) => {
                assert(s@.take(3).drop_last() =~= s@.take(2));
                assert(s@.take(2).drop_last() =~= s@.take(1));
                assert(s@.take(1).drop_last() =~= Seq::<u8>::empty());
                Some((rest, v))
            },
            None => None,
        },
        Primitive::U16Le => match nom_le_u16(input) {
            Some((rest, v)) => {
                assert(s@.take(2).drop_first() =~= s@.subrange(1, 2));
                assert(s@.subrange(1, 2).drop_first() =~= Seq::<u8>::empty());
                Some((rest, v as u32))
            },
            None => None,
        },
        Primitive::U24Le => match nom_le_u24(input) {
            Some((rest, v)) => {
                assert(s@.take(3).drop_first() =~= s@.subrange(1, 3));
                assert(s@.subrange(1, 3).drop_first() =~= s@.subrange(2, 3));
                assert(s@.subrange(2, 3).drop_first() =~= Seq::<u8>::empty());
                Some((rest, v))
            },
            None => None,
        },
        Primitive::U32Le => match nom_le_u32(input) {
            Some((rest, v)) => {
                assert(s@.take(4).drop_first() =~= s@.subrange(1, 4));
                assert(s@.subrange(1, 4).drop_first() =~= s@.subrange(2, 4));
                assert(s@.subrange(2, 4).drop_first() =~= s@.subrange(3, 4));
                assert(s@.subrange(3, 4).drop_first() =~= Seq::<u8>::empty());
                Some((rest, v))
            },
            None => None,
        },
        Primitive::U32Be => match nom_be_u32(input) {
            Some((rest, v)) => {
                assert(s@.take(4).drop_last() =~= s@.take(3));
                assert(s@.take(3).drop_last() =~= s@.take(2));
                assert(s@.take(2).drop_last() =~= s@.take(1));
                assert(s@.take(1).drop_last() =~= Seq::<u8>::empty());
                Some((rest, v))
            },
            None => None,
        },
    }
}

/// Splits `input` after its first `n` bytes, when it holds that many.
pub fn take_bytes(input: &[u8], n: usize) -> (r: Option<(&[u8], Vec<u8>)>)
    ensures
        r is None <==> input@.len() < n,
        r matches Some((rest, taken)) ==> (rest@ == input@.skip(n as int)
            && taken@ == input@.take(n as int)),
{
    match nom_take(input, n) {
        Some((rest, taken)) => Some((rest, ToVec::to_vec(taken))),
        None => None,
    }
}

} // verus!
