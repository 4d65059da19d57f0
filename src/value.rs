//! Structured values, their shapes, and the byte layout of each.
use vstd::prelude::*;
use vstd::utf8::*;

use crate::wire::{be_bytes, twos, signed, u16_at, be_value};

verus! {

/// A structured value, as a caller hands it to the encoder or gets it from
/// the decoder.
///
/// Records are tuples of their fields in declaration order, unit records are
/// `Unit`, and newtype records are their inner value. Floating-point numbers
/// are carried as their IEEE-754 bit patterns.
#[derive(Debug)]
pub enum Value {
    Unit,
    Bool(bool),
    I8(i8),
    I16(i16),
    I32(i32),
    I64(i64),
    U8(u8),
    U16(u16),
    U32(u32),
    U64(u64),
    F32(u32),
    F64(u64),
    Char(char),
    Str(String),
    Bytes(Vec<u8>),
    Opt(Option<Box<Value>>),
    List(Vec<Value>),
    Tuple(Vec<Value>),
    Entries(Vec<(Value, Value)>),
    Variant(u8, Box<Value>),
}

/// The mathematical content of a [`Value`].
pub enum Datum {
    Unit,
    Bool(bool),
    I8(i8),
    I16(i16),
    I32(i32),
    I64(i64),
    U8(u8),
    U16(u16),
    U32(u32),
    U64(u64),
    F32(u32),
    F64(u64),
    Char(char),
    Str(Seq<char>),
    Bytes(Seq<u8>),
    Opt(Option<Box<Datum>>),
    List(Seq<Datum>),
    Tuple(Seq<Datum>),
    Entries(Seq<(Datum, Datum)>),
    Variant(u8, Box<Datum>),
}

/// The static shape of a value: what the decoder is told to expect.
///
/// `Union` lists the payload shape of each variant in declaration order: a
/// unit variant has `Unit`, a newtype variant its inner shape, and tuple-like
/// and record-like variants a `Tuple` of their fields.
#[derive(Debug)]
pub enum Shape {
    Unit,
    Bool,
    I8,
    I16,
    I32,
    I64,
    U8,
    U16,
    U32,
    U64,
    F32,
    F64,
    Char,
    Str,
    Bytes,
    Opt(Box<Shape>),
    List(Box<Shape>),
    Tuple(Vec<Shape>),
    Entries(Box<Shape>, Box<Shape>),
    Union(Vec<Shape>),
}

/// Why a byte string does not hold a value of a given shape.
pub enum Fault {
    /// The bytes end before the value does.
    Truncated,
    /// A string's bytes are not valid UTF-8.
    NotUtf8,
    /// A character's code point is not a Unicode scalar value.
    NotScalar,
    /// A variant tag names no variant of the union.
    UnknownVariant,
}

pub open spec fn datum_of(v: Value) -> Datum
    decreases v,
{
    match v {
        Value::Unit => Datum::Unit,
        Value::Bool(b) => Datum::Bool(b),
        Value::I8(x) => Datum::I8(x),
        Value::I16(x) => Datum::I16(x),
        Value::I32(x) => Datum::I32(x),
        Value::I64(x) => Datum::I64(x),
        Value::U8(x) => Datum::U8(x),
        Value::U16(x) => Datum::U16(x),
        Value::U32(x) => Datum::U32(x),
        Value::U64(x) => Datum::U64(x),
        Value::F32(x) => Datum::F32(x),
        Value::F64(x) => Datum::F64(x),
        Value::Char(c) => Datum::Char(c),
        Value::Str(s) => Datum::Str(s@),
        Value::Bytes(b) => Datum::Bytes(b@),
        Value::Opt(o) => match o {
            Option::None => Datum::Opt(Option::None),
            Option::Some(inner) => Datum::Opt(Option::Some(Box::new(datum_of(*inner)))),
        },
        Value::List(items) => Datum::List(data_of(items@)),
        Value::Tuple(items) => Datum::Tuple(data_of(items@)),
        Value::Entries(es) => Datum::Entries(pairs_of(es@)),
        Value::Variant(t, p) => Datum::Variant(t, Box::new(datum_of(*p))),
    }
}

pub open spec fn data_of(s: Seq<Value>) -> Seq<Datum>
    decreases s,
{
    if s.len() == 0 {
        Seq::empty()
    } else {
        data_of(s.drop_last()).push(datum_of(s[s.len() - 1]))
    }
}

pub open spec fn pairs_of(s: Seq<(Value, Value)>) -> Seq<(Datum, Datum)>
    decreases s,
{
    if s.len() == 0 {
        Seq::empty()
    } else {
        let e = s[s.len() - 1];
        pairs_of(s.drop_last()).push((datum_of(e.0), datum_of(e.1)))
    }
}

impl View for Value {
    type V = Datum;

    open spec fn view(&self) -> Datum {
        datum_of(*self)
    }
}

/// The bytes that stand for `d` on the wire.
pub open spec fn encode(d: Datum) -> Seq<u8>
    decreases d,
{
    match d {
        Datum::Unit => Seq::empty(),
        Datum::Bool(b) => seq![if b { 1u8 } else { 0u8 }],
        Datum::I8(x) => be_bytes(twos(x as int, 1), 1),
        Datum::I16(x) => be_bytes(twos(x as int, 2), 2),
        Datum::I32(x) => be_bytes(twos(x as int, 4), 4),
        Datum::I64(x) => be_bytes(twos(x as int, 8), 8),
        Datum::U8(x) => be_bytes(x as nat, 1),
        Datum::U16(x) => be_bytes(x as nat, 2),
        Datum::U32(x) => be_bytes(x as nat, 4),
        Datum::U64(x) => be_bytes(x as nat, 8),
        Datum::F32(bits) => be_bytes(bits as nat, 4),
        Datum::F64(bits) => be_bytes(bits as nat, 8),
        Datum::Char(c) => be_bytes((c as u32) as nat, 4),
        Datum::Str(s) => be_bytes(encode_utf8(s).len(), 2) + encode_utf8(s),
        Datum::Bytes(b) => be_bytes(b.len(), 2) + b,
        Datum::Opt(o) => match o {
            Option::None => seq![0u8],
            Option::Some(x) => seq![1u8] + encode(*x),
        },
        Datum::List(ds) => be_bytes(ds.len(), 2) + encode_all(ds),
        Datum::Tuple(ds) => encode_all(ds),
        Datum::Entries(ps) => be_bytes(ps.len(), 2) + encode_pairs(ps),
        Datum::Variant(t, p) => seq![t] + encode(*p),
    }
}

/// The elements of `ds` encoded one after another, with no prefix.
pub open spec fn encode_all(ds: Seq<Datum>) -> Seq<u8>
    decreases ds,
{
    if ds.len() == 0 {
        Seq::empty()
    } else {
        encode(ds[0]) + encode_all(ds.subrange(1, ds.len() as int))
    }
}

/// The entries of `ps` encoded one after another, each key right before its
/// value, with no prefix.
pub open spec fn encode_pairs(ps: Seq<(Datum, Datum)>) -> Seq<u8>
    decreases ps,
{
    if ps.len() == 0 {
        Seq::empty()
    } else {
        encode(ps[0].0) + encode(ps[0].1) + encode_pairs(ps.subrange(1, ps.len() as int))
    }
}

/// Every length and count inside `d` fits a two-byte prefix.
pub open spec fn encodable(d: Datum) -> bool
    decreases d,
{
    match d {
        Datum::Str(s) => encode_utf8(s).len() <= 65535,
        Datum::Bytes(b) => b.len() <= 65535,
        Datum::Opt(o) => match o {
            Option::None => true,
            Option::Some(x) => encodable(*x),
        },
        Datum::List(ds) => ds.len() <= 65535 && all_encodable(ds),
        Datum::Tuple(ds) => all_encodable(ds),
        Datum::Entries(ps) => ps.len() <= 65535 && pairs_encodable(ps),
        Datum::Variant(_, p) => encodable(*p),
        _ => true,
    }
}

pub open spec fn all_encodable(ds: Seq<Datum>) -> bool
    decreases ds,
{
    ds.len() == 0 || (encodable(ds[0]) && all_encodable(ds.subrange(1, ds.len() as int)))
}

pub open spec fn pairs_encodable(ps: Seq<(Datum, Datum)>) -> bool
    decreases ps,
{
    ps.len() == 0 || (encodable(ps[0].0) && encodable(ps[0].1) && pairs_encodable(
        ps.subrange(1, ps.len() as int),
    ))
}

/// `d` is a value of shape `s`.
pub open spec fn conforms(d: Datum, s: Shape) -> bool
    decreases d,
{
    match s {
        Shape::Unit => d is Unit,
        Shape::Bool => d is Bool,
        Shape::I8 => d is I8,
        Shape::I16 => d is I16,
        Shape::I32 => d is I32,
        Shape::I64 => d is I64,
        Shape::U8 => d is U8,
        Shape::U16 => d is U16,
        Shape::U32 => d is U32,
        Shape::U64 => d is U64,
        Shape::F32 => d is F32,
        Shape::F64 => d is F64,
        Shape::Char => d is Char,
        Shape::Str => d is Str,
        Shape::Bytes => d is Bytes,
        Shape::Opt(e) => match d {
            Datum::Opt(o) => match o {
                Option::None => true,
                Option::Some(x) => conforms(*x, *e),
            },
            _ => false,
        },
        Shape::List(e) => match d {
            Datum::List(ds) => all_conform(ds, *e),
            _ => false,
        },
        Shape::Tuple(ss) => match d {
            Datum::Tuple(ds) => fields_conform(ds, ss@),
            _ => false,
        },
        Shape::Entries(k, v) => match d {
            Datum::Entries(ps) => pairs_conform(ps, *k, *v),
            _ => false,
        },
        Shape::Union(ss) => match d {
            Datum::Variant(t, p) => t < ss@.len() && conforms(*p, ss@[t as int]),
            _ => false,
        },
    }
}

pub open spec fn all_conform(ds: Seq<Datum>, e: Shape) -> bool
    decreases ds,
{
    ds.len() == 0 || (conforms(ds[0], e) && all_conform(ds.subrange(1, ds.len() as int), e))
}

pub open spec fn fields_conform(ds: Seq<Datum>, ss: Seq<Shape>) -> bool
    decreases ds,
{
    if ds.len() == 0 {
        ss.len() == 0
    } else {
        ss.len() > 0 && conforms(ds[0], ss[0]) && fields_conform(
            ds.subrange(1, ds.len() as int),
            ss.subrange(1, ss.len() as int),
        )
    }
}

pub open spec fn pairs_conform(ps: Seq<(Datum, Datum)>, k: Shape, v: Shape) -> bool
    decreases ps,
{
    ps.len() == 0 || (conforms(ps[0].0, k) && conforms(ps[0].1, v) && pairs_conform(
        ps.subrange(1, ps.len() as int),
        k,
        v,
    ))
}

/// The fixed-width number at the front of `b`, `n` bytes wide.
pub open spec fn fixed(b: Seq<u8>, n: nat) -> nat {
    be_value(b.take(n as int))
}

/// What the front of `b` decodes to as a value of shape `s`: the value and
/// the bytes after it, or the first fault met, reading left to right.
pub open spec fn parse(s: Shape, b: Seq<u8>) -> Result<(Datum, Seq<u8>), Fault>
    decreases s, 65536nat,
{
    match s {
        Shape::Unit => Ok((Datum::Unit, b)),
        Shape::Bool => if b.len() < 1 {
            Err(Fault::Truncated)
        } else {
            Ok((Datum::Bool(b[0] != 0), b.skip(1)))
        },
        Shape::I8 => if b.len() < 1 {
            Err(Fault::Truncated)
        } else {
            Ok((Datum::I8(signed(fixed(b, 1), 1) as i8), b.skip(1)))
        },
        Shape::I16 => if b.len() < 2 {
            Err(Fault::Truncated)
        } else {
            Ok((Datum::I16(signed(fixed(b, 2), 2) as i16), b.skip(2)))
        },
        Shape::I32 => if b.len() < 4 {
            Err(Fault::Truncated)
        } else {
            Ok((Datum::I32(signed(fixed(b, 4), 4) as i32), b.skip(4)))
        },
        Shape::I64 => if b.len() < 8 {
            Err(Fault::Truncated)
        } else {
            Ok((Datum::I64(signed(fixed(b, 8), 8) as i64), b.skip(8)))
        },
        Shape::U8 => if b.len() < 1 {
            Err(Fault::Truncated)
        } else {
            Ok((Datum::U8(fixed(b, 1) as u8), b.skip(1)))
        },
        Shape::U16 => if b.len() < 2 {
            Err(Fault::Truncated)
        } else {
            Ok((Datum::U16(fixed(b, 2) as u16), b.skip(2)))
        },
        Shape::U32 => if b.len() < 4 {
            Err(Fault::Truncated)
        } else {
            Ok((Datum::U32(fixed(b, 4) as u32), b.skip(4)))
        },
        Shape::U64 => if b.len() < 8 {
            Err(Fault::Truncated)
        } else {
            Ok((Datum::U64(fixed(b, 8) as u64), b.skip(8)))
        },
        Shape::F32 => if b.len() < 4 {
            Err(Fault::Truncated)
        } else {
            Ok((Datum::F32(fixed(b, 4) as u32), b.skip(4)))
        },
        Shape::F64 => if b.len() < 8 {
            Err(Fault::Truncated)
        } else {
            Ok((Datum::F64(fixed(b, 8) as u64), b.skip(8)))
        },
        Shape::Char => if b.len() < 4 {
            Err(Fault::Truncated)
        } else if is_scalar(fixed(b, 4) as u32) {
            Ok((Datum::Char((fixed(b, 4) as u32) as char), b.skip(4)))
        } else {
            Err(Fault::NotScalar)
        },
        Shape::Str => if b.len() < 2 || b.len() < 2 + u16_at(b) as int {
            Err(Fault::Truncated)
        } else if valid_utf8(b.subrange(2, 2 + u16_at(b) as int)) {
            Ok(
                (
                    Datum::Str(decode_utf8(b.subrange(2, 2 + u16_at(b) as int))),
                    b.skip(2 + u16_at(b) as int),
                ),
            )
        } else {
            Err(Fault::NotUtf8)
        },
        Shape::Bytes => if b.len() < 2 || b.len() < 2 + u16_at(b) as int {
            Err(Fault::Truncated)
        } else {
            Ok((Datum::Bytes(b.subrange(2, 2 + u16_at(b) as int)), b.skip(2 + u16_at(b) as int)))
        },
        Shape::Opt(e) => if b.len() < 1 {
            Err(Fault::Truncated)
        } else if b[0] == 0 {
            Ok((Datum::Opt(Option::None), b.skip(1)))
        } else {
            match parse(*e, b.skip(1)) {
                Ok((d, r)) => Ok((Datum::Opt(Option::Some(Box::new(d))), r)),
                Err(f) => Err(f),
            }
        },
        Shape::List(_) => if b.len() < 2 {
            Err(Fault::Truncated)
        } else {
            match parse_list(s, u16_at(b), b.skip(2)) {
                Ok((ds, r)) => Ok((Datum::List(ds), r)),
                Err(f) => Err(f),
            }
        },
        Shape::Tuple(ss) => match parse_fields(ss@, b) {
            Ok((ds, r)) => Ok((Datum::Tuple(ds), r)),
            Err(f) => Err(f),
        },
        Shape::Entries(_, _) => if b.len() < 2 {
            Err(Fault::Truncated)
        } else {
            match parse_pairs(s, u16_at(b), b.skip(2)) {
                Ok((ps, r)) => Ok((Datum::Entries(ps), r)),
                Err(f) => Err(f),
            }
        },
        Shape::Union(ss) => if b.len() < 1 {
            Err(Fault::Truncated)
        } else if (b[0] as int) < ss@.len() {
            match parse(ss@[b[0] as int], b.skip(1)) {
                Ok((d, r)) => Ok((Datum::Variant(b[0], Box::new(d)), r)),
                Err(f) => Err(f),
            }
        } else {
            Err(Fault::UnknownVariant)
        },
    }
}

/// `n` elements of the list shape `s`, one after another.
pub open spec fn parse_list(s: Shape, n: nat, b: Seq<u8>) -> Result<(Seq<Datum>, Seq<u8>), Fault>
    decreases s, n,
{
    match s {
        Shape::List(e) => if n == 0 {
            Ok((Seq::empty(), b))
        } else {
            match parse(*e, b) {
                Ok((d, r)) => match parse_list(s, (n - 1) as nat, r) {
                    Ok((ds, r2)) => Ok((seq![d] + ds, r2)),
                    Err(f) => Err(f),
                },
                Err(f) => Err(f),
            }
        },
        _ => Ok((Seq::empty(), b)),
    }
}

/// One value of each shape in `ss`, in order.
pub open spec fn parse_fields(ss: Seq<Shape>, b: Seq<u8>) -> Result<(Seq<Datum>, Seq<u8>), Fault>
    decreases ss, 0nat,
{
    if ss.len() == 0 {
        Ok((Seq::empty(), b))
    } else {
        match parse(ss[0], b) {
            Ok((d, r)) => match parse_fields(ss.subrange(1, ss.len() as int), r) {
                Ok((ds, r2)) => Ok((seq![d] + ds, r2)),
                Err(f) => Err(f),
            },
            Err(f) => Err(f),
        }
    }
}

/// `n` entries of the mapping shape `s`, each a key followed by its value.
pub open spec fn parse_pairs(s: Shape, n: nat, b: Seq<u8>) -> Result<(Seq<(Datum, Datum)>, Seq<u8>), Fault>
    decreases s, n,
{
    match s {
        Shape::Entries(k, v) => if n == 0 {
            Ok((Seq::empty(), b))
        } else {
            match parse(*k, b) {
                Ok((dk, r1)) => match parse(*v, r1) {
                    Ok((dv, r2)) => match parse_pairs(s, (n - 1) as nat, r2) {
                        Ok((ps, r3)) => Ok((seq![(dk, dv)] + ps, r3)),
                        Err(f) => Err(f),
                    },
                    Err(f) => Err(f),
                },
                Err(f) => Err(f),
            }
        },
        _ => Ok((Seq::empty(), b)),
    }
}

} // verus!

verus! {

pub proof fn lemma_data_of(s: Seq<Value>)
    ensures
        data_of(s).len() == s.len(),
        forall|i: int| 0 <= i < s.len() ==> #[trigger] data_of(s)[i] == datum_of(s[i]),
    decreases s.len(),
{
    if s.len() > 0 {
        lemma_data_of(s.drop_last());
    }
}

pub proof fn lemma_pairs_of(s: Seq<(Value, Value)>)
    ensures
        pairs_of(s).len() == s.len(),
        forall|i: int|
            0 <= i < s.len() ==> #[trigger] pairs_of(s)[i] == (datum_of(s[i].0), datum_of(s[i].1)),
    decreases s.len(),
{
    if s.len() > 0 {
        lemma_pairs_of(s.drop_last());
    }
}

} // verus!
