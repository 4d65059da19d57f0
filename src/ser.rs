//! The encoder: appends the bytes of values to a growable buffer.
use vstd::prelude::*;

use crate::endian::{i16_bytes, i32_bytes, i64_bytes, u16_bytes, u32_bytes, u64_bytes};
use crate::error::Error;
use crate::value::{
    all_encodable, data_of, datum_of, encodable, encode, encode_all, encode_pairs,
    lemma_data_of, lemma_pairs_of, pairs_encodable, pairs_of, Datum, Value,
};
use crate::wire::{be_bytes, twos};

verus! {

/// Writes values to an in-memory byte sink, one traversal step at a time.
///
/// Each step appends the bytes of one node of the value; aggregates of fixed
/// arity (tuples, records) add no bytes of their own.
pub struct Serializer {
    output: Vec<u8>,
}

impl View for Serializer {
    type V = Seq<u8>;

    /// The bytes written so far.
    closed spec fn view(&self) -> Seq<u8> {
        self.output@
    }
}

/// The error for a string, byte sequence, sequence or mapping that is too
/// long for its two-byte prefix.
fn too_long() -> (e: Error)
    ensures
        e is Message,
{
    Error::custom("length does not fit a two-byte prefix")
}

impl Serializer {
    /// A serializer that has written nothing.
    pub fn new() -> (r: Serializer)
        ensures
            r@ == Seq::<u8>::empty(),
    {
        Serializer { output: Vec::new() }
    }

    /// The bytes written so far.
    pub fn into_bytes(self) -> (r: Vec<u8>)
        ensures
            r@ == self@,
    {
        self.output
    }

    fn put(&mut self, bytes: &[u8])
        ensures
            final(self)@ == old(self)@ + bytes@,
    {
        let mut i: usize = 0;
        while i < bytes.len()
            invariant
                i <= bytes@.len(),
                self@ == old(self)@ + bytes@.take(i as int),
            decreases bytes@.len() - i,
        {
            self.output.push(bytes[i]);
            i = i + 1;
            assert(self@ =~= old(self)@ + bytes@.take(i as int));
        }
        assert(bytes@.take(i as int) =~= bytes@);
    }

    pub fn serialize_bool(&mut self, v: bool)
        ensures
            final(self)@ == old(self)@ + encode(Datum::Bool(v)),
    {
        self.output.push(if v { 1u8 } else { 0u8 });
        assert(self@ =~= old(self)@ + encode(Datum::Bool(v)));
    }

    pub fn serialize_i8(&mut self, v: i8)
        ensures
            final(self)@ == old(self)@ + encode(Datum::I8(v)),
    {
        let byte: u8 = if v < 0 {
            (v as i16 + 256) as u8
        } else {
            v as u8
        };
        self.output.push(byte);
        assert(self@ =~= old(self)@ + encode(Datum::I8(v))) by {
            reveal_with_fuel(be_bytes, 2);
            assert(twos(v as int, 1) == byte) by {
                crate::wire::lemma_radix_pows();
            }
        }
    }

    pub fn serialize_i16(&mut self, v: i16)
        ensures
            final(self)@ == old(self)@ + encode(Datum::I16(v)),
    {
        let b = i16_bytes(v);
        self.put(b.as_slice());
    }

    pub fn serialize_i32(&mut self, v: i32)
        ensures
            final(self)@ == old(self)@ + encode(Datum::I32(v)),
    {
        let b = i32_bytes(v);
        self.put(b.as_slice());
    }

    pub fn serialize_i64(&mut self, v: i64)
        ensures
            final(self)@ == old(self)@ + encode(Datum::I64(v)),
    {
        let b = i64_bytes(v);
        self.put(b.as_slice());
    }

    pub fn serialize_u8(&mut self, v: u8)
        ensures
            final(self)@ == old(self)@ + encode(Datum::U8(v)),
    {
        self.output.push(v);
        assert(self@ =~= old(self)@ + encode(Datum::U8(v))) by {
            reveal_with_fuel(be_bytes, 2);
        }
    }

    pub fn serialize_u16(&mut self, v: u16)
        ensures
            final(self)@ == old(self)@ + encode(Datum::U16(v)),
    {
        let b = u16_bytes(v);
        self.put(b.as_slice());
    }

    pub fn serialize_u32(&mut self, v: u32)
        ensures
            final(self)@ == old(self)@ + encode(Datum::U32(v)),
    {
        let b = u32_bytes(v);
        self.put(b.as_slice());
    }

    pub fn serialize_u64(&mut self, v: u64)
        ensures
            final(self)@ == old(self)@ + encode(Datum::U64(v)),
    {
        let b = u64_bytes(v);
        self.put(b.as_slice());
    }

    /// Writes a 32-bit float, given as its IEEE-754 bit pattern.
    pub fn serialize_f32(&mut self, bits: u32)
        ensures
            final(self)@ == old(self)@ + encode(Datum::F32(bits)),
    {
        let b = u32_bytes(bits);
        self.put(b.as_slice());
    }

    /// Writes a 64-bit float, given as its IEEE-754 bit pattern.
    pub fn serialize_f64(&mut self, bits: u64)
        ensures
            final(self)@ == old(self)@ + encode(Datum::F64(bits)),
    {
        let b = u64_bytes(bits);
        self.put(b.as_slice());
    }

    /// Writes a character as its four-byte code point.
    pub fn serialize_char(&mut self, v: char)
        ensures
            final(self)@ == old(self)@ + encode(Datum::Char(v)),
    {
        let b = u32_bytes(v as u32);
        self.put(b.as_slice());
    }

    /// Writes the two-byte count that opens a variable-size aggregate.
    fn put_count(&mut self, n: usize)
        requires
            n <= 65535,
        ensures
            final(self)@ == old(self)@ + be_bytes(n as nat, 2),
    {
        let b = u16_bytes(n as u16);
        self.put(b.as_slice());
    }

    /// Writes a byte sequence: its two-byte length, then the bytes. Fails,
    /// writing nothing, when the length does not fit the prefix.
    pub fn serialize_bytes(&mut self, v: &[u8]) -> (r: Result<(), Error>)
        ensures
            match r {
                Ok(_) => encodable(Datum::Bytes(v@)) && final(self)@ == old(self)@ + encode(
                    Datum::Bytes(v@),
                ),
                Err(e) => !encodable(Datum::Bytes(v@)) && e is Message && final(self)@ == old(
                    self,
                )@,
            },
    {
        if v.len() > 65535 {
            return Err(too_long());
        }
        self.put_count(v.len());
        self.put(v);
        assert(self@ =~= old(self)@ + encode(Datum::Bytes(v@)));
        Ok(())
    }

    /// Writes a string: the two-byte length of its UTF-8 form, then that
    /// form. Fails, writing nothing, when the length does not fit the prefix.
    pub fn serialize_str(&mut self, v: &str) -> (r: Result<(), Error>)
        ensures
            match r {
                Ok(_) => encodable(Datum::Str(v@)) && final(self)@ == old(self)@ + encode(
                    Datum::Str(v@),
                ),
                Err(e) => !encodable(Datum::Str(v@)) && e is Message && final(self)@ == old(
                    self,
                )@,
            },
    {
        let bytes = v.as_bytes();
        if bytes.len() > 65535 {
            return Err(too_long());
        }
        self.put_count(bytes.len());
        self.put(bytes);
        assert(self@ =~= old(self)@ + encode(Datum::Str(v@)));
        Ok(())
    }

    /// Writes the presence flag of an absent optional value.
    pub fn serialize_none(&mut self)
        ensures
            final(self)@ == old(self)@ + encode(Datum::Opt(Option::None)),
    {
        self.output.push(0u8);
        assert(self@ =~= old(self)@ + encode(Datum::Opt(Option::None)));
    }

    /// Writes the presence flag of a present optional value; the inner value
    /// comes next.
    pub fn serialize_some(&mut self)
        ensures
            final(self)@ == old(self)@.push(1u8),
    {
        self.output.push(1u8);
    }

    /// Writes the one-byte tag of a union's variant; its payload comes next.
    pub fn serialize_variant(&mut self, index: u8)
        ensures
            final(self)@ == old(self)@.push(index),
    {
        self.output.push(index);
    }

    /// Opens a sequence of `len` elements by writing its count; the elements
    /// come next. Fails with `LengthNotKnown` when no count is given, and with
    /// a message when it does not fit the prefix; either way nothing is
    /// written.
    pub fn serialize_seq(&mut self, len: Option<usize>) -> (r: Result<(), Error>)
        ensures
            match len {
                Option::None => r matches Err(Error::LengthNotKnown) && final(self)@ == old(self)@,
                Option::Some(n) => if n <= 65535 {
                    r is Ok && final(self)@ == old(self)@ + be_bytes(n as nat, 2)
                } else {
                    r matches Err(e) && e is Message && final(self)@ == old(self)@
                },
            },
    {
        match len {
            Option::None => Err(Error::LengthNotKnown),
            Option::Some(n) => {
                if n > 65535 {
                    Err(too_long())
                } else {
                    self.put_count(n);
                    Ok(())
                }
            },
        }
    }

    /// Opens a mapping of `len` entries by writing its count; the entries
    /// come next, each key right before its value. Fails as `serialize_seq`
    /// does.
    pub fn serialize_map(&mut self, len: Option<usize>) -> (r: Result<(), Error>)
        ensures
            match len {
                Option::None => r matches Err(Error::LengthNotKnown) && final(self)@ == old(self)@,
                Option::Some(n) => if n <= 65535 {
                    r is Ok && final(self)@ == old(self)@ + be_bytes(n as nat, 2)
                } else {
                    r matches Err(e) && e is Message && final(self)@ == old(self)@
                },
            },
    {
        self.serialize_seq(len)
    }

    /// Writes a whole value. Succeeds exactly when every length and count in
    /// it fits its prefix, and then appends the value's encoding.
    pub fn serialize_value(&mut self, v: &Value) -> (r: Result<(), Error>)
        ensures
            r is Ok <==> encodable(v@),
            r is Ok ==> final(self)@ == old(self)@ + encode(v@),
            r matches Err(e) ==> e is Message,
        decreases v,
    {
        match v {
            Value::Unit => {
                assert(self@ =~= old(self)@ + encode(v@));
                Ok(())
            },
            Value::Bool(b) => {
                self.serialize_bool(*b);
                Ok(())
            },
            Value::I8(x) => {
                self.serialize_i8(*x);
                Ok(())
            },
            Value::I16(x) => {
                self.serialize_i16(*x);
                Ok(())
            },
            Value::I32(x) => {
                self.serialize_i32(*x);
                Ok(())
            },
            Value::I64(x) => {
                self.serialize_i64(*x);
                Ok(())
            },
            Value::U8(x) => {
                self.serialize_u8(*x);
                Ok(())
            },
            Value::U16(x) => {
                self.serialize_u16(*x);
                Ok(())
            },
            Value::U32(x) => {
                self.serialize_u32(*x);
                Ok(())
            },
            Value::U64(x) => {
                self.serialize_u64(*x);
                Ok(())
            },
            Value::F32(x) => {
                self.serialize_f32(*x);
                Ok(())
            },
            Value::F64(x) => {
                self.serialize_f64(*x);
                Ok(())
            },
            Value::Char(c) => {
                self.serialize_char(*c);
                Ok(())
            },
            Value::Str(s) => self.serialize_str(s.as_str()),
            Value::Bytes(b) => self.serialize_bytes(b.as_slice()),
            Value::Opt(o) => match o {
                Option::None => {
                    self.serialize_none();
                    Ok(())
                },
                Option::Some(x) => {
                    self.serialize_some();
                    let r = self.serialize_value(&**x);
                    assert(old(self)@ + encode(v@) =~= old(self)@.push(1u8) + encode((**x)@));
                    r
                },
            },
            Value::List(items) => {
                match self.serialize_seq(Option::Some(items.len())) {
                    Ok(_) => {},
                    Err(e) => {
                        proof {
                            lemma_data_of(items@);
                        }
                        return Err(e);
                    },
                }
                let r = self.serialize_all(items);
                proof {
                    lemma_data_of(items@);
                    assert(old(self)@ + encode(v@) =~= old(self)@ + be_bytes(items@.len(), 2)
                        + encode_all(data_of(items@)));
                }
                r
            },
            Value::Tuple(items) => {
                let r = self.serialize_all(items);
                proof {
                    assert(old(self)@ + encode(v@) =~= old(self)@ + encode_all(data_of(items@)));
                }
                r
            },
            Value::Entries(es) => {
                match self.serialize_map(Option::Some(es.len())) {
                    Ok(_) => {},
                    Err(e) => {
                        proof {
                            lemma_pairs_of(es@);
                        }
                        return Err(e);
                    },
                }
                let r = self.serialize_pairs(es);
                proof {
                    lemma_pairs_of(es@);
                    assert(old(self)@ + encode(v@) =~= old(self)@ + be_bytes(es@.len(), 2)
                        + encode_pairs(pairs_of(es@)));
                }
                r
            },
            Value::Variant(t, p) => {
                self.serialize_variant(*t);
                let r = self.serialize_value(&**p);
                assert(old(self)@ + encode(v@) =~= old(self)@.push(*t) + encode((**p)@));
                r
            },
        }
    }

    /// Writes the elements of `items` one after another.
    fn serialize_all(&mut self, items: &Vec<Value>) -> (r: Result<(), Error>)
        ensures
            r is Ok <==> all_encodable(data_of(items@)),
            r is Ok ==> final(self)@ == old(self)@ + encode_all(data_of(items@)),
            r matches Err(e) ==> e is Message,
        decreases items, 0nat,
    {
        let ghost ds = data_of(items@);
        proof {
            lemma_data_of(items@);
            assert(ds.skip(0) =~= ds);
        }
        let mut i: usize = 0;
        while i < items.len()
            invariant
                i <= items@.len(),
                ds == data_of(items@),
                ds.len() == items@.len(),
                forall|j: int| 0 <= j < items@.len() ==> #[trigger] ds[j] == datum_of(items@[j]),
                self@ + encode_all(ds.skip(i as int)) == old(self)@ + encode_all(ds),
                all_encodable(ds) == all_encodable(ds.skip(i as int)),
            decreases items@.len() - i,
        {
            let ghost before = self@;
            let ghost rest = ds.skip(i as int);
            assert(rest.subrange(1, rest.len() as int) =~= ds.skip(i + 1));
            assert(rest[0] == ds[i as int]);
            match self.serialize_value(&items[i]) {
                Ok(_) => {},
                Err(e) => {
                    return Err(e);
                },
            }
            assert(self@ + encode_all(ds.skip(i + 1)) =~= before + encode_all(rest));
            i = i + 1;
        }
        assert(ds.skip(i as int) =~= Seq::<Datum>::empty());
        assert(self@ + encode_all(ds.skip(i as int)) =~= self@);
        Ok(())
    }

    /// Writes the entries of `es` one after another, each key right before
    /// its value.
    fn serialize_pairs(&mut self, es: &Vec<(Value, Value)>) -> (r: Result<(), Error>)
        ensures
            r is Ok <==> pairs_encodable(pairs_of(es@)),
            r is Ok ==> final(self)@ == old(self)@ + encode_pairs(pairs_of(es@)),
            r matches Err(e) ==> e is Message,
        decreases es, 0nat,
    {
        let ghost ps = pairs_of(es@);
        proof {
            lemma_pairs_of(es@);
            assert(ps.skip(0) =~= ps);
        }
        let mut i: usize = 0;
        while i < es.len()
            invariant
                i <= es@.len(),
                ps == pairs_of(es@),
                ps.len() == es@.len(),
                forall|j: int|
                    0 <= j < es@.len() ==> #[trigger] ps[j] == (
                    datum_of(es@[j].0),
                    datum_of(es@[j].1),
                ),
                self@ + encode_pairs(ps.skip(i as int)) == old(self)@ + encode_pairs(ps),
                pairs_encodable(ps) == pairs_encodable(ps.skip(i as int)),
            decreases es@.len() - i,
        {
            let ghost before = self@;
            let ghost rest = ps.skip(i as int);
            assert(rest.subrange(1, rest.len() as int) =~= ps.skip(i + 1));
            assert(rest[0] == ps[i as int]);
            let e = &es[i];
            match self.serialize_value(&e.0) {
                Ok(_) => {},
                Err(err) => {
                    return Err(err);
                },
            }
            match self.serialize_value(&e.1) {
                Ok(_) => {},
                Err(err) => {
                    return Err(err);
                },
            }
            assert(self@ + encode_pairs(ps.skip(i + 1)) =~= before + encode_pairs(rest));
            i = i + 1;
        }
        assert(ps.skip(i as int) =~= Seq::<(Datum, Datum)>::empty());
        assert(self@ + encode_pairs(ps.skip(i as int)) =~= self@);
        Ok(())
    }
}

/// Encodes `value` into a fresh buffer. Succeeds exactly when every length
/// and count in it fits its two-byte prefix.
pub fn to_vec(value: &Value) -> (r: Result<Vec<u8>, Error>)
    ensures
        match r {
            Ok(b) => encodable(value@) && b@ == encode(value@),
            Err(e) => !encodable(value@) && e is Message,
        },
{
    let mut s = Serializer::new();
    match s.serialize_value(value) {
        Ok(_) => {
            assert(s@ =~= encode(value@));
            Ok(s.into_bytes())
        },
        Err(e) => Err(e),
    }
}

/// Appends the encoding of `value` to `writer`. Fails, writing nothing,
/// when a length or count in it does not fit its two-byte prefix.
pub fn to_writer(writer: &mut Vec<u8>, value: &Value) -> (r: Result<(), Error>)
    ensures
        match r {
            Ok(_) => encodable(value@) && final(writer)@ == old(writer)@ + encode(value@),
            Err(e) => !encodable(value@) && e is Message && final(writer)@ == old(writer)@,
        },
{
    let bytes = match to_vec(value) {
        Ok(b) => b,
        Err(e) => {
            return Err(e);
        },
    };
    let mut i: usize = 0;
    while i < bytes.len()
        invariant
            i <= bytes@.len(),
            writer@ == old(writer)@ + bytes@.take(i as int),
        decreases bytes@.len() - i,
    {
        writer.push(bytes[i]);
        i = i + 1;
        assert(writer@ =~= old(writer)@ + bytes@.take(i as int));
    }
    assert(bytes@.take(i as int) =~= bytes@);
    Ok(())
}

/// The one-byte tag of the variant with the given index; fails with a
/// message when the index does not fit one byte.
pub fn variant_tag(variant_index: u32) -> (r: Result<u8, Error>)
    ensures
        match r {
            Ok(t) => variant_index <= 255 && t == variant_index,
            Err(e) => variant_index > 255 && e is Message,
        },
{
    if variant_index > 255 {
        Err(Error::custom("variant index does not fit one byte"))
    } else {
        Ok(variant_index as u8)
    }
}

} // verus!
