//! The decoder: reads values of a given shape from a byte source.
use vstd::prelude::*;
use vstd::utf8::{decode_utf8, is_scalar, valid_utf8};

use crate::endian::{
    read_i16_at, read_i32_at, read_i64_at, read_u16_at, read_u32_at, read_u64_at,
};
use crate::error::{reports, Error, UNKNOWN_VARIANT};
use crate::value::{
    data_of, fixed, pairs_of, parse, parse_fields, parse_list, parse_pairs, Datum, Fault, Shape,
    Value,
};
use crate::wire::{be_value, lemma_be_value_two, lemma_radix_pows, u16_at};

verus! {

/// `r` and `after` are what decoding a value of shape `s` from `before`
/// gives: the value and the bytes after it, or the error for the first fault.
pub open spec fn decodes(s: Shape, before: Seq<u8>, r: Result<Value, Error>, after: Seq<u8>) -> bool {
    match parse(s, before) {
        Ok((d, rest)) => r matches Ok(v) && v@ == d && after == rest,
        Err(f) => r matches Err(e) && reports(e, f),
    }
}

/// `r` and `after` are what reading a primitive of shape `s` from `before`
/// gives, with `wrap` taking the primitive to its content.
pub open spec fn reads<T>(
    s: Shape,
    before: Seq<u8>,
    r: Result<T, Error>,
    after: Seq<u8>,
    wrap: spec_fn(T) -> Datum,
) -> bool {
    match parse(s, before) {
        Ok((d, rest)) => r matches Ok(x) && wrap(x) == d && after == rest,
        Err(f) => r matches Err(e) && reports(e, f),
    }
}

/// How many unread bytes the next step of reading a value of shape `s` needs
/// when `b` is what is unread: the whole value for a shape of fixed width, a
/// string or a byte sequence (its prefix alone while that is incomplete); the
/// flag, tag or count for the other shapes; nothing for a tuple.
pub open spec fn step_width(s: Shape, b: Seq<u8>) -> nat {
    match s {
        Shape::Unit => 0,
        Shape::Tuple(_) => 0,
        Shape::Bool => 1,
        Shape::I8 => 1,
        Shape::U8 => 1,
        Shape::Opt(_) => 1,
        Shape::Union(_) => 1,
        Shape::I16 => 2,
        Shape::U16 => 2,
        Shape::List(_) => 2,
        Shape::Entries(_, _) => 2,
        Shape::I32 => 4,
        Shape::U32 => 4,
        Shape::F32 => 4,
        Shape::Char => 4,
        Shape::I64 => 8,
        Shape::U64 => 8,
        Shape::F64 => 8,
        Shape::Str => if b.len() < 2 {
            2
        } else {
            2 + u16_at(b)
        },
        Shape::Bytes => if b.len() < 2 {
            2
        } else {
            2 + u16_at(b)
        },
    }
}

/// The shape holds no other shape.
pub open spec fn is_leaf(s: Shape) -> bool {
    !(s is Opt || s is List || s is Tuple || s is Entries || s is Union)
}

/// `pre` in front of the values of a parse, or the parse's fault.
pub open spec fn prepend<T>(pre: Seq<T>, r: Result<(Seq<T>, Seq<u8>), Fault>) -> Result<
    (Seq<T>, Seq<u8>),
    Fault,
> {
    match r {
        Ok((ds, rest)) => Ok((pre + ds, rest)),
        Err(f) => Err(f),
    }
}

/// Relies on `String::from_utf8`: accepts exactly the valid UTF-8 byte
/// strings, and keeps the characters they spell.
#[verifier::external_body]
fn utf8_string(bytes: Vec<u8>) -> (r: Option<String>)
    ensures
        r is Some <==> valid_utf8(bytes@),
        r matches Some(s) ==> s@ == decode_utf8(bytes@),
{
    String::from_utf8(bytes).ok()
}

/// Relies on `char::from_u32`: accepts exactly the Unicode scalar values.
#[verifier::external_body]
fn scalar_char(u: u32) -> (r: Option<char>)
    ensures
        r is Some <==> is_scalar(u),
        r matches Some(c) ==> c as u32 == u,
{
    char::from_u32(u)
}

/// Reads values from an in-memory byte source, front to back.
pub struct Deserializer {
    input: Vec<u8>,
    pos: usize,
}

impl View for Deserializer {
    type V = Seq<u8>;

    /// The bytes not read yet.
    closed spec fn view(&self) -> Seq<u8> {
        self.input@.skip(self.pos as int)
    }
}

/// The cursor of a sequence, tuple or mapping being read element by element:
/// how many of its declared elements have been handed out so far.
pub struct LengthDefined {
    length: u16,
    index: u16,
}

impl LengthDefined {
    #[verifier::type_invariant]
    spec fn inv(&self) -> bool {
        self.index <= self.length
    }

    /// The declared number of elements.
    pub closed spec fn length(&self) -> nat {
        self.length as nat
    }

    /// The number of elements handed out so far.
    pub closed spec fn index(&self) -> nat {
        self.index as nat
    }

    /// A cursor over `length` elements, none handed out yet.
    pub fn new(length: u16) -> (r: LengthDefined)
        ensures
            r.length() == length,
            r.index() == 0,
    {
        LengthDefined { length, index: 0 }
    }

    /// Claims the next element. True while elements remain, and then one more
    /// has been handed out; false once the declared count is reached,
    /// whatever bytes the source still holds.
    pub fn next(&mut self) -> (r: bool)
        ensures
            r == (old(self).index() < old(self).length()),
            final(self).length() == old(self).length(),
            final(self).index() == if r {
                old(self).index() + 1
            } else {
                old(self).index()
            },
    {
        proof {
            use_type_invariant(&*self);
        }
        if self.index < self.length {
            self.index = self.index + 1;
            true
        } else {
            false
        }
    }
}

fn copy_range(b: &Vec<u8>, at: usize, n: usize) -> (r: Vec<u8>)
    requires
        at + n <= b@.len(),
    ensures
        r@ == b@.subrange(at as int, at + n),
{
    let mut out: Vec<u8> = Vec::new();
    let len = b.len();
    let mut i: usize = 0;
    while i < n
        invariant
            i <= n,
            at + n <= b@.len(),
            len == b@.len(),
            out@ == b@.subrange(at as int, at + i),
        decreases n - i,
    {
        out.push(b[at + i]);
        i = i + 1;
        assert(out@ =~= b@.subrange(at as int, at + i));
    }
    out
}

impl Deserializer {
    #[verifier::type_invariant]
    spec fn inv(&self) -> bool {
        self.pos <= self.input@.len()
    }

    /// Every byte the source has delivered, read or not.
    pub closed spec fn source(&self) -> Seq<u8> {
        self.input@
    }

    /// How many bytes have been read.
    pub closed spec fn consumed(&self) -> nat {
        self.pos as nat
    }

    /// A deserializer over the bytes of a source, from their start.
    pub fn from_reader(input: Vec<u8>) -> (r: Deserializer)
        ensures
            r@ == input@,
            r.source() == input@,
            r.consumed() == 0,
    {
        let r = Deserializer { input, pos: 0 };
        assert(r@ =~= input@);
        r
    }

    /// A deserializer over a copy of the bytes of a buffer.
    pub fn from_bytes(input: &[u8]) -> (r: Deserializer)
        ensures
            r@ == input@,
            r.source() == input@,
            r.consumed() == 0,
    {
        let mut bytes: Vec<u8> = Vec::new();
        let mut i: usize = 0;
        while i < input.len()
            invariant
                i <= input@.len(),
                bytes@ == input@.take(i as int),
            decreases input@.len() - i,
        {
            bytes.push(input[i]);
            i = i + 1;
            assert(bytes@ =~= input@.take(i as int));
        }
        assert(bytes@ =~= input@);
        Deserializer::from_reader(bytes)
    }

    /// Appends bytes that the source has delivered since.
    pub fn feed(&mut self, bytes: &[u8])
        ensures
            final(self)@ == old(self)@ + bytes@,
            final(self).source() == old(self).source() + bytes@,
            final(self).consumed() == old(self).consumed(),
    {
        proof {
            use_type_invariant(&*self);
        }
        let mut input = copy_range(&self.input, 0, self.input.len());
        assert(input@ =~= old(self).input@);
        let mut i: usize = 0;
        while i < bytes.len()
            invariant
                i <= bytes@.len(),
                input@ == old(self).input@ + bytes@.take(i as int),
            decreases bytes@.len() - i,
        {
            input.push(bytes[i]);
            i = i + 1;
            assert(input@ =~= old(self).input@ + bytes@.take(i as int));
        }
        assert(bytes@.take(i as int) =~= bytes@);
        *self = Deserializer { input, pos: self.pos };
        assert(self@ =~= old(self)@ + bytes@);
    }

    /// The number of bytes not read yet.
    pub fn remaining_len(&self) -> (r: usize)
        ensures
            r == self@.len(),
    {
        proof {
            use_type_invariant(self);
        }
        self.input.len() - self.pos
    }

    /// How many unread bytes the next step of reading a value of the given
    /// shape needs. For a shape that holds no other shape, reading fails for
    /// want of bytes exactly when fewer than that are unread.
    pub fn needed(&self, shape: &Shape) -> (r: usize)
        ensures
            r == step_width(*shape, self@),
            is_leaf(*shape) ==> (parse(*shape, self@) matches Err(Fault::Truncated) <==> self@.len()
                < r),
    {
        proof {
            use_type_invariant(self);
        }
        match shape {
            Shape::Unit => 0,
            Shape::Tuple(_) => 0,
            Shape::Bool | Shape::I8 | Shape::U8 | Shape::Opt(_) | Shape::Union(_) => 1,
            Shape::I16 | Shape::U16 | Shape::List(_) | Shape::Entries(_, _) => 2,
            Shape::I32 | Shape::U32 | Shape::F32 | Shape::Char => 4,
            Shape::I64 | Shape::U64 | Shape::F64 => 8,
            Shape::Str | Shape::Bytes => {
                if self.input.len() - self.pos < 2 {
                    2
                } else {
                    let n = read_u16_at(&self.input, self.pos);
                    proof {
                        assert(self.input@.subrange(self.pos as int, self.pos + 2) =~= self@.take(2));
                        lemma_be_value_two(self@);
                    }
                    2 + n as usize
                }
            },
        }
    }

    /// The trailing-bytes check: fails when any byte is left unread.
    pub fn end(&self) -> (r: Result<(), Error>)
        ensures
            r is Ok <==> self@.len() == 0,
            r matches Err(e) ==> e is TrailingBytes,
    {
        proof {
            use_type_invariant(self);
        }
        if self.pos < self.input.len() {
            Err(Error::TrailingBytes)
        } else {
            Ok(())
        }
    }

    /// Consumes the next `n` bytes and tells where they start in the input.
    fn advance(&mut self, n: usize) -> (r: Result<usize, Error>)
        ensures
            final(self).source() == old(self).source(),
            old(self).consumed() + old(self)@.len() == final(self).consumed() + final(self)@.len(),
            final(self).input == old(self).input,
            match r {
                Ok(at) => {
                    &&& n <= old(self)@.len()
                    &&& at + n <= final(self).input@.len()
                    &&& final(self).input@.subrange(at as int, at + n) == old(self)@.take(n as int)
                    &&& final(self)@ == old(self)@.skip(n as int)
                },
                Err(e) => old(self)@.len() < n && e is EofWhileDeserializing,
            },
    {
        proof {
            use_type_invariant(&*self);
        }
        if n > self.input.len() - self.pos {
            return Err(Error::EofWhileDeserializing);
        }
        let at = self.pos;
        self.pos = self.pos + n;
        assert(self.input@.subrange(at as int, at + n) =~= old(self)@.take(n as int));
        assert(self@ =~= old(self)@.skip(n as int));
        Ok(at)
    }

    fn read_byte(&mut self) -> (r: Result<u8, Error>)
        ensures
            final(self).source() == old(self).source(),
            old(self).consumed() + old(self)@.len() == final(self).consumed() + final(self)@.len(),
            match r {
                Ok(x) => old(self)@.len() >= 1 && x == old(self)@[0] && fixed(old(self)@, 1) == x
                    && final(self)@ == old(self)@.skip(1),
                Err(e) => old(self)@.len() < 1 && e is EofWhileDeserializing,
            },
    {
        let at = match self.advance(1) {
            Ok(at) => at,
            Err(e) => {
                return Err(e);
            },
        };
        let x = self.input[at];
        proof {
            assert(old(self)@.take(1)[0] == x);
            assert(old(self)@.take(1).drop_last() =~= Seq::<u8>::empty());
            reveal_with_fuel(be_value, 2);
        }
        Ok(x)
    }

    /// Reads the two-byte count of a sequence, mapping, string or byte
    /// sequence.
    pub fn deserialize_count(&mut self) -> (r: Result<u16, Error>)
        ensures
            final(self).source() == old(self).source(),
            old(self).consumed() + old(self)@.len() == final(self).consumed() + final(self)@.len(),
            match r {
                Ok(n) => old(self)@.len() >= 2 && n == u16_at(old(self)@) && final(self)@ == old(
                    self,
                )@.skip(2),
                Err(e) => old(self)@.len() < 2 && e is EofWhileDeserializing,
            },
    {
        let at = match self.advance(2) {
            Ok(at) => at,
            Err(e) => {
                return Err(e);
            },
        };
        let n = read_u16_at(&self.input, at);
        proof {
            lemma_be_value_two(old(self)@);
        }
        Ok(n)
    }

    /// Reads a bool: one byte, any nonzero value being true.
    pub fn deserialize_bool(&mut self) -> (r: Result<bool, Error>)
        ensures
            final(self).source() == old(self).source(),
            old(self).consumed() + old(self)@.len() == final(self).consumed() + final(self)@.len(),
            reads(Shape::Bool, old(self)@, r, final(self)@, |x: bool| Datum::Bool(x)),
    {
        match self.read_byte() {
            Ok(x) => Ok(x != 0),
            Err(e) => Err(e),
        }
    }

    pub fn deserialize_u8(&mut self) -> (r: Result<u8, Error>)
        ensures
            final(self).source() == old(self).source(),
            old(self).consumed() + old(self)@.len() == final(self).consumed() + final(self)@.len(),
            reads(Shape::U8, old(self)@, r, final(self)@, |x: u8| Datum::U8(x)),
    {
        self.read_byte()
    }

    pub fn deserialize_i8(&mut self) -> (r: Result<i8, Error>)
        ensures
            final(self).source() == old(self).source(),
            old(self).consumed() + old(self)@.len() == final(self).consumed() + final(self)@.len(),
            reads(Shape::I8, old(self)@, r, final(self)@, |x: i8| Datum::I8(x)),
    {
        proof {
            lemma_radix_pows();
        }
        match self.read_byte() {
            Ok(x) => {
                let v: i8 = if x >= 128 {
                    (x as i16 - 256) as i8
                } else {
                    x as i8
                };
                Ok(v)
            },
            Err(e) => Err(e),
        }
    }

    pub fn deserialize_i16(&mut self) -> (r: Result<i16, Error>)
        ensures
            final(self).source() == old(self).source(),
            old(self).consumed() + old(self)@.len() == final(self).consumed() + final(self)@.len(),
            reads(Shape::I16, old(self)@, r, final(self)@, |x: i16| Datum::I16(x)),
    {
        proof {
            lemma_radix_pows();
        }
        match self.advance(2) {
            Ok(at) => Ok(read_i16_at(&self.input, at)),
            Err(e) => Err(e),
        }
    }

    pub fn deserialize_i32(&mut self) -> (r: Result<i32, Error>)
        ensures
            final(self).source() == old(self).source(),
            old(self).consumed() + old(self)@.len() == final(self).consumed() + final(self)@.len(),
            reads(Shape::I32, old(self)@, r, final(self)@, |x: i32| Datum::I32(x)),
    {
        proof {
            lemma_radix_pows();
        }
        match self.advance(4) {
            Ok(at) => Ok(read_i32_at(&self.input, at)),
            Err(e) => Err(e),
        }
    }

    pub fn deserialize_i64(&mut self) -> (r: Result<i64, Error>)
        ensures
            final(self).source() == old(self).source(),
            old(self).consumed() + old(self)@.len() == final(self).consumed() + final(self)@.len(),
            reads(Shape::I64, old(self)@, r, final(self)@, |x: i64| Datum::I64(x)),
    {
        proof {
            lemma_radix_pows();
        }
        match self.advance(8) {
            Ok(at) => Ok(read_i64_at(&self.input, at)),
            Err(e) => Err(e),
        }
    }

    pub fn deserialize_u16(&mut self) -> (r: Result<u16, Error>)
        ensures
            final(self).source() == old(self).source(),
            old(self).consumed() + old(self)@.len() == final(self).consumed() + final(self)@.len(),
            reads(Shape::U16, old(self)@, r, final(self)@, |x: u16| Datum::U16(x)),
    {
        proof {
            lemma_radix_pows();
        }
        match self.advance(2) {
            Ok(at) => Ok(read_u16_at(&self.input, at)),
            Err(e) => Err(e),
        }
    }

    pub fn deserialize_u32(&mut self) -> (r: Result<u32, Error>)
        ensures
            final(self).source() == old(self).source(),
            old(self).consumed() + old(self)@.len() == final(self).consumed() + final(self)@.len(),
            reads(Shape::U32, old(self)@, r, final(self)@, |x: u32| Datum::U32(x)),
    {
        proof {
            lemma_radix_pows();
        }
        match self.advance(4) {
            Ok(at) => Ok(read_u32_at(&self.input, at)),
            Err(e) => Err(e),
        }
    }

    pub fn deserialize_u64(&mut self) -> (r: Result<u64, Error>)
        ensures
            final(self).source() == old(self).source(),
            old(self).consumed() + old(self)@.len() == final(self).consumed() + final(self)@.len(),
            reads(Shape::U64, old(self)@, r, final(self)@, |x: u64| Datum::U64(x)),
    {
        proof {
            lemma_radix_pows();
        }
        match self.advance(8) {
            Ok(at) => Ok(read_u64_at(&self.input, at)),
            Err(e) => Err(e),
        }
    }

    /// Reads a 32-bit float as its IEEE-754 bit pattern.
    pub fn deserialize_f32(&mut self) -> (r: Result<u32, Error>)
        ensures
            final(self).source() == old(self).source(),
            old(self).consumed() + old(self)@.len() == final(self).consumed() + final(self)@.len(),
            reads(Shape::F32, old(self)@, r, final(self)@, |x: u32| Datum::F32(x)),
    {
        proof {
            lemma_radix_pows();
        }
        match self.advance(4) {
            Ok(at) => Ok(read_u32_at(&self.input, at)),
            Err(e) => Err(e),
        }
    }

    /// Reads a 64-bit float as its IEEE-754 bit pattern.
    pub fn deserialize_f64(&mut self) -> (r: Result<u64, Error>)
        ensures
            final(self).source() == old(self).source(),
            old(self).consumed() + old(self)@.len() == final(self).consumed() + final(self)@.len(),
            reads(Shape::F64, old(self)@, r, final(self)@, |x: u64| Datum::F64(x)),
    {
        proof {
            lemma_radix_pows();
        }
        match self.advance(8) {
            Ok(at) => Ok(read_u64_at(&self.input, at)),
            Err(e) => Err(e),
        }
    }

    /// Reads a character: a four-byte code point, which must be a Unicode
    /// scalar value.
    pub fn deserialize_char(&mut self) -> (r: Result<char, Error>)
        ensures
            final(self).source() == old(self).source(),
            old(self).consumed() + old(self)@.len() == final(self).consumed() + final(self)@.len(),
            reads(Shape::Char, old(self)@, r, final(self)@, |x: char| Datum::Char(x)),
            r matches Err(Error::InvalidChar) ==> final(self)@ == old(self)@.skip(4),
    {
        proof {
            lemma_radix_pows();
        }
        match self.advance(4) {
            Ok(at) => {
                let u = read_u32_at(&self.input, at);
                match scalar_char(u) {
                    Some(c) => {
                        proof {
                            vstd::utf8::char_u32_cast(c, u);
                        }
                        Ok(c)
                    },
                    None => Err(Error::InvalidChar),
                }
            },
            Err(e) => Err(e),
        }
    }

    /// Reads a string: a two-byte length, then that many bytes of UTF-8.
    pub fn deserialize_string(&mut self) -> (r: Result<String, Error>)
        ensures
            final(self).source() == old(self).source(),
            old(self).consumed() + old(self)@.len() == final(self).consumed() + final(self)@.len(),
            reads(Shape::Str, old(self)@, r, final(self)@, |x: String| Datum::Str(x@)),
            r matches Err(Error::InvalidString) ==> final(self)@ == old(self)@.skip(
                2 + u16_at(old(self)@) as int,
            ),
    {
        let n = match self.deserialize_count() {
            Ok(n) => n,
            Err(e) => {
                return Err(e);
            },
        };
        let at = match self.advance(n as usize) {
            Ok(at) => at,
            Err(e) => {
                return Err(e);
            },
        };
        let bytes = copy_range(&self.input, at, n as usize);
        proof {
            assert(bytes@ =~= old(self)@.subrange(2, 2 + n as int));
            assert(self@ =~= old(self)@.skip(2 + n as int));
        }
        match utf8_string(bytes) {
            Some(s) => Ok(s),
            None => Err(Error::InvalidString),
        }
    }

    /// Reads a byte sequence: a two-byte length, then that many bytes.
    pub fn deserialize_byte_buf(&mut self) -> (r: Result<Vec<u8>, Error>)
        ensures
            final(self).source() == old(self).source(),
            old(self).consumed() + old(self)@.len() == final(self).consumed() + final(self)@.len(),
            reads(Shape::Bytes, old(self)@, r, final(self)@, |x: Vec<u8>| Datum::Bytes(x@)),
    {
        let n = match self.deserialize_count() {
            Ok(n) => n,
            Err(e) => {
                return Err(e);
            },
        };
        let at = match self.advance(n as usize) {
            Ok(at) => at,
            Err(e) => {
                return Err(e);
            },
        };
        let bytes = copy_range(&self.input, at, n as usize);
        proof {
            assert(bytes@ =~= old(self)@.subrange(2, 2 + n as int));
            assert(self@ =~= old(self)@.skip(2 + n as int));
        }
        Ok(bytes)
    }

    /// Reads the presence flag of an optional value: any nonzero byte means
    /// the inner value follows.
    pub fn deserialize_option(&mut self) -> (r: Result<bool, Error>)
        ensures
            final(self).source() == old(self).source(),
            old(self).consumed() + old(self)@.len() == final(self).consumed() + final(self)@.len(),
            match r {
                Ok(present) => old(self)@.len() >= 1 && present == (old(self)@[0] != 0)
                    && final(self)@ == old(self)@.skip(1),
                Err(e) => old(self)@.len() < 1 && e is EofWhileDeserializing,
            },
    {
        match self.read_byte() {
            Ok(x) => Ok(x != 0),
            Err(e) => Err(e),
        }
    }

    /// Reads the one-byte tag of a union's variant.
    pub fn deserialize_variant_index(&mut self) -> (r: Result<u8, Error>)
        ensures
            final(self).source() == old(self).source(),
            old(self).consumed() + old(self)@.len() == final(self).consumed() + final(self)@.len(),
            match r {
                Ok(t) => old(self)@.len() >= 1 && t == old(self)@[0] && final(self)@ == old(
                    self,
                )@.skip(1),
                Err(e) => old(self)@.len() < 1 && e is EofWhileDeserializing,
            },
    {
        self.read_byte()
    }

    /// Reads a value of the given shape.
    pub fn deserialize(&mut self, shape: &Shape) -> (r: Result<Value, Error>)
        ensures
            final(self).source() == old(self).source(),
            old(self).consumed() + old(self)@.len() == final(self).consumed() + final(self)@.len(),
            decodes(*shape, old(self)@, r, final(self)@),
        decreases shape, 1nat,
    {
        proof {
            lemma_radix_pows();
        }
        match shape {
            Shape::Unit => Ok(Value::Unit),
            Shape::Bool => match self.deserialize_bool() {
                Ok(x) => Ok(Value::Bool(x)),
                Err(e) => Err(e),
            },
            Shape::I8 => match self.deserialize_i8() {
                Ok(x) => Ok(Value::I8(x)),
                Err(e) => Err(e),
            },
            Shape::I16 => match self.deserialize_i16() {
                Ok(x) => Ok(Value::I16(x)),
                Err(e) => Err(e),
            },
            Shape::I32 => match self.deserialize_i32() {
                Ok(x) => Ok(Value::I32(x)),
                Err(e) => Err(e),
            },
            Shape::I64 => match self.deserialize_i64() {
                Ok(x) => Ok(Value::I64(x)),
                Err(e) => Err(e),
            },
            Shape::U8 => match self.deserialize_u8() {
                Ok(x) => Ok(Value::U8(x)),
                Err(e) => Err(e),
            },
            Shape::U16 => match self.deserialize_u16() {
                Ok(x) => Ok(Value::U16(x)),
                Err(e) => Err(e),
            },
            Shape::U32 => match self.deserialize_u32() {
                Ok(x) => Ok(Value::U32(x)),
                Err(e) => Err(e),
            },
            Shape::U64 => match self.deserialize_u64() {
                Ok(x) => Ok(Value::U64(x)),
                Err(e) => Err(e),
            },
            Shape::F32 => match self.deserialize_f32() {
                Ok(x) => Ok(Value::F32(x)),
                Err(e) => Err(e),
            },
            Shape::F64 => match self.deserialize_f64() {
                Ok(x) => Ok(Value::F64(x)),
                Err(e) => Err(e),
            },
            Shape::Char => match self.deserialize_char() {
                Ok(x) => Ok(Value::Char(x)),
                Err(e) => Err(e),
            },
            Shape::Str => match self.deserialize_string() {
                Ok(x) => Ok(Value::Str(x)),
                Err(e) => Err(e),
            },
            Shape::Bytes => match self.deserialize_byte_buf() {
                Ok(x) => Ok(Value::Bytes(x)),
                Err(e) => Err(e),
            },
            Shape::Opt(e) => match self.deserialize_option() {
                Ok(present) => {
                    if !present {
                        Ok(Value::Opt(None))
                    } else {
                        match self.deserialize(&**e) {
                            Ok(v) => Ok(Value::Opt(Some(Box::new(v)))),
                            Err(err) => Err(err),
                        }
                    }
                },
                Err(err) => Err(err),
            },
            Shape::List(_) => {
                let n = match self.deserialize_count() {
                    Ok(n) => n,
                    Err(e) => {
                        return Err(e);
                    },
                };
                match self.deserialize_list(shape, n) {
                    Ok(items) => Ok(Value::List(items)),
                    Err(e) => Err(e),
                }
            },
            Shape::Tuple(ss) => match self.deserialize_fields(ss) {
                Ok(items) => Ok(Value::Tuple(items)),
                Err(e) => Err(e),
            },
            Shape::Entries(_, _) => {
                let n = match self.deserialize_count() {
                    Ok(n) => n,
                    Err(e) => {
                        return Err(e);
                    },
                };
                match self.deserialize_pairs(shape, n) {
                    Ok(es) => Ok(Value::Entries(es)),
                    Err(e) => Err(e),
                }
            },
            Shape::Union(ss) => {
                let tag = match self.deserialize_variant_index() {
                    Ok(t) => t,
                    Err(e) => {
                        return Err(e);
                    },
                };
                if (tag as usize) < ss.len() {
                    match self.deserialize(&ss[tag as usize]) {
                        Ok(v) => Ok(Value::Variant(tag, Box::new(v))),
                        Err(e) => Err(e),
                    }
                } else {
                    Err(Error::custom(UNKNOWN_VARIANT))
                }
            },
        }
    }

    /// Reads the `n` elements of a sequence of the list shape `shape`.
    fn deserialize_list(&mut self, shape: &Shape, n: u16) -> (r: Result<Vec<Value>, Error>)
        requires
            shape is List,
        ensures
            final(self).source() == old(self).source(),
            old(self).consumed() + old(self)@.len() == final(self).consumed() + final(self)@.len(),
            match parse_list(*shape, n as nat, old(self)@) {
                Ok((ds, rest)) => r matches Ok(items) && data_of(items@) == ds && final(self)@
                    == rest,
                Err(f) => r matches Err(e) && reports(e, f),
            },
        decreases shape, 0nat,
    {
        let elem: &Shape = match shape {
            Shape::List(e) => &**e,
            _ => {
                return Ok(Vec::new());
            },
        };
        let mut items: Vec<Value> = Vec::new();
        let mut i: u16 = 0;
        proof {
            assert(data_of(items@) =~= Seq::<Datum>::empty());
            assert(prepend(data_of(items@), parse_list(*shape, n as nat, old(self)@)) =~= parse_list(
                *shape,
                n as nat,
                old(self)@,
            )) by {
                match parse_list(*shape, n as nat, old(self)@) {
                    Ok((ds, rest)) => {
                        assert(Seq::<Datum>::empty() + ds =~= ds);
                    },
                    Err(f) => {},
                }
            }
        }
        while i < n
            invariant
                i <= n,
                self.source() == old(self).source(),
                old(self).consumed() + old(self)@.len() == self.consumed() + self@.len(),
                shape is List,
                *elem == *shape->List_0,
                parse_list(*shape, n as nat, old(self)@) == prepend(
                    data_of(items@),
                    parse_list(*shape, (n - i) as nat, self@),
                ),
            decreases n - i,
        {
            let ghost old_items = items@;
            let ghost pre = data_of(items@);
            match self.deserialize(elem) {
                Ok(v) => {
                    proof {
                        match parse_list(*shape, (n - i - 1) as nat, self@) {
                            Ok((ds, rest)) => {
                                assert(pre.push(v@) + ds =~= pre + (seq![v@] + ds));
                            },
                            Err(f) => {},
                        }
                    }
                    let ghost vd = v@;
                    items.push(v);
                    proof {
                        assert(items@.drop_last() =~= old_items);
                        assert(data_of(items@) == pre.push(vd));
                    }
                },
                Err(e) => {
                    return Err(e);
                },
            }
            i = i + 1;
        }
        Ok(items)
    }

    /// Reads one value of each shape in `ss`, in order.
    fn deserialize_fields(&mut self, ss: &Vec<Shape>) -> (r: Result<Vec<Value>, Error>)
        ensures
            final(self).source() == old(self).source(),
            old(self).consumed() + old(self)@.len() == final(self).consumed() + final(self)@.len(),
            match parse_fields(ss@, old(self)@) {
                Ok((ds, rest)) => r matches Ok(items) && data_of(items@) == ds && final(self)@
                    == rest,
                Err(f) => r matches Err(e) && reports(e, f),
            },
        decreases ss, 0nat,
    {
        let mut items: Vec<Value> = Vec::new();
        let mut i: usize = 0;
        proof {
            assert(ss@.skip(0) =~= ss@);
            assert(data_of(items@) =~= Seq::<Datum>::empty());
            assert(prepend(data_of(items@), parse_fields(ss@, old(self)@)) =~= parse_fields(
                ss@,
                old(self)@,
            )) by {
                match parse_fields(ss@, old(self)@) {
                    Ok((ds, rest)) => {
                        assert(Seq::<Datum>::empty() + ds =~= ds);
                    },
                    Err(f) => {},
                }
            }
        }
        while i < ss.len()
            invariant
                i <= ss@.len(),
                self.source() == old(self).source(),
                old(self).consumed() + old(self)@.len() == self.consumed() + self@.len(),
                parse_fields(ss@, old(self)@) == prepend(
                    data_of(items@),
                    parse_fields(ss@.skip(i as int), self@),
                ),
            decreases ss@.len() - i,
        {
            let ghost old_items = items@;
            let ghost pre = data_of(items@);
            let ghost rest_shapes = ss@.skip(i as int);
            assert(rest_shapes.subrange(1, rest_shapes.len() as int) =~= ss@.skip(i + 1));
            assert(rest_shapes[0] == ss@[i as int]);
            match self.deserialize(&ss[i]) {
                Ok(v) => {
                    proof {
                        match parse_fields(ss@.skip(i + 1), self@) {
                            Ok((ds, rest)) => {
                                assert(pre.push(v@) + ds =~= pre + (seq![v@] + ds));
                            },
                            Err(f) => {},
                        }
                    }
                    let ghost vd = v@;
                    items.push(v);
                    proof {
                        assert(items@.drop_last() =~= old_items);
                        assert(data_of(items@) == pre.push(vd));
                    }
                },
                Err(e) => {
                    return Err(e);
                },
            }
            i = i + 1;
        }
        proof {
            assert(ss@.skip(i as int) =~= Seq::<Shape>::empty());
            assert(data_of(items@) + Seq::<Datum>::empty() =~= data_of(items@));
        }
        Ok(items)
    }

    /// Reads the `n` entries of a mapping of the shape `shape`, each a key
    /// followed by its value.
    fn deserialize_pairs(&mut self, shape: &Shape, n: u16) -> (r: Result<
        Vec<(Value, Value)>,
        Error,
    >)
        requires
            shape is Entries,
        ensures
            final(self).source() == old(self).source(),
            old(self).consumed() + old(self)@.len() == final(self).consumed() + final(self)@.len(),
            match parse_pairs(*shape, n as nat, old(self)@) {
                Ok((ps, rest)) => r matches Ok(es) && pairs_of(es@) == ps && final(self)@ == rest,
                Err(f) => r matches Err(e) && reports(e, f),
            },
        decreases shape, 0nat,
    {
        let (ks, vs): (&Shape, &Shape) = match shape {
            Shape::Entries(k, v) => (&**k, &**v),
            _ => {
                return Ok(Vec::new());
            },
        };
        let mut es: Vec<(Value, Value)> = Vec::new();
        let mut i: u16 = 0;
        proof {
            assert(pairs_of(es@) =~= Seq::<(Datum, Datum)>::empty());
            assert(prepend(pairs_of(es@), parse_pairs(*shape, n as nat, old(self)@)) =~= parse_pairs(
                *shape,
                n as nat,
                old(self)@,
            )) by {
                match parse_pairs(*shape, n as nat, old(self)@) {
                    Ok((ps, rest)) => {
                        assert(Seq::<(Datum, Datum)>::empty() + ps =~= ps);
                    },
                    Err(f) => {},
                }
            }
        }
        while i < n
            invariant
                i <= n,
                self.source() == old(self).source(),
                old(self).consumed() + old(self)@.len() == self.consumed() + self@.len(),
                shape is Entries,
                *ks == *shape->Entries_0,
                *vs == *shape->Entries_1,
                parse_pairs(*shape, n as nat, old(self)@) == prepend(
                    pairs_of(es@),
                    parse_pairs(*shape, (n - i) as nat, self@),
                ),
            decreases n - i,
        {
            let ghost pre = pairs_of(es@);
            let k = match self.deserialize(ks) {
                Ok(k) => k,
                Err(e) => {
                    return Err(e);
                },
            };
            let v = match self.deserialize(vs) {
                Ok(v) => v,
                Err(e) => {
                    return Err(e);
                },
            };
            proof {
                match parse_pairs(*shape, (n - i - 1) as nat, self@) {
                    Ok((ps, rest)) => {
                        assert(pre.push((k@, v@)) + ps =~= pre + (seq![(k@, v@)] + ps));
                    },
                    Err(f) => {},
                }
            }
            let ghost kd = k@;
            let ghost vd = v@;
            let ghost old_es = es@;
            es.push((k, v));
            proof {
                assert(es@.drop_last() =~= old_es);
                assert(pairs_of(es@) == pre.push((kd, vd)));
            }
            i = i + 1;
        }
        Ok(es)
    }
}

/// Decodes a value of the given shape from the front of a byte source. Bytes
/// after the value are left alone: a stream may carry more after it.
pub fn from_reader(shape: &Shape, input: &[u8]) -> (r: Result<Value, Error>)
    ensures
        match parse(*shape, input@) {
            Ok((d, _)) => r matches Ok(v) && v@ == d,
            Err(f) => r matches Err(e) && reports(e, f),
        },
{
    let mut de = Deserializer::from_bytes(input);
    de.deserialize(shape)
}

/// Decodes a value of the given shape from a whole buffer. Fails with
/// `TrailingBytes` when bytes are left after a value that decoded.
pub fn from_bytes(shape: &Shape, input: &[u8]) -> (r: Result<Value, Error>)
    ensures
        match parse(*shape, input@) {
            Ok((d, rest)) => if rest.len() == 0 {
                r matches Ok(v) && v@ == d
            } else {
                r matches Err(e) && e is TrailingBytes
            },
            Err(f) => r matches Err(e) && reports(e, f),
        },
{
    let mut de = Deserializer::from_bytes(input);
    let v = match de.deserialize(shape) {
        Ok(v) => v,
        Err(e) => {
            return Err(e);
        },
    };
    match de.end() {
        Ok(_) => Ok(v),
        Err(e) => Err(e),
    }
}

/// Decodes a value of the given shape from the front of `input`, and tells
/// how many bytes it took. Bytes after the value are left alone.
pub fn decode_prefix(shape: &Shape, input: &[u8]) -> (r: Result<(Value, usize), Error>)
    ensures
        match parse(*shape, input@) {
            Ok((d, rest)) => r matches Ok((v, n)) && v@ == d && n + rest.len() == input@.len()
                && rest == input@.skip(n as int),
            Err(f) => r matches Err(e) && reports(e, f),
        },
{
    let mut de = Deserializer::from_bytes(input);
    match de.deserialize(shape) {
        Ok(v) => {
            proof {
                use_type_invariant(&de);
            }
            Ok((v, de.pos))
        },
        Err(e) => Err(e),
    }
}

/// The count of elements of a tuple or record of the given arity; fails with
/// a message when the arity does not fit a count.
pub fn arity_count(len: usize) -> (r: Result<u16, Error>)
    ensures
        match r {
            Ok(n) => len <= 65535 && n == len,
            Err(e) => len > 65535 && e is Message,
        },
{
    if len > 65535 {
        Err(Error::custom("arity does not fit a count"))
    } else {
        Ok(len as u16)
    }
}

} // verus!
