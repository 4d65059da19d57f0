//! What holds of the encoding as a whole.
use vstd::prelude::*;
use vstd::utf8::{
    char_is_scalar, char_u32_cast, encode_utf8, encode_utf8_decode_utf8, encode_utf8_valid_utf8,
};

use crate::value::{
    all_conform, all_encodable, conforms, encodable, encode, encode_all, encode_pairs,
    fields_conform, fixed, pairs_conform, pairs_encodable, parse, parse_fields, parse_list,
    parse_pairs, Datum, Shape, Value,
};
use crate::wire::{
    be_bytes, lemma_be_round_trip, lemma_be_value_two, lemma_radix_pows, lemma_twos_signed,
    radix_pow, twos, u16_at,
};

verus! {

proof fn lemma_fixed_unsigned(x: nat, n: nat, rest: Seq<u8>)
    requires
        x < radix_pow(n),
    ensures
        (be_bytes(x, n) + rest).len() >= n,
        fixed(be_bytes(x, n) + rest, n) == x,
        (be_bytes(x, n) + rest).skip(n as int) == rest,
{
    lemma_be_round_trip(x, n);
    let b = be_bytes(x, n) + rest;
    assert(b.take(n as int) =~= be_bytes(x, n));
    assert(b.skip(n as int) =~= rest);
}

proof fn lemma_prefix(n: nat, body: Seq<u8>, rest: Seq<u8>)
    requires
        n == body.len(),
        n <= 65535,
    ensures
        ({
            let b = be_bytes(n, 2) + body + rest;
            &&& b.len() >= 2
            &&& u16_at(b) == n
            &&& b.len() >= 2 + n
            &&& b.subrange(2, 2 + n as int) == body
            &&& b.skip(2 + n as int) == rest
            &&& b.skip(2) == body + rest
        }),
{
    lemma_radix_pows();
    lemma_be_round_trip(n, 2);
    let b = be_bytes(n, 2) + body + rest;
    lemma_be_value_two(b);
    assert(b.take(2) =~= be_bytes(n, 2));
    assert(b.subrange(2, 2 + n as int) =~= body);
    assert(b.skip(2 + n as int) =~= rest);
    assert(b.skip(2) =~= body + rest);
}

/// Decoding the encoding of a value, followed by any bytes, gives back the
/// value and leaves those bytes: `decode(encode(v)) == v` for every value
/// that can be encoded, read as the shape it has.
pub proof fn lemma_round_trip(d: Datum, s: Shape, rest: Seq<u8>)
    requires
        conforms(d, s),
        encodable(d),
    ensures
        parse(s, encode(d) + rest) == Ok::<(Datum, Seq<u8>), crate::value::Fault>((d, rest)),
    decreases d,
{
    lemma_radix_pows();
    let b = encode(d) + rest;
    match d {
        Datum::Unit => {
            assert(b =~= rest);
        },
        Datum::Bool(v) => {
            assert(b.skip(1) =~= rest);
        },
        Datum::I8(x) => {
            lemma_twos_signed(x as int, 1);
            lemma_fixed_unsigned(twos(x as int, 1), 1, rest);
        },
        Datum::I16(x) => {
            lemma_twos_signed(x as int, 2);
            lemma_fixed_unsigned(twos(x as int, 2), 2, rest);
        },
        Datum::I32(x) => {
            lemma_twos_signed(x as int, 4);
            lemma_fixed_unsigned(twos(x as int, 4), 4, rest);
        },
        Datum::I64(x) => {
            lemma_twos_signed(x as int, 8);
            lemma_fixed_unsigned(twos(x as int, 8), 8, rest);
        },
        Datum::U8(x) => {
            lemma_fixed_unsigned(x as nat, 1, rest);
        },
        Datum::U16(x) => {
            lemma_fixed_unsigned(x as nat, 2, rest);
        },
        Datum::U32(x) => {
            lemma_fixed_unsigned(x as nat, 4, rest);
        },
        Datum::U64(x) => {
            lemma_fixed_unsigned(x as nat, 8, rest);
        },
        Datum::F32(x) => {
            lemma_fixed_unsigned(x as nat, 4, rest);
        },
        Datum::F64(x) => {
            lemma_fixed_unsigned(x as nat, 8, rest);
        },
        Datum::Char(c) => {
            lemma_fixed_unsigned((c as u32) as nat, 4, rest);
            char_is_scalar(c);
            char_u32_cast(c, c as u32);
        },
        Datum::Str(t) => {
            let body = encode_utf8(t);
            lemma_prefix(body.len(), body, rest);
            encode_utf8_valid_utf8(t);
            encode_utf8_decode_utf8(t);
        },
        Datum::Bytes(body) => {
            lemma_prefix(body.len(), body, rest);
        },
        Datum::Opt(o) => {
            assert(b.skip(1) =~= encode(d).skip(1) + rest);
            match o {
                Option::None => {},
                Option::Some(x) => {
                    let e = s->Opt_0;
                    assert(encode(d).skip(1) =~= encode(*x));
                    lemma_round_trip(*x, *e, rest);
                },
            }
        },
        Datum::List(ds) => {
            lemma_be_round_trip(ds.len(), 2);
            assert(b =~= be_bytes(ds.len(), 2) + encode_all(ds) + rest);
            lemma_round_trip_list(ds, s, rest);
            assert(u16_at(b) == ds.len()) by {
                lemma_be_value_two(b);
                assert(b.take(2) =~= be_bytes(ds.len(), 2));
            }
            assert(b.skip(2) =~= encode_all(ds) + rest);
        },
        Datum::Tuple(ds) => {
            lemma_round_trip_fields(ds, s->Tuple_0@, rest);
        },
        Datum::Entries(ps) => {
            lemma_be_round_trip(ps.len(), 2);
            assert(b =~= be_bytes(ps.len(), 2) + encode_pairs(ps) + rest);
            lemma_round_trip_pairs(ps, s, rest);
            assert(u16_at(b) == ps.len()) by {
                lemma_be_value_two(b);
                assert(b.take(2) =~= be_bytes(ps.len(), 2));
            }
            assert(b.skip(2) =~= encode_pairs(ps) + rest);
        },
        Datum::Variant(t, p) => {
            let ss = s->Union_0@;
            assert(b.skip(1) =~= encode(*p) + rest);
            lemma_round_trip(*p, ss[t as int], rest);
        },
    }
}

proof fn lemma_round_trip_list(ds: Seq<Datum>, s: Shape, rest: Seq<u8>)
    requires
        s is List,
        all_conform(ds, *s->List_0),
        all_encodable(ds),
    ensures
        parse_list(s, ds.len(), encode_all(ds) + rest) == Ok::<
            (Seq<Datum>, Seq<u8>),
            crate::value::Fault,
        >((ds, rest)),
    decreases ds,
{
    if ds.len() == 0 {
        assert(encode_all(ds) + rest =~= rest);
        assert(ds =~= Seq::<Datum>::empty());
    } else {
        let tail = ds.subrange(1, ds.len() as int);
        lemma_round_trip(ds[0], *s->List_0, encode_all(tail) + rest);
        lemma_round_trip_list(tail, s, rest);
        assert(encode_all(ds) + rest =~= encode(ds[0]) + (encode_all(tail) + rest));
        assert(seq![ds[0]] + tail =~= ds);
    }
}

proof fn lemma_round_trip_fields(ds: Seq<Datum>, ss: Seq<Shape>, rest: Seq<u8>)
    requires
        fields_conform(ds, ss),
        all_encodable(ds),
    ensures
        parse_fields(ss, encode_all(ds) + rest) == Ok::<
            (Seq<Datum>, Seq<u8>),
            crate::value::Fault,
        >((ds, rest)),
    decreases ds,
{
    if ds.len() == 0 {
        assert(encode_all(ds) + rest =~= rest);
        assert(ds =~= Seq::<Datum>::empty());
    } else {
        let tail = ds.subrange(1, ds.len() as int);
        lemma_round_trip(ds[0], ss[0], encode_all(tail) + rest);
        lemma_round_trip_fields(tail, ss.subrange(1, ss.len() as int), rest);
        assert(encode_all(ds) + rest =~= encode(ds[0]) + (encode_all(tail) + rest));
        assert(seq![ds[0]] + tail =~= ds);
    }
}

proof fn lemma_round_trip_pairs(ps: Seq<(Datum, Datum)>, s: Shape, rest: Seq<u8>)
    requires
        s is Entries,
        pairs_conform(ps, *s->Entries_0, *s->Entries_1),
        pairs_encodable(ps),
    ensures
        parse_pairs(s, ps.len(), encode_pairs(ps) + rest) == Ok::<
            (Seq<(Datum, Datum)>, Seq<u8>),
            crate::value::Fault,
        >((ps, rest)),
    decreases ps,
{
    if ps.len() == 0 {
        assert(encode_pairs(ps) + rest =~= rest);
        assert(ps =~= Seq::<(Datum, Datum)>::empty());
    } else {
        let tail = ps.subrange(1, ps.len() as int);
        let after_value = encode_pairs(tail) + rest;
        lemma_round_trip(ps[0].0, *s->Entries_0, encode(ps[0].1) + after_value);
        lemma_round_trip(ps[0].1, *s->Entries_1, after_value);
        lemma_round_trip_pairs(tail, s, rest);
        assert(encode_pairs(ps) + rest =~= encode(ps[0].0) + (encode(ps[0].1) + after_value));
        assert(seq![ps[0]] + tail =~= ps);
    }
}

/// Encoding is deterministic: values with the same content are equally
/// encodable and encode to the same bytes, so encoding one value twice gives
/// identical bytes.
pub proof fn lemma_encoding_deterministic(v: Value, w: Value)
    requires
        v@ == w@,
    ensures
        encodable(v@) == encodable(w@),
        encode(v@) == encode(w@),
{
}

} // verus!
