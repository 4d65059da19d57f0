//! Fixed-width integers in network byte order, read and written through
//! `byteorder`.
use byteorder::{ByteOrder, NetworkEndian};
use vstd::prelude::*;

use crate::wire::{be_bytes, be_value, signed, twos};

verus! {

/// Relies on `byteorder::NetworkEndian::write_u16`: the two bytes of `n`,
/// most significant first.
#[verifier::external_body]
pub(crate) fn u16_bytes(n: u16) -> (r: [u8; 2])
    ensures
        r@ == be_bytes(n as nat, 2),
{
    let mut buf = [0u8; 2];
    NetworkEndian::write_u16(&mut buf, n);
    buf
}

/// Relies on `byteorder::NetworkEndian::write_u32`: the four bytes of `n`,
/// most significant first.
#[verifier::external_body]
pub(crate) fn u32_bytes(n: u32) -> (r: [u8; 4])
    ensures
        r@ == be_bytes(n as nat, 4),
{
    let mut buf = [0u8; 4];
    NetworkEndian::write_u32(&mut buf, n);
    buf
}

/// Relies on `byteorder::NetworkEndian::write_u64`: the eight bytes of `n`,
/// most significant first.
#[verifier::external_body]
pub(crate) fn u64_bytes(n: u64) -> (r: [u8; 8])
    ensures
        r@ == be_bytes(n as nat, 8),
{
    let mut buf = [0u8; 8];
    NetworkEndian::write_u64(&mut buf, n);
    buf
}

/// Relies on `byteorder::NetworkEndian::write_i16`: the two bytes of the
/// two's-complement pattern of `n`, most significant first.
#[verifier::external_body]
pub(crate) fn i16_bytes(n: i16) -> (r: [u8; 2])
    ensures
        r@ == be_bytes(twos(n as int, 2), 2),
{
    let mut buf = [0u8; 2];
    NetworkEndian::write_i16(&mut buf, n);
    buf
}

/// Relies on `byteorder::NetworkEndian::write_i32`: the four bytes of the
/// two's-complement pattern of `n`, most significant first.
#[verifier::external_body]
pub(crate) fn i32_bytes(n: i32) -> (r: [u8; 4])
    ensures
        r@ == be_bytes(twos(n as int, 4), 4),
{
    let mut buf = [0u8; 4];
    NetworkEndian::write_i32(&mut buf, n);
    buf
}

/// Relies on `byteorder::NetworkEndian::write_i64`: the eight bytes of the
/// two's-complement pattern of `n`, most significant first.
#[verifier::external_body]
pub(crate) fn i64_bytes(n: i64) -> (r: [u8; 8])
    ensures
        r@ == be_bytes(twos(n as int, 8), 8),
{
    let mut buf = [0u8; 8];
    NetworkEndian::write_i64(&mut buf, n);
    buf
}

/// Relies on `byteorder::NetworkEndian::read_u16`: the number that the two
/// bytes at `at` spell, most significant first.
#[verifier::external_body]
pub(crate) fn read_u16_at(b: &Vec<u8>, at: usize) -> (r: u16)
    requires
        at + 2 <= b@.len(),
    ensures
        r as nat == be_value(b@.subrange(at as int, at + 2)),
{
    NetworkEndian::read_u16(&b[at..])
}

/// Relies on `byteorder::NetworkEndian::read_u32`: the number that the four
/// bytes at `at` spell, most significant first.
#[verifier::external_body]
pub(crate) fn read_u32_at(b: &Vec<u8>, at: usize) -> (r: u32)
    requires
        at + 4 <= b@.len(),
    ensures
        r as nat == be_value(b@.subrange(at as int, at + 4)),
{
    NetworkEndian::read_u32(&b[at..])
}

/// Relies on `byteorder::NetworkEndian::read_u64`: the number that the eight
/// bytes at `at` spell, most significant first.
#[verifier::external_body]
pub(crate) fn read_u64_at(b: &Vec<u8>, at: usize) -> (r: u64)
    requires
        at + 8 <= b@.len(),
    ensures
        r as nat == be_value(b@.subrange(at as int, at + 8)),
{
    NetworkEndian::read_u64(&b[at..])
}

/// Relies on `byteorder::NetworkEndian::read_i16`: the two bytes at `at`
/// read as a two's-complement number, most significant first.
#[verifier::external_body]
pub(crate) fn read_i16_at(b: &Vec<u8>, at: usize) -> (r: i16)
    requires
        at + 2 <= b@.len(),
    ensures
        r as int == signed(be_value(b@.subrange(at as int, at + 2)), 2),
{
    NetworkEndian::read_i16(&b[at..])
}

/// Relies on `byteorder::NetworkEndian::read_i32`: the four bytes at `at`
/// read as a two's-complement number, most significant first.
#[verifier::external_body]
pub(crate) fn read_i32_at(b: &Vec<u8>, at: usize) -> (r: i32)
    requires
        at + 4 <= b@.len(),
    ensures
        r as int == signed(be_value(b@.subrange(at as int, at + 4)), 4),
{
    NetworkEndian::read_i32(&b[at..])
}

/// Relies on `byteorder::NetworkEndian::read_i64`: the eight bytes at `at`
/// read as a two's-complement number, most significant first.
#[verifier::external_body]
pub(crate) fn read_i64_at(b: &Vec<u8>, at: usize) -> (r: i64)
    requires
        at + 8 <= b@.len(),
    ensures
        r as int == signed(be_value(b@.subrange(at as int, at + 8)), 8),
{
    NetworkEndian::read_i64(&b[at..])
}

} // verus!
