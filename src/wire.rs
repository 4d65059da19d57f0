//! Big-endian integers on the wire.
use vstd::prelude::*;

verus! {

/// `256` raised to the power `n`: the number of values that `n` bytes hold.
pub open spec fn radix_pow(n: nat) -> nat
    decreases n,
{
    if n == 0 {
        1
    } else {
        256 * radix_pow((n - 1) as nat)
    }
}

/// The `n` bytes that hold `x`, most significant first (the low `n` bytes when
/// `x` does not fit).
pub open spec fn be_bytes(x: nat, n: nat) -> Seq<u8>
    decreases n,
{
    if n == 0 {
        Seq::empty()
    } else {
        be_bytes(x / 256, (n - 1) as nat).push((x % 256) as u8)
    }
}

/// The unsigned number that the bytes `b` spell, most significant first.
pub open spec fn be_value(b: Seq<u8>) -> nat
    decreases b.len(),
{
    if b.len() == 0 {
        0
    } else {
        be_value(b.drop_last()) * 256 + b.last() as nat
    }
}

/// The two's-complement pattern of `x` in `n` bytes, as an unsigned number.
pub open spec fn twos(x: int, n: nat) -> nat {
    if x < 0 {
        (x + radix_pow(n)) as nat
    } else {
        x as nat
    }
}

/// The signed number whose `n`-byte two's-complement pattern is `u`.
pub open spec fn signed(u: nat, n: nat) -> int {
    if u * 2 >= radix_pow(n) {
        u - radix_pow(n)
    } else {
        u as int
    }
}

/// The count that a two-byte prefix at the front of `b` holds.
pub open spec fn u16_at(b: Seq<u8>) -> nat {
    b[0] as nat * 256 + b[1] as nat
}

pub proof fn lemma_be_bytes_len(x: nat, n: nat)
    ensures
        be_bytes(x, n).len() == n,
    decreases n,
{
    if n > 0 {
        lemma_be_bytes_len(x / 256, (n - 1) as nat);
    }
}

/// Reading back the bytes of a number that fits gives the number.
pub proof fn lemma_be_round_trip(x: nat, n: nat)
    requires
        x < radix_pow(n),
    ensures
        be_bytes(x, n).len() == n,
        be_value(be_bytes(x, n)) == x,
    decreases n,
{
    lemma_be_bytes_len(x, n);
    if n > 0 {
        let m = (n - 1) as nat;
        assert(x / 256 < radix_pow(m)) by (nonlinear_arith)
            requires
                x < 256 * radix_pow(m),
        ;
        lemma_be_round_trip(x / 256, m);
        let b = be_bytes(x, n);
        assert(b.drop_last() =~= be_bytes(x / 256, m));
        assert(x == (x / 256) * 256 + x % 256) by (nonlinear_arith);
    }
}

/// The value of a two-byte prefix is the count `u16_at` reads.
pub proof fn lemma_be_value_two(b: Seq<u8>)
    requires
        b.len() >= 2,
    ensures
        be_value(b.take(2)) == u16_at(b),
        u16_at(b) < 65536,
{
    let t = b.take(2);
    assert(t.drop_last().drop_last() =~= Seq::<u8>::empty());
    assert(t.drop_last().last() == b[0]);
    reveal_with_fuel(be_value, 3);
}

pub proof fn lemma_radix_pows()
    ensures
        radix_pow(1) == 256,
        radix_pow(2) == 65536,
        radix_pow(4) == 4294967296,
        radix_pow(8) == 18446744073709551616,
{
    reveal_with_fuel(radix_pow, 9);
}

/// Two's complement round trip for numbers within the signed range of `n` bytes.
pub proof fn lemma_twos_signed(x: int, n: nat)
    requires
        n > 0,
        -radix_pow(n) <= 2 * x < radix_pow(n),
    ensures
        twos(x, n) < radix_pow(n),
        signed(twos(x, n), n) == x,
{
}

} // verus!
