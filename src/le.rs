//! Little-endian encoding of unsigned numbers as byte sequences.
use vstd::arithmetic::power::{lemma_pow_increases, pow};
use vstd::prelude::*;

verus! {

/// The `n` low-order bytes of `x`, least significant first.
pub open spec fn le_bytes(x: nat, n: nat) -> Seq<u8>
    decreases n,
{
    if n == 0 {
        Seq::empty()
    } else {
        seq![(x % 256) as u8] + le_bytes(x / 256, (n - 1) as nat)
    }
}

/// The number whose little-endian encoding is `b`.
pub open spec fn le_value(b: Seq<u8>) -> nat
    decreases b.len(),
{
    if b.len() == 0 {
        0
    } else {
        b[0] as nat + 256 * le_value(b.drop_first())
    }
}

pub proof fn lemma_le_bytes_len(x: nat, n: nat)
    ensures
        le_bytes(x, n).len() == n,
    decreases n,
{
    if n > 0 {
        lemma_le_bytes_len(x / 256, (n - 1) as nat);
    }
}

/// A value read from `n` bytes is below `256^n`.
pub proof fn lemma_le_value_bound(b: Seq<u8>)
    ensures
        le_value(b) < pow(256, b.len()),
    decreases b.len(),
{
    reveal(pow);
    if b.len() > 0 {
        let rest = b.drop_first();
        lemma_le_value_bound(rest);
        let v = le_value(rest);
        let p = pow(256, rest.len());
        assert(b[0] as nat + 256 * v < 256 * p) by (nonlinear_arith)
            requires
                b[0] < 256,
                v < p,
        ;
    }
}

/// Decoding the `n`-byte encoding of a number below `256^n` gives the number back.
pub proof fn lemma_le_value_of_bytes(x: nat, n: nat)
    requires
        x < pow(256, n),
    ensures
        le_value(le_bytes(x, n)) == x,
    decreases n,
{
    reveal(pow);
    if n > 0 {
        let rest = le_bytes(x / 256, (n - 1) as nat);
        assert(x / 256 < pow(256, (n - 1) as nat));
        lemma_le_value_of_bytes(x / 256, (n - 1) as nat);
        assert(le_bytes(x, n).drop_first() =~= rest);
    }
}

/// Encoding the value of a byte sequence in as many bytes gives the sequence back.
pub proof fn lemma_le_bytes_of_value(b: Seq<u8>)
    ensures
        le_bytes(le_value(b), b.len()) == b,
    decreases b.len(),
{
    if b.len() > 0 {
        let rest = b.drop_first();
        lemma_le_bytes_of_value(rest);
        let v = le_value(b);
        assert(v % 256 == b[0] as nat);
        assert(v / 256 == le_value(rest));
        assert(le_bytes(v, b.len()) =~= b);
    }
}

/// The `W` low-order bytes of `x`, least significant first.
pub fn le_encode<const W: usize>(x: u64) -> (r: [u8; W])
    ensures
        r@ == le_bytes(x as nat, W as nat),
{
    let mut r = [0u8; W];
    let mut v: u64 = x;
    let mut i: usize = 0;
    proof {
        lemma_le_bytes_len(x as nat, W as nat);
    }
    while i < W
        invariant
            i <= W,
            r@.len() == W,
            le_bytes(x as nat, W as nat).len() == W,
            le_bytes(v as nat, (W - i) as nat) == le_bytes(x as nat, W as nat).skip(i as int),
            forall|j: int| 0 <= j < i ==> r@[j] == le_bytes(x as nat, W as nat)[j],
        decreases W - i,
    {
        let ghost all = le_bytes(x as nat, W as nat);
        assert(all.skip(i as int)[0] == all[i as int]);
        assert(all.skip(i as int + 1) =~= all.skip(i as int).drop_first());
        r[i] = (v % 256) as u8;
        v = v / 256;
        i = i + 1;
    }
    assert(r@ =~= le_bytes(x as nat, W as nat));
    r
}

/// The number whose little-endian encoding is `b`.
pub fn le_decode<const W: usize>(b: &[u8; W]) -> (r: u64)
    requires
        W <= 8,
    ensures
        r == le_value(b@),
{
    let mut acc: u64 = 0;
    let mut i: usize = W;
    assert(b@.skip(W as int) =~= Seq::<u8>::empty());
    while i > 0
        invariant
            i <= W <= 8,
            b@.len() == W,
            acc == le_value(b@.skip(i as int)),
        decreases i,
    {
        i = i - 1;
        let ghost tail = b@.skip(i as int);
        assert(tail.drop_first() =~= b@.skip(i as int + 1));
        proof {
            lemma_le_value_bound(tail);
            lemma_pow_increases(256, tail.len(), 8);
            reveal_with_fuel(pow, 9);
        }
        acc = b[i] as u64 + 256 * acc;
    }
    assert(b@.skip(0) =~= b@);
    acc
}

} // verus!
