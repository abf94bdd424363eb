//! Unsigned numbers as bytes, least significant byte first.
use vstd::prelude::*;

verus! {

/// How many values `n` bytes can tell apart.
pub open spec fn pow256(n: nat) -> nat
    decreases n,
{
    if n == 0 {
        1
    } else {
        256 * pow256((n - 1) as nat)
    }
}

/// The `n` least significant bytes of `x`, least significant first.
pub open spec fn le_bytes(x: nat, n: nat) -> Seq<u8>
    decreases n,
{
    if n == 0 {
        Seq::empty()
    } else {
        seq![(x % 256) as u8] + le_bytes(x / 256, (n - 1) as nat)
    }
}

/// The number whose bytes these are, least significant first.
pub open spec fn le_value(bytes: Seq<u8>) -> nat
    decreases bytes.len(),
{
    if bytes.len() == 0 {
        0
    } else {
        bytes[0] as nat + 256 * le_value(bytes.skip(1))
    }
}

/// The powers which the format uses.
pub proof fn lemma_pow256()
    ensures
        pow256(0) == 1,
        pow256(1) == 0x100,
        pow256(2) == 0x1_0000,
        pow256(3) == 0x100_0000,
        pow256(4) == 0x1_0000_0000,
        pow256(5) == 0x100_0000_0000,
        pow256(6) == 0x1_0000_0000_0000,
        pow256(7) == 0x100_0000_0000_0000,
        pow256(8) == 0x1_0000_0000_0000_0000,
{
    reveal_with_fuel(pow256, 9);
}

/// `n` bytes are `n` bytes, whatever the number.
pub proof fn lemma_le_bytes_len(x: nat, n: nat)
    ensures
        le_bytes(x, n).len() == n,
    decreases n,
{
    if n > 0 {
        lemma_le_bytes_len(x / 256, (n - 1) as nat);
    }
}

/// `n` bytes hold less than `256^n`.
pub proof fn lemma_le_value_bound(bytes: Seq<u8>)
    ensures
        le_value(bytes) < pow256(bytes.len()),
    decreases bytes.len(),
{
    if bytes.len() > 0 {
        lemma_le_value_bound(bytes.skip(1));
    }
}

/// The bytes of a number give back the number, as far as they can hold it.
pub proof fn lemma_le_round_trip(x: nat, n: nat)
    requires
        x < pow256(n),
    ensures
        le_value(le_bytes(x, n)) == x,
    decreases n,
{
    if n > 0 {
        let m = (n - 1) as nat;
        assert(x / 256 < pow256(m));
        lemma_le_round_trip(x / 256, m);
        assert(le_bytes(x, n).skip(1) =~= le_bytes(x / 256, m));
    }
}

/// Append the `n` least significant bytes of `x`.
pub fn write_le(w: &mut Vec<u8>, x: u64, n: usize)
    ensures
        final(w)@ == old(w)@ + le_bytes(x as nat, n as nat),
{
    let mut left: u64 = x;
    let mut i: usize = 0;
    let ghost start = w@;
    assert(start + le_bytes(x as nat, n as nat) =~= w@ + le_bytes(left as nat, n as nat));
    while i < n
        invariant
            i <= n,
            start + le_bytes(x as nat, n as nat) == w@ + le_bytes(left as nat, (n - i) as nat),
        decreases n - i,
    {
        let ghost before = w@;
        let ghost m = (n - i) as nat;
        w.push((left % 256) as u8);
        assert(before + le_bytes(left as nat, m) =~= w@ + le_bytes(
            (left / 256) as nat,
            (m - 1) as nat,
        ));
        left = left / 256;
        i = i + 1;
    }
    assert(w@ + le_bytes(left as nat, 0) =~= w@);
}

/// The number whose bytes these are.
pub fn read_le(bytes: &[u8]) -> (x: u64)
    requires
        bytes@.len() <= 8,
    ensures
        x == le_value(bytes@),
{
    let mut x: u64 = 0;
    let mut i: usize = bytes.len();
    proof {
        lemma_pow256();
        lemma_le_value_bound(bytes@);
        assert(bytes@.skip(bytes@.len() as int) =~= Seq::empty());
    }
    while i > 0
        invariant
            i <= bytes@.len() <= 8,
            x == le_value(bytes@.skip(i as int)),
        decreases i,
    {
        i = i - 1;
        proof {
            let s = bytes@.skip(i as int);
            assert(s.skip(1) =~= bytes@.skip(i + 1));
            lemma_le_value_bound(s);
            lemma_pow256();
            lemma_pow256_monotone(s.len(), 8);
        }
        x = x * 256 + bytes[i] as u64;
    }
    assert(bytes@.skip(0) =~= bytes@);
    x
}

/// More bytes hold more.
pub proof fn lemma_pow256_monotone(a: nat, b: nat)
    requires
        a <= b,
    ensures
        pow256(a) <= pow256(b),
        0 < pow256(a),
    decreases b,
{
    if a < b {
        lemma_pow256_monotone(a, (b - 1) as nat);
    } else if a > 0 {
        lemma_pow256_monotone((a - 1) as nat, (a - 1) as nat);
    }
}

} // verus!
