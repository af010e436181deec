//! The parts of the SCALE codec that the pallets use: fixed-width unsigned
//! integers in little-endian order, `Option<u32>`, byte arrays (which encode
//! as their bytes) and tuples (which encode as the concatenation of their
//! fields).

use vstd::prelude::*;

verus! {

/// `256` to the power `n`.
pub open spec fn pow256(n: nat) -> nat
    decreases n,
{
    if n == 0 {
        1
    } else {
        256 * pow256((n - 1) as nat)
    }
}

/// The `n` low-order bytes of `x`, least significant first.
pub open spec fn le_bytes(x: nat, n: nat) -> Seq<u8>
    decreases n,
{
    if n == 0 {
        Seq::empty()
    } else {
        seq![(x % 256) as u8] + le_bytes(x / 256, (n - 1) as nat)
    }
}

/// The number whose little-endian bytes are `s`.
pub open spec fn le_value(s: Seq<u8>) -> nat
    decreases s.len(),
{
    if s.len() == 0 {
        0
    } else {
        s[0] as nat + 256 * le_value(s.drop_first())
    }
}

/// SCALE encoding of a `u32`.
pub open spec fn encoded_u32(x: u32) -> Seq<u8> {
    le_bytes(x as nat, 4)
}

/// SCALE encoding of a `u64`.
pub open spec fn encoded_u64(x: u64) -> Seq<u8> {
    le_bytes(x as nat, 8)
}

/// SCALE encoding of an `Option<u32>`: a tag byte, then the value if any.
pub open spec fn encoded_option_u32(o: Option<u32>) -> Seq<u8> {
    match o {
        None => seq![0u8],
        Some(x) => seq![1u8] + encoded_u32(x),
    }
}

pub proof fn lemma_pow256_values()
    ensures
        pow256(4) == 0x1_0000_0000,
        pow256(8) == 0x1_0000_0000_0000_0000,
{
    reveal_with_fuel(pow256, 9);
}

pub proof fn lemma_pow256_positive(n: nat)
    ensures
        pow256(n) >= 1,
    decreases n,
{
    if n > 0 {
        lemma_pow256_positive((n - 1) as nat);
    }
}

pub proof fn lemma_le_bytes_len(x: nat, n: nat)
    ensures
        le_bytes(x, n).len() == n,
    decreases n,
{
    if n > 0 {
        lemma_le_bytes_len(x / 256, (n - 1) as nat);
    }
}

/// Reading back the `n` little-endian bytes of a number below `256^n`
/// gives the number.
pub proof fn lemma_le_roundtrip(x: nat, n: nat)
    requires
        x < pow256(n),
    ensures
        le_value(le_bytes(x, n)) == x,
        le_bytes(x, n).len() == n,
    decreases n,
{
    lemma_le_bytes_len(x, n);
    if n == 0 {
    } else {
        let p = pow256((n - 1) as nat);
        assert(x / 256 < p) by (nonlinear_arith)
            requires
                x < 256 * p,
        ;
        lemma_le_roundtrip(x / 256, (n - 1) as nat);
        let s = le_bytes(x, n);
        assert(s.drop_first() =~= le_bytes(x / 256, (n - 1) as nat));
        assert(s[0] == (x % 256) as u8);
    }
}

/// Two numbers below `256^n` with the same `n` little-endian bytes are equal.
pub proof fn lemma_le_bytes_injective(x: nat, y: nat, n: nat)
    requires
        x < pow256(n),
        y < pow256(n),
        le_bytes(x, n) == le_bytes(y, n),
    ensures
        x == y,
{
    lemma_le_roundtrip(x, n);
    lemma_le_roundtrip(y, n);
}

/// Appends the `n` low-order bytes of `x`, least significant first.
pub fn push_le(out: &mut Vec<u8>, x: u64, n: usize)
    ensures
        final(out)@ == old(out)@ + le_bytes(x as nat, n as nat),
    decreases n,
{
    if n > 0 {
        out.push((x % 256) as u8);
        push_le(out, x / 256, n - 1);
        assert(old(out)@ + le_bytes(x as nat, n as nat) =~= old(out)@.push((x % 256) as u8)
            + le_bytes((x / 256) as nat, (n - 1) as nat));
    } else {
        assert(old(out)@ + le_bytes(x as nat, 0) =~= old(out)@);
    }
}

/// Appends every byte of `bytes`.
pub fn push_bytes(out: &mut Vec<u8>, bytes: &[u8])
    ensures
        final(out)@ == old(out)@ + bytes@,
{
    let mut i: usize = 0;
    while i < bytes.len()
        invariant
            i <= bytes@.len(),
            out@ == old(out)@ + bytes@.subrange(0, i as int),
        decreases bytes@.len() - i,
    {
        out.push(bytes[i]);
        i = i + 1;
        assert(out@ =~= old(out)@ + bytes@.subrange(0, i as int));
    }
    assert(bytes@.subrange(0, bytes@.len() as int) =~= bytes@);
}

/// Appends the SCALE encoding of a `u32`.
pub fn push_u32(out: &mut Vec<u8>, x: u32)
    ensures
        final(out)@ == old(out)@ + encoded_u32(x),
{
    push_le(out, x as u64, 4);
}

/// Appends the SCALE encoding of a `u64`.
pub fn push_u64(out: &mut Vec<u8>, x: u64)
    ensures
        final(out)@ == old(out)@ + encoded_u64(x),
{
    push_le(out, x, 8);
}

/// Appends the SCALE encoding of an `Option<u32>`.
pub fn push_option_u32(out: &mut Vec<u8>, o: Option<u32>)
    ensures
        final(out)@ == old(out)@ + encoded_option_u32(o),
{
    match o {
        None => {
            out.push(0u8);
            assert(old(out)@.push(0u8) =~= old(out)@ + seq![0u8]);
        },
        Some(x) => {
            out.push(1u8);
            push_u32(out, x);
            assert(old(out)@.push(1u8) + encoded_u32(x) =~= old(out)@ + (seq![1u8] + encoded_u32(x)));
        },
    }
}

/// Reads the number whose `n` little-endian bytes start at `start`.
pub fn read_le(bytes: &[u8], start: usize, n: usize) -> (r: u64)
    requires
        n <= 8,
        start + n <= bytes@.len(),
    ensures
        r as nat == le_value(bytes@.subrange(start as int, start + n)),
        (r as nat) < pow256(n as nat),
    decreases n,
{
    if n == 0 {
        0
    } else {
        let len = bytes.len();
        assert(start + 1 <= len);
        let rest = read_le(bytes, start + 1, n - 1);
        let b = bytes[start];
        let ghost p = pow256((n - 1) as nat);
        proof {
            lemma_pow256_values();
            lemma_pow256_monotone((n - 1) as nat, 7);
            assert((rest as nat) * 256 + (b as nat) < 256 * p) by (nonlinear_arith)
                requires
                    (rest as nat) < p,
                    b < 256,
            ;
            assert(256 * p <= 0x1_0000_0000_0000_0000) by (nonlinear_arith)
                requires
                    p <= pow256(7),
                    256 * pow256(7) == 0x1_0000_0000_0000_0000,
            ;
            let s = bytes@.subrange(start as int, start + n);
            assert(s.drop_first() =~= bytes@.subrange(start + 1, start + 1 + (n - 1)));
        }
        rest * 256 + b as u64
    }
}

/// `pow256` grows with its exponent.
pub proof fn lemma_pow256_monotone(m: nat, n: nat)
    requires
        m <= n,
    ensures
        pow256(m) <= pow256(n),
    decreases n,
{
    if m < n {
        lemma_pow256_monotone(m, (n - 1) as nat);
        lemma_pow256_positive((n - 1) as nat);
    }
}


/// Byte `j` of the `n` little-endian bytes of `x` is the `j`-th base-256
/// digit of `x`.
pub proof fn lemma_le_bytes_index(x: nat, n: nat, j: nat)
    requires
        j < n,
    ensures
        le_bytes(x, n).len() == n,
        le_bytes(x, n)[j as int] == ((x / pow256(j)) % 256) as u8,
    decreases n,
{
    lemma_le_bytes_len(x, n);
    if j > 0 {
        lemma_le_bytes_index(x / 256, (n - 1) as nat, (j - 1) as nat);
        lemma_pow256_positive((j - 1) as nat);
        vstd::arithmetic::div_mod::lemma_div_denominator(x as int, 256, pow256((j - 1) as nat) as int);
        assert(le_bytes(x, n)[j as int] == le_bytes(x / 256, (n - 1) as nat)[j - 1]);
        assert(pow256(j) == 256 * pow256((j - 1) as nat));
        assert(x / 256 / pow256((j - 1) as nat) == x / pow256(j));
    } else {
        assert(pow256(0) == 1);
        assert(x / 1 == x);
        assert(le_bytes(x, n)[0] == (x % 256) as u8);
    }
}

/// Any bytes are the little-endian bytes of the number they encode, and
/// that number lies below `256` to the power of their count.
pub proof fn lemma_le_value_bytes(s: Seq<u8>)
    ensures
        le_value(s) < pow256(s.len()),
        le_bytes(le_value(s), s.len()) == s,
    decreases s.len(),
{
    if s.len() > 0 {
        let rest = s.drop_first();
        lemma_le_value_bytes(rest);
        let r = le_value(rest);
        let b = s[0] as nat;
        let p = pow256(rest.len());
        assert(b + 256 * r < 256 * p) by (nonlinear_arith)
            requires
                b < 256,
                r < p,
        ;
        vstd::arithmetic::div_mod::lemma_mod_multiples_vanish(r as int, b as int, 256);
        vstd::arithmetic::div_mod::lemma_div_multiples_vanish_fancy(r as int, b as int, 256);
        assert((256 * r + b) % 256 == b);
        assert((256 * r + b) / 256 == r);
        assert(le_value(s) == b + 256 * r);
        assert(le_bytes(le_value(s), s.len()) =~= s);
    }
}

} // verus!
