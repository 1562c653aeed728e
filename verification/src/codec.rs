//! Fixed-width big-endian integers, as they stand in the payload headers.
use vstd::prelude::*;
use vstd::arithmetic::div_mod::lemma_mod_breakdown;

verus! {

/// `256` raised to the power `n`.
pub open spec fn pow256(n: nat) -> nat
    decreases n,
{
    if n == 0 {
        1
    } else {
        256 * pow256((n - 1) as nat)
    }
}

/// The `width` low-order bytes of `x`, most significant first
/// (what `to_be_bytes` gives for `x` truncated to `width` bytes).
pub open spec fn be_encode(x: nat, width: nat) -> Seq<u8>
    decreases width,
{
    if width == 0 {
        Seq::empty()
    } else {
        be_encode(x / 256, (width - 1) as nat).push((x % 256) as u8)
    }
}

/// The unsigned integer spelled by `bytes`, most significant first
/// (what `from_be_bytes` reads).
pub open spec fn be_value(bytes: Seq<u8>) -> nat
    decreases bytes.len(),
{
    if bytes.len() == 0 {
        0
    } else {
        (be_value(bytes.drop_last()) * 256 + bytes.last()) as nat
    }
}

pub proof fn lemma_pow256_positive(n: nat)
    ensures
        pow256(n) > 0,
    decreases n,
{
    if n > 0 {
        lemma_pow256_positive((n - 1) as nat);
    }
}

pub proof fn lemma_pow256_monotonic(a: nat, b: nat)
    requires
        a <= b,
    ensures
        pow256(a) <= pow256(b),
    decreases b,
{
    if a < b {
        lemma_pow256_monotonic(a, (b - 1) as nat);
        lemma_pow256_positive((b - 1) as nat);
    }
}

pub proof fn lemma_be_encode_len(x: nat, width: nat)
    ensures
        be_encode(x, width).len() == width,
    decreases width,
{
    if width > 0 {
        lemma_be_encode_len(x / 256, (width - 1) as nat);
    }
}

pub proof fn lemma_be_value_bound(bytes: Seq<u8>)
    ensures
        be_value(bytes) < pow256(bytes.len()),
    decreases bytes.len(),
{
    if bytes.len() > 0 {
        let p = bytes.drop_last();
        lemma_be_value_bound(p);
        assert(be_value(p) + 1 <= pow256(p.len()));
        assert((be_value(p) + 1) * 256 <= pow256(p.len()) * 256) by (nonlinear_arith)
            requires
                be_value(p) + 1 <= pow256(p.len()),
        ;
    }
}

/// Reading back `width` encoded bytes gives `x` modulo `256^width`.
pub proof fn lemma_be_roundtrip(x: nat, width: nat)
    ensures
        be_value(be_encode(x, width)) == x % pow256(width),
    decreases width,
{
    if width == 0 {
    } else {
        let w1 = (width - 1) as nat;
        lemma_be_roundtrip(x / 256, w1);
        lemma_pow256_positive(w1);
        assert(be_encode(x, width).drop_last() == be_encode(x / 256, w1));
        lemma_mod_breakdown(x as int, 256, pow256(w1) as int);
    }
}

/// A value below `256^width` reads back unchanged.
pub proof fn lemma_be_roundtrip_small(x: nat, width: nat)
    requires
        x < pow256(width),
    ensures
        be_value(be_encode(x, width)) == x,
        be_encode(x, width).len() == width,
{
    lemma_be_roundtrip(x, width);
    lemma_be_encode_len(x, width);
    vstd::arithmetic::div_mod::lemma_small_mod(x, pow256(width));
}

/// Appends the `width` low-order bytes of `x` to `out`, most significant first.
pub fn push_be(out: &mut Vec<u8>, x: u64, width: usize)
    requires
        width <= 8,
    ensures
        final(out)@ == old(out)@ + be_encode(x as nat, width as nat),
    decreases width,
{
    if width > 0 {
        push_be(out, x / 256, width - 1);
        out.push((x % 256) as u8);
        assert(be_encode(x as nat, width as nat) == be_encode((x / 256) as nat, (width - 1) as nat).push(
            (x % 256) as u8,
        ));
    }
}

/// Reads `width` bytes from `bytes` at `start` as a big-endian integer.
pub fn read_be(bytes: &[u8], start: usize, width: usize) -> (v: u64)
    requires
        width <= 8,
        start + width <= bytes@.len(),
    ensures
        v == be_value(bytes@.subrange(start as int, start + width)),
{
    let mut v: u64 = 0;
    let mut i: usize = start;
    // A slice is no longer than `usize::MAX`, so `start + width` fits.
    let _len: usize = bytes.len();
    let end: usize = start + width;
    proof {
        reveal_with_fuel(pow256, 9);
        assert(bytes@.subrange(start as int, start as int) == Seq::<u8>::empty());
    }
    while i < end
        invariant
            width <= 8,
            end == start + width,
            start <= i <= start + width,
            start + width <= bytes@.len(),
            v == be_value(bytes@.subrange(start as int, i as int)),
            pow256(8) == 0x1_0000_0000_0000_0000,
        decreases end - i,
    {
        let ghost prefix = bytes@.subrange(start as int, i as int);
        proof {
            lemma_be_value_bound(prefix);
            lemma_pow256_monotonic((prefix.len() + 1) as nat, 8);
            assert((v + 1) * 256 <= pow256(prefix.len()) * 256) by (nonlinear_arith)
                requires
                    v + 1 <= pow256(prefix.len()),
            ;
            assert(bytes@.subrange(start as int, i + 1).drop_last() == prefix);
        }
        v = v * 256 + bytes[i] as u64;
        i = i + 1;
    }
    v
}

/// Appends all of `src` to `out`.
pub fn extend_bytes(out: &mut Vec<u8>, src: &[u8])
    ensures
        final(out)@ == old(out)@ + src@,
{
    let n: usize = src.len();
    let mut i: usize = 0;
    while i < n
        invariant
            n == src@.len(),
            i <= n,
            out@ == old(out)@ + src@.subrange(0, i as int),
        decreases n - i,
    {
        out.push(src[i]);
        i = i + 1;
        assert(src@.subrange(0, i as int) == src@.subrange(0, i - 1).push(src@[i - 1]));
    }
    assert(src@.subrange(0, n as int) == src@);
}

} // verus!
