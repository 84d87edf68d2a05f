//! Big-endian byte layouts of fixed-width integers.
use vstd::prelude::*;

verus! {

/// The `n` low bytes of `x`, most significant first.
pub open spec fn be_bytes(x: u128, n: nat) -> Seq<u8>
    decreases n,
{
    if n == 0 {
        Seq::empty()
    } else {
        be_bytes(x / 256, (n - 1) as nat).push((x % 256) as u8)
    }
}

/// The value that `b` spells, most significant byte first.
pub open spec fn be_value(b: Seq<u8>) -> nat
    decreases b.len(),
{
    if b.len() == 0 {
        0
    } else {
        be_value(b.drop_last()) * 256 + b.last() as nat
    }
}

/// Appends the `n` low bytes of `x` to `out`, most significant first.
pub fn push_be(out: &mut Vec<u8>, x: u128, n: usize)
    ensures
        final(out)@ == old(out)@ + be_bytes(x, n as nat),
    decreases n,
{
    if n > 0 {
        push_be(out, x / 256, n - 1);
        out.push((x % 256) as u8);
        assert(be_bytes(x, n as nat) == be_bytes(x / 256, (n - 1) as nat).push((x % 256) as u8));
        assert(final(out)@ =~= old(out)@ + be_bytes(x, n as nat));
    }
}

/// Reads the first `n` bytes of `b` as a big-endian number.
pub fn read_be(b: &[u8], n: usize) -> (r: u128)
    requires
        n <= 16,
        n <= b@.len(),
    ensures
        r as nat == be_value(b@.take(n as int)),
    decreases n,
{
    if n == 0 {
        assert(b@.take(0).len() == 0);
        0
    } else {
        let hi = read_be(b, n - 1);
        proof {
            assert(b@.take(n as int).drop_last() =~= b@.take(n - 1));
            lemma_be_value_bound(b@.take(n - 1));
        }
        hi * 256 + b[n - 1] as u128
    }
}

/// A value spelled in `b` is below `256` to the power of its length.
pub proof fn lemma_be_value_bound(b: Seq<u8>)
    ensures
        b.len() <= 15 ==> be_value(b) < 0x1_0000_0000_0000_0000_0000_0000_0000_00,
        be_value(b) < pow256(b.len()),
    decreases b.len(),
{
    if b.len() > 0 {
        lemma_be_value_bound(b.drop_last());
        assert(be_value(b) < pow256(b.len())) by (nonlinear_arith)
            requires
                be_value(b) == be_value(b.drop_last()) * 256 + b.last() as nat,
                be_value(b.drop_last()) < pow256(b.drop_last().len()),
                pow256(b.len()) == 256 * pow256(b.drop_last().len()),
                b.last() < 256,
        ;
    }
    lemma_pow256_15(b.len());
}

/// `256` to the power `k`.
pub open spec fn pow256(k: nat) -> nat
    decreases k,
{
    if k == 0 {
        1
    } else {
        256 * pow256((k - 1) as nat)
    }
}

proof fn lemma_pow256_15(k: nat)
    ensures
        k <= 15 ==> pow256(k) <= 0x1_0000_0000_0000_0000_0000_0000_0000_00,
{
    if k <= 15 {
        lemma_pow256_mono(k, 15);
        reveal_with_fuel(pow256, 16);
        assert(pow256(15) == 0x1_0000_0000_0000_0000_0000_0000_0000_00);
    }
}

proof fn lemma_pow256_mono(j: nat, k: nat)
    requires
        j <= k,
    ensures
        pow256(j) <= pow256(k),
    decreases k,
{
    if j < k {
        lemma_pow256_mono(j, (k - 1) as nat);
    }
}

} // verus!
