//! Fixed-width byte encodings.
use vstd::arithmetic::div_mod::lemma_div_denominator;
use vstd::arithmetic::power::{lemma_pow_positive, pow};
use vstd::prelude::*;

verus! {

/// Two hundred fifty-six to the power `k`.
pub open spec fn byte_range(k: nat) -> nat
    decreases k,
{
    if k == 0 {
        1
    } else {
        256 * byte_range((k - 1) as nat)
    }
}

/// The low `k` bytes of `n`, least significant first.
pub open spec fn le_bytes(n: nat, k: nat) -> Seq<u8>
    decreases k,
{
    if k == 0 {
        Seq::empty()
    } else {
        seq![(n % 256) as u8] + le_bytes(n / 256, (k - 1) as nat)
    }
}

/// The low `k` bytes of `n`, most significant first.
pub open spec fn be_bytes(n: nat, k: nat) -> Seq<u8>
    decreases k,
{
    if k == 0 {
        Seq::empty()
    } else {
        be_bytes(n / 256, (k - 1) as nat).push((n % 256) as u8)
    }
}

pub proof fn lemma_le_bytes_len(n: nat, k: nat)
    ensures
        le_bytes(n, k).len() == k,
    decreases k,
{
    if k > 0 {
        lemma_le_bytes_len(n / 256, (k - 1) as nat);
    }
}

pub proof fn lemma_be_bytes_len(n: nat, k: nat)
    ensures
        be_bytes(n, k).len() == k,
    decreases k,
{
    if k > 0 {
        lemma_be_bytes_len(n / 256, (k - 1) as nat);
    }
}

/// A number that fits is determined by its little-endian bytes.
pub proof fn lemma_le_bytes_injective(n: nat, m: nat, k: nat)
    requires
        n < byte_range(k),
        m < byte_range(k),
        le_bytes(n, k) == le_bytes(m, k),
    ensures
        n == m,
    decreases k,
{
    if k > 0 {
        let (a, b) = (le_bytes(n, k), le_bytes(m, k));
        assert(a[0] == (n % 256) as u8 && b[0] == (m % 256) as u8);
        assert(a.skip(1) =~= le_bytes(n / 256, (k - 1) as nat));
        assert(b.skip(1) =~= le_bytes(m / 256, (k - 1) as nat));
        lemma_le_bytes_injective(n / 256, m / 256, (k - 1) as nat);
    }
}

/// A number that fits is determined by its big-endian bytes.
pub proof fn lemma_be_bytes_injective(n: nat, m: nat, k: nat)
    requires
        n < byte_range(k),
        m < byte_range(k),
        be_bytes(n, k) == be_bytes(m, k),
    ensures
        n == m,
    decreases k,
{
    if k > 0 {
        let (a, b) = (be_bytes(n, k), be_bytes(m, k));
        assert(a.last() == (n % 256) as u8 && b.last() == (m % 256) as u8);
        assert(a.drop_last() =~= be_bytes(n / 256, (k - 1) as nat));
        assert(b.drop_last() =~= be_bytes(m / 256, (k - 1) as nat));
        lemma_be_bytes_injective(n / 256, m / 256, (k - 1) as nat);
    }
}

/// Appends `n` as eight bytes, least significant first.
pub fn push_u64_le(out: &mut Vec<u8>, n: u64)
    ensures
        final(out)@ == old(out)@ + le_bytes(n as nat, 8),
{
    push_le(out, n, 8);
}

/// Appends `n` as four bytes, least significant first.
pub fn push_u32_le(out: &mut Vec<u8>, n: u32)
    ensures
        final(out)@ == old(out)@ + le_bytes(n as nat, 4),
{
    push_le(out, n as u64, 4);
}

fn push_le(out: &mut Vec<u8>, n: u64, k: u8)
    ensures
        final(out)@ == old(out)@ + le_bytes(n as nat, k as nat),
    decreases k,
{
    if k > 0 {
        let ghost before = out@;
        out.push((n % 256) as u8);
        push_le(out, n / 256, k - 1);
        proof {
            assert(out@ =~= before + (seq![(n % 256) as u8] + le_bytes(
                (n / 256) as nat,
                (k - 1) as nat,
            )));
        }
    } else {
        proof {
            assert(out@ =~= out@ + Seq::<u8>::empty());
        }
    }
}

/// The low `k` bytes of `n`, most significant first.
pub fn to_be(n: u64, k: u8) -> (out: Vec<u8>)
    ensures
        out@ == be_bytes(n as nat, k as nat),
    decreases k,
{
    if k == 0 {
        Vec::new()
    } else {
        let mut out = to_be(n / 256, k - 1);
        out.push((n % 256) as u8);
        out
    }
}

/// Appends `bytes`.
pub fn push_all(out: &mut Vec<u8>, bytes: &[u8])
    ensures
        final(out)@ == old(out)@ + bytes@,
{
    let ghost before = out@;
    proof {
        assert(before + bytes@.take(0) =~= before);
    }
    for i in 0..bytes.len()
        invariant
            out@ == before + bytes@.take(i as int),
    {
        proof {
            assert((before + bytes@.take(i as int)).push(bytes@[i as int]) =~= before
                + bytes@.take(i + 1));
        }
        out.push(bytes[i]);
    }
    proof {
        assert(bytes@.take(bytes@.len() as int) =~= bytes@);
    }
}

/// A copy of `bytes`.
pub fn copy_bytes(bytes: &[u8]) -> (out: Vec<u8>)
    ensures
        out@ == bytes@,
{
    let mut out: Vec<u8> = Vec::new();
    push_all(&mut out, bytes);
    proof {
        assert(out@ =~= bytes@);
    }
    out
}

/// Byte `i` from the least significant end counts two hundred fifty-sixes to the power
/// `i`; the two encodings are each other read backwards.
pub proof fn bytes_count_in_powers(n: nat, k: nat, i: int)
    requires
        0 <= i < k,
    ensures
        le_bytes(n, k).len() == k,
        be_bytes(n, k).len() == k,
        le_bytes(n, k)[i] == (n / (pow(256, i as nat) as nat)) % 256,
        be_bytes(n, k)[k - 1 - i] == (n / (pow(256, i as nat) as nat)) % 256,
        byte_range(i as nat) == pow(256, i as nat),
    decreases k,
{
    lemma_le_bytes_len(n, k);
    lemma_be_bytes_len(n, k);
    reveal(pow);
    if i > 0 {
        bytes_count_in_powers(n / 256, (k - 1) as nat, i - 1);
        let p = pow(256, (i - 1) as nat);
        lemma_pow_positive(256, (i - 1) as nat);
        assert(pow(256, i as nat) == 256 * p);
        lemma_div_denominator(n as int, 256, p);
        lemma_le_bytes_len(n / 256, (k - 1) as nat);
        lemma_be_bytes_len(n / 256, (k - 1) as nat);
        assert(le_bytes(n, k)[i] == le_bytes(n / 256, (k - 1) as nat)[i - 1]);
        assert(be_bytes(n, k)[k - 1 - i] == be_bytes(n / 256, (k - 1) as nat)[k - 1 - i]);
        assert((n / 256) / (p as nat) == n / ((256 * p) as nat));
    } else {
        assert(pow(256, 0) == 1);
        assert(n / 1 == n);
        assert(le_bytes(n, k)[0] == (n % 256) as u8);
        assert(be_bytes(n, k)[k - 1] == (n % 256) as u8);
    }
}

} // verus!
