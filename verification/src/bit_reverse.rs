//! Bit-reversal reordering, the first step of the in-place radix-2
//! Cooley-Tukey FFT.

use vstd::prelude::*;

verus! {

/// `2^k`.
pub open spec fn pow2(k: nat) -> nat
    decreases k,
{
    if k == 0 {
        1
    } else {
        2 * pow2((k - 1) as nat)
    }
}

/// Whether `n` is a power of two.
pub open spec fn is_power_of_two(n: nat) -> bool {
    exists|b: nat| pow2(b) == n
}

/// The exponent `b` with `2^b == n`, for a power of two `n`.
pub open spec fn log2(n: nat) -> nat {
    choose|b: nat| pow2(b) == n
}

/// `x` shifted right by `k` bits.
pub open spec fn shr(x: nat, k: nat) -> nat
    decreases k,
{
    if k == 0 {
        x
    } else {
        shr(x, (k - 1) as nat) / 2
    }
}

/// Bit `j` of `x`.
pub open spec fn bit(x: nat, j: nat) -> nat {
    shr(x, j) % 2
}

/// The low `k` bits of `x` in reverse order: bit `j` of `x` becomes bit
/// `k - 1 - j` of the result.
pub open spec fn rev_bits(x: nat, k: nat) -> nat
    decreases k,
{
    if k == 0 {
        0
    } else {
        2 * rev_bits(x, (k - 1) as nat) + bit(x, (k - 1) as nat)
    }
}

/// `s` reordered into bit-reversed index order: position `i` holds the
/// element at the index whose `log2(len)` low bits are those of `i`
/// reversed.
pub open spec fn bit_reversed<T>(s: Seq<T>) -> Seq<T> {
    Seq::new(s.len(), |i: int| s[rev_bits(i as nat, log2(s.len())) as int])
}

proof fn lemma_pow2_pos(k: nat)
    ensures
        pow2(k) >= 1,
    decreases k,
{
    if k > 0 {
        lemma_pow2_pos((k - 1) as nat);
    }
}

proof fn lemma_pow2_exceeds(k: nat)
    ensures
        pow2(k) > k,
    decreases k,
{
    if k > 0 {
        lemma_pow2_exceeds((k - 1) as nat);
        lemma_pow2_pos((k - 1) as nat);
    }
}

proof fn lemma_pow2_strictly_increases(a: nat, b: nat)
    requires
        a < b,
    ensures
        pow2(a) < pow2(b),
    decreases b,
{
    lemma_pow2_pos((b - 1) as nat);
    if a < b - 1 {
        lemma_pow2_strictly_increases(a, (b - 1) as nat);
    }
}

/// The exponent of a power of two is unique.
proof fn lemma_log2(b: nat)
    ensures
        log2(pow2(b)) == b,
{
    let c = log2(pow2(b));
    assert(pow2(c) == pow2(b));
    if c < b {
        lemma_pow2_strictly_increases(c, b);
    } else if b < c {
        lemma_pow2_strictly_increases(b, c);
    }
}

proof fn lemma_shr_half(y: nat, j: nat)
    ensures
        shr(y / 2, j) == shr(y, j + 1),
    decreases j,
{
    if j == 0 {
        assert(shr(y, 1) == shr(y, 0) / 2);
    } else {
        lemma_shr_half(y, (j - 1) as nat);
        assert(shr(y / 2, j) == shr(y / 2, (j - 1) as nat) / 2);
        assert(shr(y, j + 1) == shr(y, j) / 2);
    }
}

/// Prepending a bit: bit 0 of `2y + c` is `c`, the others are those of `y`.
proof fn lemma_bit_of_double(y: nat, c: nat, j: nat)
    requires
        c < 2,
    ensures
        bit(2 * y + c, 0) == c,
        bit(2 * y + c, j + 1) == bit(y, j),
{
    assert((2 * y + c) / 2 == y);
    lemma_shr_half(2 * y + c, j);
}

proof fn lemma_rev_bits_bound(x: nat, k: nat)
    ensures
        rev_bits(x, k) < pow2(k),
    decreases k,
{
    if k > 0 {
        lemma_rev_bits_bound(x, (k - 1) as nat);
    }
}

proof fn lemma_rev_bits_bit(x: nat, k: nat, j: nat)
    requires
        j < k,
    ensures
        bit(rev_bits(x, k), j) == bit(x, (k - 1 - j) as nat),
    decreases k,
{
    let y = rev_bits(x, (k - 1) as nat);
    let c = bit(x, (k - 1) as nat);
    lemma_bit_of_double(y, c, (j - 1) as nat);
    if j > 0 {
        lemma_rev_bits_bit(x, (k - 1) as nat, (j - 1) as nat);
    }
}

/// Two numbers below `2^k` with the same low `k` bits are equal.
proof fn lemma_bits_determine(y: nat, z: nat, k: nat)
    requires
        y < pow2(k),
        z < pow2(k),
        forall|j: nat| j < k ==> #[trigger] bit(y, j) == bit(z, j),
    ensures
        y == z,
    decreases k,
{
    if k > 0 {
        assert(bit(y, 0) == bit(z, 0));
        assert forall|j: nat| j < (k - 1) as nat implies #[trigger] bit(y / 2, j) == bit(z / 2, j) by {
            lemma_shr_half(y, j);
            lemma_shr_half(z, j);
            assert(bit(y, j + 1) == bit(z, j + 1));
        }
        lemma_bits_determine(y / 2, z / 2, (k - 1) as nat);
    }
}

/// Reversing the low `k` bits twice gives back every number below `2^k`,
/// and the reversal stays below `2^k`: it is a permutation of `0..2^k`
/// that is its own inverse.
pub proof fn lemma_rev_bits_involution(x: nat, k: nat)
    requires
        x < pow2(k),
    ensures
        rev_bits(x, k) < pow2(k),
        rev_bits(rev_bits(x, k), k) == x,
{
    let r = rev_bits(x, k);
    let rr = rev_bits(r, k);
    lemma_rev_bits_bound(x, k);
    lemma_rev_bits_bound(r, k);
    assert forall|j: nat| j < k implies #[trigger] bit(rr, j) == bit(x, j) by {
        lemma_rev_bits_bit(r, k, j);
        lemma_rev_bits_bit(x, k, (k - 1 - j) as nat);
    }
    lemma_bits_determine(rr, x, k);
}

/// Reordering twice into bit-reversed order gives back the original
/// sequence, for every length that is a power of two.
pub proof fn lemma_bit_reversed_twice<T>(s: Seq<T>)
    requires
        is_power_of_two(s.len()),
    ensures
        bit_reversed(s).len() == s.len(),
        bit_reversed(bit_reversed(s)) =~= s,
{
    let k = choose|b: nat| pow2(b) == s.len();
    lemma_log2(k);
    let t = bit_reversed(s);
    assert forall|i: int| 0 <= i < s.len() implies #[trigger] bit_reversed(t)[i] == s[i] by {
        lemma_rev_bits_involution(i as nat, k);
    }
}

/// The exponent `b` of a power of two `n == 2^b`.
fn exact_log2(n: usize) -> (b: usize)
    requires
        is_power_of_two(n as nat),
    ensures
        pow2(b as nat) == n,
        b as nat == log2(n as nat),
{
    let ghost target: nat = log2(n as nat);
    let mut m: usize = n;
    let mut b: usize = 0;
    proof {
        lemma_pow2_pos(target);
        lemma_pow2_exceeds(target);
        assert(pow2(0) == 1);
    }
    while m > 1
        invariant
            b <= target,
            target < n,
            pow2(target) == n,
            m as nat == pow2((target - b) as nat),
            n as nat == m * pow2(b as nat),
        decreases m,
    {
        proof {
            if b == target {
                assert(m == 1);
            }
            assert(pow2((target - b) as nat) == 2 * pow2((target - b - 1) as nat));
        }
        m = m / 2;
        proof {
            assert(pow2((b + 1) as nat) == 2 * pow2(b as nat));
            assert(n as nat == m * pow2((b + 1) as nat)) by (nonlinear_arith)
                requires
                    n as nat == 2 * m * pow2(b as nat),
                    pow2((b + 1) as nat) == 2 * pow2(b as nat),
            ;
            if b + 1 > target {
                lemma_pow2_strictly_increases(target, (b + 1) as nat);
                lemma_pow2_pos(b as nat);
                assert(false);
            }
        }
        b = b + 1;
    }
    proof {
        if b < target {
            lemma_pow2_strictly_increases(0, (target - b) as nat);
        }
        lemma_log2(b as nat);
    }
    b
}

/// The low `bits` bits of `x` in reverse order.
fn reverse_low_bits(x: usize, bits: usize) -> (r: usize)
    requires
        pow2(bits as nat) <= usize::MAX + 1,
    ensures
        r == rev_bits(x as nat, bits as nat),
{
    let mut v: usize = x;
    let mut r: usize = 0;
    let mut k: usize = 0;
    while k < bits
        invariant
            k <= bits,
            pow2(bits as nat) <= usize::MAX + 1,
            v == shr(x as nat, k as nat),
            r == rev_bits(x as nat, k as nat),
        decreases bits - k,
    {
        proof {
            lemma_rev_bits_bound(x as nat, k as nat);
            if k + 1 < bits {
                lemma_pow2_strictly_increases((k + 1) as nat, bits as nat);
            }
        }
        r = 2 * r + v % 2;
        v = v / 2;
        k = k + 1;
    }
    r
}

/// Reorder `data` into bit-reversed index order: the element at index `i`
/// moves to the index whose `log2(len)` low bits are those of `i` reversed.
/// The length must be a power of two.
pub fn bit_reverse_permutation<T: Copy>(data: &mut [T])
    requires
        is_power_of_two(old(data)@.len()),
    ensures
        final(data)@ == bit_reversed(old(data)@),
{
    let n = data.len();
    let bits = exact_log2(n);
    let ghost k = bits as nat;
    let ghost orig = data@;
    let mut i: usize = 0;
    while i < n
        invariant
            n == data@.len(),
            n == orig.len(),
            pow2(k) == n,
            k == log2(n as nat),
            bits == k,
            i <= n,
            forall|p: int|
                0 <= p < n ==> #[trigger] data@[p] == if p < i || rev_bits(p as nat, k) < i {
                    orig[rev_bits(p as nat, k) as int]
                } else {
                    orig[p]
                },
        decreases n - i,
    {
        let rev = reverse_low_bits(i, bits);
        proof {
            lemma_rev_bits_involution(i as nat, k);
        }
        if i < rev {
            let a = data[i];
            let b = data[rev];
            data[i] = b;
            data[rev] = a;
        }
        proof {
            assert forall|p: int| 0 <= p < n implies #[trigger] data@[p] == if p < i + 1
                || rev_bits(p as nat, k) < i + 1 {
                orig[rev_bits(p as nat, k) as int]
            } else {
                orig[p]
            } by {
                lemma_rev_bits_involution(p as nat, k);
            }
        }
        i = i + 1;
    }
    assert(data@ =~= bit_reversed(orig));
}

} // verus!
