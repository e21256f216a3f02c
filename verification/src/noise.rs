//! The integer generator behind white noise: a 64-bit linear congruential
//! generator whose top 32 bits make each sample.

use vstd::prelude::*;

verus! {

/// Multiplier of the generator.
pub const LCG_MULTIPLIER: u64 = 6_364_136_223_846_793_005;

/// One step of the generator: `s·a + 1` modulo `2^64`.
pub open spec fn lcg_next(s: u64) -> u64 {
    s.wrapping_mul(LCG_MULTIPLIER).wrapping_add(1)
}

/// The generator state after `k` steps from `seed` (the start state is
/// `seed + 1`, modulo `2^64`).
pub open spec fn lcg_state(seed: u64, k: nat) -> u64
    decreases k,
{
    if k == 0 {
        seed.wrapping_add(1)
    } else {
        lcg_next(lcg_state(seed, (k - 1) as nat))
    }
}

/// The word behind noise sample `i`: the top 32 bits of the state after
/// `i + 1` steps.
pub open spec fn noise_word(seed: u64, i: nat) -> u32 {
    (lcg_state(seed, i + 1) >> 32u64) as u32
}

/// The first `n` words of the stream from `seed`.
pub open spec fn noise_stream(seed: u64, n: nat) -> Seq<u32> {
    Seq::new(n, |i: int| noise_word(seed, i as nat))
}

/// The words behind `num_samples` samples of white noise from `seed`.  A
/// word `w` spans the whole `u32` range; sample `w / 2^31 - 1`, taken in
/// floating point, is uniform on `[-1, 1)`.
pub fn noise_words(num_samples: usize, seed: u64) -> (words: Vec<u32>)
    ensures
        words@ == noise_stream(seed, num_samples as nat),
{
    let mut state: u64 = seed.wrapping_add(1);
    let mut words: Vec<u32> = Vec::new();
    let mut k: usize = 0;
    while k < num_samples
        invariant
            k <= num_samples,
            words@.len() == k,
            state == lcg_state(seed, k as nat),
            forall|i: int| 0 <= i < k ==> #[trigger] words@[i] == noise_word(seed, i as nat),
        decreases num_samples - k,
    {
        state = state.wrapping_mul(LCG_MULTIPLIER).wrapping_add(1);
        let w = (state >> 32u64) as u32;
        words.push(w);
        k = k + 1;
    }
    assert(words@ =~= noise_stream(seed, num_samples as nat));
    words
}

/// The generator in plain integer arithmetic: the start state is the whole
/// 64-bit seed plus one, each step is `s·a + 1`, both modulo `2^64`, and
/// word `i` is the top 32 bits of the state after `i + 1` steps.
pub proof fn lemma_lcg_arithmetic(seed: u64, k: nat)
    ensures
        lcg_state(seed, 0) as int == (seed as int + 1) % 0x1_0000_0000_0000_0000,
        lcg_state(seed, k + 1) as int == (lcg_state(seed, k) as int * 6_364_136_223_846_793_005 + 1)
            % 0x1_0000_0000_0000_0000,
        noise_word(seed, k) as int == lcg_state(seed, k + 1) as int / 0x1_0000_0000,
{
    let s = lcg_state(seed, k);
    let m = s.wrapping_mul(LCG_MULTIPLIER);
    assert(m as int == (s as int * 6_364_136_223_846_793_005) % 0x1_0000_0000_0000_0000);
    let t = lcg_state(seed, k + 1);
    assert(t == m.wrapping_add(1));
    assert(t as int == (m as int + 1) % 0x1_0000_0000_0000_0000);
    vstd::arithmetic::div_mod::lemma_add_mod_noop(
        s as int * 6_364_136_223_846_793_005,
        1,
        0x1_0000_0000_0000_0000,
    );
    vstd::arithmetic::div_mod::lemma_small_mod(1, 0x1_0000_0000_0000_0000);
    assert(t >> 32u64 == t / 0x1_0000_0000) by (bit_vector);
}

/// The first word of every non-empty stream, from the inputs alone: the top
/// 32 bits of `((seed + 1)·a + 1) mod 2^64`, with the full 64-bit seed.
pub proof fn lemma_noise_first_word(seed: u64, n: nat)
    requires
        n >= 1,
    ensures
        noise_stream(seed, n)[0] as int == (((seed as int + 1) % 0x1_0000_0000_0000_0000)
            * 6_364_136_223_846_793_005 + 1) % 0x1_0000_0000_0000_0000 / 0x1_0000_0000,
{
    lemma_lcg_arithmetic(seed, 0);
}

/// Distinct seeds start the generator in distinct states.
pub proof fn lemma_distinct_seeds_distinct_starts(a: u64, b: u64)
    requires
        a != b,
    ensures
        lcg_state(a, 0) != lcg_state(b, 0),
{
    lemma_lcg_arithmetic(a, 0);
    lemma_lcg_arithmetic(b, 0);
}

/// `x·a mod 2^64` undoes to `x`: the multiplier is odd, and its inverse
/// modulo `2^64` is 13877824140714322085.
proof fn lemma_multiplier_invertible(x: int)
    requires
        0 <= x < 0x1_0000_0000_0000_0000,
    ensures
        (x * 6_364_136_223_846_793_005) % 0x1_0000_0000_0000_0000 * 13_877_824_140_714_322_085
            % 0x1_0000_0000_0000_0000 == x,
{
    let m: int = 0x1_0000_0000_0000_0000;
    let a: int = 6_364_136_223_846_793_005;
    let inv: int = 13_877_824_140_714_322_085;
    vstd::arithmetic::div_mod::lemma_mul_mod_noop_left(x * a, inv, m);
    vstd::arithmetic::mul::lemma_mul_is_associative(x, a, inv);
    assert(a * inv == 1 + m * 4_787_856_489_426_250_814);
    vstd::arithmetic::mul::lemma_mul_is_distributive_add(x, 1, m * 4_787_856_489_426_250_814);
    vstd::arithmetic::mul::lemma_mul_is_associative(x, m, 4_787_856_489_426_250_814);
    vstd::arithmetic::mul::lemma_mul_is_associative(m, x, 4_787_856_489_426_250_814);
    assert(x * (m * 4_787_856_489_426_250_814) == m * (x * 4_787_856_489_426_250_814)) by (nonlinear_arith);
    vstd::arithmetic::div_mod::lemma_mod_multiples_vanish(x * 4_787_856_489_426_250_814, x, m);
    vstd::arithmetic::div_mod::lemma_small_mod(x as nat, m as nat);
}

/// Distinct seeds keep the generator in distinct states at every step: a
/// step is a bijection of the 64-bit states.
pub proof fn lemma_distinct_seeds_distinct_states(a: u64, b: u64, k: nat)
    requires
        a != b,
    ensures
        lcg_state(a, k) != lcg_state(b, k),
    decreases k,
{
    if k == 0 {
        lemma_distinct_seeds_distinct_starts(a, b);
    } else {
        let k1 = (k - 1) as nat;
        lemma_distinct_seeds_distinct_states(a, b, k1);
        let x = lcg_state(a, k1);
        let y = lcg_state(b, k1);
        lemma_lcg_arithmetic(a, k1);
        lemma_lcg_arithmetic(b, k1);
        let m: int = 0x1_0000_0000_0000_0000;
        let mx = (x as int * 6_364_136_223_846_793_005) % m;
        let my = (y as int * 6_364_136_223_846_793_005) % m;
        vstd::arithmetic::div_mod::lemma_add_mod_noop(x as int * 6_364_136_223_846_793_005, 1, m);
        vstd::arithmetic::div_mod::lemma_add_mod_noop(y as int * 6_364_136_223_846_793_005, 1, m);
        vstd::arithmetic::div_mod::lemma_small_mod(1, m as nat);
        vstd::arithmetic::div_mod::lemma_mod_bound(x as int * 6_364_136_223_846_793_005, m);
        vstd::arithmetic::div_mod::lemma_mod_bound(y as int * 6_364_136_223_846_793_005, m);
        if lcg_state(a, k) == lcg_state(b, k) {
            assert((mx + 1) % m == (my + 1) % m);
            if mx + 1 < m && my + 1 < m {
                vstd::arithmetic::div_mod::lemma_small_mod((mx + 1) as nat, m as nat);
                vstd::arithmetic::div_mod::lemma_small_mod((my + 1) as nat, m as nat);
            } else {
                vstd::arithmetic::div_mod::lemma_mod_self_0(m);
                if mx + 1 < m {
                    vstd::arithmetic::div_mod::lemma_small_mod((mx + 1) as nat, m as nat);
                }
                if my + 1 < m {
                    vstd::arithmetic::div_mod::lemma_small_mod((my + 1) as nat, m as nat);
                }
            }
            assert(mx == my);
            lemma_multiplier_invertible(x as int);
            lemma_multiplier_invertible(y as int);
        }
    }
}

/// The stream depends on the seed and the length alone, and a shorter run
/// is a prefix of a longer one from the same seed.
pub proof fn lemma_noise_prefix(seed: u64, m: nat, n: nat)
    requires
        m <= n,
    ensures
        noise_stream(seed, m) =~= noise_stream(seed, n).take(m as int),
        noise_stream(seed, n).len() == n,
{
}

} // verus!
