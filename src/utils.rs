use vstd::arithmetic::power2::{lemma_pow2_pos, lemma_pow2_unfold, pow2};
use vstd::prelude::*;

verus! {

/// The ceiling of the base-2 logarithm of `n`, with zero for `n <= 1`.
pub open spec fn ceil_log2(n: nat) -> nat
    decreases n,
{
    if n <= 1 {
        0
    } else {
        1 + ceil_log2(((n + 1) / 2) as nat)
    }
}

pub open spec fn is_power_of_two(n: nat) -> bool {
    exists|k: nat| pow2(k) == n
}

/// Relies on `ark_std::log2`, which returns the ceiling of the base-2
/// logarithm of `x`, and 0 for 0.
#[verifier::external_body]
pub(crate) fn log2(x: usize) -> (r: u32)
    ensures
        r as nat == ceil_log2(x as nat),
{
    ark_std::log2(x)
}

/// The logarithm of a power of two is its exponent.
pub proof fn lemma_ceil_log2_pow2(k: nat)
    ensures
        ceil_log2(pow2(k)) == k,
    decreases k,
{
    if k == 0 {
        assert(pow2(0) == 1) by {
            vstd::arithmetic::power2::lemma2_to64();
        }
    } else {
        lemma_pow2_unfold(k);
        lemma_pow2_pos((k - 1) as nat);
        assert((pow2(k) + 1) / 2 == pow2((k - 1) as nat));
        lemma_ceil_log2_pow2((k - 1) as nat);
    }
}

/// Splits `item` into the `num_bits`-bit chunk above its low `num_bits`
/// bits, and its low `num_bits` bits.
pub fn split_bits(item: usize, num_bits: usize) -> (r: (usize, usize))
    requires
        num_bits < usize::BITS,
    ensures
        r.0 == (item as nat / pow2(num_bits as nat)) % pow2(num_bits as nat),
        r.1 == item as nat % pow2(num_bits as nat),
{
    proof {
        vstd::bits::lemma_usize_pow2_no_overflow(num_bits as nat);
        vstd::bits::lemma_usize_shl_is_mul(1, num_bits);
        vstd::bits::lemma_usize_shr_is_div(item, num_bits);
    }
    let chunk: usize = 1usize << num_bits;
    let low_chunk = item % chunk;
    let high_chunk = (item >> num_bits) % chunk;
    (high_chunk, low_chunk)
}

/// Bit `j` of `a`, counting from the least significant.
pub open spec fn bit(a: nat, j: nat) -> nat
    decreases j,
{
    if j == 0 {
        a % 2
    } else {
        bit(a / 2, (j - 1) as nat)
    }
}

/// Two numbers agree modulo `2^n` exactly when their low `n` bits agree.
pub proof fn lemma_low_bits_eq(a: nat, c: nat, n: nat)
    ensures
        (a % pow2(n) == c % pow2(n)) <==> (forall|t: nat| t < n ==> bit(a, t) == bit(c, t)),
    decreases n,
{
    if n == 0 {
        vstd::arithmetic::power2::lemma2_to64();
    } else {
        let m = (n - 1) as nat;
        lemma_pow2_unfold(n);
        lemma_pow2_pos(m);
        lemma_low_bits_eq(a / 2, c / 2, m);
        vstd::arithmetic::div_mod::lemma_mod_breakdown(a as int, 2, pow2(m) as int);
        vstd::arithmetic::div_mod::lemma_mod_breakdown(c as int, 2, pow2(m) as int);
        let pa = (a / 2) % pow2(m);
        let pc = (c / 2) % pow2(m);
        assert(a % pow2(n) == 2 * pa + a % 2);
        assert(c % pow2(n) == 2 * pc + c % 2);
        if a % pow2(n) == c % pow2(n) {
            assert(a % 2 == c % 2 && pa == pc);
            assert forall|t: nat| t < n implies bit(a, t) == bit(c, t) by {
                if t > 0 {
                    assert(bit(a / 2, (t - 1) as nat) == bit(c / 2, (t - 1) as nat));
                }
            }
        }
        if forall|t: nat| t < n ==> bit(a, t) == bit(c, t) {
            assert(bit(a, 0) == bit(c, 0));
            assert forall|t: nat| t < m implies #[trigger] bit(a / 2, t) == bit(c / 2, t) by {
                assert(bit(a, t + 1) == bit(c, t + 1));
            }
        }
    }
}

/// Bit `t` of `a / 2^s` is bit `s + t` of `a`.
pub proof fn lemma_bit_of_div(a: nat, s: nat, t: nat)
    ensures
        bit(a / pow2(s), t) == bit(a, s + t),
    decreases s,
{
    if s == 0 {
        vstd::arithmetic::power2::lemma2_to64();
    } else {
        let s1 = (s - 1) as nat;
        lemma_pow2_unfold(s);
        lemma_pow2_pos(s1);
        vstd::arithmetic::div_mod::lemma_div_denominator(a as int, 2, pow2(s1) as int);
        lemma_bit_of_div(a / 2, s1, t);
    }
}

/// Bit `t` of `a % 2^n` is bit `t` of `a` below `n`.
pub proof fn lemma_bit_of_mod(a: nat, n: nat, t: nat)
    requires
        t < n,
    ensures
        bit(a % pow2(n), t) == bit(a, t),
    decreases t,
{
    let m = (n - 1) as nat;
    lemma_pow2_unfold(n);
    lemma_pow2_pos(m);
    vstd::arithmetic::div_mod::lemma_mod_breakdown(a as int, 2, pow2(m) as int);
    let r = a % pow2(n);
    assert(r == 2 * ((a / 2) % pow2(m)) + a % 2);
    if t == 0 {
        assert(r % 2 == a % 2);
    } else {
        assert(r / 2 == (a / 2) % pow2(m));
        lemma_bit_of_mod(a / 2, m, (t - 1) as nat);
    }
}

} // verus!
