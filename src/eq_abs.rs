use vstd::arithmetic::power2::{lemma_pow2_pos, lemma_pow2_strictly_increases, pow2};
use vstd::prelude::*;

use crate::field::{fadd, fmul, fsub, Field};
use crate::utils::{
    bit, ceil_log2, is_power_of_two, lemma_bit_of_div, lemma_bit_of_mod, lemma_ceil_log2_pow2,
    lemma_low_bits_eq, log2, split_bits,
};

verus! {

/// The subtable whose entry is 1 where the two operand halves of the index
/// agree on all bits but the most significant one (the sign bit of a
/// sign-magnitude value), and 0 elsewhere.
pub struct EqAbsSubtable {
    field: Field,
}

/// The number of bits of each operand in a table of `m` entries.
pub open spec fn bits_per_operand(m: nat) -> nat {
    ceil_log2(m) / 2
}

/// Entry `idx` of the table of size `m`: with the index split into a high
/// operand `x` and a low operand `y` of equal width, 1 where `x` and `y`
/// agree below their top bit.
pub open spec fn eq_abs_entry(m: nat, idx: nat) -> int {
    let b = bits_per_operand(m);
    let x = (idx / pow2(b)) % pow2(b);
    let y = idx % pow2(b);
    if x % pow2((b - 1) as nat) == y % pow2((b - 1) as nat) {
        1
    } else {
        0
    }
}

/// The table sizes that can be materialized: powers of two with at least two
/// bits per operand pair.
pub open spec fn valid_table_size(m: nat) -> bool {
    is_power_of_two(m) && m >= 4
}

/// The factor `a * c + (1 - a) * (1 - c)` of the multilinear extension.
pub open spec fn eq_term(a: int, c: int, p: int) -> int {
    fadd(fmul(a, c, p), fmul(fsub(1, a, p), fsub(1, c, p), p), p)
}

/// The product of the factors for coordinates `1 .. n` of each half of
/// `point`.
pub open spec fn eq_abs_mle_upto(point: Seq<u64>, p: int, n: nat) -> int
    decreases n,
{
    if n <= 1 {
        1
    } else {
        let i = n - 1;
        let b = point.len() / 2;
        fmul(eq_abs_mle_upto(point, p, (n - 1) as nat), eq_term(point[i] as int, point[b + i] as int, p), p)
    }
}

/// The multilinear extension at `point`, whose first half holds the
/// coordinates of `x` and second half those of `y`, most significant first.
pub open spec fn eq_abs_mle(point: Seq<u64>, p: int) -> int {
    eq_abs_mle_upto(point, p, (point.len() / 2) as nat)
}

impl EqAbsSubtable {
    pub closed spec fn field_spec(&self) -> Field {
        self.field
    }

    pub open spec fn wf(&self) -> bool {
        self.field_spec().wf()
    }

    pub fn new(field: Field) -> (r: EqAbsSubtable)
        requires
            field.wf(),
        ensures
            r.wf(),
            r.field_spec() == field,
    {
        EqAbsSubtable { field }
    }

    /// All `m` entries of the table, in index order, as field elements.
    pub fn materialize(&self, m: usize) -> (r: Vec<u64>)
        requires
            self.wf(),
            valid_table_size(m as nat),
        ensures
            r@.len() == m,
            forall|i: int| 0 <= i < m ==> r@[i] == eq_abs_entry(m as nat, i as nat),
    {
        let log_m = log2(m);
        let bits = (log_m / 2) as usize;
        proof {
            let k = choose|k: nat| pow2(k) == m as nat;
            lemma_ceil_log2_pow2(k);
            vstd::arithmetic::power2::lemma2_to64();
            if k < 2 {
                assert(pow2(k) <= 2);
            }
            if k > 64 {
                lemma_pow2_strictly_increases(64, k);
            }
            assert(k != 64);
            assert(k >= 2);
            assert(k < 64);
            vstd::bits::lemma_usize_shl_is_mul(1, (bits - 1) as usize);
            lemma_pow2_strictly_increases((bits - 1) as nat, 32);
            lemma_pow2_pos((bits - 1) as nat);
        }
        let low: usize = 1usize << (bits - 1);
        let one = self.field.one();
        let zero = self.field.zero();
        let mut entries: Vec<u64> = Vec::new();
        for idx in 0..m
            invariant
                self.wf(),
                one == 1,
                zero == 0,
                1 <= bits < 32,
                bits == bits_per_operand(m as nat),
                low == pow2((bits - 1) as nat),
                low > 0,
                entries@.len() == idx,
                forall|i: int| 0 <= i < idx ==> entries@[i] == eq_abs_entry(m as nat, i as nat),
        {
            let (x, y) = split_bits(idx, bits);
            let row = if x % low == y % low {
                one
            } else {
                zero
            };
            entries.push(row);
        }
        entries
    }

    /// The multilinear extension of the table at `point`, a vector of field
    /// elements whose two halves stand for the two operands.
    pub fn evaluate_mle(&self, point: &Vec<u64>) -> (r: u64)
        requires
            self.wf(),
            point@.len() % 2 == 0,
            forall|i: int| 0 <= i < point@.len() ==> self.field_spec().contains(#[trigger] point@[i] as int),
        ensures
            r == eq_abs_mle(point@, self.field_spec().modulus_spec()),
            self.field_spec().contains(r as int),
    {
        let f = self.field;
        let ghost p = f.modulus_spec();
        let n = point.len();
        let b = n / 2;
        let one = f.one();
        let mut result = one;
        let mut i: usize = 1;
        while i < b
            invariant
                f.wf(),
                f == self.field_spec(),
                p == f.modulus_spec(),
                one == 1,
                n == point@.len(),
                b == n / 2,
                forall|j: int| 0 <= j < point@.len() ==> f.contains(#[trigger] point@[j] as int),
                1 <= i <= (if b > 1 { b } else { 1 }),
                f.contains(result as int),
                result == eq_abs_mle_upto(point@, p, i as nat),
            decreases b - i,
        {
            let x = point[i];
            assert(b + i < n);
            let y = point[b + i];
            let both = f.mul(x, y);
            let neither = f.mul(f.sub(one, x), f.sub(one, y));
            let term = f.add(both, neither);
            result = f.mul(result, term);
            i = i + 1;
        }
        result
    }
}

/// The `k` bits of `idx` as field elements, most significant first: the
/// binary point that stands for entry `idx`.
pub open spec fn index_bits(idx: nat, k: nat) -> Seq<u64> {
    Seq::new(k, |j: int| bit(idx, (k - 1 - j) as nat) as u64)
}

proof fn lemma_bit_is_binary(a: nat, j: nat)
    ensures
        bit(a, j) < 2,
    decreases j,
{
    if j > 0 {
        lemma_bit_is_binary(a / 2, (j - 1) as nat);
    }
}

/// On a binary point, the product of the first `n` factors is 1 exactly
/// where the two halves agree at coordinates `1 .. n`, and 0 elsewhere.
proof fn lemma_mle_upto_on_binary(point: Seq<u64>, p: int, n: nat)
    requires
        p >= 2,
        point.len() % 2 == 0,
        n <= point.len() / 2,
        forall|j: int| 0 <= j < point.len() ==> #[trigger] point[j] < 2,
    ensures
        eq_abs_mle_upto(point, p, n) == (if (forall|i: int|
            1 <= i < n ==> #[trigger] point[i] == point[point.len() / 2 + i]) {
            1int
        } else {
            0int
        }),
    decreases n,
{
    let b = point.len() / 2;
    vstd::arithmetic::div_mod::lemma_small_mod(1, p as nat);
    vstd::arithmetic::div_mod::lemma_small_mod(0, p as nat);
    if n > 1 {
        let i = n - 1;
        lemma_mle_upto_on_binary(point, p, (n - 1) as nat);
        let a = point[i] as int;
        let c = point[b + i] as int;
        assert(eq_term(a, c, p) == (if a == c { 1int } else { 0int })) by {
            assert(point[i] < 2);
            assert(point[b + i] < 2);
            assert(1int % p == 1 && 0int % p == 0);
            if a == 0 && c == 0 {
                assert(fsub(1, 0, p) == 1);
                assert(fmul(1, 1, p) == 1);
                assert(fmul(0, 0, p) == 0);
                assert(fadd(0, 1, p) == 1);
            } else if a == 0 && c == 1 {
                assert(eq_term(0, 1, p) == 0);
            } else if a == 1 && c == 0 {
                assert(eq_term(1, 0, p) == 0);
            } else {
                assert(eq_term(1, 1, p) == 1);
            }
        }
        if forall|i2: int| 1 <= i2 < n ==> #[trigger] point[i2] == point[b + i2] {
            assert(a == c);
            assert forall|i2: int| 1 <= i2 < n - 1 implies #[trigger] point[i2] == point[b + i2] by {}
        }
    }
}

/// For every index of a table whose size is an even power of two, the
/// multilinear extension at the index's bits equals the materialized entry.
pub proof fn lemma_materialize_mle_duality(subtable: EqAbsSubtable, m: nat, idx: nat)
    requires
        subtable.wf(),
        valid_table_size(m),
        ceil_log2(m) % 2 == 0,
        idx < m,
    ensures
        eq_abs_mle(index_bits(idx, ceil_log2(m)), subtable.field_spec().modulus_spec())
            == eq_abs_entry(m, idx),
{
    let p = subtable.field_spec().modulus_spec();
    let k = ceil_log2(m);
    let b = bits_per_operand(m);
    let point = index_bits(idx, k);
    let ex = choose|e: nat| pow2(e) == m;
    lemma_ceil_log2_pow2(ex);
    vstd::arithmetic::power2::lemma2_to64();
    if k < 2 {
        assert(pow2(k) <= 2);
    }
    assert(b >= 1 && k == 2 * b);
    lemma_pow2_pos(b);
    let x = (idx / pow2(b)) % pow2(b);
    let y = idx % pow2(b);
    assert forall|j: int| 0 <= j < point.len() implies #[trigger] point[j] < 2 by {
        lemma_bit_is_binary(idx, (k - 1 - j) as nat);
    }
    lemma_mle_upto_on_binary(point, p, b);
    assert forall|i: int| 1 <= i < b implies (#[trigger] point[i] == point[b + i]) == (bit(
        x,
        (b - 1 - i) as nat,
    ) == bit(y, (b - 1 - i) as nat)) by {
        let t = (b - 1 - i) as nat;
        lemma_bit_of_mod(idx / pow2(b), b, t);
        lemma_bit_of_div(idx, b, t);
        lemma_bit_of_mod(idx, b, t);
        lemma_bit_is_binary(idx, b + t);
        lemma_bit_is_binary(idx, t);
        assert(point[i] == bit(idx, b + t) as u64);
        assert(point[b + i] == bit(idx, t) as u64);
    }
    lemma_low_bits_eq(x, y, (b - 1) as nat);
    if forall|i: int| 1 <= i < b ==> #[trigger] point[i] == point[b + i] {
        assert forall|t: nat| t < b - 1 implies bit(x, t) == bit(y, t) by {
            let i = b - 1 - t;
            assert(point[i] == point[b + i]);
        }
    }
    if forall|t: nat| t < (b - 1) as nat ==> bit(x, t) == bit(y, t) {
        assert forall|i: int| 1 <= i < b implies #[trigger] point[i] == point[b + i] by {
            assert(bit(x, (b - 1 - i) as nat) == bit(y, (b - 1 - i) as nat));
        }
    }
}

/// Two tables that both meet the contract of `materialize` for the same size
/// are the same table: materialization is deterministic.
pub proof fn lemma_materialize_deterministic(m: nat, first: Seq<u64>, second: Seq<u64>)
    requires
        first.len() == m,
        second.len() == m,
        forall|i: int| 0 <= i < m ==> first[i] == eq_abs_entry(m, i as nat),
        forall|i: int| 0 <= i < m ==> second[i] == eq_abs_entry(m, i as nat),
    ensures
        first == second,
{
    assert(first =~= second);
}

} // verus!
