use vstd::arithmetic::power::pow;
use vstd::prelude::*;

use crate::field::Field;

verus! {

/// The product of `v + g` over the values `vals`, as an integer.
pub open spec fn shifted_product(vals: Seq<u64>, g: int) -> int
    decreases vals.len(),
{
    if vals.len() == 0 {
        1
    } else {
        shifted_product(vals.drop_last(), g) * (vals.last() + g)
    }
}

/// How many times `j` occurs in `indices`.
pub open spec fn occurrences(indices: Seq<usize>, j: int) -> nat
    decreases indices.len(),
{
    if indices.len() == 0 {
        0
    } else {
        occurrences(indices.drop_last(), j) + if indices.last() == j {
            1nat
        } else {
            0nat
        }
    }
}

/// The table entries at `indices`, in order.
pub open spec fn gather(table: Seq<u64>, indices: Seq<usize>) -> Seq<u64> {
    indices.map_values(|i: usize| table[i as int])
}

/// The product over the first `n` table entries of `entry + g`, each raised to
/// its count in `counts`.
pub open spec fn weighted_product(table: Seq<u64>, counts: Seq<usize>, g: int, n: nat) -> int
    decreases n,
{
    if n == 0 {
        1
    } else {
        weighted_product(table, counts, g, (n - 1) as nat) * pow(
            table[n - 1] + g,
            counts[n - 1] as nat,
        )
    }
}

/// The product over the first `n` table entries of `entry + g`, each raised to
/// the number of times its index occurs in `indices`.
pub open spec fn multiset_product(table: Seq<u64>, indices: Seq<usize>, g: int, n: nat) -> int
    decreases n,
{
    if n == 0 {
        1
    } else {
        multiset_product(table, indices, g, (n - 1) as nat) * pow(
            table[n - 1] + g,
            occurrences(indices, n - 1),
        )
    }
}

/// Appending index `i` multiplies the table side by `table[i] + g`, where
/// `i` is among the first `n` entries.
proof fn lemma_multiset_product_push(
    table: Seq<u64>,
    indices: Seq<usize>,
    i: usize,
    g: int,
    n: nat,
)
    requires
        n <= table.len(),
    ensures
        multiset_product(table, indices.push(i), g, n) == multiset_product(table, indices, g, n)
            * (if i < n {
            table[i as int] + g
        } else {
            1
        }),
    decreases n,
{
    let ext = indices.push(i);
    assert(ext.drop_last() =~= indices);
    if n > 0 {
        let j = n - 1;
        lemma_multiset_product_push(table, indices, i, g, (n - 1) as nat);
        let prev = multiset_product(table, indices, g, (n - 1) as nat);
        let a = table[j] + g;
        let c = occurrences(indices, j);
        if i == j {
            assert(occurrences(ext, j) == c + 1);
            assert(pow(a, c + 1) == a * pow(a, c)) by {
                reveal(pow);
            }
            assert(prev * (a * pow(a, c)) == prev * pow(a, c) * a) by (nonlinear_arith);
        } else {
            assert(occurrences(ext, j) == c);
            let t = if i < n - 1 { table[i as int] + g } else { 1 };
            assert(prev * t * pow(a, c) == prev * pow(a, c) * t) by (nonlinear_arith);
        }
    }
}

/// The product of `entry + g` over the entries read at `indices` equals the
/// product over the table of `entry + g` raised to the number of times each
/// entry was read.
pub proof fn lemma_grand_product_telescoping(table: Seq<u64>, indices: Seq<usize>, g: int)
    requires
        forall|i: int| 0 <= i < indices.len() ==> #[trigger] indices[i] < table.len(),
    ensures
        shifted_product(gather(table, indices), g) == multiset_product(
            table,
            indices,
            g,
            table.len(),
        ),
    decreases indices.len(),
{
    if indices.len() == 0 {
        lemma_multiset_product_empty(table, indices, g, table.len());
        assert(gather(table, indices) =~= Seq::<u64>::empty());
    } else {
        let prefix = indices.drop_last();
        let i = indices.last();
        assert(prefix.push(i) =~= indices);
        assert(gather(table, indices).drop_last() =~= gather(table, prefix));
        lemma_grand_product_telescoping(table, prefix, g);
        lemma_multiset_product_push(table, prefix, i, g, table.len());
    }
}

proof fn lemma_multiset_product_empty(table: Seq<u64>, indices: Seq<usize>, g: int, n: nat)
    requires
        indices.len() == 0,
    ensures
        multiset_product(table, indices, g, n) == 1,
    decreases n,
{
    if n > 0 {
        lemma_multiset_product_empty(table, indices, g, (n - 1) as nat);
        vstd::arithmetic::power::lemma_pow0(table[n - 1] + g);
    }
}

proof fn lemma_occurrences_bound(indices: Seq<usize>, j: int)
    ensures
        occurrences(indices, j) <= indices.len(),
    decreases indices.len(),
{
    if indices.len() > 0 {
        lemma_occurrences_bound(indices.drop_last(), j);
    }
}

proof fn lemma_weighted_is_multiset(
    table: Seq<u64>,
    counts: Seq<usize>,
    indices: Seq<usize>,
    g: int,
    n: nat,
)
    requires
        n <= counts.len(),
        forall|j: int| 0 <= j < n ==> counts[j] == occurrences(indices, j),
    ensures
        weighted_product(table, counts, g, n) == multiset_product(table, indices, g, n),
    decreases n,
{
    if n > 0 {
        lemma_weighted_is_multiset(table, counts, indices, g, (n - 1) as nat);
    }
}

/// How many times each index below `table_size` occurs in `indices`.
pub fn lookup_multiplicities(indices: &Vec<usize>, table_size: usize) -> (r: Vec<usize>)
    requires
        forall|i: int| 0 <= i < indices@.len() ==> #[trigger] indices@[i] < table_size,
    ensures
        r@.len() == table_size,
        forall|j: int| 0 <= j < table_size ==> #[trigger] r@[j] == occurrences(indices@, j),
{
    let mut counts: Vec<usize> = Vec::new();
    let mut j: usize = 0;
    while j < table_size
        invariant
            j <= table_size,
            counts@.len() == j,
            forall|k: int| 0 <= k < j ==> counts@[k] == 0,
        decreases table_size - j,
    {
        counts.push(0);
        j = j + 1;
    }
    proof {
        assert(indices@.subrange(0, 0) =~= Seq::<usize>::empty());
    }
    let mut i: usize = 0;
    while i < indices.len()
        invariant
            i <= indices@.len(),
            counts@.len() == table_size,
            forall|k: int| 0 <= k < indices@.len() ==> #[trigger] indices@[k] < table_size,
            forall|k: int|
                0 <= k < table_size ==> #[trigger] counts@[k] == occurrences(
                    indices@.subrange(0, i as int),
                    k,
                ),
        decreases indices@.len() - i,
    {
        let idx = indices[i];
        let ghost before = indices@.subrange(0, i as int);
        let ghost after = indices@.subrange(0, i + 1);
        proof {
            assert(after.drop_last() =~= before);
            lemma_occurrences_bound(before, idx as int);
        }
        let c = counts[idx];
        counts.set(idx, c + 1);
        i = i + 1;
    }
    proof {
        assert(indices@.subrange(0, indices@.len() as int) =~= indices@);
    }
    counts
}

/// The product of `v + challenge` over `values`, in the field.
pub fn grand_product(field: Field, values: &Vec<u64>, challenge: u64) -> (r: u64)
    requires
        field.wf(),
        field.contains(challenge as int),
        forall|i: int| 0 <= i < values@.len() ==> field.contains(#[trigger] values@[i] as int),
    ensures
        r == shifted_product(values@, challenge as int) % field.modulus_spec(),
{
    let ghost p = field.modulus_spec();
    let mut acc = field.one();
    let mut i: usize = 0;
    proof {
        assert(values@.subrange(0, 0) =~= Seq::<u64>::empty());
        vstd::arithmetic::div_mod::lemma_small_mod(1, p as nat);
    }
    while i < values.len()
        invariant
            field.wf(),
            p == field.modulus_spec(),
            field.contains(challenge as int),
            forall|k: int| 0 <= k < values@.len() ==> field.contains(#[trigger] values@[k] as int),
            i <= values@.len(),
            field.contains(acc as int),
            acc == shifted_product(values@.subrange(0, i as int), challenge as int) % p,
        decreases values@.len() - i,
    {
        let ghost before = values@.subrange(0, i as int);
        let ghost after = values@.subrange(0, i + 1);
        let v = values[i];
        let term = field.add(v, challenge);
        proof {
            assert(after.drop_last() =~= before);
            vstd::arithmetic::div_mod::lemma_mul_mod_noop(
                shifted_product(before, challenge as int),
                v + challenge,
                p,
            );
            vstd::arithmetic::div_mod::lemma_mod_twice(shifted_product(before, challenge as int), p);
            vstd::arithmetic::div_mod::lemma_mod_twice(v + challenge, p);
            vstd::arithmetic::div_mod::lemma_mul_mod_noop(acc as int, term as int, p);
        }
        acc = field.mul(acc, term);
        i = i + 1;
    }
    proof {
        assert(values@.subrange(0, values@.len() as int) =~= values@);
    }
    acc
}

/// The product over the table of `entry + challenge` raised to the entry's
/// count, in the field.
pub fn multiset_grand_product(
    field: Field,
    table: &Vec<u64>,
    counts: &Vec<usize>,
    challenge: u64,
) -> (r: u64)
    requires
        field.wf(),
        field.contains(challenge as int),
        counts@.len() == table@.len(),
        forall|i: int| 0 <= i < table@.len() ==> field.contains(#[trigger] table@[i] as int),
    ensures
        r == weighted_product(table@, counts@, challenge as int, table@.len() as nat)
            % field.modulus_spec(),
{
    let ghost p = field.modulus_spec();
    let ghost g = challenge as int;
    let mut acc = field.one();
    proof {
        vstd::arithmetic::div_mod::lemma_small_mod(1, p as nat);
    }
    let mut j: usize = 0;
    while j < table.len()
        invariant
            field.wf(),
            p == field.modulus_spec(),
            g == challenge,
            field.contains(challenge as int),
            counts@.len() == table@.len(),
            forall|k: int| 0 <= k < table@.len() ==> field.contains(#[trigger] table@[k] as int),
            j <= table@.len(),
            field.contains(acc as int),
            acc == weighted_product(table@, counts@, g, j as nat) % p,
        decreases table@.len() - j,
    {
        let term = field.add(table[j], challenge);
        let ghost a = table@[j as int] + g;
        let ghost base = weighted_product(table@, counts@, g, j as nat);
        let mut t: usize = 0;
        proof {
            vstd::arithmetic::power::lemma_pow0(a);
        }
        while t < counts[j]
            invariant
                field.wf(),
                p == field.modulus_spec(),
                j < counts@.len(),
                t <= counts@[j as int],
                term == a % p,
                field.contains(term as int),
                field.contains(acc as int),
                acc == (base * pow(a, t as nat)) % p,
            decreases counts@[j as int] - t,
        {
            proof {
                reveal(pow);
                assert(pow(a, (t + 1) as nat) == a * pow(a, t as nat));
                assert(base * (a * pow(a, t as nat)) == (base * pow(a, t as nat)) * a)
                    by (nonlinear_arith);
                vstd::arithmetic::div_mod::lemma_mul_mod_noop(base * pow(a, t as nat), a, p);
                vstd::arithmetic::div_mod::lemma_mod_twice(base * pow(a, t as nat), p);
                vstd::arithmetic::div_mod::lemma_mod_twice(a, p);
                vstd::arithmetic::div_mod::lemma_mul_mod_noop(acc as int, term as int, p);
            }
            acc = field.mul(acc, term);
            t = t + 1;
        }
        j = j + 1;
    }
    acc
}

/// Checks the lookups at `indices` against the values claimed for them: the
/// grand product of the claimed values shifted by `challenge` must equal that
/// of the table entries raised to how often each was looked up.
pub fn check_lookup_multiset(
    field: Field,
    table: &Vec<u64>,
    indices: &Vec<usize>,
    claimed: &Vec<u64>,
    challenge: u64,
) -> (r: bool)
    requires
        field.wf(),
        field.contains(challenge as int),
        forall|i: int| 0 <= i < table@.len() ==> field.contains(#[trigger] table@[i] as int),
        forall|i: int| 0 <= i < claimed@.len() ==> field.contains(#[trigger] claimed@[i] as int),
        forall|i: int| 0 <= i < indices@.len() ==> #[trigger] indices@[i] < table@.len(),
    ensures
        r == (shifted_product(claimed@, challenge as int) % field.modulus_spec()
            == multiset_product(table@, indices@, challenge as int, table@.len() as nat)
            % field.modulus_spec()),
        claimed@ == gather(table@, indices@) ==> r,
{
    let counts = lookup_multiplicities(indices, table.len());
    let read_side = grand_product(field, claimed, challenge);
    let table_side = multiset_grand_product(field, table, &counts, challenge);
    proof {
        lemma_weighted_is_multiset(table@, counts@, indices@, challenge as int, table@.len() as nat);
        lemma_grand_product_telescoping(table@, indices@, challenge as int);
    }
    read_side == table_side
}

} // verus!
