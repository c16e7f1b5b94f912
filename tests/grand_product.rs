use ark_std::rand::RngCore;
use ark_std::test_rng;
use jolt_lookups::{
    check_lookup_multiset, grand_product, lookup_multiplicities, multiset_grand_product, Field,
};

/// A 64-bit prime: 2^64 - 59.
const PRIME: u64 = 18446744073709551557;

#[test]
fn multiplicities_count_each_index() {
    assert_eq!(lookup_multiplicities(&vec![2, 0, 2], 3), vec![1, 0, 2]);
    assert_eq!(lookup_multiplicities(&vec![], 4), vec![0, 0, 0, 0]);
    assert_eq!(lookup_multiplicities(&vec![1, 1, 1, 1], 2), vec![0, 4]);
}

#[test]
fn grand_products_by_hand() {
    let f = Field::new(97);
    // (11 + 3) * (5 + 3) * (11 + 3) = 1568 = 16 mod 97.
    assert_eq!(grand_product(f, &vec![11, 5, 11], 3), 16);
    // (5 + 3)^1 * (9 + 3)^0 * (11 + 3)^2 = 1568 = 16 mod 97.
    assert_eq!(multiset_grand_product(f, &vec![5, 9, 11], &vec![1, 0, 2], 3), 16);
    assert_eq!(grand_product(f, &vec![], 3), 1);
    assert_eq!(multiset_grand_product(f, &vec![5, 9], &vec![0, 0], 3), 1);
}

#[test]
fn check_accepts_honest_lookups() {
    let f = Field::new(97);
    assert!(check_lookup_multiset(f, &vec![5, 9, 11], &vec![2, 0, 2], &vec![11, 5, 11], 3));
}

#[test]
fn check_rejects_perturbed_lookups() {
    let f = Field::new(97);
    let table = vec![5, 9, 11];
    // A claimed value that is not the entry read.
    assert!(!check_lookup_multiset(f, &table, &vec![2, 0, 2], &vec![11, 5, 12], 3));
    // An index that does not match the value claimed for it.
    assert!(!check_lookup_multiset(f, &table, &vec![1, 0, 2], &vec![11, 5, 11], 3));
}

#[test]
fn grand_product_telescoping_synthetic_trace() {
    let mut rng = test_rng();
    let f = Field::new(PRIME);
    let table: Vec<u64> = (0..16u64).map(|j| j * j + 1).collect();
    let indices: Vec<usize> = (0..64).map(|_| (rng.next_u64() % 16) as usize).collect();
    let claimed: Vec<u64> = indices.iter().map(|&i| table[i]).collect();
    let challenge = rng.next_u64() % PRIME;

    let counts = lookup_multiplicities(&indices, table.len());
    assert_eq!(counts.iter().sum::<usize>(), indices.len());
    assert_eq!(
        grand_product(f, &claimed, challenge),
        multiset_grand_product(f, &table, &counts, challenge)
    );
    assert!(check_lookup_multiset(f, &table, &indices, &claimed, challenge));

    for k in 0..indices.len() {
        let mut perturbed = indices.clone();
        perturbed[k] = (perturbed[k] + 1) % table.len();
        assert!(!check_lookup_multiset(f, &table, &perturbed, &claimed, challenge));
    }
}
