use std::collections::HashSet;

use specgraphen::logic::qm::{prime_implicants, select_cover, Cube};

fn care(minterms: &[u32]) -> HashSet<u32> {
    minterms.iter().copied().collect()
}

#[test]
fn single_minterm_is_its_own_prime() {
    let primes = prime_implicants(&care(&[0b10]), 2);
    assert_eq!(
        primes,
        vec![Cube {
            bits: 0b10,
            mask: 0b11
        }]
    );
}

#[test]
fn adjacent_minterms_merge() {
    // {00, 01} → cube with bit0 freed
    let primes = prime_implicants(&care(&[0b00, 0b01]), 2);
    assert_eq!(
        primes,
        vec![Cube {
            bits: 0b00,
            mask: 0b10
        }]
    );
}

#[test]
fn full_space_merges_to_tautology() {
    let primes = prime_implicants(&care(&[0, 1, 2, 3]), 2);
    assert_eq!(primes, vec![Cube { bits: 0, mask: 0 }]);
}

#[test]
fn textbook_four_variable_example() {
    // f = Σm(4,8,10,11,12,15) + d(9,14) — classic worked example whose
    // minimal cover has 3 terms.
    let all: Vec<u32> = vec![4, 8, 10, 11, 12, 15, 9, 14];
    let on: Vec<u32> = vec![4, 8, 10, 11, 12, 15];
    let primes = prime_implicants(&care(&all), 4);
    let cover = select_cover(&primes, &on);
    assert_eq!(cover.len(), 3, "cover was {cover:?}");
    // Verify it is actually a cover of ON
    for &m in &on {
        assert!(cover.iter().any(|c| c.covers(m)), "minterm {m} uncovered");
    }
}

#[test]
fn cover_is_deterministic() {
    let all: Vec<u32> = (0..16).filter(|m| m % 3 != 0).collect();
    let on: Vec<u32> = all.clone();
    let c = care(&all);
    let a = select_cover(&prime_implicants(&c, 4), &on);
    let b = select_cover(&prime_implicants(&c, 4), &on);
    assert_eq!(a, b);
}
