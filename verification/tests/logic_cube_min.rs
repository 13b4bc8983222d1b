use specgraphen::logic::cube_min::{expand, minimize, BitCube};
use specgraphen::logic::Tri;
use specgraphen::logic::Tri::{Any, False as F, True as T};

fn cube(tris: &[Tri]) -> BitCube {
    BitCube::from_tris(tris)
}

#[test]
fn round_trip() {
    let tris = vec![T, F, Any, T];
    assert_eq!(cube(&tris).to_tris(4), tris);
}

#[test]
fn intersection_rules() {
    assert!(cube(&[T, Any]).intersects(cube(&[Any, F])));
    assert!(!cube(&[T, Any]).intersects(cube(&[F, Any])));
    assert!(cube(&[Any, Any]).intersects(cube(&[T, F])));
}

#[test]
fn containment_rules() {
    assert!(cube(&[Any, Any]).contains(cube(&[T, F])));
    assert!(cube(&[T, Any]).contains(cube(&[T, F])));
    assert!(!cube(&[T, F]).contains(cube(&[T, Any]))); // inner is wider
}

#[test]
fn expand_frees_unconstrained_literals() {
    // freeing var0 would hit OFF; freeing var1 is safe
    let expanded = expand(cube(&[T, T]), &[cube(&[F, Any])], 2);
    assert_eq!(expanded, cube(&[T, Any]));
}

#[test]
fn minimize_collapses_symmetric_rows() {
    // f = a (b irrelevant): two ON rows differing only in b
    let rules = minimize(&[cube(&[T, T]), cube(&[T, F])], &[cube(&[F, Any])], 2);
    assert_eq!(rules, vec![cube(&[T, Any])]);
}

#[test]
fn no_off_means_tautology() {
    let rules = minimize(&[cube(&[T, F, T])], &[], 3);
    assert_eq!(rules, vec![cube(&[Any, Any, Any])]);
}

#[test]
fn scales_to_thousands_of_rows() {
    // 4000 ON cubes over 60 vars against 4000 OFF cubes — must finish
    // promptly (this is the monster-method scenario).
    let n = 60;
    let on: Vec<BitCube> = (0..4000u64)
        .map(|i| BitCube {
            pos: (1 << (i % n as u64)) | 1 << 59,
            neg: 1 << ((i + 7) % 59),
        })
        .collect();
    let off: Vec<BitCube> = (0..4000u64)
        .map(|i| BitCube {
            pos: 1 << ((i + 3) % 59),
            neg: 1 << 59,
        })
        .collect();
    let rules = minimize(&on, &off, n);
    assert!(!rules.is_empty());
    for rule in &rules {
        assert!(off.iter().all(|o| !rule.intersects(*o)));
    }
}

#[test]
fn a_witness_lies_in_both_cubes() {
    assert_eq!(cube(&[T, Any, Any]).intersection_witness(cube(&[Any, F, T]), 3), vec![true, false, true]);
}
