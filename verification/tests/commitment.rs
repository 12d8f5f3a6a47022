//! Behavioral tests of the compressed commitment scheme on the test curve.

use pedersen_compressed::curve::{is_in_subgroup, pt_neg, scalar_mul, subgroup_generator, Point};
use pedersen_compressed::{
    CommitmentError, COFACTOR, PedersenCommitmentParameters, PedersenCompressedCommitment, FIELD_MODULUS,
    SUBGROUP_ORDER,
};

/// A fixed, arbitrary scalar schedule standing in for a seeded RNG.
fn fixed_scalars() -> Vec<u64> {
    let mut v = Vec::new();
    for i in 0..65u64 {
        v.push(3 + 7 * i);
    }
    v
}

fn fixed_scheme() -> PedersenCompressedCommitment {
    PedersenCompressedCommitment {
        parameters: PedersenCommitmentParameters::setup_with_scalars(&fixed_scalars()),
    }
}

#[test]
fn commit_is_deterministic() {
    let scheme = fixed_scheme();
    let first = scheme.commit(b"hello", 7);
    let second = scheme.commit(b"hello", 7);
    assert_eq!(first, second);
}

#[test]
fn commit_known_vector() {
    let scheme = fixed_scheme();
    assert_eq!(scheme.commit(b"hello", 7), Ok(735));
}

#[test]
fn commit_blinding_base_alone() {
    let scheme = fixed_scheme();
    // An empty message with randomness 1 commits to the blinding base itself.
    let expected = match scheme.parameters.random_base {
        Point::Affine { x, .. } => x,
        Point::Infinity => panic!("blinding base must not be the identity"),
    };
    assert_eq!(scheme.commit(b"", 1), Ok(expected));
    assert_eq!(expected, 245);
}

#[test]
fn commit_accepts_full_capacity_message() {
    let scheme = fixed_scheme();
    // Eight bytes exactly fill the configured windows.
    assert_eq!(scheme.commit(b"12345678", 9), Ok(677));
}

#[test]
fn commit_rejects_long_message() {
    let scheme = fixed_scheme();
    assert_eq!(
        scheme.commit(b"too long!", 7),
        Err(CommitmentError::InputTooLarge)
    );
}

#[test]
fn commit_rejects_unreduced_randomness() {
    let scheme = fixed_scheme();
    assert_eq!(
        scheme.commit(b"hello", SUBGROUP_ORDER),
        Err(CommitmentError::InvalidRandomness)
    );
}

#[test]
fn commit_degenerate_on_empty_message_and_zero_randomness() {
    let scheme = fixed_scheme();
    assert_eq!(
        scheme.commit(b"", 0),
        Err(CommitmentError::DegenerateCommitment)
    );
}

#[test]
fn commit_output_lies_in_subgroup_under_either_sign() {
    let scheme = fixed_scheme();
    let x = scheme.commit(b"hello", 7).unwrap();
    // Reconstruct both candidate points from the compressed coordinate.
    let mut found = 0;
    for y in 0..FIELD_MODULUS {
        let rhs = (x * x % FIELD_MODULUS * x + x + 8) % FIELD_MODULUS;
        if y * y % FIELD_MODULUS == rhs {
            let candidate = Point::Affine { x, y };
            assert!(is_in_subgroup(candidate));
            assert!(matches!(
                scalar_mul(SUBGROUP_ORDER, candidate),
                Point::Infinity
            ));
            found += 1;
        }
    }
    assert!(found > 0, "no curve point has the committed x-coordinate");
}

#[test]
fn sensitivity_distinct_randomness_gives_distinct_outputs() {
    let scheme = fixed_scheme();
    let message = b"ab";
    let rs = [1u64, 2, 3, 5, 10, 20];
    let expected = [986u64, 260, 813, 999, 873, 485];
    let mut outputs = Vec::new();
    for (r, want) in rs.iter().zip(expected.iter()) {
        let got = scheme.commit(message, *r).unwrap();
        assert_eq!(got, *want);
        outputs.push(got);
    }
    for i in 0..outputs.len() {
        for j in 0..i {
            assert_ne!(outputs[i], outputs[j]);
        }
    }
}

#[test]
fn sign_ambiguity_negation_shares_x() {
    let g = subgroup_generator();
    let p = scalar_mul(5, g);
    let n = pt_neg(p);
    assert_eq!(p, Point::Affine { x: 956, y: 735 });
    assert_eq!(n, Point::Affine { x: 956, y: 274 });
    let (px, py) = match p {
        Point::Affine { x, y } => (x, y),
        Point::Infinity => panic!("expected an affine point"),
    };
    let (nx, ny) = match n {
        Point::Affine { x, y } => (x, y),
        Point::Infinity => panic!("expected an affine point"),
    };
    // Compression keeps only x, so the two points are indistinguishable.
    assert_eq!(px, nx);
    assert_ne!(py, ny);
    assert!(is_in_subgroup(p));
    assert!(is_in_subgroup(n));
}

#[test]
fn sign_ambiguity_visible_through_commit() {
    // The blinding multiples H and -H = 250*H share an x-coordinate, so two
    // distinct blinding scalars can collide after compression: binding holds
    // only up to the sign of y.
    let scheme = fixed_scheme();
    assert_eq!(scheme.commit(b"", 1), Ok(245));
    assert_eq!(scheme.commit(b"", 250), Ok(245));
}

#[test]
fn out_of_subgroup_point_annihilated_only_by_full_group_order() {
    // (0, 131) is on the curve but outside the prime-order subgroup: the
    // subgroup order does not annihilate it, the full group order does.
    let q = Point::Affine { x: 0, y: 131 };
    assert!(!is_in_subgroup(q));
    assert!(!matches!(scalar_mul(SUBGROUP_ORDER, q), Point::Infinity));
    assert!(matches!(
        scalar_mul(COFACTOR * SUBGROUP_ORDER, q),
        Point::Infinity
    ));
}

#[test]
fn setup_draws_usable_parameters() {
    let scheme = PedersenCompressedCommitment::setup();
    assert_eq!(scheme.parameters.bases.len(), 64);
    for b in scheme.parameters.bases.iter() {
        assert!(is_in_subgroup(*b));
    }
    assert!(is_in_subgroup(scheme.parameters.random_base));
    // Deterministic once the parameters are fixed.
    assert_eq!(scheme.commit(b"hi", 42), scheme.commit(b"hi", 42));
}
