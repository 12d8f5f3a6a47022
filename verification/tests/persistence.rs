//! Tests of the parameter wire format: round-trips and rejection of
//! malformed or insecure serialized parameters.

use pedersen_compressed::{
    CommitmentError, PedersenCommitmentParameters, PedersenCompressedCommitment, PARAMS_BYTE_LEN,
};

fn fixed_scalars() -> Vec<u64> {
    let mut v = Vec::new();
    for i in 0..65u64 {
        v.push(3 + 7 * i);
    }
    v
}

fn fixed_scheme() -> PedersenCompressedCommitment {
    PedersenCompressedCommitment {
        parameters: PedersenCommitmentParameters::setup_with_scalars(&fixed_scalars()),
    }
}

#[test]
fn store_load_roundtrip_preserves_parameters() {
    let scheme = fixed_scheme();
    let bytes = scheme.store();
    assert_eq!(bytes.len(), PARAMS_BYTE_LEN);
    let loaded = PedersenCompressedCommitment::load(&bytes).unwrap();
    assert_eq!(loaded.parameters.bases, scheme.parameters.bases);
    assert_eq!(loaded.parameters.random_base, scheme.parameters.random_base);
    // Storing the loaded parameters gives back the same bytes.
    assert_eq!(loaded.store(), bytes);
}

#[test]
fn roundtrip_preserves_commitments() {
    let scheme = fixed_scheme();
    let loaded = PedersenCompressedCommitment::load(&scheme.store()).unwrap();
    for (m, r) in [(&b"hello"[..], 7u64), (b"", 1), (b"ab", 20), (b"12345678", 250)] {
        assert_eq!(loaded.commit(m, r), scheme.commit(m, r));
    }
}

#[test]
fn roundtrip_of_freshly_generated_parameters() {
    let scheme = PedersenCompressedCommitment::setup();
    let bytes = scheme.store();
    let loaded = PedersenCompressedCommitment::load(&bytes).unwrap();
    assert_eq!(loaded.parameters.bases, scheme.parameters.bases);
    assert_eq!(loaded.parameters.random_base, scheme.parameters.random_base);
}

#[test]
fn load_rejects_truncated_input() {
    let scheme = fixed_scheme();
    let mut bytes = scheme.store();
    bytes.pop();
    assert!(matches!(
        PedersenCompressedCommitment::load(&bytes),
        Err(CommitmentError::PersistenceError)
    ));
    assert!(matches!(
        PedersenCompressedCommitment::load(&Vec::new()),
        Err(CommitmentError::PersistenceError)
    ));
}

#[test]
fn load_rejects_bad_tag() {
    let scheme = fixed_scheme();
    let mut bytes = scheme.store();
    bytes[0] = 2;
    assert!(matches!(
        PedersenCompressedCommitment::load(&bytes),
        Err(CommitmentError::PersistenceError)
    ));
}

#[test]
fn load_rejects_noncanonical_identity() {
    let scheme = fixed_scheme();
    let mut bytes = scheme.store();
    bytes[0] = 0;
    bytes[1] = 9;
    assert!(matches!(
        PedersenCompressedCommitment::load(&bytes),
        Err(CommitmentError::PersistenceError)
    ));
}

#[test]
fn load_rejects_unreduced_coordinate() {
    let scheme = fixed_scheme();
    let mut bytes = scheme.store();
    // x = 1009 = FIELD_MODULUS, encoded little-endian, is not reduced.
    bytes[0] = 1;
    bytes[1] = 241;
    bytes[2] = 3;
    bytes[3] = 0;
    bytes[4] = 0;
    assert!(matches!(
        PedersenCompressedCommitment::load(&bytes),
        Err(CommitmentError::PersistenceError)
    ));
}

#[test]
fn load_rejects_point_outside_subgroup() {
    let scheme = fixed_scheme();
    let mut bytes = scheme.store();
    // (0, 131) satisfies the curve equation but lies outside the
    // prime-order subgroup.
    bytes[0] = 1;
    bytes[1] = 0;
    bytes[2] = 0;
    bytes[3] = 131;
    bytes[4] = 0;
    assert!(matches!(
        PedersenCompressedCommitment::load(&bytes),
        Err(CommitmentError::SubgroupViolation)
    ));
}

#[test]
fn load_rejects_point_off_curve() {
    let scheme = fixed_scheme();
    let mut bytes = scheme.store();
    // (1, 1) does not satisfy the curve equation.
    bytes[0] = 1;
    bytes[1] = 1;
    bytes[2] = 0;
    bytes[3] = 1;
    bytes[4] = 0;
    assert!(matches!(
        PedersenCompressedCommitment::load(&bytes),
        Err(CommitmentError::SubgroupViolation)
    ));
}
