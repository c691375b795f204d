//! Decoding the binary (XDR) input path.

use stellar_quorum_analyzer::{FbasAnalyzer, FbasError, ResourceLimiter, SolveStatus};

/// XDR encoding of a `NodeId`: the ed25519 discriminant (0, big endian)
/// followed by the 32 raw key bytes.
fn node_xdr(key: [u8; 32]) -> Vec<u8> {
    let mut v = vec![0u8, 0, 0, 0];
    v.extend_from_slice(&key);
    v
}

/// XDR encoding of an `ScpQuorumSet` with no inner sets: threshold,
/// member count, members, inner count (zero), all big endian.
fn qset_xdr(threshold: u32, keys: &[[u8; 32]]) -> Vec<u8> {
    let mut v = Vec::new();
    v.extend_from_slice(&threshold.to_be_bytes());
    v.extend_from_slice(&(keys.len() as u32).to_be_bytes());
    for k in keys {
        v.extend_from_slice(&node_xdr(*k));
    }
    v.extend_from_slice(&0u32.to_be_bytes());
    v
}

fn key(fill: u8) -> [u8; 32] {
    [fill; 32]
}

#[test]
fn xdr_pair_network_is_unsat() {
    let (k1, k2) = (key(1), key(2));
    let nodes = vec![node_xdr(k1), node_xdr(k2)];
    let qsets = vec![qset_xdr(2, &[k1, k2]), qset_xdr(2, &[k1, k2])];
    let mut analyzer =
        FbasAnalyzer::from_quorum_set_map_buf(&nodes, &qsets, ResourceLimiter::unlimited())
            .unwrap();
    assert_eq!(analyzer.solve().unwrap(), SolveStatus::UNSAT);
}

#[test]
fn xdr_split_reports_strkey_ids() {
    let (k1, k2) = (key(3), key(4));
    let nodes = vec![node_xdr(k1), node_xdr(k2)];
    let qsets = vec![qset_xdr(1, &[k1]), qset_xdr(1, &[k2])];
    let mut analyzer =
        FbasAnalyzer::from_quorum_set_map_buf(&nodes, &qsets, ResourceLimiter::unlimited())
            .unwrap();
    assert!(matches!(analyzer.solve().unwrap(), SolveStatus::SAT(_)));
    let (qa, qb) = analyzer.get_potential_split().unwrap();
    let mut ids: Vec<String> = qa.iter().chain(qb.iter()).cloned().collect();
    ids.sort();
    let mut expected = vec![
        stellar_strkey::ed25519::PublicKey(k1).to_string().as_str().to_string(),
        stellar_strkey::ed25519::PublicKey(k2).to_string().as_str().to_string(),
    ];
    expected.sort();
    assert_eq!(ids, expected);
}

#[test]
fn xdr_length_mismatch_is_rejected() {
    let nodes = vec![node_xdr(key(1))];
    let qsets: Vec<Vec<u8>> = vec![];
    let res = FbasAnalyzer::from_quorum_set_map_buf(&nodes, &qsets, ResourceLimiter::unlimited());
    assert!(matches!(res, Err(FbasError::ParseError(_))));
}

#[test]
fn xdr_garbage_is_rejected() {
    let nodes = vec![vec![1u8, 2, 3]];
    let qsets = vec![qset_xdr(1, &[key(1)])];
    let res = FbasAnalyzer::from_quorum_set_map_buf(&nodes, &qsets, ResourceLimiter::unlimited());
    assert!(matches!(res, Err(FbasError::XdrDecodingError(_))));

    let nodes = vec![node_xdr(key(1))];
    let qsets = vec![vec![9u8; 5]];
    let res = FbasAnalyzer::from_quorum_set_map_buf(&nodes, &qsets, ResourceLimiter::unlimited());
    assert!(matches!(res, Err(FbasError::XdrDecodingError(_))));
}

#[test]
fn xdr_empty_quorum_set_keeps_validator_isolated() {
    // An empty quorum set buffer keeps the validator but wires nothing:
    // it can never join a quorum, so the pair cannot split.
    let (k1, k2) = (key(5), key(6));
    let nodes = vec![node_xdr(k1), node_xdr(k2)];
    let qsets = vec![qset_xdr(1, &[k1]), Vec::new()];
    let mut analyzer =
        FbasAnalyzer::from_quorum_set_map_buf(&nodes, &qsets, ResourceLimiter::unlimited())
            .unwrap();
    assert_eq!(analyzer.solve().unwrap(), SolveStatus::UNSAT);
}
