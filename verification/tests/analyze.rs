//! End-to-end analyses of small networks built in memory.

use stellar_quorum_analyzer::fbas::Fbas;
use stellar_quorum_analyzer::fbas_analyze::VarManager;
use stellar_quorum_analyzer::quorum_set_map::{InternalScpQuorumSet, QuorumSetMap};
use stellar_quorum_analyzer::{FbasAnalyzer, FbasError, ResourceLimiter, SolveStatus};

fn qset(threshold: u32, validators: &[&str], inner: Vec<InternalScpQuorumSet>) -> InternalScpQuorumSet {
    InternalScpQuorumSet {
        threshold,
        validators: validators.iter().map(|s| s.to_string()).collect(),
        inner_sets: inner,
    }
}

fn analyze(map: &QuorumSetMap) -> (SolveStatus, FbasAnalyzer) {
    let mut analyzer = FbasAnalyzer::from_quorum_set_map(map, ResourceLimiter::unlimited())
        .expect("analyzer construction failed");
    let status = analyzer.solve().expect("solve failed");
    (status, analyzer)
}

#[test]
fn symmetric_majority_is_unsat() {
    // Four validators, each requiring 3 of the same 4: any two quorums
    // overlap, so no split exists.
    let all = ["a", "b", "c", "d"];
    let mut map = QuorumSetMap::new();
    for v in all.iter() {
        map.insert(v.to_string(), Some(qset(3, &all, vec![])));
    }
    let (status, _) = analyze(&map);
    assert_eq!(status, SolveStatus::UNSAT);
}

#[test]
fn two_cliques_split() {
    // Two independent pairs: each pair is a quorum, disjoint from the
    // other, so the network splits.
    let mut map = QuorumSetMap::new();
    map.insert("a".to_string(), Some(qset(2, &["a", "b"], vec![])));
    map.insert("b".to_string(), Some(qset(2, &["a", "b"], vec![])));
    map.insert("c".to_string(), Some(qset(2, &["c", "d"], vec![])));
    map.insert("d".to_string(), Some(qset(2, &["c", "d"], vec![])));
    let (status, analyzer) = analyze(&map);
    match &status {
        SolveStatus::SAT((qa, qb)) => {
            let mut sides = [qa.clone(), qb.clone()];
            sides.sort();
            // Sorted keys give indices a=0, b=1, c=2, d=3.
            assert_eq!(sides[0], vec![0, 1]);
            assert_eq!(sides[1], vec![2, 3]);
        }
        other => panic!("expected SAT, got {:?}", other),
    }
    let (ids_a, ids_b) = analyzer.get_potential_split().unwrap();
    let mut all_ids: Vec<String> = ids_a.iter().chain(ids_b.iter()).cloned().collect();
    all_ids.sort();
    assert_eq!(all_ids, vec!["a", "b", "c", "d"]);
    assert!(ids_a.len() == 2 && ids_b.len() == 2);
}

#[test]
fn two_loners_split() {
    // Each validator is its own quorum: the smallest possible split.
    let mut map = QuorumSetMap::new();
    map.insert("n0".to_string(), Some(qset(1, &["n0"], vec![])));
    map.insert("n1".to_string(), Some(qset(1, &["n1"], vec![])));
    let (status, _) = analyze(&map);
    match &status {
        SolveStatus::SAT((qa, qb)) => {
            let mut sides = [qa.clone(), qb.clone()];
            sides.sort();
            assert_eq!(sides[0], vec![0]);
            assert_eq!(sides[1], vec![1]);
        }
        other => panic!("expected SAT, got {:?}", other),
    }
}

#[test]
fn single_validator_is_unsat() {
    let mut map = QuorumSetMap::new();
    map.insert("solo".to_string(), Some(qset(1, &["solo"], vec![])));
    let (status, _) = analyze(&map);
    assert_eq!(status, SolveStatus::UNSAT);
}

#[test]
fn inner_sets_are_honored() {
    // Three validators requiring 2 of 3 via inner sets of one member
    // each: majorities intersect, no split.
    let inner = |v: &str| qset(1, &[v], vec![]);
    let mut map = QuorumSetMap::new();
    for v in ["x", "y", "z"] {
        map.insert(
            v.to_string(),
            Some(qset(2, &[], vec![inner("x"), inner("y"), inner("z")])),
        );
    }
    let (status, _) = analyze(&map);
    assert_eq!(status, SolveStatus::UNSAT);
}

#[test]
fn unknown_members_are_dropped() {
    // References to undeclared validators are ignored; what remains is a
    // single self-quorum, so no split exists.
    let mut map = QuorumSetMap::new();
    map.insert(
        "known".to_string(),
        Some(qset(1, &["known", "missing"], vec![])),
    );
    let (status, _) = analyze(&map);
    assert_eq!(status, SolveStatus::UNSAT);
}

#[test]
fn empty_declaration_keeps_validator_out_of_quorums() {
    // One normal pair and one validator with an empty declaration: the
    // isolated validator can join no quorum, so no second quorum exists.
    let mut map = QuorumSetMap::new();
    map.insert("a".to_string(), Some(qset(2, &["a", "b"], vec![])));
    map.insert("b".to_string(), Some(qset(2, &["a", "b"], vec![])));
    map.insert("lone".to_string(), None);
    let (status, _) = analyze(&map);
    assert_eq!(status, SolveStatus::UNSAT);
}

#[test]
fn depth_limit_is_enforced() {
    // Five nested levels exceed the four the protocol allows.
    let l5 = qset(1, &["v"], vec![]);
    let l4 = qset(1, &[], vec![l5]);
    let l3 = qset(1, &[], vec![l4]);
    let l2 = qset(1, &[], vec![l3]);
    let l1 = qset(1, &[], vec![l2]);
    let mut map = QuorumSetMap::new();
    map.insert("v".to_string(), Some(l1));
    let res = FbasAnalyzer::from_quorum_set_map(&map, ResourceLimiter::unlimited());
    assert!(matches!(res, Err(FbasError::MaxDepthExceeded)));
}

#[test]
fn four_levels_are_accepted() {
    let l4 = qset(1, &["v"], vec![]);
    let l3 = qset(1, &[], vec![l4]);
    let l2 = qset(1, &[], vec![l3]);
    let l1 = qset(1, &[], vec![l2]);
    let mut map = QuorumSetMap::new();
    map.insert("v".to_string(), Some(l1));
    let (status, _) = analyze(&map);
    assert_eq!(status, SolveStatus::UNSAT);
}

#[test]
fn vertex_indices_follow_sorted_keys() {
    // Insertion order does not matter: vertex indices follow the sorted
    // keys, and shared declarations are deduplicated.
    let mut map = QuorumSetMap::new();
    map.insert("zeta".to_string(), Some(qset(2, &["zeta", "alpha"], vec![])));
    map.insert("alpha".to_string(), Some(qset(2, &["zeta", "alpha"], vec![])));
    let fbas = Fbas::from_quorum_set_map(&map).unwrap();
    assert_eq!(fbas.validators, vec![0, 1]);
    // Two validators plus one deduplicated quorum-set vertex.
    assert_eq!(fbas.vertices.len(), 3);
    let (s0, s1) = (fbas.successors_of(0), fbas.successors_of(1));
    assert_eq!(s0, vec![2]);
    assert_eq!(s1, vec![2]);
    assert_eq!(fbas.successors_of(2), vec![0, 1]);
}

#[test]
fn var_manager_literals() {
    let vars = VarManager { node_count: 3 };
    let a = vars.lit_in_quorum_a(1, true).unwrap();
    assert_eq!((a.var, a.pos), (1, true));
    let b = vars.lit_in_quorum_b(1, false).unwrap();
    assert_eq!((b.var, b.pos), (4, false));
    assert!(vars.lit_in_quorum_a(3, true).is_err());
    assert!(vars.lit_in_quorum_b(7, true).is_err());
}

#[test]
fn solve_is_repeatable() {
    let mut map = QuorumSetMap::new();
    map.insert("a".to_string(), Some(qset(2, &["a", "b"], vec![])));
    map.insert("b".to_string(), Some(qset(2, &["a", "b"], vec![])));
    let (first, mut analyzer) = analyze(&map);
    assert_eq!(first, SolveStatus::UNSAT);
    let second = analyzer.solve().expect("second solve failed");
    assert_eq!(second, SolveStatus::UNSAT);
    let (qa, qb) = analyzer.get_potential_split().unwrap();
    assert!(qa.is_empty() && qb.is_empty());
}

/// Exhaustive check on a small graph: is there a pair of vertex sets,
/// disjoint on the validators, both containing a validator, and each
/// closed under the threshold relation?
fn brute_force_split(fbas: &Fbas) -> bool {
    let n = fbas.vertices.len();
    let nv = fbas.validators.len();
    assert!(n <= 16, "brute force only works on small graphs");
    let closed = |set: u32| -> bool {
        (0..n).all(|v| {
            if set & (1 << v) == 0 {
                return true;
            }
            let succs = fbas.successors_of(v);
            let t = fbas.vertices[v].get_threshold() as usize;
            succs.iter().filter(|u| set & (1 << *u) != 0).count() >= t
        })
    };
    let has_validator = |set: u32| (0..nv).any(|k| set & (1 << k) != 0);
    let validator_mask: u32 = if nv == 32 { u32::MAX } else { (1 << nv) - 1 };
    for a in 0..(1u32 << n) {
        if !has_validator(a) || !closed(a) {
            continue;
        }
        for b in 0..(1u32 << n) {
            if a & b & validator_mask != 0 {
                continue;
            }
            if has_validator(b) && closed(b) {
                return true;
            }
        }
    }
    false
}

#[test]
fn solver_answers_agree_with_brute_force() {
    // An intersecting network: the solver and the exhaustive search must
    // both find no split.
    let all = ["a", "b", "c"];
    let mut map = QuorumSetMap::new();
    for v in all.iter() {
        map.insert(v.to_string(), Some(qset(2, &all, vec![])));
    }
    let fbas = Fbas::from_quorum_set_map(&map).unwrap();
    assert!(!brute_force_split(&fbas));
    let (status, _) = analyze(&map);
    assert_eq!(status, SolveStatus::UNSAT);

    // A splittable network: both must find one.
    let mut map = QuorumSetMap::new();
    map.insert("a".to_string(), Some(qset(1, &["a"], vec![])));
    map.insert("b".to_string(), Some(qset(1, &["b"], vec![])));
    let fbas = Fbas::from_quorum_set_map(&map).unwrap();
    assert!(brute_force_split(&fbas));
    let (status, _) = analyze(&map);
    assert!(matches!(status, SolveStatus::SAT(_)));
}
