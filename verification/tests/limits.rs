//! Resource limiting: time and memory budgets.

use stellar_quorum_analyzer::quorum_set_map::{InternalScpQuorumSet, QuorumSetMap};
use stellar_quorum_analyzer::{FbasAnalyzer, FbasError, ResourceLimiter, ResourceQuantity, SolveStatus};

fn assert_solver_limit_exceeded(res: Result<SolveStatus, FbasError>) -> bool {
    matches!(res, Err(FbasError::ResourceLimitExceeded(_)))
}

fn small_map() -> QuorumSetMap {
    let mut map = QuorumSetMap::new();
    for v in ["a", "b", "c", "d"] {
        map.insert(
            v.to_string(),
            Some(InternalScpQuorumSet {
                threshold: 3,
                validators: ["a", "b", "c", "d"].iter().map(|s| s.to_string()).collect(),
                inner_sets: vec![],
            }),
        );
    }
    map
}

fn solve_unlimited(map: &QuorumSetMap) -> Result<SolveStatus, FbasError> {
    let mut analyzer = FbasAnalyzer::from_quorum_set_map(map, ResourceLimiter::unlimited())?;
    analyzer.solve()
}

fn solve_with_time_limit(map: &QuorumSetMap, time_limit_ms: u64) -> Result<SolveStatus, FbasError> {
    let mut analyzer =
        FbasAnalyzer::from_quorum_set_map(map, ResourceLimiter::new(time_limit_ms, usize::MAX))?;
    analyzer.solve()
}

#[test]
fn test_time_limit() {
    // Without interruption the instance solves normally.
    assert_eq!(solve_unlimited(&small_map()).unwrap(), SolveStatus::UNSAT);
    // A zero time budget is exceeded by the time the first check runs,
    // whether during encoding or after solving.
    assert!(assert_solver_limit_exceeded(solve_with_time_limit(&small_map(), 0)));
}

#[test]
fn unlimited_budget_never_reports_exhaustion() {
    // An unlimited limiter can never return `ResourceLimitExceeded`.
    for _ in 0..3 {
        let res = solve_unlimited(&small_map());
        assert!(!assert_solver_limit_exceeded(res));
    }
}

#[test]
fn test_memory_limit() {
    // The embedder reports allocated bytes in-band; growth beyond the
    // byte budget surfaces as `ResourceLimitExceeded`.
    let mut limiter = ResourceLimiter::new(u64::MAX, 100);
    assert_eq!(limiter.get_mem_bytes(), 0);
    assert!(limiter.measure_and_enforce_limits().is_ok());
    limiter.record_memory_usage(64);
    assert_eq!(limiter.get_mem_bytes(), 64);
    assert!(limiter.measure_and_enforce_limits().is_ok());
    limiter.record_memory_usage(150);
    match limiter.measure_and_enforce_limits() {
        Err(FbasError::ResourceLimitExceeded(usage)) => {
            assert_eq!(usage.mem_bytes, 150);
        }
        other => panic!("expected ResourceLimitExceeded, got {:?}", other),
    }
}

#[test]
fn resource_quantity_units() {
    let zero = ResourceQuantity::zero();
    assert_eq!(zero.time_ns, 0);
    assert_eq!(zero.mem_bytes, 0);
    let q = ResourceQuantity::new(2, 17);
    assert_eq!(q.time_ns, 2_000_000);
    assert_eq!(q.mem_bytes, 17);
    // The largest budget saturates instead of wrapping.
    let max = ResourceQuantity::new(u64::MAX, usize::MAX);
    assert_eq!(max.time_ns, u64::MAX);
    assert!(!q.exceeds(&max));
    assert!(ResourceQuantity::new(3, 0).exceeds(&q));
    assert!(ResourceQuantity::new(0, 18).exceeds(&q));
    assert!(!ResourceQuantity::new(2, 17).exceeds(&q));
}

#[test]
fn measured_time_advances() {
    let mut limiter = ResourceLimiter::new(u64::MAX, usize::MAX);
    assert_eq!(limiter.get_time_ms(), 0);
    limiter.measure();
    // Whatever the clock said, the limiter records it without failing.
    assert!(limiter.measure_and_enforce_limits().is_ok());
    let _ = limiter.get_time_ms();
}

#[test]
fn memory_watermark_measures_growth() {
    let mut limiter = ResourceLimiter::new(u64::MAX, 100);
    limiter.record_start_memory(1000);
    limiter.record_memory_usage(1050);
    assert_eq!(limiter.get_mem_bytes(), 50);
    // A total below the watermark reads as zero growth.
    limiter.record_memory_usage(900);
    assert_eq!(limiter.get_mem_bytes(), 0);
    // Growth beyond the byte budget is enforced.
    limiter.record_memory_usage(1200);
    assert!(matches!(
        limiter.measure_and_enforce_limits(),
        Err(FbasError::ResourceLimitExceeded(_))
    ));
}
