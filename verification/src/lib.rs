//! Analyzer that decides whether a federated Byzantine agreement system
//! (FBAS) enjoys the quorum intersection property, by reducing the search
//! for two disjoint quorums to a SAT problem.

mod clock;
pub mod combinations;
pub mod encoding;
pub mod quorum_set_map;
pub mod fbas;
pub mod fbas_analyze;
pub mod json_input;
pub mod resource_limiter;
pub mod sat;
pub mod xdr;

pub use fbas::FbasError;
pub use fbas_analyze::{FbasAnalyzer, SolveStatus};
pub use resource_limiter::{ResourceLimiter, ResourceQuantity};
