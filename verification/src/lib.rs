//! Argus — the verified core of an online risk and factor exposure engine.
//!
//! The library holds the integer and structural logic of the engine:
//! domain newtypes, decimal rendering, the error type, the interval
//! bookkeeping of the Hayashi-Yoshida estimator, the pair layout of the
//! covariance matrix, the tick arena, the canonical tick schema and its
//! validation, and the routing of ticks to shards.

pub mod arena;
pub mod covariance;
pub mod error;
pub mod hy_history;
pub mod math;
pub mod risk_policy;
pub mod runtime;
pub mod schema;
pub mod text;
pub mod types;
