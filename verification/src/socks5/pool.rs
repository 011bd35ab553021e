//! Connection-pool parameters and statistics.  The pooled TCP streams
//! themselves are I/O state and live with the surrounding program.

use vstd::prelude::*;

verus! {

/// Pool sizing and lifetime parameters; durations in seconds.
#[derive(Debug, Clone, Copy, PartialEq, Eq, Structural)]
pub struct PoolConfig {
    pub max_connections: usize,
    pub idle_timeout: u64,
    pub max_lifetime: u64,
    pub cleanup_interval: u64,
}

impl Default for PoolConfig {
    /// A hundred connections, a minute idle, five minutes of life,
    /// cleaned every thirty seconds.
    fn default() -> (r: PoolConfig)
        ensures
            r.max_connections == 100,
            r.idle_timeout == 60,
            r.max_lifetime == 300,
            r.cleanup_interval == 30,
    {
        PoolConfig {
            max_connections: 100,
            idle_timeout: 60,
            max_lifetime: 300,
            cleanup_interval: 30,
        }
    }
}

/// A snapshot of pool occupancy.
#[derive(Debug, Clone)]
pub struct PoolStats {
    pub active_connections: usize,
    pub idle_connections: usize,
    pub total_targets: usize,
    pub targets: Vec<String>,
}

} // verus!
