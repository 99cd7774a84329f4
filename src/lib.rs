//! A per-node telemetry agent's core: it tracks the jobs running on the node
//! from their cgroup directories, turns the statistics files and hardware
//! counters read for each job into per-job metric batches with compressed
//! metric names, times the sampling ticks, and applies live configuration.

pub mod backends;
pub mod cgroup_manager;
pub mod scheduler;
pub mod stat_file;
pub mod text;
pub mod transport;
