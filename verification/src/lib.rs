//! Status-aware connection dispatch for the workers of one load balancer.

pub mod bench;
pub mod bits;
pub mod client;
pub mod conn_table;
pub mod csv;
pub mod dispatcher;
pub mod generator;
pub mod kernel;
pub mod lb_metrics;
pub mod lb_worker;
pub mod loader;
pub mod metrics;
pub mod order;
pub mod policy;
pub mod poll;
pub mod policy_pass;
pub mod scheduler;
pub mod shm;
pub mod summary;
pub mod text;
pub mod wire;
pub mod worker;
pub mod workload;
pub mod wst;
