//! The node agent: the containers it creates for the master's workloads.

pub mod builder;
pub mod codec;
pub mod connect;
pub mod container_config;
pub mod docker_state;
pub mod exec;
pub mod heartbeat;
pub mod image_volumes;
pub mod json;
pub mod labels;
pub mod netbird;
pub mod networks;
pub mod reconcile;
pub mod replace;
pub mod session;
pub mod reporting;
pub mod token;
pub mod wasm_logs;
pub mod workload;
