//! What the master asks a node to run: one service's workload.

use vstd::prelude::*;

use crate::text::{join2, owned};

verus! {

/// The named volume a service keeps its data in.
pub struct VolumeSpec {
    /// Where it is mounted in the container.
    pub path: String,
    pub size: Option<String>,
}

/// The GPUs a service needs.
pub struct GpuSpec {
    pub count: u32,
    /// `nvidia` (the default when absent), `amd` or `rocm`.
    pub vendor: Option<String>,
    pub vram_min: Option<u64>,
    pub model: Option<String>,
}

/// Resource limits of a service.
pub struct ResourceLimits {
    /// Memory as written in the service config, such as `512Mi`.
    pub memory: Option<String>,
    /// The CPU limit in billionths of a CPU.
    pub nano_cpus: Option<i64>,
    pub gpu: Option<GpuSpec>,
}

/// One service as the master wants it run on this node.
pub struct WorkloadSpec {
    pub name: String,
    pub image: String,
    /// The container port the service listens on.
    pub port: Option<u16>,
    /// A fixed host port to publish `port` on; otherwise a random one.
    pub host_port: Option<u16>,
    pub domain: Option<String>,
    /// Path patterns routed to this service.
    pub routes: Vec<String>,
    /// Environment variables, in the order they are passed.
    pub env: Vec<(String, String)>,
    pub resources: Option<ResourceLimits>,
    pub volume: Option<VolumeSpec>,
    /// The project network; otherwise derived from the name.
    pub network: Option<String>,
    /// Extra DNS names on the service network.
    pub aliases: Vec<String>,
    /// Host bind mounts, `host:container[:mode]`.
    pub mounts: Vec<String>,
    /// Also join the shared `orca-internal` network.
    pub internal: bool,
    pub cmd: Vec<String>,
    /// Additional published ports, in the docker-compose forms.
    pub extra_ports: Vec<String>,
    pub strip_prefix: Option<String>,
    pub restart_policy: Option<String>,
    /// A digest of the spec, stamped by the master.
    pub fingerprint: Option<String>,
}

/// The container name of a service.
pub open spec fn container_name_spec(service: Seq<char>) -> Seq<char> {
    "orca-"@ + service
}

/// The container name of a service: `orca-` and the service name.
pub fn container_name(service: &str) -> (res: String)
    ensures
        res@ == container_name_spec(service@),
{
    join2("orca-", service)
}

/// The named volume of a service.
pub open spec fn volume_name_spec(service: Seq<char>) -> Seq<char> {
    "orca-"@ + service + "-data"@
}

/// An optional string as its character view.
pub open spec fn opt_chars(o: Option<String>) -> Option<Seq<char>> {
    match o {
        Some(s) => Some(s@),
        None => None,
    }
}

/// A copy of an optional string.
pub fn copy_opt(o: &Option<String>) -> (res: Option<String>)
    ensures
        opt_chars(res) == opt_chars(*o),
{
    match o {
        Some(s) => Some(owned(s.as_str())),
        None => None,
    }
}

} // verus!
