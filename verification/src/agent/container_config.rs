//! The container a workload becomes: published ports, mounts, GPU access,
//! limits, restart policy, labels and the network it joins.

use vstd::prelude::*;
use vstd::string::*;

use crate::agent::workload::{
    container_name, container_name_spec, copy_opt, opt_chars, volume_name_spec, GpuSpec,
    WorkloadSpec,
};
use crate::number::{all_digits, parse_i64, parse_i64_spec, parse_u64, parse_u64_spec};
use crate::text::{
    chars_of, decimal, decimal_string, ends_with, find_char, find_char_from, join, join2, owned,
    push_decimal, push_str, same_text, split_once, split_once_char, starts_with, starts_with_str, ends_with_str, string_of, trim, trimmed, views,
};

verus! {

/// The label every container this agent manages carries.
pub const ORCA_LABEL: &'static str = "orca.managed";

// ---------------------------------------------------------------------------
// Ports
// ---------------------------------------------------------------------------

/// A container port published on the host: `key` is `port/proto`.
pub struct PortBinding {
    pub key: String,
    pub host_ip: String,
    pub host_port: String,
}

/// A binding as key, host address and host port.
pub type BindingView = (Seq<char>, Seq<char>, Seq<char>);

impl View for PortBinding {
    type V = BindingView;

    open spec fn view(&self) -> BindingView {
        (self.key@, self.host_ip@, self.host_port@)
    }
}

/// Bindings as views.
pub open spec fn bindings_view(v: Seq<PortBinding>) -> Seq<BindingView> {
    v.map_values(|b: PortBinding| b@)
}

/// The binding of the service's own port: a fixed host port is public, a
/// random one is reachable from this node only (its proxy connects over
/// loopback).
pub open spec fn main_binding(port: Option<u16>, host_port: Option<u16>) -> Option<BindingView> {
    match port {
        None => None,
        Some(p) => Some(
            (
                decimal(p as nat) + "/tcp"@,
                match host_port {
                    Some(_) => "0.0.0.0"@,
                    None => "127.0.0.1"@,
                },
                match host_port {
                    Some(h) => decimal(h as nat),
                    None => "0"@,
                },
            ),
        ),
    }
}

/// One or more ASCII digits.
pub open spec fn is_number(s: Seq<char>) -> bool {
    s.len() > 0 && all_digits(s)
}

/// An extra port entry as `(container port, protocol, host address, host
/// port)`. The forms are `host:container`, `host:container/proto` and
/// `host_ip:host:container[/proto]`; the protocol defaults to `tcp` and the
/// address to `0.0.0.0`. Ports are one or more digits; anything else is not
/// an entry.
pub open spec fn extra_port(entry: Seq<char>) -> Option<(Seq<char>, Seq<char>, Seq<char>, Seq<char>)> {
    let (main, proto) = match split_once(entry, '/') {
        Some((m, p)) => (m, p),
        None => (entry, "tcp"@),
    };
    match split_once(main, ':') {
        None => None,
        Some((a, rest)) => match split_once(rest, ':') {
            None => if is_number(a) && is_number(rest) && proto.len() > 0 {
                Some((rest, proto, "0.0.0.0"@, a))
            } else {
                None
            },
            Some((b, c)) => if find_char_from(c, ':', 0) is None && a.len() > 0 && is_number(b)
                && is_number(c) && proto.len() > 0 {
                Some((c, proto, a, b))
            } else {
                None
            },
        },
    }
}

/// The first binding of `bs` with key `key`.
pub open spec fn binding_index(bs: Seq<BindingView>, key: Seq<char>) -> Option<int>
    decreases bs.len(),
{
    if bs.len() == 0 {
        None
    } else {
        match binding_index(bs.drop_last(), key) {
            Some(i) => Some(i),
            None => if bs.last().0 == key {
                Some(bs.len() - 1)
            } else {
                None
            },
        }
    }
}

/// `bs` with `b` set for its key: an existing binding of that key is
/// replaced in place, otherwise `b` is added last.
pub open spec fn set_binding(bs: Seq<BindingView>, b: BindingView) -> Seq<BindingView> {
    match binding_index(bs, b.0) {
        Some(i) => bs.update(i, b),
        None => bs.push(b),
    }
}

/// The bindings after setting each parseable extra port of `entries`.
pub open spec fn with_extra_ports(bs: Seq<BindingView>, entries: Seq<Seq<char>>) -> Seq<BindingView>
    decreases entries.len(),
{
    if entries.len() == 0 {
        bs
    } else {
        let prev = with_extra_ports(bs, entries.drop_last());
        match extra_port(entries.last()) {
            Some((c, proto, ip, hp)) => set_binding(prev, (c + "/"@ + proto, ip, hp)),
            None => prev,
        }
    }
}

/// Every port binding of a workload's container.
pub open spec fn port_bindings_spec(spec: WorkloadSpec) -> Seq<BindingView> {
    let base = match main_binding(spec.port, spec.host_port) {
        Some(b) => seq![b],
        None => Seq::empty(),
    };
    with_extra_ports(base, views(spec.extra_ports@))
}

/// The binding of a workload's own port.
pub fn build_port_config(port: Option<u16>, host_port: Option<u16>) -> (res: Vec<PortBinding>)
    ensures
        bindings_view(res@) == match main_binding(port, host_port) {
            Some(b) => seq![b],
            None => Seq::empty(),
        },
{
    let mut res: Vec<PortBinding> = Vec::new();
    if let Some(p) = port {
        let mut key = decimal_string(p as u64);
        push_str(&mut key, "/tcp");
        let (host_ip, hp) = match host_port {
            Some(h) => (owned("0.0.0.0"), decimal_string(h as u64)),
            None => (owned("127.0.0.1"), owned("0")),
        };
        res.push(PortBinding { key, host_ip, host_port: hp });
        assert(bindings_view(res@) =~= seq![main_binding(port, host_port).unwrap()]);
    } else {
        assert(bindings_view(res@) =~= Seq::<BindingView>::empty());
    }
    res
}

fn is_number_str(s: &str) -> (res: bool)
    ensures
        res == is_number(s@),
{
    let cs = chars_of(s);
    if cs.len() == 0 {
        return false;
    }
    let mut i: usize = 0;
    while i < cs.len()
        invariant
            cs@ == s@,
            i <= cs.len(),
            forall|j: int| 0 <= j < i ==> crate::number::is_digit(#[trigger] cs@[j]),
        decreases cs.len() - i,
    {
        if !('0' <= cs[i] && cs[i] <= '9') {
            return false;
        }
        i = i + 1;
    }
    true
}

fn has_char(s: &str, c: char) -> (res: bool)
    ensures
        res == (find_char_from(s@, c, 0) is Some),
{
    let cs = chars_of(s);
    find_char(&cs, c, 0).is_some()
}

/// An extra port entry as `(container port, protocol, host address, host
/// port)`, if it is one.
pub fn parse_extra_port(entry: &str) -> (res: Option<(String, String, String, String)>)
    ensures
        match extra_port(entry@) {
            Some(p) => res matches Some(r) && r.0@ == p.0 && r.1@ == p.1 && r.2@ == p.2 && r.3@ == p.3,
            None => res is None,
        },
{
    let (main, proto) = match split_once_char(entry, '/') {
        Some((m, p)) => (m, p),
        None => (owned(entry), owned("tcp")),
    };
    proof {
        reveal_strlit("tcp");
    }
    let (a, rest) = match split_once_char(main.as_str(), ':') {
        Some(p) => p,
        None => {
            return None;
        },
    };
    match split_once_char(rest.as_str(), ':') {
        None => {
            if is_number_str(a.as_str()) && is_number_str(rest.as_str()) && !proto.as_str().is_empty() {
                Some((rest, proto, owned("0.0.0.0"), a))
            } else {
                None
            }
        },
        Some((b, c)) => {
            if !has_char(c.as_str(), ':') && !a.as_str().is_empty() && is_number_str(b.as_str()) && is_number_str(
                c.as_str(),
            ) && !proto.as_str().is_empty() {
                Some((c, proto, a, b))
            } else {
                None
            }
        },
    }
}

fn binding_position(bs: &Vec<PortBinding>, key: &String) -> (res: Option<usize>)
    ensures
        match res {
            Some(i) => binding_index(bindings_view(bs@), key@) == Some(i as int),
            None => binding_index(bindings_view(bs@), key@) is None,
        },
{
    let ghost v = bindings_view(bs@);
    let mut i: usize = 0;
    while i < bs.len()
        invariant
            v == bindings_view(bs@),
            i <= bs.len(),
            binding_index(v.take(i as int), key@) is None,
        decreases bs.len() - i,
    {
        assert(v.take(i + 1).drop_last() =~= v.take(i as int));
        if bs[i].key == *key {
            proof {
                lemma_binding_index_prefix(v, key@, i + 1);
            }
            return Some(i);
        }
        i = i + 1;
    }
    assert(v.take(i as int) =~= v);
    None
}

proof fn lemma_binding_index_prefix(v: Seq<BindingView>, key: Seq<char>, n: int)
    requires
        0 <= n <= v.len(),
        binding_index(v.take(n), key) matches Some(k),
    ensures
        binding_index(v, key) == binding_index(v.take(n), key),
    decreases v.len() - n,
{
    if n < v.len() {
        assert(v.take(n + 1).drop_last() =~= v.take(n));
        lemma_binding_index_prefix(v, key, n + 1);
    } else {
        assert(v.take(n) =~= v);
    }
}

proof fn lemma_binding_index_bounds(bs: Seq<BindingView>, key: Seq<char>)
    ensures
        binding_index(bs, key) matches Some(i) ==> 0 <= i < bs.len() && bs[i].0 == key,
    decreases bs.len(),
{
    if bs.len() > 0 {
        lemma_binding_index_bounds(bs.drop_last(), key);
    }
}

fn set_binding_exec(bs: &mut Vec<PortBinding>, b: PortBinding)
    ensures
        bindings_view(final(bs)@) == set_binding(bindings_view(old(bs)@), b@),
{
    match binding_position(bs, &b.key) {
        Some(i) => {
            proof {
                lemma_binding_index_bounds(bindings_view(bs@), b.key@);
            }
            let ghost bv = b@;
            bs.set(i, b);
            assert(bindings_view(bs@) =~= bindings_view(old(bs)@).update(i as int, bv));
        },
        None => {
            let ghost bv = b@;
            bs.push(b);
            assert(bindings_view(bs@) =~= bindings_view(old(bs)@).push(bv));
        },
    }
}

/// Every port binding of a workload's container: its own port, then each
/// extra port in order, a later entry replacing an earlier binding of the
/// same container port and protocol. Entries that do not parse are skipped.
pub fn build_port_bindings(spec: &WorkloadSpec) -> (res: Vec<PortBinding>)
    ensures
        bindings_view(res@) == port_bindings_spec(*spec),
{
    let mut bs = build_port_config(spec.port, spec.host_port);
    let ghost base = bindings_view(bs@);
    let ghost entries = views(spec.extra_ports@);
    let mut i: usize = 0;
    assert(entries.take(0) =~= Seq::<Seq<char>>::empty());
    while i < spec.extra_ports.len()
        invariant
            entries == views(spec.extra_ports@),
            i <= spec.extra_ports.len(),
            bindings_view(bs@) == with_extra_ports(base, entries.take(i as int)),
            base == match main_binding(spec.port, spec.host_port) {
                Some(b) => seq![b],
                None => Seq::<BindingView>::empty(),
            },
        decreases spec.extra_ports.len() - i,
    {
        assert(entries.take(i + 1).drop_last() =~= entries.take(i as int));
        assert(entries.take(i + 1).last() == spec.extra_ports@[i as int]@);
        if let Some((c, proto, ip, hp)) = parse_extra_port(spec.extra_ports[i].as_str()) {
            let mut key = c;
            push_str(&mut key, "/");
            push_str(&mut key, proto.as_str());
            set_binding_exec(&mut bs, PortBinding { key, host_ip: ip, host_port: hp });
        }
        i = i + 1;
    }
    assert(entries.take(i as int) =~= entries);
    bs
}

/// A database's well-known port, published on every address: what the
/// deploy warns about.
pub open spec fn public_database_port_spec(host_ip: Seq<char>, host_port: Seq<char>) -> Option<Seq<char>> {
    if host_ip == "0.0.0.0"@ || host_ip == "::"@ {
        if host_port == "5432"@ {
            Some("PostgreSQL"@)
        } else if host_port == "3306"@ {
            Some("MySQL"@)
        } else if host_port == "6379"@ {
            Some("Redis"@)
        } else if host_port == "27017"@ {
            Some("MongoDB"@)
        } else {
            None
        }
    } else {
        None
    }
}

/// The database a public binding exposes, if its host port is a well-known
/// database port and it listens on every address.
pub fn public_database_port(host_ip: &str, host_port: &str) -> (res: Option<&'static str>)
    ensures
        match public_database_port_spec(host_ip@, host_port@) {
            Some(d) => res matches Some(r) && r@ == d,
            None => res is None,
        },
{
    let any = same_text(host_ip, "0.0.0.0") || same_text(host_ip, "::");
    if !any {
        return None;
    }
    if same_text(host_port, "5432") {
        Some("PostgreSQL")
    } else if same_text(host_port, "3306") {
        Some("MySQL")
    } else if same_text(host_port, "6379") {
        Some("Redis")
    } else if same_text(host_port, "27017") {
        Some("MongoDB")
    } else {
        None
    }
}

// ---------------------------------------------------------------------------
// Mounts, GPUs, limits
// ---------------------------------------------------------------------------

/// Every mount of a workload: its named volume first, then its bind mounts.
pub open spec fn binds_spec(spec: WorkloadSpec) -> Seq<Seq<char>> {
    (match spec.volume {
        Some(v) => seq![volume_name_spec(spec.name@) + ":"@ + v.path@],
        None => Seq::empty(),
    }) + views(spec.mounts@)
}

/// Every mount of a workload: its named volume `orca-<name>-data` at the
/// volume's path, then its bind mounts as written.
pub fn build_all_binds(spec: &WorkloadSpec) -> (res: Vec<String>)
    ensures
        views(res@) == binds_spec(*spec),
{
    let mut binds: Vec<String> = Vec::new();
    if let Some(vol) = &spec.volume {
        let mut b = owned("orca-");
        push_str(&mut b, spec.name.as_str());
        push_str(&mut b, "-data");
        push_str(&mut b, ":");
        push_str(&mut b, vol.path.as_str());
        assert(b@ =~= volume_name_spec(spec.name@) + ":"@ + vol.path@);
        binds.push(b);
        assert(views(binds@) =~= seq![volume_name_spec(spec.name@) + ":"@ + vol.path@]);
    } else {
        assert(views(binds@) =~= Seq::<Seq<char>>::empty());
    }
    let ghost head = views(binds@);
    let mut i: usize = 0;
    while i < spec.mounts.len()
        invariant
            i <= spec.mounts.len(),
            views(binds@) == head + views(spec.mounts@).take(i as int),
            head == (match spec.volume {
                Some(v) => seq![volume_name_spec(spec.name@) + ":"@ + v.path@],
                None => Seq::<Seq<char>>::empty(),
            }),
        decreases spec.mounts.len() - i,
    {
        let ghost before = views(binds@);
        let m = owned(spec.mounts[i].as_str());
        binds.push(m);
        assert(views(spec.mounts@).take(i + 1) =~= views(spec.mounts@).take(i as int).push(m@));
        assert(views(binds@) =~= before.push(m@));
        i = i + 1;
    }
    assert(views(spec.mounts@).take(i as int) =~= views(spec.mounts@));
    binds
}

/// A host device mapped into a container.
pub struct DeviceMapping {
    pub path_on_host: String,
    pub path_in_container: String,
    pub cgroup_permissions: String,
}

/// A request for GPUs of a driver, with the capabilities they must have
/// (sets of which any one will do).
pub struct DeviceRequest {
    pub count: i64,
    pub driver: String,
    pub capabilities: Vec<Vec<String>>,
}

/// How a container gets its GPUs.
pub struct GpuPassthrough {
    pub device_requests: Vec<DeviceRequest>,
    pub devices: Vec<DeviceMapping>,
    pub group_add: Vec<String>,
}

/// A GPU is AMD's (ROCm) rather than the default NVIDIA.
pub open spec fn is_amd(g: GpuSpec) -> bool {
    match g.vendor {
        Some(v) => v@ == "amd"@ || v@ == "rocm"@,
        None => false,
    }
}

/// The GPU a workload asks for.
pub open spec fn gpu_of(spec: WorkloadSpec) -> Option<GpuSpec> {
    match spec.resources {
        Some(r) => r.gpu,
        None => None,
    }
}

/// A device mapped at the same path with read, write and mknod rights.
pub open spec fn same_path_device(d: DeviceMapping, path: Seq<char>) -> bool {
    d.path_on_host@ == path && d.path_in_container@ == path && d.cgroup_permissions@ == "rwm"@
}

/// The GPU access a workload's container gets. NVIDIA GPUs (the default)
/// are requested from the `nvidia` driver by count; AMD GPUs are reached
/// through `/dev/kfd` and `/dev/dri`, with the groups owning `/dev/kfd` and
/// `/dev/dri/renderD128` added (39 and 105 when unknown).
pub open spec fn gpu_passthrough_ok(
    spec: WorkloadSpec,
    kfd_gid: Option<u32>,
    render_gid: Option<u32>,
    res: GpuPassthrough,
) -> bool {
    match gpu_of(spec) {
        None => res.device_requests@.len() == 0 && res.devices@.len() == 0 && res.group_add@.len() == 0,
        Some(g) => if is_amd(g) {
            &&& res.device_requests@.len() == 0
            &&& res.devices@.len() == 2
            &&& same_path_device(res.devices@[0], "/dev/kfd"@)
            &&& same_path_device(res.devices@[1], "/dev/dri"@)
            &&& views(res.group_add@) == seq![
                decimal(match kfd_gid { Some(v) => v as nat, None => 39 }),
                decimal(match render_gid { Some(v) => v as nat, None => 105 }),
            ]
        } else {
            &&& res.device_requests@.len() == 1
            &&& res.device_requests@[0].count == g.count as i64
            &&& res.device_requests@[0].driver@ == "nvidia"@
            &&& res.device_requests@[0].capabilities@.map_values(|c: Vec<String>| views(c@)) == seq![seq!["gpu"@]]
            &&& res.devices@.len() == 0
            &&& res.group_add@.len() == 0
        },
    }
}

fn device(path: &str) -> (res: DeviceMapping)
    ensures
        same_path_device(res, path@),
{
    DeviceMapping { path_on_host: owned(path), path_in_container: owned(path), cgroup_permissions: owned("rwm") }
}

/// The GPU access a workload's container gets; `kfd_gid` and `render_gid`
/// are the groups that own `/dev/kfd` and `/dev/dri/renderD128` on this
/// host, where known.
pub fn build_gpu_passthrough(spec: &WorkloadSpec, kfd_gid: Option<u32>, render_gid: Option<u32>) -> (res: GpuPassthrough)
    ensures
        gpu_passthrough_ok(*spec, kfd_gid, render_gid, res),
{
    let mut res = GpuPassthrough { device_requests: Vec::new(), devices: Vec::new(), group_add: Vec::new() };
    let res_limits = match &spec.resources {
        Some(r) => r,
        None => {
            return res;
        },
    };
    let gpu = match &res_limits.gpu {
        Some(g) => g,
        None => {
            return res;
        },
    };
    let amd = match &gpu.vendor {
        Some(v) => same_text(v.as_str(), "amd") || same_text(v.as_str(), "rocm"),
        None => false,
    };
    if amd {
        res.devices.push(device("/dev/kfd"));
        res.devices.push(device("/dev/dri"));
        let video: u32 = match kfd_gid {
            Some(v) => v,
            None => 39,
        };
        let render: u32 = match render_gid {
            Some(v) => v,
            None => 105,
        };
        res.group_add.push(decimal_string(video as u64));
        res.group_add.push(decimal_string(render as u64));
        assert(views(res.group_add@) =~= seq![decimal(video as nat), decimal(render as nat)]);
        assert(video as nat == (match kfd_gid { Some(v) => v as nat, None => 39 }));
        assert(render as nat == (match render_gid { Some(v) => v as nat, None => 105 }));
        assert(gpu_of(*spec) == Some(*gpu));
        assert(is_amd(*gpu));
        assert(res.devices@.len() == 2);
        assert(same_path_device(res.devices@[0], "/dev/kfd"@));
        assert(same_path_device(res.devices@[1], "/dev/dri"@));
        assert(res.device_requests@.len() == 0);
        assert(views(res.group_add@) == seq![
                decimal(match kfd_gid { Some(v) => v as nat, None => 39 }),
                decimal(match render_gid { Some(v) => v as nat, None => 105 }),
            ]);
    } else {
        let mut gpu_cap: Vec<String> = Vec::new();
        gpu_cap.push(owned("gpu"));
        assert(views(gpu_cap@) =~= seq!["gpu"@]);
        let ghost g = gpu_cap;
        let mut capabilities: Vec<Vec<String>> = Vec::new();
        capabilities.push(gpu_cap);
        assert(capabilities@.len() == 1 && capabilities@[0] == g);
        assert(capabilities@.map_values(|c: Vec<String>| views(c@)) =~= seq![seq!["gpu"@]]);
        res.device_requests.push(DeviceRequest { count: gpu.count as i64, driver: owned("nvidia"), capabilities });
        assert(gpu_of(*spec) == Some(*gpu));
        assert(!is_amd(*gpu));
    }
    res
}

/// Bytes per unit of a memory suffix.
pub open spec fn unit_bytes(suffix: Seq<char>) -> nat {
    if suffix == "Gi"@ {
        1024 * 1024 * 1024
    } else if suffix == "Mi"@ {
        1024 * 1024
    } else {
        1024
    }
}

/// The binary suffix of a memory string, if it has one.
pub open spec fn memory_suffix(t: Seq<char>) -> Option<Seq<char>> {
    if ends_with(t, "Gi"@) {
        Some("Gi"@)
    } else if ends_with(t, "Mi"@) {
        Some("Mi"@)
    } else if ends_with(t, "Ki"@) {
        Some("Ki"@)
    } else {
        None
    }
}

/// A memory string's count of units fits in 64 bits once multiplied out.
pub open spec fn memory_fits(s: Seq<char>) -> bool {
    let t = trim(s);
    match memory_suffix(t) {
        Some(u) => match parse_u64_spec(t.take(t.len() - 2)) {
            Some(v) => v * unit_bytes(u) <= u64::MAX,
            None => true,
        },
        None => true,
    }
}

/// The bytes a memory string denotes: a whole number of `Gi`, `Mi` or `Ki`
/// units, or else a plain number of bytes; surrounding whitespace is
/// ignored. The unit count is read as an unsigned 64-bit number and the
/// product taken as a signed 64-bit one.
pub open spec fn memory_bytes(s: Seq<char>) -> Option<i64> {
    let t = trim(s);
    match memory_suffix(t) {
        Some(u) => match parse_u64_spec(t.take(t.len() - 2)) {
            Some(v) => Some((v * unit_bytes(u)) as u64 as i64),
            None => None,
        },
        None => parse_i64_spec(t),
    }
}

/// The bytes a memory string such as `512Mi`, `2Gi` or `1048576` denotes.
pub fn parse_memory_string(s: &str) -> (res: Option<i64>)
    requires
        memory_fits(s@),
    ensures
        res == memory_bytes(s@),
{
    let t = trimmed(s);
    let cs = chars_of(t.as_str());
    proof {
        reveal_strlit("Gi");
        reveal_strlit("Mi");
        reveal_strlit("Ki");
    }
    let n = cs.len();
    let unit: u64 = if ends_with_str(t.as_str(), "Gi") {
        1024 * 1024 * 1024
    } else if ends_with_str(t.as_str(), "Mi") {
        1024 * 1024
    } else if ends_with_str(t.as_str(), "Ki") {
        1024
    } else {
        0
    };
    if unit == 0 {
        return parse_i64(t.as_str());
    }
    let digits = string_of(&cs, 0, n - 2);
    assert(digits@ =~= trim(s@).take(trim(s@).len() - 2));
    match parse_u64(digits.as_str()) {
        Some(v) => {
            let bytes: u64 = v * unit;
            Some(bytes as i64)
        },
        None => None,
    }
}

/// Whether a memory string's unit count fits in 64 bits once multiplied
/// out, so that `parse_memory_string` may read it.
pub fn memory_fits_exec(s: &str) -> (res: bool)
    ensures
        res == memory_fits(s@),
{
    let t = trimmed(s);
    let cs = chars_of(t.as_str());
    proof {
        reveal_strlit("Gi");
        reveal_strlit("Mi");
        reveal_strlit("Ki");
    }
    let n = cs.len();
    let unit: u64 = if ends_with_str(t.as_str(), "Gi") {
        1024 * 1024 * 1024
    } else if ends_with_str(t.as_str(), "Mi") {
        1024 * 1024
    } else if ends_with_str(t.as_str(), "Ki") {
        1024
    } else {
        0
    };
    if unit == 0 {
        return true;
    }
    let digits = string_of(&cs, 0, n - 2);
    assert(digits@ =~= trim(s@).take(trim(s@).len() - 2));
    match parse_u64(digits.as_str()) {
        Some(v) => v.checked_mul(unit).is_some(),
        None => true,
    }
}

/// Whether every memory string of the workload may be read, so that
/// `build_container_config` may be called on it.
pub fn limits_fit_exec(spec: &WorkloadSpec) -> (res: bool)
    ensures
        res == limits_fit(*spec),
{
    match &spec.resources {
        Some(r) => match &r.memory {
            Some(m) => memory_fits_exec(m.as_str()),
            None => true,
        },
        None => true,
    }
}

// ---------------------------------------------------------------------------
// Logs, restarts, labels, networks
// ---------------------------------------------------------------------------

/// How a container's logs are kept: the `json-file` driver, rotated at
/// 10 MB, three files kept.
pub fn build_log_config() -> (res: (String, Vec<(String, String)>))
    ensures
        res.0@ == "json-file"@,
        res.1@.len() == 2,
        res.1@[0].0@ == "max-size"@ && res.1@[0].1@ == "10m"@,
        res.1@[1].0@ == "max-file"@ && res.1@[1].1@ == "3"@,
{
    let mut opts: Vec<(String, String)> = Vec::new();
    opts.push((owned("max-size"), owned("10m")));
    opts.push((owned("max-file"), owned("3")));
    (owned("json-file"), opts)
}

/// When Docker restarts a container.
#[derive(Clone, Copy, Debug, PartialEq, Eq, Structural)]
pub enum RestartPolicyName {
    No,
    Always,
    UnlessStopped,
    OnFailure,
}

/// A restart policy, with the retry limit `on-failure` may carry.
#[derive(Clone, Copy, Debug, PartialEq, Eq, Structural)]
pub struct RestartPolicy {
    pub name: RestartPolicyName,
    pub maximum_retry_count: Option<i64>,
}

/// The restart policy a policy string maps to: `no`, `always`,
/// `unless-stopped`, or `on-failure` with an optional `:<retries>` (a
/// suffix that is not `:` and a number gives no limit). Anything else maps
/// to none, Docker's default.
pub open spec fn restart_policy_spec(policy: Option<Seq<char>>) -> Option<RestartPolicy> {
    match policy {
        None => None,
        Some(p) => if p == "no"@ {
            Some(RestartPolicy { name: RestartPolicyName::No, maximum_retry_count: None })
        } else if p == "always"@ {
            Some(RestartPolicy { name: RestartPolicyName::Always, maximum_retry_count: None })
        } else if p == "unless-stopped"@ {
            Some(RestartPolicy { name: RestartPolicyName::UnlessStopped, maximum_retry_count: None })
        } else if starts_with(p, "on-failure"@) {
            let rest = p.skip(10);
            Some(
                RestartPolicy {
                    name: RestartPolicyName::OnFailure,
                    maximum_retry_count: if rest.len() > 0 && rest[0] == ':' {
                        parse_i64_spec(rest.skip(1))
                    } else {
                        None
                    },
                },
            )
        } else {
            None
        },
    }
}

/// The restart policy a policy string maps to.
pub fn build_restart_policy(policy: Option<&str>) -> (res: Option<RestartPolicy>)
    ensures
        res == restart_policy_spec(match policy {
            Some(p) => Some(p@),
            None => None,
        }),
{
    let p = match policy {
        Some(p) => p,
        None => {
            return None;
        },
    };
    if same_text(p, "no") {
        return Some(RestartPolicy { name: RestartPolicyName::No, maximum_retry_count: None });
    }
    if same_text(p, "always") {
        return Some(RestartPolicy { name: RestartPolicyName::Always, maximum_retry_count: None });
    }
    if same_text(p, "unless-stopped") {
        return Some(RestartPolicy { name: RestartPolicyName::UnlessStopped, maximum_retry_count: None });
    }
    proof {
        reveal_strlit("on-failure");
    }
    if !starts_with_str(p, "on-failure") {
        return None;
    }
    let cs = chars_of(p);
    let retries = if cs.len() > 10 && cs[10] == ':' {
        let digits = string_of(&cs, 11, cs.len());
        assert(digits@ =~= p@.skip(10).skip(1));
        parse_i64(digits.as_str())
    } else {
        None
    };
    Some(RestartPolicy { name: RestartPolicyName::OnFailure, maximum_retry_count: retries })
}

/// The label under which a container carries the fingerprint of the spec
/// it was created from.
pub const FINGERPRINT_LABEL: &'static str = "orca.fingerprint";

/// The labels of a workload's container, in order: those a node-local
/// proxy rebuilds its routes from, then the spec's fingerprint where it has
/// one, which reconciling compares with what the master expects.
pub open spec fn labels_spec(spec: WorkloadSpec) -> Seq<(Seq<char>, Seq<char>)> {
    route_labels_spec(spec) + match spec.fingerprint {
        Some(f) => seq![("orca.fingerprint"@, f@)],
        None => Seq::empty(),
    }
}

/// The labels a node-local proxy rebuilds its routes from, in order: the
/// managed marker, the service, then its network, domain, port, routes
/// (comma-joined) and strip prefix where it has them.
pub open spec fn route_labels_spec(spec: WorkloadSpec) -> Seq<(Seq<char>, Seq<char>)> {
    seq![("orca.managed"@, "true"@), ("orca.service"@, spec.name@)] + (match spec.network {
        Some(n) => seq![("orca.network"@, n@)],
        None => Seq::empty(),
    }) + (match spec.domain {
        Some(d) => seq![("orca.domain"@, d@)],
        None => Seq::empty(),
    }) + (match spec.port {
        Some(p) => seq![("orca.port"@, decimal(p as nat))],
        None => Seq::empty(),
    }) + (if spec.routes@.len() > 0 {
        seq![("orca.routes"@, join(views(spec.routes@), ","@))]
    } else {
        Seq::empty()
    }) + (match spec.strip_prefix {
        Some(sp) => seq![("orca.strip_prefix"@, sp@)],
        None => Seq::empty(),
    })
}

/// Label pairs as views.
pub open spec fn pairs_view(v: Seq<(String, String)>) -> Seq<(Seq<char>, Seq<char>)> {
    v.map_values(|p: (String, String)| (p.0@, p.1@))
}

fn push_pair(v: &mut Vec<(String, String)>, k: &str, val: String)
    ensures
        pairs_view(final(v)@) == pairs_view(old(v)@).push((k@, val@)),
{
    let ghost before = v@;
    let ghost kv = val@;
    v.push((owned(k), val));
    assert(pairs_view(v@) =~= pairs_view(before).push((k@, kv)));
}

/// The labels of a workload's container.
pub fn build_labels(spec: &WorkloadSpec) -> (res: Vec<(String, String)>)
    ensures
        pairs_view(res@) == labels_spec(*spec),
{
    let mut labels: Vec<(String, String)> = Vec::new();
    push_pair(&mut labels, ORCA_LABEL, owned("true"));
    push_pair(&mut labels, "orca.service", owned(spec.name.as_str()));
    proof {
        reveal_strlit("orca.managed");
    }
    let ghost l0 = pairs_view(labels@);
    if let Some(n) = &spec.network {
        push_pair(&mut labels, "orca.network", owned(n.as_str()));
    }
    let ghost l1 = pairs_view(labels@);
    if let Some(d) = &spec.domain {
        push_pair(&mut labels, "orca.domain", owned(d.as_str()));
    }
    let ghost l2 = pairs_view(labels@);
    if let Some(p) = spec.port {
        push_pair(&mut labels, "orca.port", decimal_string(p as u64));
    }
    let ghost l3 = pairs_view(labels@);
    if spec.routes.len() > 0 {
        let joined = crate::text::join_first(&spec.routes, spec.routes.len(), ",");
        assert(views(spec.routes@).take(spec.routes.len() as int) =~= views(spec.routes@));
        push_pair(&mut labels, "orca.routes", joined);
    }
    let ghost l4 = pairs_view(labels@);
    if let Some(sp) = &spec.strip_prefix {
        push_pair(&mut labels, "orca.strip_prefix", owned(sp.as_str()));
    }
    assert(pairs_view(labels@) =~= route_labels_spec(*spec));
    let ghost l5 = pairs_view(labels@);
    if let Some(f) = &spec.fingerprint {
        push_pair(&mut labels, FINGERPRINT_LABEL, owned(f.as_str()));
        proof {
            reveal_strlit("orca.fingerprint");
        }
    }
    assert(pairs_view(labels@) =~= labels_spec(*spec));
    labels
}

/// The first `-`-separated segment of a name (the whole name if it has no
/// `-`).
pub open spec fn first_segment(name: Seq<char>) -> Seq<char> {
    match find_char_from(name, '-', 0) {
        Some(k) => name.take(k),
        None => name,
    }
}

/// The network a workload joins: `orca-` and its project network, or else
/// `orca-` and the first segment of its name, so that `shop-db` and
/// `shop-web` share `orca-shop`.
pub open spec fn network_name_spec(spec: WorkloadSpec) -> Seq<char> {
    match spec.network {
        Some(n) => "orca-"@ + n@,
        None => "orca-"@ + first_segment(spec.name@),
    }
}

/// The network a workload joins.
pub fn network_name(spec: &WorkloadSpec) -> (res: String)
    ensures
        res@ == network_name_spec(*spec),
{
    match &spec.network {
        Some(n) => join2("orca-", n.as_str()),
        None => {
            let cs = chars_of(spec.name.as_str());
            let seg = match find_char(&cs, '-', 0) {
                Some(k) => {
                    proof {
                        crate::text::lemma_find_char_from(cs@, '-', 0);
                    }
                    string_of(&cs, 0, k)
                },
                None => string_of(&cs, 0, cs.len()),
            };
            assert(seg@ =~= first_segment(spec.name@));
            join2("orca-", seg.as_str())
        },
    }
}

/// A per-service orca network other than `derived`: not `orca-internal`,
/// which every internal service also joins.
pub open spec fn is_other_service_network(n: Seq<char>, derived: Seq<char>) -> bool {
    starts_with(n, "orca-"@) && n != "orca-internal"@ && n != derived
}

/// The first of `attached` that is another service network.
pub open spec fn drifted_spec(derived: Seq<char>, attached: Seq<Seq<char>>) -> Option<Seq<char>>
    decreases attached.len(),
{
    if attached.len() == 0 {
        None
    } else if is_other_service_network(attached[0], derived) {
        Some(attached[0])
    } else {
        drifted_spec(derived, attached.skip(1))
    }
}

/// The service network an existing container is attached to, if it is not
/// the one the service is about to be created on: redeploying would move
/// the service away from its project's siblings. `orca-internal` and
/// networks that are not orca's do not count.
pub fn drifted_service_network(derived: &str, attached: &[String]) -> (res: Option<String>)
    ensures
        opt_chars(res) == drifted_spec(derived@, views(attached@)),
{
    let ghost all = views(attached@);
    let mut i: usize = 0;
    assert(all.skip(0) =~= all);
    while i < attached.len()
        invariant
            all == views(attached@),
            i <= attached.len(),
            drifted_spec(derived@, all) == drifted_spec(derived@, all.skip(i as int)),
        decreases attached.len() - i,
    {
        let n = attached[i].as_str();
        assert(all.skip(i as int)[0] == n@);
        assert(all.skip(i as int).skip(1) =~= all.skip(i + 1));
        proof {
            reveal_strlit("orca-");
        }
        let orca = starts_with_str(n, "orca-");
        if orca && !same_text(n, "orca-internal") && !same_text(n, derived) {
            return Some(owned(n));
        }
        i = i + 1;
    }
    assert(all.skip(i as int) =~= Seq::<Seq<char>>::empty());
    None
}

// ---------------------------------------------------------------------------
// The whole container
// ---------------------------------------------------------------------------

/// Everything a workload's container is created with.
pub struct ContainerConfig {
    pub image: String,
    /// `KEY=value` pairs, in the spec's order.
    pub env: Vec<String>,
    pub cmd: Vec<String>,
    pub port_bindings: Vec<PortBinding>,
    pub binds: Vec<String>,
    pub gpu: GpuPassthrough,
    pub memory: Option<i64>,
    pub nano_cpus: Option<i64>,
    pub log_driver: String,
    pub log_options: Vec<(String, String)>,
    pub restart_policy: Option<RestartPolicy>,
    pub labels: Vec<(String, String)>,
}

/// The environment as `KEY=value` strings.
pub open spec fn env_spec(env: Seq<(String, String)>) -> Seq<Seq<char>> {
    env.map_values(|p: (String, String)| p.0@ + "="@ + p.1@)
}

/// A workload's memory limit in bytes, where it sets one.
pub open spec fn memory_limit(spec: WorkloadSpec) -> Option<i64> {
    match spec.resources {
        Some(r) => match r.memory {
            Some(m) => memory_bytes(m@),
            None => None,
        },
        None => None,
    }
}

/// Every memory string of the workload fits in 64 bits once multiplied out.
pub open spec fn limits_fit(spec: WorkloadSpec) -> bool {
    match spec.resources {
        Some(r) => match r.memory {
            Some(m) => memory_fits(m@),
            None => true,
        },
        None => true,
    }
}

/// The container a workload becomes.
pub open spec fn container_config_ok(
    spec: WorkloadSpec,
    kfd_gid: Option<u32>,
    render_gid: Option<u32>,
    c: ContainerConfig,
) -> bool {
    &&& c.image@ == spec.image@
    &&& views(c.env@) == env_spec(spec.env@)
    &&& views(c.cmd@) == views(spec.cmd@)
    &&& bindings_view(c.port_bindings@) == port_bindings_spec(spec)
    &&& views(c.binds@) == binds_spec(spec)
    &&& gpu_passthrough_ok(spec, kfd_gid, render_gid, c.gpu)
    &&& c.memory == memory_limit(spec)
    &&& c.nano_cpus == match spec.resources {
        Some(r) => r.nano_cpus,
        None => None,
    }
    &&& c.log_driver@ == "json-file"@
    &&& pairs_view(c.log_options@) == seq![("max-size"@, "10m"@), ("max-file"@, "3"@)]
    &&& c.restart_policy == restart_policy_spec(opt_chars(spec.restart_policy))
    &&& pairs_view(c.labels@) == labels_spec(spec)
}

fn copy_strings(v: &Vec<String>) -> (res: Vec<String>)
    ensures
        views(res@) == views(v@),
{
    let mut res: Vec<String> = Vec::new();
    let mut i: usize = 0;
    while i < v.len()
        invariant
            i <= v.len(),
            views(res@) == views(v@).take(i as int),
        decreases v.len() - i,
    {
        let ghost before = views(res@);
        let s = owned(v[i].as_str());
        res.push(s);
        assert(views(v@).take(i + 1) =~= views(v@).take(i as int).push(s@));
        assert(views(res@) =~= before.push(s@));
        i = i + 1;
    }
    assert(views(v@).take(i as int) =~= views(v@));
    res
}

fn build_env(env: &Vec<(String, String)>) -> (res: Vec<String>)
    ensures
        views(res@) == env_spec(env@),
{
    let mut res: Vec<String> = Vec::new();
    let mut i: usize = 0;
    while i < env.len()
        invariant
            i <= env.len(),
            views(res@) == env_spec(env@).take(i as int),
        decreases env.len() - i,
    {
        let ghost before = views(res@);
        let mut s = owned(env[i].0.as_str());
        push_str(&mut s, "=");
        push_str(&mut s, env[i].1.as_str());
        res.push(s);
        assert(env_spec(env@).take(i + 1) =~= env_spec(env@).take(i as int).push(s@));
        assert(views(res@) =~= before.push(s@));
        i = i + 1;
    }
    assert(env_spec(env@).take(i as int) =~= env_spec(env@));
    res
}

/// The container a workload becomes; `kfd_gid` and `render_gid` are the
/// groups owning the AMD GPU devices on this host, where known.
pub fn build_container_config(spec: &WorkloadSpec, kfd_gid: Option<u32>, render_gid: Option<u32>) -> (res: ContainerConfig)
    requires
        limits_fit(*spec),
    ensures
        container_config_ok(*spec, kfd_gid, render_gid, res),
{
    let (memory, nano_cpus) = match &spec.resources {
        Some(r) => {
            let m = match &r.memory {
                Some(m) => parse_memory_string(m.as_str()),
                None => None,
            };
            (m, r.nano_cpus)
        },
        None => (None, None),
    };
    let (log_driver, log_options) = build_log_config();
    let res = ContainerConfig {
        image: owned(spec.image.as_str()),
        env: build_env(&spec.env),
        cmd: copy_strings(&spec.cmd),
        port_bindings: build_port_bindings(spec),
        binds: build_all_binds(spec),
        gpu: build_gpu_passthrough(spec, kfd_gid, render_gid),
        memory,
        nano_cpus,
        log_driver,
        log_options,
        restart_policy: build_restart_policy(
            match &spec.restart_policy {
                Some(p) => Some(p.as_str()),
                None => None,
            },
        ),
        labels: build_labels(spec),
    };
    assert(pairs_view(res.log_options@) =~= seq![("max-size"@, "10m"@), ("max-file"@, "3"@)]);
    res
}

/// The networks a new container joins and the names it answers to on
/// each: its service network, as its aliases and its container name, and,
/// for an internal service, `orca-internal` as its container name.
pub open spec fn network_plan_spec(spec: WorkloadSpec) -> Seq<(Seq<char>, Seq<Seq<char>>)> {
    seq![(network_name_spec(spec), views(spec.aliases@).push(container_name_spec(spec.name@)))] + if spec.internal {
        seq![("orca-internal"@, seq![container_name_spec(spec.name@)])]
    } else {
        Seq::empty()
    }
}

/// The networks a new container joins, each with the names it answers to.
pub fn network_plan(spec: &WorkloadSpec) -> (res: Vec<(String, Vec<String>)>)
    ensures
        res@.map_values(|p: (String, Vec<String>)| (p.0@, views(p.1@))) == network_plan_spec(*spec),
{
    let name = container_name(spec.name.as_str());
    let mut aliases = copy_strings(&spec.aliases);
    let ghost a0 = views(aliases@);
    aliases.push(owned(name.as_str()));
    assert(views(aliases@) =~= a0.push(name@));
    let mut res: Vec<(String, Vec<String>)> = Vec::new();
    res.push((network_name(spec), aliases));
    if spec.internal {
        let mut only: Vec<String> = Vec::new();
        only.push(name);
        assert(views(only@) =~= seq![container_name_spec(spec.name@)]);
        res.push((owned("orca-internal"), only));
    }
    assert(res@.map_values(|p: (String, Vec<String>)| (p.0@, views(p.1@))) =~= network_plan_spec(*spec));
    res
}


// ---------------------------------------------------------------------------
// Laws
// ---------------------------------------------------------------------------

/// No two bindings share a key.
pub open spec fn keys_distinct(bs: Seq<BindingView>) -> bool {
    forall|i: int, j: int| 0 <= i < j < bs.len() ==> bs[i].0 != bs[j].0
}

proof fn lemma_set_binding_distinct(bs: Seq<BindingView>, b: BindingView)
    requires
        keys_distinct(bs),
    ensures
        keys_distinct(set_binding(bs, b)),
        set_binding(bs, b).contains(b),
{
    lemma_binding_index_bounds(bs, b.0);
    match binding_index(bs, b.0) {
        Some(k) => {
            let u = bs.update(k, b);
            assert forall|i: int, j: int| 0 <= i < j < u.len() implies u[i].0 != u[j].0 by {
                if i == k {
                    assert(bs[j].0 != bs[k].0);
                } else if j == k {
                    assert(bs[i].0 != bs[k].0);
                }
            }
            assert(u[k] == b);
        },
        None => {
            let u = bs.push(b);
            assert forall|i: int, j: int| 0 <= i < j < u.len() implies u[i].0 != u[j].0 by {
                if j == bs.len() {
                    if bs[i].0 == b.0 {
                        lemma_binding_index_none(bs, b.0, i);
                    }
                }
            }
            assert(u[bs.len() as int] == b);
        },
    }
}

proof fn lemma_binding_index_none(bs: Seq<BindingView>, key: Seq<char>, i: int)
    requires
        binding_index(bs, key) is None,
        0 <= i < bs.len(),
    ensures
        bs[i].0 != key,
    decreases bs.len(),
{
    if i < bs.len() - 1 {
        lemma_binding_index_none(bs.drop_last(), key, i);
    }
}

proof fn lemma_extra_ports_distinct(bs: Seq<BindingView>, entries: Seq<Seq<char>>)
    requires
        keys_distinct(bs),
    ensures
        keys_distinct(with_extra_ports(bs, entries)),
    decreases entries.len(),
{
    if entries.len() > 0 {
        lemma_extra_ports_distinct(bs, entries.drop_last());
        if let Some((c, proto, ip, hp)) = extra_port(entries.last()) {
            lemma_set_binding_distinct(with_extra_ports(bs, entries.drop_last()), (c + "/"@ + proto, ip, hp));
        }
    }
}

/// A container's port bindings form a map: no two bind the same container
/// port and protocol, and the last extra port that names one is the one
/// kept for it.
pub proof fn law_port_bindings_are_a_map(spec: WorkloadSpec)
    ensures
        keys_distinct(port_bindings_spec(spec)),
        spec.extra_ports@.len() > 0 ==> (extra_port(spec.extra_ports@.last()@) matches Some(
            (c, proto, ip, hp),
        ) ==> port_bindings_spec(spec).contains((c + "/"@ + proto, ip, hp))),
{
    let base = match main_binding(spec.port, spec.host_port) {
        Some(b) => seq![b],
        None => Seq::<BindingView>::empty(),
    };
    lemma_extra_ports_distinct(base, views(spec.extra_ports@));
    let es = views(spec.extra_ports@);
    if es.len() > 0 {
        assert(es.last() == spec.extra_ports@.last()@);
        lemma_extra_ports_distinct(base, es.drop_last());
        if let Some((c, proto, ip, hp)) = extra_port(es.last()) {
            lemma_set_binding_distinct(with_extra_ports(base, es.drop_last()), (c + "/"@ + proto, ip, hp));
        }
    }
}

/// A reported network drift is one of the attached networks, an orca
/// service network, neither `orca-internal` nor the derived one; none is
/// reported when the container is on the derived network and others only.
pub proof fn law_drift_is_another_service_network(derived: Seq<char>, attached: Seq<Seq<char>>)
    ensures
        drifted_spec(derived, attached) matches Some(n) ==> attached.contains(n)
            && is_other_service_network(n, derived),
        (forall|i: int| 0 <= i < attached.len() ==> !is_other_service_network(#[trigger] attached[i], derived))
            ==> drifted_spec(derived, attached) is None,
    decreases attached.len(),
{
    if attached.len() > 0 {
        law_drift_is_another_service_network(derived, attached.skip(1));
        if let Some(n) = drifted_spec(derived, attached.skip(1)) {
            if !is_other_service_network(attached[0], derived) {
                let k = choose|k: int| 0 <= k < attached.skip(1).len() && attached.skip(1)[k] == n;
                assert(attached[k + 1] == n);
            }
        }
        if forall|i: int| 0 <= i < attached.len() ==> !is_other_service_network(#[trigger] attached[i], derived) {
            assert(!is_other_service_network(attached[0], derived));
            assert forall|i: int| 0 <= i < attached.skip(1).len() implies !is_other_service_network(
                #[trigger] attached.skip(1)[i], derived) by {
                assert(attached.skip(1)[i] == attached[i + 1]);
            }
        }
    }
}

} // verus!
