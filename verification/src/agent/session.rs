//! The agent's side of a session with the master: the address it dials,
//! and the replies it sends for deploys, log requests and backups.

use vstd::prelude::*;

use crate::agent::codec::{lossy_text, utf8_lossy};
use crate::agent::connect::{encoded_address, ws_base};
use crate::agent::workload::WorkloadSpec;
use crate::text::{decimal, owned, push_decimal, push_str, replace_all, trim, trimmed};

verus! {

/// The agent-channel URL older masters expect: the token rides in the
/// query string, with the node's id and address.
pub open spec fn ws_url_with_token_spec(leader_url: Seq<char>, node_id: u64, token: Seq<char>, address: Seq<char>) -> Seq<char> {
    ws_base(leader_url) + "/api/v1/ws/agent?token="@ + token + "&node_id="@ + decimal(node_id as nat)
        + "&address="@ + encoded_address(address)
}

/// The agent-channel URL older masters expect.
pub fn build_ws_url(leader_url: &str, node_id: u64, token: &str, address: &str) -> (res: String)
    ensures
        res@ == ws_url_with_token_spec(leader_url@, node_id, token@, address@),
{
    proof {
        reveal_strlit("https://");
        reveal_strlit("http://");
        reveal_strlit(":");
    }
    let b = replace_all(leader_url, "https://", "wss://");
    let mut url = replace_all(b.as_str(), "http://", "ws://");
    let addr = replace_all(address, ":", "%3A");
    push_str(&mut url, "/api/v1/ws/agent?token=");
    push_str(&mut url, token);
    push_str(&mut url, "&node_id=");
    push_decimal(&mut url, node_id);
    push_str(&mut url, "&address=");
    push_str(&mut url, addr.as_str());
    url
}

/// The most log bytes a reply carries.
pub const LOG_READ_LIMIT: usize = 1048576;

/// How reading a container's logs went.
pub enum LogRead {
    /// The bytes read.
    Data(Vec<u8>),
    /// The stream broke off, for this reason.
    ReadFailed(String),
    /// The logs could not be opened, for this reason.
    Unavailable(String),
}

/// The one chunk that answers a log request.
pub struct LogChunk {
    pub request_id: String,
    pub service_name: String,
    pub data: String,
    pub done: bool,
}

/// The first `LOG_READ_LIMIT` bytes of what was read (all if fewer).
pub open spec fn within_limit(b: Seq<u8>) -> Seq<u8> {
    if b.len() > LOG_READ_LIMIT {
        b.take(LOG_READ_LIMIT as int)
    } else {
        b
    }
}

/// The text a log reply carries: at most a mebibyte of what was read, as
/// UTF-8 with U+FFFD for what is not, or why nothing could be read.
pub open spec fn log_reply_text(r: LogRead) -> Seq<char> {
    match r {
        LogRead::Data(d) => utf8_lossy(within_limit(d@)),
        LogRead::ReadFailed(e) => "error reading logs: "@ + e@,
        LogRead::Unavailable(e) => "logs unavailable: "@ + e@,
    }
}

/// The chunk that answers log request `request_id` for `service`: always
/// the last one (`done`), so the master's collector stops waiting, and on
/// failure it says why.
pub fn log_reply(request_id: &str, service: &str, read: LogRead) -> (res: LogChunk)
    ensures
        res.request_id@ == request_id@,
        res.service_name@ == service@,
        res.data@ == log_reply_text(read),
        res.done,
{
    let data = match read {
        LogRead::Data(mut d) => {
            if d.len() > LOG_READ_LIMIT {
                d.truncate(LOG_READ_LIMIT);
            }
            lossy_text(d.as_slice())
        },
        LogRead::ReadFailed(e) => {
            let mut t = owned("error reading logs: ");
            push_str(&mut t, e.as_str());
            t
        },
        LogRead::Unavailable(e) => {
            let mut t = owned("logs unavailable: ");
            push_str(&mut t, e.as_str());
            t
        },
    };
    LogChunk { request_id: owned(request_id), service_name: owned(service), data, done: true }
}

/// The container port whose host port a deploy looks up: the service's
/// port, or 80.
pub fn port_to_resolve(spec: &WorkloadSpec) -> (res: u16)
    ensures
        res == match spec.port {
            Some(p) => p,
            None => 80u16,
        },
{
    match spec.port {
        Some(p) => p,
        None => 80,
    }
}

/// The proxy routes a successful deploy announces: each of the service's
/// domains to the host port it got.
pub open spec fn domain_routes_spec(spec: WorkloadSpec, host_port: u16) -> Seq<(Seq<char>, Seq<char>, u16)> {
    match spec.domain {
        Some(d) => seq![(spec.name@, d@, host_port)],
        None => Seq::empty(),
    }
}

/// The proxy routes a successful deploy announces.
pub fn domain_routes(spec: &WorkloadSpec, host_port: u16) -> (res: Vec<(String, String, u16)>)
    ensures
        res@.map_values(|r: (String, String, u16)| (r.0@, r.1@, r.2)) == domain_routes_spec(*spec, host_port),
{
    let mut res: Vec<(String, String, u16)> = Vec::new();
    if let Some(d) = &spec.domain {
        res.push((owned(spec.name.as_str()), owned(d.as_str()), host_port));
    }
    assert(res@.map_values(|r: (String, String, u16)| (r.0@, r.1@, r.2)) =~= domain_routes_spec(*spec, host_port));
    res
}

/// The result a deploy reports: the service, whether it succeeded, and the
/// error if not.
pub struct DeployResult {
    pub service_name: String,
    pub success: bool,
    pub error: Option<String>,
}

/// The result a deploy of `service` reports for `outcome`.
pub fn deploy_result(service: &str, outcome: Result<(), String>) -> (res: DeployResult)
    ensures
        res.service_name@ == service@,
        res.success == outcome is Ok,
        match outcome {
            Ok(()) => res.error is None,
            Err(e) => res.error matches Some(x) && x@ == e@,
        },
{
    match outcome {
        Ok(()) => DeployResult { service_name: owned(service), success: true, error: None },
        Err(e) => DeployResult { service_name: owned(service), success: false, error: Some(e) },
    }
}

/// How running a backup on this node went.
pub enum BackupRun {
    /// The backup configuration could not be serialized.
    ConfigUnserializable(String),
    /// This binary's own path could not be found.
    NoBinary(String),
    /// `backup all` ran and exited, successfully or not, with this output.
    Exited { success: bool, stdout: String, stderr: String },
    /// `backup all` could not be started.
    SpawnFailed(String),
}

/// Whether a backup succeeded, and its message: the trimmed output of a
/// successful run, the trimmed error output of a failed one, or why it
/// could not run.
pub open spec fn backup_result_spec(r: BackupRun) -> (bool, Seq<char>) {
    match r {
        BackupRun::ConfigUnserializable(e) => (false, "config serialization failed: "@ + e@),
        BackupRun::NoBinary(e) => (false, "cannot resolve binary: "@ + e@),
        BackupRun::Exited { success, stdout, stderr } => if success {
            (true, trim(stdout@))
        } else {
            (false, trim(stderr@))
        },
        BackupRun::SpawnFailed(e) => (false, "spawn failed: "@ + e@),
    }
}

/// The result a backup on this node reports.
pub fn backup_result(run: BackupRun) -> (res: (bool, String))
    ensures
        (res.0, res.1@) == backup_result_spec(run),
{
    match run {
        BackupRun::ConfigUnserializable(e) => {
            let mut m = owned("config serialization failed: ");
            push_str(&mut m, e.as_str());
            (false, m)
        },
        BackupRun::NoBinary(e) => {
            let mut m = owned("cannot resolve binary: ");
            push_str(&mut m, e.as_str());
            (false, m)
        },
        BackupRun::Exited { success, stdout, stderr } => {
            if success {
                (true, trimmed(stdout.as_str()))
            } else {
                (false, trimmed(stderr.as_str()))
            }
        },
        BackupRun::SpawnFailed(e) => {
            let mut m = owned("spawn failed: ");
            push_str(&mut m, e.as_str());
            (false, m)
        },
    }
}


/// The host name a node reports: `/etc/hostname` trimmed if it could be
/// read, else `HOSTNAME` if set, else `unknown`.
pub fn node_hostname(file: Option<&str>, env: Option<&str>) -> (res: String)
    ensures
        res@ == match file {
            Some(f) => trim(f@),
            None => match env {
                Some(e) => e@,
                None => "unknown"@,
            },
        },
{
    match file {
        Some(f) => trimmed(f),
        None => match env {
            Some(e) => owned(e),
            None => owned("unknown"),
        },
    }
}

/// The sum of the first and of the second components.
pub open spec fn totals(v: Seq<(u64, u64)>) -> (int, int)
    decreases v.len(),
{
    if v.len() == 0 {
        (0, 0)
    } else {
        let t = totals(v.drop_last());
        (t.0 + v.last().0, t.1 + v.last().1)
    }
}

proof fn lemma_totals_prefix(v: Seq<(u64, u64)>, k: int)
    requires
        0 <= k <= v.len(),
    ensures
        totals(v.take(k)).0 <= totals(v).0,
        totals(v.take(k)).1 <= totals(v).1,
    decreases v.len() - k,
{
    if k < v.len() {
        lemma_totals_prefix(v, k + 1);
        assert(v.take(k + 1).drop_last() =~= v.take(k));
    } else {
        assert(v.take(k) =~= v);
    }
}

/// A container's received and sent bytes: the sums over its interfaces.
pub fn network_totals(ifaces: &Vec<(u64, u64)>) -> (res: (u64, u64))
    requires
        totals(ifaces@).0 <= u64::MAX,
        totals(ifaces@).1 <= u64::MAX,
    ensures
        res.0 == totals(ifaces@).0,
        res.1 == totals(ifaces@).1,
{
    let mut rx: u64 = 0;
    let mut tx: u64 = 0;
    let mut i: usize = 0;
    while i < ifaces.len()
        invariant
            i <= ifaces.len(),
            totals(ifaces@).0 <= u64::MAX,
            totals(ifaces@).1 <= u64::MAX,
            rx == totals(ifaces@.take(i as int)).0,
            tx == totals(ifaces@.take(i as int)).1,
        decreases ifaces.len() - i,
    {
        proof {
            assert(ifaces@.take(i + 1).drop_last() =~= ifaces@.take(i as int));
            lemma_totals_prefix(ifaces@, i + 1);
        }
        rx = rx + ifaces[i].0;
        tx = tx + ifaces[i].1;
        i = i + 1;
    }
    assert(ifaces@.take(i as int) =~= ifaces@);
    (rx, tx)
}

/// The command line that runs a backup on this node.
pub fn backup_args() -> (res: Vec<String>)
    ensures
        crate::text::views(res@) == seq!["backup"@, "all"@],
{
    let mut a: Vec<String> = Vec::new();
    a.push(owned("backup"));
    a.push(owned("all"));
    assert(crate::text::views(a@) =~= seq!["backup"@, "all"@]);
    a
}
} // verus!
