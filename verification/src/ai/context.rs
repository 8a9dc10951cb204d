//! The cluster snapshot the assistant reasons about, and its rendering into
//! the model's system prompt.
//!
//! Measured floating-point quantities (CPU, memory and GPU utilization,
//! temperatures) reach this library already rounded to whole units and
//! rendered, together with the threshold verdicts the monitor needs: the
//! library decides and renders everything else.

use vstd::prelude::*;
use vstd::string::*;

use crate::text::{
    concat_map, decimal, lemma_concat_map_step, push_decimal, push_str,
};

verus! {

/// One GPU of a node.
pub struct GpuSummary {
    pub index: u32,
    pub model: String,
    /// Utilization in percent, rounded to a whole number and rendered.
    pub utilization: String,
    pub vram_used_mb: u64,
    pub vram_total_mb: u64,
    /// Temperature in degrees Celsius, rounded and rendered, when reported.
    pub temperature: Option<String>,
    /// The reported temperature is above 90C.
    pub overheated: bool,
    /// VRAM usage in percent, rounded and rendered (meaningful when
    /// `vram_total_mb > 0`).
    pub vram_percent: String,
    /// VRAM usage is above 95% of a non-zero total.
    pub vram_nearly_full: bool,
}

/// One node of the cluster.
pub struct NodeSummary {
    pub id: String,
    pub address: String,
    pub status: String,
    /// CPU utilization in percent, rounded and rendered.
    pub cpu_percent: String,
    /// Memory utilization in percent, rounded and rendered.
    pub memory_percent: String,
    pub gpu_summary: Vec<GpuSummary>,
}

/// One service of the cluster.
pub struct ServiceSummary {
    pub name: String,
    pub runtime: String,
    pub replicas_running: u32,
    pub replicas_desired: u32,
    pub status: String,
    pub uses_gpu: bool,
    pub recent_logs: Vec<String>,
    pub error_count_1h: u64,
    pub restart_count_24h: u32,
}

/// One open alert, as the prompt lists it.
pub struct AlertSummary {
    pub id: String,
    pub service: String,
    pub severity: String,
    pub state: String,
    pub last_message: String,
}

/// Structured context snapshot fed to the model for diagnosis.
pub struct ClusterContext {
    pub cluster_name: String,
    pub nodes: Vec<NodeSummary>,
    pub services: Vec<ServiceSummary>,
    pub recent_events: Vec<String>,
    pub active_alerts: Vec<AlertSummary>,
}

/// The command reference and guidance that every system prompt carries.
pub const PROMPT_GUIDANCE: &'static str = "You have access to real-time cluster state. Diagnose issues, suggest fixes as `orca` CLI commands, and explain your reasoning.\nWhen suggesting fixes, output the exact command. When unsure, say so.\n\n## Available `orca` commands\nUse ONLY these. Do NOT invent subcommands.\n\n- `orca status` — cluster + service overview\n- `orca logs <service> [--tail N] [--summarize]` — tail logs; `--summarize` runs them through the AI\n- `orca redeploy <service>` — force fresh image pull + container recreate (this is the 'restart' verb)\n- `orca rollback <service>` — roll back to the previous successful deploy\n- `orca scale <service> --replicas N` — change replica count\n- `orca stop <service>` — stop a service (omit for all)\n- `orca promote <service>` — promote canary instances to stable\n- `orca exec <service> [cmd]` — interactive shell or one-shot command inside a running container\n- `orca secrets set <KEY> <VALUE>` — set a secret referenced as `${secrets.KEY}` in service.toml env\n- `orca secrets list` / `orca secrets get <KEY>` / `orca secrets remove <KEY>` — read/remove secrets\n- `orca deploy [service…]` — (re)apply service definitions from `services/`\n- `orca alerts list` / `orca alerts view <id>` / `orca alerts reply <id> <msg>` / `orca alerts dismiss|resolve <id>` — alert triage\n- `orca backup` / `orca cleanup` / `orca nodes` — operational utilities\n\n**Not supported (do not suggest):** `orca service <verb>` (the CLI is flat — there is no `service` subcommand). There is also no `set-env` / `update --cmd` / `update --image` / `update --port` — env vars, image tag, command, and ports live in `services/<project>/service.toml` and apply on `orca deploy`. If a fix requires editing a service definition, say so plainly (e.g. 'edit services/<project>/service.toml: change `image = ...`, then `orca deploy`').\n\n";

/// How one GPU is described on its node's line.
pub open spec fn gpu_text(g: GpuSummary) -> Seq<char> {
    " gpu"@ + decimal(g.index as nat) + "="@ + g.model@ + " util="@ + g.utilization@ + "% vram="@
        + decimal(g.vram_used_mb as nat) + "/"@ + decimal(g.vram_total_mb as nat) + "MB temp="@
        + (match g.temperature {
        Some(t) => t@,
        None => "?"@,
    }) + "C"@
}

/// A node's line of the prompt.
pub open spec fn node_text(n: NodeSummary) -> Seq<char> {
    "- "@ + n.id@ + " ("@ + n.address@ + ") status="@ + n.status@ + " cpu="@ + n.cpu_percent@
        + "% mem="@ + n.memory_percent@ + "%"@ + concat_map(n.gpu_summary@, |g: GpuSummary| gpu_text(g))
        + "\n"@
}

/// A log line quoted under its service.
pub open spec fn log_text(l: String) -> Seq<char> {
    "    "@ + l@ + "\n"@
}

/// A service's summary line.
pub open spec fn service_head(s: ServiceSummary) -> Seq<char> {
    "- "@ + s.name@ + " ["@ + s.runtime@ + "] "@ + decimal(s.replicas_running as nat) + "/"@
        + decimal(s.replicas_desired as nat) + " replicas, status="@ + s.status@ + ", errors_1h="@
        + decimal(s.error_count_1h as nat) + ", restarts_24h="@ + decimal(s.restart_count_24h as nat)
        + (if s.uses_gpu { " [GPU]"@ } else { Seq::empty() }) + "\n"@
}

/// A service's lines of the prompt: its summary and up to five log lines.
pub open spec fn service_text(s: ServiceSummary) -> Seq<char> {
    service_head(s) + concat_map(
        s.recent_logs@.take(if s.recent_logs.len() < 5 { s.recent_logs.len() as int } else { 5 }),
        |l: String| log_text(l),
    )
}

/// An open alert's line of the prompt.
pub open spec fn alert_text(a: AlertSummary) -> Seq<char> {
    "- ["@ + a.severity@ + "] "@ + a.service@ + " ("@ + a.state@ + "): "@ + a.id@ + " — "@
        + a.last_message@ + "\n"@
}

/// A recent event's line of the prompt.
pub open spec fn event_text(e: String) -> Seq<char> {
    "- "@ + e@ + "\n"@
}

/// The system prompt for `ctx`: identity and guidance, then the nodes, the
/// services, the open alerts (if any) and up to twenty recent events (if any).
pub open spec fn system_prompt(ctx: ClusterContext) -> Seq<char> {
    "You are Orca AI, the operations assistant for cluster '"@ + ctx.cluster_name@ + "'.\n"@
        + PROMPT_GUIDANCE@ + "## Nodes\n"@ + concat_map(ctx.nodes@, |n: NodeSummary| node_text(n))
        + "\n## Services\n"@ + concat_map(ctx.services@, |s: ServiceSummary| service_text(s))
        + (if ctx.active_alerts.len() == 0 {
        Seq::empty()
    } else {
        "\n## Active Alerts\n"@ + concat_map(ctx.active_alerts@, |a: AlertSummary| alert_text(a))
    }) + (if ctx.recent_events.len() == 0 {
        Seq::empty()
    } else {
        "\n## Recent Events\n"@ + concat_map(
            ctx.recent_events@.take(
                if ctx.recent_events.len() < 20 { ctx.recent_events.len() as int } else { 20 },
            ),
            |e: String| event_text(e),
        )
    })
}

fn push_gpu(out: &mut String, g: &GpuSummary)
    ensures
        final(out)@ == old(out)@ + gpu_text(*g),
{
    push_str(out, " gpu");
    push_decimal(out, g.index as u64);
    push_str(out, "=");
    push_str(out, g.model.as_str());
    push_str(out, " util=");
    push_str(out, g.utilization.as_str());
    push_str(out, "% vram=");
    push_decimal(out, g.vram_used_mb);
    push_str(out, "/");
    push_decimal(out, g.vram_total_mb);
    push_str(out, "MB temp=");
    match &g.temperature {
        Some(t) => push_str(out, t.as_str()),
        None => push_str(out, "?"),
    }
    push_str(out, "C");
    assert(out@ =~= old(out)@ + gpu_text(*g));
}

fn push_node(out: &mut String, n: &NodeSummary)
    ensures
        final(out)@ == old(out)@ + node_text(*n),
{
    push_str(out, "- ");
    push_str(out, n.id.as_str());
    push_str(out, " (");
    push_str(out, n.address.as_str());
    push_str(out, ") status=");
    push_str(out, n.status.as_str());
    push_str(out, " cpu=");
    push_str(out, n.cpu_percent.as_str());
    push_str(out, "% mem=");
    push_str(out, n.memory_percent.as_str());
    push_str(out, "%");
    let ghost head = out@;
    let ghost f = |g: GpuSummary| gpu_text(g);
    let mut i: usize = 0;
    assert(n.gpu_summary@.take(0) =~= Seq::<GpuSummary>::empty());
    while i < n.gpu_summary.len()
        invariant
            i <= n.gpu_summary.len(),
            out@ == head + concat_map(n.gpu_summary@.take(i as int), f),
            f == (|g: GpuSummary| gpu_text(g)),
        decreases n.gpu_summary.len() - i,
    {
        proof {
            lemma_concat_map_step(n.gpu_summary@, i as int, f);
        }
        push_gpu(out, &n.gpu_summary[i]);
        assert(out@ =~= head + concat_map(n.gpu_summary@.take(i + 1), f));
        i = i + 1;
    }
    assert(n.gpu_summary@.take(i as int) =~= n.gpu_summary@);
    push_str(out, "\n");
    assert(out@ =~= old(out)@ + node_text(*n));
}

fn push_service_head(out: &mut String, s: &ServiceSummary)
    ensures
        final(out)@ == old(out)@ + service_head(*s),
{
    push_str(out, "- ");
    push_str(out, s.name.as_str());
    push_str(out, " [");
    push_str(out, s.runtime.as_str());
    push_str(out, "] ");
    push_decimal(out, s.replicas_running as u64);
    push_str(out, "/");
    push_decimal(out, s.replicas_desired as u64);
    push_str(out, " replicas, status=");
    push_str(out, s.status.as_str());
    push_str(out, ", errors_1h=");
    push_decimal(out, s.error_count_1h);
    push_str(out, ", restarts_24h=");
    push_decimal(out, s.restart_count_24h as u64);
    if s.uses_gpu {
        push_str(out, " [GPU]");
    }
    push_str(out, "\n");
    assert(out@ =~= old(out)@ + service_head(*s));
}

fn push_service(out: &mut String, s: &ServiceSummary)
    ensures
        final(out)@ == old(out)@ + service_text(*s),
{
    push_service_head(out, s);
    let ghost head = out@;
    let ghost f = |l: String| log_text(l);
    let k: usize = if s.recent_logs.len() < 5 { s.recent_logs.len() } else { 5 };
    let mut i: usize = 0;
    assert(s.recent_logs@.take(0) =~= Seq::<String>::empty());
    while i < k
        invariant
            k <= s.recent_logs.len(),
            i <= k,
            out@ == head + concat_map(s.recent_logs@.take(i as int), f),
            f == (|l: String| log_text(l)),
        decreases k - i,
    {
        proof {
            lemma_concat_map_step(s.recent_logs@, i as int, f);
        }
        push_str(out, "    ");
        push_str(out, s.recent_logs[i].as_str());
        push_str(out, "\n");
        assert(out@ =~= head + concat_map(s.recent_logs@.take(i + 1), f));
        i = i + 1;
    }
    assert(out@ =~= old(out)@ + service_text(*s));
}

fn push_alert(out: &mut String, a: &AlertSummary)
    ensures
        final(out)@ == old(out)@ + alert_text(*a),
{
    push_str(out, "- [");
    push_str(out, a.severity.as_str());
    push_str(out, "] ");
    push_str(out, a.service.as_str());
    push_str(out, " (");
    push_str(out, a.state.as_str());
    push_str(out, "): ");
    push_str(out, a.id.as_str());
    push_str(out, " — ");
    push_str(out, a.last_message.as_str());
    push_str(out, "\n");
    assert(out@ =~= old(out)@ + alert_text(*a));
}

impl ClusterContext {
    /// Render the context into the system prompt for the model.
    pub fn to_system_prompt(&self) -> (res: String)
        ensures
            res@ == system_prompt(*self),
    {
        let mut out = String::new();
        push_str(&mut out, "You are Orca AI, the operations assistant for cluster '");
        push_str(&mut out, self.cluster_name.as_str());
        push_str(&mut out, "'.\n");
        push_str(&mut out, PROMPT_GUIDANCE);
        push_str(&mut out, "## Nodes\n");
        let ghost p1 = out@;
        let ghost fnode = |n: NodeSummary| node_text(n);
        let mut i: usize = 0;
        assert(self.nodes@.take(0) =~= Seq::<NodeSummary>::empty());
        while i < self.nodes.len()
            invariant
                i <= self.nodes.len(),
                out@ == p1 + concat_map(self.nodes@.take(i as int), fnode),
                fnode == (|n: NodeSummary| node_text(n)),
            decreases self.nodes.len() - i,
        {
            proof {
                lemma_concat_map_step(self.nodes@, i as int, fnode);
            }
            push_node(&mut out, &self.nodes[i]);
            assert(out@ =~= p1 + concat_map(self.nodes@.take(i + 1), fnode));
            i = i + 1;
        }
        assert(self.nodes@.take(i as int) =~= self.nodes@);
        push_str(&mut out, "\n## Services\n");
        let ghost p2 = out@;
        let ghost fsvc = |s: ServiceSummary| service_text(s);
        let mut j: usize = 0;
        assert(self.services@.take(0) =~= Seq::<ServiceSummary>::empty());
        while j < self.services.len()
            invariant
                j <= self.services.len(),
                out@ == p2 + concat_map(self.services@.take(j as int), fsvc),
                fsvc == (|s: ServiceSummary| service_text(s)),
            decreases self.services.len() - j,
        {
            proof {
                lemma_concat_map_step(self.services@, j as int, fsvc);
            }
            push_service(&mut out, &self.services[j]);
            assert(out@ =~= p2 + concat_map(self.services@.take(j + 1), fsvc));
            j = j + 1;
        }
        assert(self.services@.take(j as int) =~= self.services@);
        let ghost p3 = out@;
        if self.active_alerts.len() > 0 {
            push_str(&mut out, "\n## Active Alerts\n");
            let ghost p4 = out@;
            let ghost falert = |a: AlertSummary| alert_text(a);
            let mut k: usize = 0;
            assert(self.active_alerts@.take(0) =~= Seq::<AlertSummary>::empty());
            while k < self.active_alerts.len()
                invariant
                    k <= self.active_alerts.len(),
                    out@ == p4 + concat_map(self.active_alerts@.take(k as int), falert),
                    falert == (|a: AlertSummary| alert_text(a)),
                decreases self.active_alerts.len() - k,
            {
                proof {
                    lemma_concat_map_step(self.active_alerts@, k as int, falert);
                }
                push_alert(&mut out, &self.active_alerts[k]);
                assert(out@ =~= p4 + concat_map(self.active_alerts@.take(k + 1), falert));
                k = k + 1;
            }
            assert(self.active_alerts@.take(k as int) =~= self.active_alerts@);
        }
        let ghost p5 = out@;
        if self.recent_events.len() > 0 {
            push_str(&mut out, "\n## Recent Events\n");
            let ghost p6 = out@;
            let ghost fev = |e: String| event_text(e);
            let n: usize = if self.recent_events.len() < 20 { self.recent_events.len() } else { 20 };
            let mut k: usize = 0;
            assert(self.recent_events@.take(0) =~= Seq::<String>::empty());
            while k < n
                invariant
                    n <= self.recent_events.len(),
                    k <= n,
                    out@ == p6 + concat_map(self.recent_events@.take(k as int), fev),
                    fev == (|e: String| event_text(e)),
                decreases n - k,
            {
                proof {
                    lemma_concat_map_step(self.recent_events@, k as int, fev);
                }
                push_str(&mut out, "- ");
                push_str(&mut out, self.recent_events[k].as_str());
                push_str(&mut out, "\n");
                assert(out@ =~= p6 + concat_map(self.recent_events@.take(k + 1), fev));
                k = k + 1;
            }
        }
        assert(out@ =~= system_prompt(*self));
        out
    }
}

} // verus!
