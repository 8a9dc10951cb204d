//! Deciding which alerts a monitoring cycle opens. Pure: no model call, no
//! delivery. Every rule is evaluated against the snapshot; at most one alert
//! per service is planned, none for a service that already has an open one,
//! and the first matching rule wins.

use vstd::prelude::*;
use vstd::string::*;

use crate::ai::alert::{AlertConversation, AlertSeverity, ConversationView};
use crate::ai::context::{ClusterContext, GpuSummary, NodeSummary, ServiceSummary};
use crate::text::{decimal, join, push_decimal, push_str, views};

verus! {

// ---------------------------------------------------------------------------
// Grace timers
// ---------------------------------------------------------------------------

/// Grace-timer entries: a service name and when it was first seen down.
pub type TimerEntries = Seq<(Seq<char>, u64)>;

/// When `name` was first seen down, per `es` (the latest entry wins).
pub open spec fn lookup(es: TimerEntries, name: Seq<char>) -> Option<u64>
    decreases es.len(),
{
    if es.len() == 0 {
        None
    } else if es.last().0 == name {
        Some(es.last().1)
    } else {
        lookup(es.drop_last(), name)
    }
}

/// `es` without the entries of `name`.
pub open spec fn without(es: TimerEntries, name: Seq<char>) -> TimerEntries
    decreases es.len(),
{
    if es.len() == 0 {
        es
    } else if es.last().0 == name {
        without(es.drop_last(), name)
    } else {
        without(es.drop_last(), name).push(es.last())
    }
}

/// `es` without the entries whose name is not in `live`.
pub open spec fn keep(es: TimerEntries, live: Seq<Seq<char>>) -> TimerEntries
    decreases es.len(),
{
    if es.len() == 0 {
        es
    } else if live.contains(es.last().0) {
        keep(es.drop_last(), live).push(es.last())
    } else {
        keep(es.drop_last(), live)
    }
}

/// Removing a name's entries forgets it and keeps every other name.
pub proof fn lemma_lookup_without(es: TimerEntries, name: Seq<char>, k: Seq<char>)
    ensures
        lookup(without(es, name), k) == if k == name { None } else { lookup(es, k) },
    decreases es.len(),
{
    if es.len() > 0 {
        lemma_lookup_without(es.drop_last(), name, k);
        if es.last().0 != name {
            assert(without(es, name).drop_last() == without(es.drop_last(), name));
        }
    }
}

/// Keeping the live names forgets the others and keeps the live ones.
pub proof fn lemma_lookup_keep(es: TimerEntries, live: Seq<Seq<char>>, k: Seq<char>)
    ensures
        lookup(keep(es, live), k) == if live.contains(k) { lookup(es, k) } else { None },
    decreases es.len(),
{
    if es.len() > 0 {
        lemma_lookup_keep(es.drop_last(), live, k);
        if live.contains(es.last().0) {
            assert(keep(es, live).drop_last() == keep(es.drop_last(), live));
        }
    }
}

/// When each service was first seen down in its current outage. The clock
/// is a monotonic one, in milliseconds.
pub struct DownTimers {
    entries: Vec<(String, u64)>,
}

/// The entries of a timer table as names and times.
pub open spec fn entries_view(v: Seq<(String, u64)>) -> TimerEntries {
    v.map_values(|e: (String, u64)| (e.0@, e.1))
}

impl View for DownTimers {
    type V = Map<Seq<char>, u64>;

    open spec fn view(&self) -> Map<Seq<char>, u64> {
        Map::new(
            |k: Seq<char>| lookup(self.entries(), k) is Some,
            |k: Seq<char>| lookup(self.entries(), k).unwrap(),
        )
    }
}

impl DownTimers {
    /// The entries, oldest first.
    pub closed spec fn entries(&self) -> TimerEntries {
        entries_view(self.entries@)
    }

    /// No service is timed.
    pub fn new() -> (res: DownTimers)
        ensures
            res.entries() == Seq::<(Seq<char>, u64)>::empty(),
            res@ == Map::<Seq<char>, u64>::empty(),
    {
        let res = DownTimers { entries: Vec::new() };
        assert(res.entries() =~= Seq::<(Seq<char>, u64)>::empty());
        assert(res@ =~= Map::<Seq<char>, u64>::empty());
        res
    }

    /// No service is timed.
    pub fn is_empty(&self) -> (res: bool)
        ensures
            res == (self.entries().len() == 0),
    {
        self.entries.len() == 0
    }

    /// When `name` was first seen down, if it is timed.
    pub fn since(&self, name: &String) -> (res: Option<u64>)
        ensures
            res == lookup(self.entries(), name@),
    {
        let ghost es = self.entries();
        let mut found: Option<u64> = None;
        let mut i: usize = 0;
        while i < self.entries.len()
            invariant
                es == entries_view(self.entries@),
                i <= self.entries.len(),
                found == lookup(es.take(i as int), name@),
            decreases self.entries.len() - i,
        {
            assert(es.take(i + 1).drop_last() =~= es.take(i as int));
            if self.entries[i].0 == *name {
                found = Some(self.entries[i].1);
            }
            i = i + 1;
        }
        assert(es.take(i as int) =~= es);
        found
    }

    /// Start timing `name` at `now`, unless it is timed already.
    fn start(&mut self, name: &String, now: u64)
        ensures
            final(self).entries() == if lookup(old(self).entries(), name@) is Some {
                old(self).entries()
            } else {
                old(self).entries().push((name@, now))
            },
    {
        if self.since(name).is_none() {
            self.entries.push((name.clone(), now));
            assert(self.entries() =~= old(self).entries().push((name@, now)));
        }
    }

    /// Stop timing `name`.
    fn forget(&mut self, name: &String)
        ensures
            final(self).entries() == without(old(self).entries(), name@),
    {
        let ghost es = old(self).entries();
        let mut kept: Vec<(String, u64)> = Vec::new();
        let mut i: usize = 0;
        while i < self.entries.len()
            invariant
                es == entries_view(self.entries@),
                i <= self.entries.len(),
                entries_view(kept@) == without(es.take(i as int), name@),
            decreases self.entries.len() - i,
        {
            assert(es.take(i + 1).drop_last() =~= es.take(i as int));
            if self.entries[i].0 != *name {
                let e = (self.entries[i].0.clone(), self.entries[i].1);
                kept.push(e);
                assert(entries_view(kept@) =~= without(es.take(i as int), name@).push(es[i as int]));
            }
            i = i + 1;
        }
        assert(es.take(i as int) =~= es);
        self.entries = kept;
    }

    /// Stop timing every service not named in `live`.
    fn keep_only(&mut self, live: &Vec<String>)
        ensures
            final(self).entries() == keep(old(self).entries(), views(live@)),
    {
        let ghost es = old(self).entries();
        let mut kept: Vec<(String, u64)> = Vec::new();
        let mut i: usize = 0;
        while i < self.entries.len()
            invariant
                es == entries_view(self.entries@),
                i <= self.entries.len(),
                entries_view(kept@) == keep(es.take(i as int), views(live@)),
            decreases self.entries.len() - i,
        {
            assert(es.take(i + 1).drop_last() =~= es.take(i as int));
            if contains_name(live, &self.entries[i].0) {
                let e = (self.entries[i].0.clone(), self.entries[i].1);
                kept.push(e);
                assert(entries_view(kept@) =~= keep(es.take(i as int), views(live@)).push(es[i as int]));
            }
            i = i + 1;
        }
        assert(es.take(i as int) =~= es);
        self.entries = kept;
    }
}

/// Whether `name` is one of `names`.
pub fn contains_name(names: &Vec<String>, name: &String) -> (res: bool)
    ensures
        res == views(names@).contains(name@),
{
    let mut i: usize = 0;
    while i < names.len()
        invariant
            i <= names.len(),
            forall|j: int| 0 <= j < i ==> names@[j]@ != name@,
        decreases names.len() - i,
    {
        if names[i] == *name {
            assert(views(names@)[i as int] == name@);
            return true;
        }
        i = i + 1;
    }
    assert forall|j: int| 0 <= j < views(names@).len() implies views(names@)[j] != name@ by {}
    false
}

// ---------------------------------------------------------------------------
// Rules
// ---------------------------------------------------------------------------

/// One alert to open this cycle.
pub struct AlertRequest {
    pub service: String,
    pub severity: AlertSeverity,
    pub trigger: String,
}

/// An alert request as service name, severity and trigger text.
pub type RequestView = (Seq<char>, AlertSeverity, Seq<char>);

impl View for AlertRequest {
    type V = RequestView;

    open spec fn view(&self) -> RequestView {
        (self.service@, self.severity, self.trigger@)
    }
}

/// The requests as views.
pub open spec fn requests_view(v: Seq<AlertRequest>) -> Seq<RequestView> {
    v.map_values(|r: AlertRequest| r@)
}

/// No replica runs of a service that wants some.
pub open spec fn is_down(s: ServiceSummary) -> bool {
    s.replicas_running == 0 && s.replicas_desired > 0
}

/// How long a service has been down, on a clock that never runs backwards.
pub open spec fn down_for(now: u64, since: u64) -> int {
    if now >= since {
        now - since
    } else {
        0
    }
}

/// The grace timers after observing `s` at `now`: a down service keeps its
/// start time or starts one; any other service loses its timer.
pub open spec fn step_timers(t: TimerEntries, s: ServiceSummary, now: u64) -> TimerEntries {
    if is_down(s) {
        if lookup(t, s.name@) is Some {
            t
        } else {
            t.push((s.name@, now))
        }
    } else {
        without(t, s.name@)
    }
}

/// The grace timers after observing every service of `svcs` in order.
pub open spec fn timers_through(t0: TimerEntries, svcs: Seq<ServiceSummary>, now: u64) -> TimerEntries
    decreases svcs.len(),
{
    if svcs.len() == 0 {
        t0
    } else {
        step_timers(timers_through(t0, svcs.drop_last(), now), svcs.last(), now)
    }
}

/// When `name` was first seen down per `t`, or `now`.
pub open spec fn since_or(t: TimerEntries, name: Seq<char>, now: u64) -> u64 {
    match lookup(t, name) {
        Some(v) => v,
        None => now,
    }
}

/// Trigger text of the service-down rule.
pub open spec fn down_trigger(s: ServiceSummary) -> Seq<char> {
    "Service '"@ + s.name@ + "' has 0/"@ + decimal(s.replicas_desired as nat)
        + " replicas running. Restarts in 24h: "@ + decimal(s.restart_count_24h as nat)
        + ". Recent errors: "@ + decimal(s.error_count_1h as nat)
}

/// Trigger text of the restart-loop rule.
pub open spec fn restart_trigger(s: ServiceSummary) -> Seq<char> {
    "Service '"@ + s.name@ + "' has restarted "@ + decimal(s.restart_count_24h as nat)
        + " times in the last 24 hours. Currently "@ + decimal(s.replicas_running as nat) + "/"@
        + decimal(s.replicas_desired as nat) + " replicas are running."@
}

/// At most five recent log lines of a service, as views.
pub open spec fn first_logs(s: ServiceSummary) -> Seq<Seq<char>> {
    views(s.recent_logs@).take(if s.recent_logs.len() < 5 { s.recent_logs.len() as int } else { 5 })
}

/// Trigger text of the error-rate rule.
pub open spec fn error_trigger(s: ServiceSummary) -> Seq<char> {
    "Service '"@ + s.name@ + "' has "@ + decimal(s.error_count_1h as nat)
        + " errors in the last hour. Recent log lines:\n"@ + join(first_logs(s), "\n"@)
}

/// The service is down past its grace period.
pub open spec fn down_rule(s: ServiceSummary, since: u64, now: u64, grace: u64) -> bool {
    is_down(s) && down_for(now, since) >= grace
}

/// The service keeps restarting while some replica runs.
pub open spec fn restart_rule(s: ServiceSummary) -> bool {
    s.restart_count_24h > 10 && s.replicas_running > 0
}

/// The service logs more than a hundred errors an hour.
pub open spec fn error_rule(s: ServiceSummary) -> bool {
    s.error_count_1h > 100
}

/// The requests the rules raise for one service, in rule order.
pub open spec fn service_requests(s: ServiceSummary, since: u64, now: u64, grace: u64) -> Seq<RequestView> {
    (if down_rule(s, since, now, grace) {
        seq![(s.name@, AlertSeverity::Critical, down_trigger(s))]
    } else {
        Seq::empty()
    }) + (if restart_rule(s) {
        seq![(s.name@, AlertSeverity::Warning, restart_trigger(s))]
    } else {
        Seq::empty()
    }) + (if error_rule(s) {
        seq![(s.name@, AlertSeverity::Warning, error_trigger(s))]
    } else {
        Seq::empty()
    })
}

/// The requests the rules raise for the services of `svcs`, in order.
pub open spec fn service_candidates(
    t0: TimerEntries,
    svcs: Seq<ServiceSummary>,
    now: u64,
    grace: u64,
) -> Seq<RequestView>
    decreases svcs.len(),
{
    if svcs.len() == 0 {
        Seq::empty()
    } else {
        service_candidates(t0, svcs.drop_last(), now, grace) + service_requests(
            svcs.last(),
            since_or(timers_through(t0, svcs, now), svcs.last().name@, now),
            now,
            grace,
        )
    }
}

/// The alert name of a GPU.
pub open spec fn gpu_name(n: NodeSummary, g: GpuSummary) -> Seq<char> {
    "node-"@ + n.id@ + "-gpu-"@ + decimal(g.index as nat)
}

/// Trigger text of the GPU temperature rule.
pub open spec fn gpu_heat_trigger(n: NodeSummary, g: GpuSummary) -> Seq<char> {
    "GPU "@ + decimal(g.index as nat) + " on node "@ + n.id@ + " ("@ + g.model@ + ") temperature is "@
        + (match g.temperature {
        Some(t) => t@,
        None => Seq::empty(),
    }) + "C (>90C threshold). Utilization: "@ + g.utilization@ + "%, VRAM: "@ + decimal(
        g.vram_used_mb as nat,
    ) + "/"@ + decimal(g.vram_total_mb as nat) + "MB"@
}

/// Trigger text of the GPU memory rule.
pub open spec fn gpu_vram_trigger(n: NodeSummary, g: GpuSummary) -> Seq<char> {
    "GPU "@ + decimal(g.index as nat) + " on node "@ + n.id@ + " VRAM is "@ + g.vram_percent@
        + "% full ("@ + decimal(g.vram_used_mb as nat) + "/"@ + decimal(g.vram_total_mb as nat)
        + "MB). Workloads may OOM."@
}

/// The requests the rules raise for one GPU, in rule order.
pub open spec fn gpu_requests(n: NodeSummary, g: GpuSummary) -> Seq<RequestView> {
    (if g.overheated {
        seq![(gpu_name(n, g), AlertSeverity::Warning, gpu_heat_trigger(n, g))]
    } else {
        Seq::empty()
    }) + (if g.vram_total_mb > 0 && g.vram_nearly_full {
        seq![(gpu_name(n, g) + "-vram"@, AlertSeverity::Warning, gpu_vram_trigger(n, g))]
    } else {
        Seq::empty()
    })
}

/// The requests the rules raise for the GPUs `gs` of node `n`.
pub open spec fn node_requests(n: NodeSummary, gs: Seq<GpuSummary>) -> Seq<RequestView>
    decreases gs.len(),
{
    if gs.len() == 0 {
        Seq::empty()
    } else {
        node_requests(n, gs.drop_last()) + gpu_requests(n, gs.last())
    }
}

/// The requests the rules raise for the GPUs of `nodes`.
pub open spec fn nodes_requests(nodes: Seq<NodeSummary>) -> Seq<RequestView>
    decreases nodes.len(),
{
    if nodes.len() == 0 {
        Seq::empty()
    } else {
        nodes_requests(nodes.drop_last()) + node_requests(nodes.last(), nodes.last().gpu_summary@)
    }
}

/// Every request the rules raise for `ctx`, in the order they are considered.
pub open spec fn candidates(ctx: ClusterContext, t0: TimerEntries, now: u64, grace: u64) -> Seq<RequestView> {
    service_candidates(t0, ctx.services@, now, grace) + nodes_requests(ctx.nodes@)
}

/// The services named in `rs`.
pub open spec fn request_services(rs: Seq<RequestView>) -> Seq<Seq<char>> {
    rs.map_values(|r: RequestView| r.0)
}

/// The requests of `cands` that open: the first for each service without an
/// open alert.
pub open spec fn admitted(cands: Seq<RequestView>, active: Seq<Seq<char>>) -> Seq<RequestView>
    decreases cands.len(),
{
    if cands.len() == 0 {
        Seq::empty()
    } else {
        let prev = admitted(cands.drop_last(), active);
        let c = cands.last();
        if active.contains(c.0) || request_services(prev).contains(c.0) {
            prev
        } else {
            prev.push(c)
        }
    }
}

/// The names of the services of `ctx`.
pub open spec fn service_names(svcs: Seq<ServiceSummary>) -> Seq<Seq<char>> {
    svcs.map_values(|s: ServiceSummary| s.name@)
}

/// The grace timers after a cycle over `ctx`: stepped through every service,
/// then cleared of services no longer in the cluster.
pub open spec fn timers_after(ctx: ClusterContext, t0: TimerEntries, now: u64) -> TimerEntries {
    keep(timers_through(t0, ctx.services@, now), service_names(ctx.services@))
}

// ---------------------------------------------------------------------------
// Planning
// ---------------------------------------------------------------------------

fn down_trigger_text(s: &ServiceSummary) -> (res: String)
    ensures
        res@ == down_trigger(*s),
{
    let mut out = String::new();
    push_str(&mut out, "Service '");
    push_str(&mut out, s.name.as_str());
    push_str(&mut out, "' has 0/");
    push_decimal(&mut out, s.replicas_desired as u64);
    push_str(&mut out, " replicas running. Restarts in 24h: ");
    push_decimal(&mut out, s.restart_count_24h as u64);
    push_str(&mut out, ". Recent errors: ");
    push_decimal(&mut out, s.error_count_1h);
    assert(out@ =~= down_trigger(*s));
    out
}

fn restart_trigger_text(s: &ServiceSummary) -> (res: String)
    ensures
        res@ == restart_trigger(*s),
{
    let mut out = String::new();
    push_str(&mut out, "Service '");
    push_str(&mut out, s.name.as_str());
    push_str(&mut out, "' has restarted ");
    push_decimal(&mut out, s.restart_count_24h as u64);
    push_str(&mut out, " times in the last 24 hours. Currently ");
    push_decimal(&mut out, s.replicas_running as u64);
    push_str(&mut out, "/");
    push_decimal(&mut out, s.replicas_desired as u64);
    push_str(&mut out, " replicas are running.");
    assert(out@ =~= restart_trigger(*s));
    out
}

fn error_trigger_text(s: &ServiceSummary) -> (res: String)
    ensures
        res@ == error_trigger(*s),
{
    let mut out = String::new();
    push_str(&mut out, "Service '");
    push_str(&mut out, s.name.as_str());
    push_str(&mut out, "' has ");
    push_decimal(&mut out, s.error_count_1h);
    push_str(&mut out, " errors in the last hour. Recent log lines:\n");
    let logs = crate::text::join_first(&s.recent_logs, 5, "\n");
    push_str(&mut out, logs.as_str());
    assert(out@ =~= error_trigger(*s));
    out
}

fn gpu_name_text(n: &NodeSummary, g: &GpuSummary) -> (res: String)
    ensures
        res@ == gpu_name(*n, *g),
{
    let mut out = String::new();
    push_str(&mut out, "node-");
    push_str(&mut out, n.id.as_str());
    push_str(&mut out, "-gpu-");
    push_decimal(&mut out, g.index as u64);
    assert(out@ =~= gpu_name(*n, *g));
    out
}

fn gpu_heat_text(n: &NodeSummary, g: &GpuSummary) -> (res: String)
    ensures
        res@ == gpu_heat_trigger(*n, *g),
{
    let mut out = String::new();
    push_str(&mut out, "GPU ");
    push_decimal(&mut out, g.index as u64);
    push_str(&mut out, " on node ");
    push_str(&mut out, n.id.as_str());
    push_str(&mut out, " (");
    push_str(&mut out, g.model.as_str());
    push_str(&mut out, ") temperature is ");
    match &g.temperature {
        Some(t) => push_str(&mut out, t.as_str()),
        None => {},
    }
    push_str(&mut out, "C (>90C threshold). Utilization: ");
    push_str(&mut out, g.utilization.as_str());
    push_str(&mut out, "%, VRAM: ");
    push_decimal(&mut out, g.vram_used_mb);
    push_str(&mut out, "/");
    push_decimal(&mut out, g.vram_total_mb);
    push_str(&mut out, "MB");
    assert(out@ =~= gpu_heat_trigger(*n, *g));
    out
}

fn gpu_vram_text(n: &NodeSummary, g: &GpuSummary) -> (res: String)
    ensures
        res@ == gpu_vram_trigger(*n, *g),
{
    let mut out = String::new();
    push_str(&mut out, "GPU ");
    push_decimal(&mut out, g.index as u64);
    push_str(&mut out, " on node ");
    push_str(&mut out, n.id.as_str());
    push_str(&mut out, " VRAM is ");
    push_str(&mut out, g.vram_percent.as_str());
    push_str(&mut out, "% full (");
    push_decimal(&mut out, g.vram_used_mb);
    push_str(&mut out, "/");
    push_decimal(&mut out, g.vram_total_mb);
    push_str(&mut out, "MB). Workloads may OOM.");
    assert(out@ =~= gpu_vram_trigger(*n, *g));
    out
}

/// Whether one of `out` is for `name`.
fn planned_for(out: &Vec<AlertRequest>, name: &String) -> (res: bool)
    ensures
        res == request_services(requests_view(out@)).contains(name@),
{
    let ghost rs = request_services(requests_view(out@));
    let mut i: usize = 0;
    while i < out.len()
        invariant
            rs == request_services(requests_view(out@)),
            i <= out.len(),
            forall|j: int| 0 <= j < i ==> rs[j] != name@,
        decreases out.len() - i,
    {
        if out[i].service == *name {
            assert(rs[i as int] == name@);
            return true;
        }
        i = i + 1;
    }
    false
}

/// Consider `r`: it opens unless its service has an open alert or one
/// planned already.
fn consider(out: &mut Vec<AlertRequest>, active: &Vec<String>, r: AlertRequest, Ghost(cands): Ghost<Seq<RequestView>>)
    requires
        requests_view(old(out)@) == admitted(cands, views(active@)),
    ensures
        requests_view(final(out)@) == admitted(cands.push(r@), views(active@)),
{
    proof {
        assert(cands.push(r@).drop_last() =~= cands);
    }
    if !contains_name(active, &r.service) && !planned_for(out, &r.service) {
        let ghost before = out@;
        out.push(r);
        assert(requests_view(out@) =~= requests_view(before).push(r@));
    }
}

/// The alerts a monitoring cycle opens for `ctx`, and the grace timers it
/// leaves for the next cycle.
///
/// `now` is a monotonic clock reading and `down_grace` the time a service
/// must stay down (no replica running of some wanted) before it pages,
/// both in milliseconds. `active` names the services that already have an
/// open alert.
pub fn plan_alerts(
    ctx: &ClusterContext,
    now: u64,
    down_grace: u64,
    down_since: &mut DownTimers,
    active: &Vec<String>,
) -> (out: Vec<AlertRequest>)
    ensures
        requests_view(out@) == admitted(candidates(*ctx, old(down_since).entries(), now, down_grace), views(active@)),
        final(down_since).entries() == timers_after(*ctx, old(down_since).entries(), now),
{
    let ghost t0 = old(down_since).entries();
    let ghost svcs = ctx.services@;
    let ghost mut cands: Seq<RequestView> = Seq::empty();
    let mut out: Vec<AlertRequest> = Vec::new();
    let mut i: usize = 0;
    assert(svcs.take(0) =~= Seq::<ServiceSummary>::empty());
    assert(requests_view(out@) =~= Seq::<RequestView>::empty());
    while i < ctx.services.len()
        invariant
            svcs == ctx.services@,
            i <= ctx.services.len(),
            down_since.entries() == timers_through(t0, svcs.take(i as int), now),
            cands == service_candidates(t0, svcs.take(i as int), now, down_grace),
            requests_view(out@) == admitted(cands, views(active@)),
        decreases ctx.services.len() - i,
    {
        let s = &ctx.services[i];
        assert(svcs.take(i + 1).drop_last() =~= svcs.take(i as int));
        assert(svcs.take(i + 1).last() == *s);
        let down = s.replicas_running == 0 && s.replicas_desired > 0;
        if down {
            down_since.start(&s.name, now);
        } else {
            down_since.forget(&s.name);
        }
        let since = match down_since.since(&s.name) {
            Some(v) => v,
            None => now,
        };
        let ghost step = service_requests(*s, since, now, down_grace);
        let ghost base = cands;
        let down_for: u64 = if now >= since { now - since } else { 0 };
        if down && down_for >= down_grace {
            let r = AlertRequest {
                service: s.name.clone(),
                severity: AlertSeverity::Critical,
                trigger: down_trigger_text(s),
            };
            consider(&mut out, active, r, Ghost(cands));
            proof {
                cands = cands.push(r@);
            }
        }
        if s.restart_count_24h > 10 && s.replicas_running > 0 {
            let r = AlertRequest {
                service: s.name.clone(),
                severity: AlertSeverity::Warning,
                trigger: restart_trigger_text(s),
            };
            consider(&mut out, active, r, Ghost(cands));
            proof {
                cands = cands.push(r@);
            }
        }
        if s.error_count_1h > 100 {
            let r = AlertRequest {
                service: s.name.clone(),
                severity: AlertSeverity::Warning,
                trigger: error_trigger_text(s),
            };
            consider(&mut out, active, r, Ghost(cands));
            proof {
                cands = cands.push(r@);
            }
        }
        assert(cands =~= base + step);
        i = i + 1;
    }
    assert(svcs.take(i as int) =~= svcs);
    let mut live: Vec<String> = Vec::new();
    let mut j: usize = 0;
    while j < ctx.services.len()
        invariant
            svcs == ctx.services@,
            j <= ctx.services.len(),
            views(live@) == service_names(svcs.take(j as int)),
        decreases ctx.services.len() - j,
    {
        let ghost before = live@;
        let nm = ctx.services[j].name.clone();
        live.push(nm);
        assert(svcs.take(j + 1) =~= svcs.take(j as int).push(svcs[j as int]));
        assert(views(live@) =~= views(before).push(nm@));
        assert(views(live@) =~= service_names(svcs.take(j + 1)));
        j = j + 1;
    }
    assert(svcs.take(j as int) =~= svcs);
    down_since.keep_only(&live);
    let ghost svc_cands = cands;
    let mut k: usize = 0;
    let ghost nodes = ctx.nodes@;
    assert(nodes.take(0) =~= Seq::<NodeSummary>::empty());
    assert(cands =~= svc_cands + nodes_requests(nodes.take(0)));
    while k < ctx.nodes.len()
        invariant
            nodes == ctx.nodes@,
            k <= ctx.nodes.len(),
            cands == svc_cands + nodes_requests(nodes.take(k as int)),
            requests_view(out@) == admitted(cands, views(active@)),
        decreases ctx.nodes.len() - k,
    {
        let n = &ctx.nodes[k];
        assert(nodes.take(k + 1).drop_last() =~= nodes.take(k as int));
        let ghost before_node = cands;
        let mut g: usize = 0;
        let ghost gs = n.gpu_summary@;
        assert(gs.take(0) =~= Seq::<GpuSummary>::empty());
        assert(cands =~= before_node + node_requests(*n, gs.take(0)));
        while g < n.gpu_summary.len()
            invariant
                gs == n.gpu_summary@,
                g <= n.gpu_summary.len(),
                cands == before_node + node_requests(*n, gs.take(g as int)),
                requests_view(out@) == admitted(cands, views(active@)),
            decreases n.gpu_summary.len() - g,
        {
            let gpu = &n.gpu_summary[g];
            assert(gs.take(g + 1).drop_last() =~= gs.take(g as int));
            let ghost base = cands;
            if gpu.overheated {
                let r = AlertRequest {
                    service: gpu_name_text(n, gpu),
                    severity: AlertSeverity::Warning,
                    trigger: gpu_heat_text(n, gpu),
                };
                consider(&mut out, active, r, Ghost(cands));
                proof {
                    cands = cands.push(r@);
                }
            }
            if gpu.vram_total_mb > 0 && gpu.vram_nearly_full {
                let mut name = gpu_name_text(n, gpu);
                push_str(&mut name, "-vram");
                let r = AlertRequest {
                    service: name,
                    severity: AlertSeverity::Warning,
                    trigger: gpu_vram_text(n, gpu),
                };
                consider(&mut out, active, r, Ghost(cands));
                proof {
                    cands = cands.push(r@);
                }
            }
            assert(cands =~= base + gpu_requests(*n, *gpu));
            assert(cands =~= before_node + node_requests(*n, gs.take(g + 1)));
            g = g + 1;
        }
        assert(gs.take(g as int) =~= gs);
        assert(cands =~= svc_cands + nodes_requests(nodes.take(k + 1)));
        k = k + 1;
    }
    assert(nodes.take(k as int) =~= nodes);
    out
}


// ---------------------------------------------------------------------------
// Self-resolution
// ---------------------------------------------------------------------------

/// A service that runs every wanted replica, logged no error in the last
/// hour and restarted fewer than three times in a day.
pub open spec fn healthy(s: ServiceSummary) -> bool {
    s.replicas_running == s.replicas_desired && s.error_count_1h == 0 && s.restart_count_24h < 3
}

/// Some service of `svcs` with the conversation's service name is healthy.
pub open spec fn recovered(c: ConversationView, svcs: Seq<ServiceSummary>) -> bool {
    exists|i: int| 0 <= i < svcs.len() && #[trigger] svcs[i].name@ == c.service && healthy(svcs[i])
}

/// The ids of the conversations of `cs` whose service has recovered, in order.
pub open spec fn recovered_ids(cs: Seq<ConversationView>, svcs: Seq<ServiceSummary>) -> Seq<u128>
    decreases cs.len(),
{
    if cs.len() == 0 {
        Seq::empty()
    } else if recovered(cs.last(), svcs) {
        recovered_ids(cs.drop_last(), svcs).push(cs.last().id)
    } else {
        recovered_ids(cs.drop_last(), svcs)
    }
}

/// Whether some service of `svcs` named `name` is healthy.
fn has_recovered(svcs: &Vec<ServiceSummary>, name: &String) -> (res: bool)
    ensures
        res == exists|i: int| 0 <= i < svcs@.len() && #[trigger] svcs@[i].name@ == name@ && healthy(svcs@[i]),
{
    let mut i: usize = 0;
    while i < svcs.len()
        invariant
            i <= svcs.len(),
            forall|j: int| 0 <= j < i ==> !(svcs@[j].name@ == name@ && healthy(svcs@[j])),
        decreases svcs.len() - i,
    {
        let s = &svcs[i];
        if s.name == *name && s.replicas_running == s.replicas_desired && s.error_count_1h == 0
            && s.restart_count_24h < 3 {
            return true;
        }
        i = i + 1;
    }
    false
}

/// The open conversations that resolved themselves: those whose service is
/// healthy again in `ctx`.
pub fn self_resolved(active: &Vec<&AlertConversation>, ctx: &ClusterContext) -> (res: Vec<u128>)
    ensures
        res@ == recovered_ids(active@.map_values(|c: &AlertConversation| c@), ctx.services@),
{
    let ghost cs = active@.map_values(|c: &AlertConversation| c@);
    let mut res: Vec<u128> = Vec::new();
    let mut i: usize = 0;
    while i < active.len()
        invariant
            cs == active@.map_values(|c: &AlertConversation| c@),
            i <= active.len(),
            res@ == recovered_ids(cs.take(i as int), ctx.services@),
        decreases active.len() - i,
    {
        assert(cs.take(i + 1).drop_last() =~= cs.take(i as int));
        let c = active[i];
        assert(cs[i as int] == c@);
        if has_recovered(&ctx.services, &c.service) {
            res.push(c.id);
        }
        i = i + 1;
    }
    assert(cs.take(i as int) =~= cs);
    res
}

// ---------------------------------------------------------------------------
// Laws
// ---------------------------------------------------------------------------

/// No two services of `svcs` share a name.
pub open spec fn unique_names(svcs: Seq<ServiceSummary>) -> bool {
    forall|i: int, j: int| 0 <= i < j < svcs.len() ==> svcs[i].name@ != svcs[j].name@
}

/// A request of a planned cycle may be Critical only for a service of the
/// snapshot that is down past its grace period, measured from when the
/// timers already had it down (or from now).
pub open spec fn critical_justified(
    svcs: Seq<ServiceSummary>,
    t0: TimerEntries,
    now: u64,
    grace: u64,
    r: RequestView,
) -> bool {
    r.1 == AlertSeverity::Critical ==> exists|i: int|
        0 <= i < svcs.len() && #[trigger] svcs[i].name@ == r.0 && down_rule(
            svcs[i],
            since_or(t0, r.0, now),
            now,
            grace,
        )
}

proof fn lemma_lookup_step(t: TimerEntries, s: ServiceSummary, now: u64, k: Seq<char>)
    ensures
        lookup(step_timers(t, s, now), k) == if k == s.name@ {
            if is_down(s) {
                Some(since_or(t, k, now))
            } else {
                None
            }
        } else {
            lookup(t, k)
        },
{
    lemma_lookup_without(t, s.name@, k);
    if is_down(s) && lookup(t, s.name@) is None {
        assert(t.push((s.name@, now)).drop_last() =~= t);
    }
}

proof fn lemma_lookup_through(t0: TimerEntries, svcs: Seq<ServiceSummary>, now: u64, k: Seq<char>)
    requires
        unique_names(svcs),
    ensures
        (forall|i: int| 0 <= i < svcs.len() ==> svcs[i].name@ != k) ==> lookup(
            timers_through(t0, svcs, now),
            k,
        ) == lookup(t0, k),
        forall|i: int|
            0 <= i < svcs.len() && #[trigger] svcs[i].name@ == k ==> lookup(
                timers_through(t0, svcs, now),
                k,
            ) == if is_down(svcs[i]) {
                Some(since_or(t0, k, now))
            } else {
                None
            },
    decreases svcs.len(),
{
    if svcs.len() > 0 {
        let pre = svcs.drop_last();
        assert forall|i: int, j: int| 0 <= i < j < pre.len() implies pre[i].name@ != pre[j].name@ by {
            assert(pre[i] == svcs[i] && pre[j] == svcs[j]);
        }
        lemma_lookup_through(t0, pre, now, k);
        lemma_lookup_step(timers_through(t0, pre, now), svcs.last(), now, k);
        if svcs.last().name@ == k {
            assert forall|i: int| 0 <= i < pre.len() implies pre[i].name@ != k by {
                assert(pre[i] == svcs[i]);
                assert(svcs[i].name@ != svcs[svcs.len() - 1].name@);
            }
            assert forall|i: int| 0 <= i < svcs.len() && #[trigger] svcs[i].name@ == k implies i == svcs.len() - 1 by {
                if i < svcs.len() - 1 {
                    assert(svcs[i].name@ != svcs[svcs.len() - 1].name@);
                }
            }
        } else {
            assert forall|i: int| 0 <= i < svcs.len() && #[trigger] svcs[i].name@ == k implies i < svcs.len() - 1
                && pre[i] == svcs[i] by {}
        }
    }
}

/// Observing each service of a snapshot whose names are unique leaves
/// exactly the down services timed: each from when the timers already had
/// it down, or from `now` if its outage is new. A service that runs, and a
/// service gone from the snapshot, has no timer.
pub proof fn law_timers_after_cycle(ctx: ClusterContext, t0: TimerEntries, now: u64, k: Seq<char>)
    requires
        unique_names(ctx.services@),
    ensures
        (forall|i: int| 0 <= i < ctx.services@.len() ==> ctx.services@[i].name@ != k) ==> lookup(
            timers_after(ctx, t0, now),
            k,
        ) is None,
        forall|i: int|
            0 <= i < ctx.services@.len() && #[trigger] ctx.services@[i].name@ == k ==> lookup(
                timers_after(ctx, t0, now),
                k,
            ) == if is_down(ctx.services@[i]) {
                Some(since_or(t0, k, now))
            } else {
                None
            },
{
    let svcs = ctx.services@;
    lemma_lookup_through(t0, svcs, now, k);
    lemma_lookup_keep(timers_through(t0, svcs, now), service_names(svcs), k);
    if service_names(svcs).contains(k) {
        let j = choose|j: int| 0 <= j < service_names(svcs).len() && service_names(svcs)[j] == k;
        assert(svcs[j].name@ == k);
    }
    assert forall|i: int| 0 <= i < svcs.len() && #[trigger] svcs[i].name@ == k implies service_names(svcs).contains(k) by {
        assert(service_names(svcs)[i] == k);
    }
}

proof fn lemma_nodes_warning(nodes: Seq<NodeSummary>)
    ensures
        forall|j: int| 0 <= j < nodes_requests(nodes).len() ==> (#[trigger] nodes_requests(nodes)[j]).1 == AlertSeverity::Warning,
    decreases nodes.len(),
{
    if nodes.len() > 0 {
        lemma_nodes_warning(nodes.drop_last());
        lemma_node_warning(nodes.last(), nodes.last().gpu_summary@);
    }
}

proof fn lemma_node_warning(n: NodeSummary, gs: Seq<GpuSummary>)
    ensures
        forall|j: int| 0 <= j < node_requests(n, gs).len() ==> (#[trigger] node_requests(n, gs)[j]).1 == AlertSeverity::Warning,
    decreases gs.len(),
{
    if gs.len() > 0 {
        lemma_node_warning(n, gs.drop_last());
    }
}

proof fn lemma_service_candidates_critical(
    t0: TimerEntries,
    svcs: Seq<ServiceSummary>,
    now: u64,
    grace: u64,
)
    requires
        unique_names(svcs),
    ensures
        forall|j: int|
            0 <= j < service_candidates(t0, svcs, now, grace).len() ==> critical_justified(
                svcs,
                t0,
                now,
                grace,
                #[trigger] service_candidates(t0, svcs, now, grace)[j],
            ),
    decreases svcs.len(),
{
    if svcs.len() > 0 {
        let pre = svcs.drop_last();
        let last = svcs.last();
        let li = svcs.len() - 1;
        assert forall|i: int, j: int| 0 <= i < j < pre.len() implies pre[i].name@ != pre[j].name@ by {
            assert(pre[i] == svcs[i] && pre[j] == svcs[j]);
        }
        lemma_service_candidates_critical(t0, pre, now, grace);
        lemma_lookup_through(t0, svcs, now, last.name@);
        assert(svcs[li].name@ == last.name@);
        let since = since_or(timers_through(t0, svcs, now), last.name@, now);
        let head = service_candidates(t0, pre, now, grace);
        let tail = service_requests(last, since, now, grace);
        assert forall|j: int| 0 <= j < (head + tail).len() implies critical_justified(svcs, t0, now, grace, #[trigger] (head + tail)[j]) by {
            if j < head.len() {
                let r = head[j];
                assert(critical_justified(pre, t0, now, grace, r));
                if r.1 == AlertSeverity::Critical {
                    let i = choose|i: int|
                        0 <= i < pre.len() && #[trigger] pre[i].name@ == r.0 && down_rule(
                            pre[i],
                            since_or(t0, r.0, now),
                            now,
                            grace,
                        );
                    assert(svcs[i] == pre[i]);
                }
            } else {
                let r = tail[j - head.len()];
                assert((head + tail)[j] == r);
                if r.1 == AlertSeverity::Critical {
                    assert(down_rule(last, since, now, grace));
                    assert(r.0 == last.name@);
                    assert(since == since_or(t0, last.name@, now));
                    assert(svcs[li].name@ == r.0);
                }
            }
        }
    }
}

/// Every request of `admitted(cands, active)` is one of `cands`.
proof fn lemma_admitted_from(cands: Seq<RequestView>, active: Seq<Seq<char>>)
    ensures
        forall|j: int| 0 <= j < admitted(cands, active).len() ==> cands.contains(#[trigger] admitted(cands, active)[j]),
    decreases cands.len(),
{
    if cands.len() > 0 {
        let pre = cands.drop_last();
        lemma_admitted_from(pre, active);
        assert forall|j: int| 0 <= j < admitted(cands, active).len() implies cands.contains(#[trigger] admitted(cands, active)[j]) by {
            let prev = admitted(pre, active);
            if j < prev.len() {
                assert(pre.contains(prev[j]));
                let k = choose|k: int| 0 <= k < pre.len() && pre[k] == prev[j];
                assert(cands[k] == pre[k]);
            } else {
                assert(cands[cands.len() - 1] == cands.last());
            }
        }
    }
}

/// A cycle plans at most one alert per service, and none for a service that
/// already has an open alert.
pub proof fn law_one_alert_per_service(cands: Seq<RequestView>, active: Seq<Seq<char>>)
    ensures
        forall|i: int, j: int|
            0 <= i < j < admitted(cands, active).len() ==> (#[trigger] admitted(cands, active)[i]).0
                != (#[trigger] admitted(cands, active)[j]).0,
        forall|j: int| 0 <= j < admitted(cands, active).len() ==> !active.contains(#[trigger] admitted(cands, active)[j].0),
    decreases cands.len(),
{
    if cands.len() > 0 {
        let pre = cands.drop_last();
        law_one_alert_per_service(pre, active);
        let prev = admitted(pre, active);
        let c = cands.last();
        if !(active.contains(c.0) || request_services(prev).contains(c.0)) {
            let cur = prev.push(c);
            assert(admitted(cands, active) == cur);
            assert forall|i: int, j: int| 0 <= i < j < cur.len() implies (#[trigger] cur[i]).0 != (#[trigger] cur[j]).0 by {
                if j == cur.len() - 1 {
                    assert(request_services(prev)[i] == prev[i].0);
                }
            }
        }
    }
}

/// A request that a cycle plans as Critical is for a service of the snapshot
/// (whose names are unique) that is down and has stayed down at least the
/// grace period: a service down only within its grace window is not paged.
pub proof fn law_critical_only_past_grace(
    ctx: ClusterContext,
    t0: TimerEntries,
    now: u64,
    grace: u64,
    active: Seq<Seq<char>>,
)
    requires
        unique_names(ctx.services@),
    ensures
        forall|j: int|
            0 <= j < admitted(candidates(ctx, t0, now, grace), active).len() ==> critical_justified(
                ctx.services@,
                t0,
                now,
                grace,
                #[trigger] admitted(candidates(ctx, t0, now, grace), active)[j],
            ),
{
    let cands = candidates(ctx, t0, now, grace);
    let sc = service_candidates(t0, ctx.services@, now, grace);
    let nr = nodes_requests(ctx.nodes@);
    lemma_service_candidates_critical(t0, ctx.services@, now, grace);
    lemma_nodes_warning(ctx.nodes@);
    lemma_admitted_from(cands, active);
    assert forall|j: int| 0 <= j < admitted(cands, active).len() implies critical_justified(
        ctx.services@, t0, now, grace, #[trigger] admitted(cands, active)[j]) by {
        let r = admitted(cands, active)[j];
        let k = choose|k: int| 0 <= k < cands.len() && cands[k] == r;
        if k < sc.len() {
            assert(cands[k] == sc[k]);
        } else {
            assert(cands[k] == nr[k - sc.len()]);
        }
    }
}

proof fn lemma_error_candidate(t0: TimerEntries, svcs: Seq<ServiceSummary>, now: u64, grace: u64, i: int)
    requires
        0 <= i < svcs.len(),
        svcs[i].error_count_1h > 100,
    ensures
        exists|k: int|
            0 <= k < service_candidates(t0, svcs, now, grace).len() && (#[trigger] service_candidates(
                t0,
                svcs,
                now,
                grace,
            )[k]).0 == svcs[i].name@,
    decreases svcs.len(),
{
    let pre = svcs.drop_last();
    let prev = service_candidates(t0, pre, now, grace);
    let s = svcs.last();
    let here = service_requests(s, since_or(timers_through(t0, svcs, now), s.name@, now), now, grace);
    let all = service_candidates(t0, svcs, now, grace);
    assert(all == prev + here);
    if i == svcs.len() - 1 {
        assert(here.len() > 0);
        assert(here[here.len() - 1].0 == s.name@);
        assert(all[prev.len() + here.len() - 1] == here[here.len() - 1]);
    } else {
        assert(pre[i] == svcs[i]);
        lemma_error_candidate(t0, pre, now, grace, i);
        let k = choose|k: int| 0 <= k < prev.len() && (#[trigger] prev[k]).0 == svcs[i].name@;
        assert(all[k] == prev[k]);
    }
}

proof fn lemma_no_info(t0: TimerEntries, svcs: Seq<ServiceSummary>, now: u64, grace: u64)
    ensures
        forall|k: int|
            0 <= k < service_candidates(t0, svcs, now, grace).len() ==> (#[trigger] service_candidates(
                t0,
                svcs,
                now,
                grace,
            )[k]).1 != AlertSeverity::Info,
    decreases svcs.len(),
{
    if svcs.len() > 0 {
        let pre = svcs.drop_last();
        lemma_no_info(t0, pre, now, grace);
        let prev = service_candidates(t0, pre, now, grace);
        let s = svcs.last();
        let here = service_requests(s, since_or(timers_through(t0, svcs, now), s.name@, now), now, grace);
        let all = service_candidates(t0, svcs, now, grace);
        assert(all == prev + here);
        assert forall|k: int| 0 <= k < all.len() implies (#[trigger] all[k]).1 != AlertSeverity::Info by {
            if k < prev.len() {
                assert(all[k] == prev[k]);
            } else {
                assert(all[k] == here[k - prev.len()]);
            }
        }
    }
}

proof fn lemma_admitted_names(cands: Seq<RequestView>, active: Seq<Seq<char>>, k: int)
    requires
        0 <= k < cands.len(),
        !active.contains(cands[k].0),
    ensures
        exists|j: int| 0 <= j < admitted(cands, active).len() && (#[trigger] admitted(cands, active)[j]).0 == cands[k].0,
    decreases cands.len(),
{
    let pre = cands.drop_last();
    let prev = admitted(pre, active);
    let c = cands.last();
    if k == cands.len() - 1 {
        if request_services(prev).contains(c.0) {
            let j = choose|j: int| 0 <= j < request_services(prev).len() && request_services(prev)[j] == c.0;
            assert(admitted(cands, active)[j] == prev[j]);
        } else {
            assert(admitted(cands, active) == prev.push(c));
            assert(admitted(cands, active)[prev.len() as int] == c);
        }
    } else {
        assert(pre[k] == cands[k]);
        lemma_admitted_names(pre, active, k);
        let j = choose|j: int| 0 <= j < prev.len() && (#[trigger] prev[j]).0 == cands[k].0;
        if active.contains(c.0) || request_services(prev).contains(c.0) {
            assert(admitted(cands, active)[j] == prev[j]);
        } else {
            assert(admitted(cands, active)[j] == prev.push(c)[j]);
        }
    }
}

/// Whatever its replica counts, a service that logged more than a hundred
/// errors in the last hour and has no open alert is alerted this cycle:
/// some planned request names it. If service names are unique and it is
/// not down, every planned request naming it is a Warning.
pub proof fn law_error_rate_alerts(
    ctx: ClusterContext,
    t0: TimerEntries,
    now: u64,
    grace: u64,
    active: Seq<Seq<char>>,
    i: int,
)
    requires
        0 <= i < ctx.services@.len(),
        ctx.services@[i].error_count_1h > 100,
        !active.contains(ctx.services@[i].name@),
    ensures
        exists|j: int|
            0 <= j < admitted(candidates(ctx, t0, now, grace), active).len() && (#[trigger] admitted(
                candidates(ctx, t0, now, grace),
                active,
            )[j]).0 == ctx.services@[i].name@,
        unique_names(ctx.services@) && !(ctx.services@[i].replicas_running == 0 && ctx.services@[i].replicas_desired > 0)
            ==> forall|j: int|
            0 <= j < admitted(candidates(ctx, t0, now, grace), active).len() && (#[trigger] admitted(
                candidates(ctx, t0, now, grace),
                active,
            )[j]).0 == ctx.services@[i].name@ ==> admitted(candidates(ctx, t0, now, grace), active)[j].1
                == AlertSeverity::Warning,
{
    let svcs = ctx.services@;
    let cands = candidates(ctx, t0, now, grace);
    let sc = service_candidates(t0, svcs, now, grace);
    lemma_error_candidate(t0, svcs, now, grace, i);
    let k = choose|k: int| 0 <= k < sc.len() && (#[trigger] sc[k]).0 == svcs[i].name@;
    assert(cands[k] == sc[k]);
    lemma_admitted_names(cands, active, k);
    if unique_names(svcs) && !(svcs[i].replicas_running == 0 && svcs[i].replicas_desired > 0) {
        law_critical_only_past_grace(ctx, t0, now, grace, active);
        lemma_no_info(t0, svcs, now, grace);
        lemma_nodes_warning(ctx.nodes@);
        lemma_admitted_from(cands, active);
        let nr = nodes_requests(ctx.nodes@);
        let adm = admitted(cands, active);
        assert forall|j: int| 0 <= j < adm.len() && (#[trigger] adm[j]).0 == svcs[i].name@ implies adm[j].1
            == AlertSeverity::Warning by {
            assert(critical_justified(svcs, t0, now, grace, adm[j]));
            assert(cands.contains(adm[j]));
            let q = choose|q: int| 0 <= q < cands.len() && cands[q] == adm[j];
            if q < sc.len() {
                assert(cands[q] == sc[q]);
            } else {
                assert(cands[q] == nr[q - sc.len()]);
            }
            if adm[j].1 == AlertSeverity::Critical {
                let m = choose|m: int|
                    0 <= m < svcs.len() && #[trigger] svcs[m].name@ == adm[j].0 && down_rule(
                        svcs[m],
                        since_or(t0, adm[j].0, now),
                        now,
                        grace,
                    );
                if m != i {
                    if m < i {
                        assert(svcs[m].name@ != svcs[i].name@);
                    } else {
                        assert(svcs[i].name@ != svcs[m].name@);
                    }
                }
            }
        }
    }
}

/// The snapshot has an entry for the service of a conversation of `cs`
/// with id `id` that runs every wanted replica, logged no error in the last
/// hour and restarted fewer than three times in a day.
pub open spec fn exists_recovered_entry(cs: Seq<ConversationView>, svcs: Seq<ServiceSummary>, id: u128) -> bool {
    exists|a: int, b: int|
        #![trigger cs[a], svcs[b]]
        0 <= a < cs.len() && 0 <= b < svcs.len() && cs[a].id == id && svcs[b].name@ == cs[a].service
            && svcs[b].replicas_running == svcs[b].replicas_desired && svcs[b].error_count_1h == 0
            && svcs[b].restart_count_24h < 3
}

/// A conversation is resolved by recovery only if its service has an
/// entry in the snapshot that runs every wanted replica, logged no error
/// in the last hour and restarted fewer than three times in a day; and
/// every conversation whose service has such an entry is resolved.
pub proof fn law_only_recovered_services_resolve(cs: Seq<ConversationView>, svcs: Seq<ServiceSummary>)
    ensures
        forall|k: int|
            0 <= k < recovered_ids(cs, svcs).len() ==> #[trigger] exists_recovered_entry(cs, svcs, recovered_ids(cs, svcs)[k]),
        forall|a: int, b: int|
            0 <= a < cs.len() && 0 <= b < svcs.len() && #[trigger] svcs[b].name@ == #[trigger] cs[a].service
                && svcs[b].replicas_running == svcs[b].replicas_desired && svcs[b].error_count_1h == 0
                && svcs[b].restart_count_24h < 3 ==> recovered_ids(cs, svcs).contains(cs[a].id),
    decreases cs.len(),
{
    if cs.len() > 0 {
        let pre = cs.drop_last();
        law_only_recovered_services_resolve(pre, svcs);
        let prev = recovered_ids(pre, svcs);
        let ids = recovered_ids(cs, svcs);
        assert forall|k: int| 0 <= k < ids.len() implies #[trigger] exists_recovered_entry(cs, svcs, ids[k]) by {
            if k < prev.len() {
                assert(ids[k] == prev[k]);
                assert(exists_recovered_entry(pre, svcs, prev[k]));
                let (a, b) = choose|a: int, b: int|
                    #![trigger pre[a], svcs[b]]
                    0 <= a < pre.len() && 0 <= b < svcs.len() && pre[a].id == prev[k] && svcs[b].name@
                        == pre[a].service && svcs[b].replicas_running == svcs[b].replicas_desired
                        && svcs[b].error_count_1h == 0 && svcs[b].restart_count_24h < 3;
                assert(cs[a] == pre[a]);
                assert(cs[a].id == ids[k] && svcs[b].name@ == cs[a].service);
            } else {
                let a = cs.len() - 1;
                let b = choose|b: int| 0 <= b < svcs.len() && #[trigger] svcs[b].name@ == cs.last().service && healthy(svcs[b]);
                assert(ids[k] == cs[a].id);
                assert(cs[a] == cs.last());
                assert(svcs[b].name@ == cs[a].service);
            }
        }
        assert forall|a: int, b: int|
            0 <= a < cs.len() && 0 <= b < svcs.len() && #[trigger] svcs[b].name@ == #[trigger] cs[a].service
                && svcs[b].replicas_running == svcs[b].replicas_desired && svcs[b].error_count_1h == 0
                && svcs[b].restart_count_24h < 3 implies ids.contains(cs[a].id) by {
            assert(healthy(svcs[b]));
            if a < cs.len() - 1 {
                assert(pre[a] == cs[a]);
                assert(svcs[b].name@ == pre[a].service);
                assert(prev.contains(pre[a].id));
                let j = choose|j: int| 0 <= j < prev.len() && prev[j] == pre[a].id;
                if recovered(cs.last(), svcs) {
                    assert(ids[j] == prev[j]);
                } else {
                    assert(ids == prev);
                }
            } else {
                assert(recovered(cs.last(), svcs));
                assert(ids[ids.len() - 1] == cs[a].id);
            }
        }
    }
}

} // verus!
