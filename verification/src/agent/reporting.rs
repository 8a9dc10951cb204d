//! What the agent reports of its workloads: each one's observed state, and
//! for one that is not running, why (exit code, restarts, the end of its
//! log, kept small).

use vstd::prelude::*;

use crate::agent::docker_state::WorkloadStatus;
use crate::text::{chars_of, owned, push_str, string_of, trim, trimmed};

verus! {

/// The bytes UTF-8 takes for `c`.
pub open spec fn utf8_width(c: char) -> nat {
    if (c as u32) < 0x80 {
        1
    } else if (c as u32) < 0x800 {
        2
    } else if (c as u32) < 0x10000 {
        3
    } else {
        4
    }
}

/// The bytes UTF-8 takes for `s`.
pub open spec fn utf8_len(s: Seq<char>) -> nat
    decreases s.len(),
{
    if s.len() == 0 {
        0
    } else {
        utf8_len(s.drop_last()) + utf8_width(s.last())
    }
}

/// The longest run of whole characters at the end of `s` that fits in
/// `limit` bytes.
pub open spec fn tail_within(s: Seq<char>, limit: nat) -> Seq<char>
    decreases s.len(),
{
    if s.len() == 0 || utf8_width(s.last()) > limit {
        Seq::empty()
    } else {
        tail_within(s.drop_last(), (limit - utf8_width(s.last())) as nat).push(s.last())
    }
}

/// `text` whole if it fits in `limit` bytes, otherwise `…` followed by the
/// longest run of whole characters at its end that does.
pub open spec fn bounded_tail_spec(text: Seq<char>, limit: nat) -> Seq<char> {
    if utf8_len(text) <= limit {
        text
    } else {
        "…"@ + tail_within(text, limit)
    }
}

/// The bytes UTF-8 takes for `c`.
fn char_width(c: char) -> (res: usize)
    ensures
        res == utf8_width(c),
{
    let v = c as u32;
    if v < 0x80 {
        1
    } else if v < 0x800 {
        2
    } else if v < 0x10000 {
        3
    } else {
        4
    }
}

proof fn lemma_tail_within_suffix(s: Seq<char>, limit: nat)
    ensures
        tail_within(s, limit).len() <= s.len(),
        tail_within(s, limit) == s.skip(s.len() - tail_within(s, limit).len()),
        utf8_len(tail_within(s, limit)) <= limit,
    decreases s.len(),
{
    if s.len() > 0 && utf8_width(s.last()) <= limit {
        let rest = (limit - utf8_width(s.last())) as nat;
        lemma_tail_within_suffix(s.drop_last(), rest);
        let t = tail_within(s.drop_last(), rest);
        assert(t.push(s.last()).drop_last() =~= t);
        assert(t.push(s.last()) =~= s.skip(s.len() - t.len() - 1));
    } else {
        assert(s.skip(s.len() as int) =~= Seq::<char>::empty());
    }
}

pub proof fn lemma_utf8_len_prefix(s: Seq<char>, k: int)
    requires
        0 <= k <= s.len(),
    ensures
        utf8_len(s.take(k)) <= utf8_len(s),
    decreases s.len() - k,
{
    if k < s.len() {
        lemma_utf8_len_prefix(s, k + 1);
        assert(s.take(k + 1).drop_last() =~= s.take(k));
    } else {
        assert(s.take(k) =~= s);
    }
}

/// Whether `text` takes at most `limit` bytes in UTF-8.
pub fn fits_bytes(text: &str, limit: usize) -> (res: bool)
    ensures
        res == (utf8_len(text@) <= limit),
{
    let cs = chars_of(text);
    let mut i: usize = 0;
    let mut used: usize = 0;
    while i < cs.len()
        invariant
            cs@ == text@,
            i <= cs.len(),
            used <= limit,
            used as nat == utf8_len(cs@.take(i as int)),
        decreases cs.len() - i,
    {
        let w = char_width(cs[i]);
        proof {
            assert(cs@.take(i + 1).drop_last() =~= cs@.take(i as int));
            assert(cs@.take(i + 1).last() == cs@[i as int]);
        }
        if w > limit - used {
            proof {
                lemma_utf8_len_prefix(cs@, i + 1);
            }
            return false;
        }
        used = used + w;
        i = i + 1;
    }
    assert(cs@.take(i as int) =~= text@);
    true
}

/// `text` whole if it fits in `limit` bytes, otherwise `…` and the end of
/// it that does, cut on a character boundary: no content can make the cut
/// fall inside a character.
pub fn bounded_tail(text: &str, limit: usize) -> (res: String)
    ensures
        res@ == bounded_tail_spec(text@, limit as nat),
{
    let cs = chars_of(text);
    // Does the whole text fit?
    let mut i: usize = 0;
    let mut used: usize = 0;
    let mut over = false;
    while i < cs.len() && !over
        invariant
            cs@ == text@,
            i <= cs.len(),
            used <= limit,
            used as nat == utf8_len(cs@.take(i as int)),
            over ==> utf8_len(text@) > limit,
        decreases cs.len() - i + (if over { 0int } else { 1int }),
    {
        let w = char_width(cs[i]);
        proof {
            assert(cs@.take(i + 1).drop_last() =~= cs@.take(i as int));
            assert(cs@.take(i + 1).last() == cs@[i as int]);
        }
        if w > limit - used {
            over = true;
            proof {
                lemma_utf8_len_prefix(cs@, i + 1);
            }
        } else {
            used = used + w;
            i = i + 1;
        }
    }
    if !over {
        assert(cs@.take(i as int) =~= text@);
        return owned(text);
    }
    // Walk back from the end, keeping whole characters while they fit.
    let mut start: usize = cs.len();
    let mut kept: usize = 0;
    assert(cs@.take(start as int) =~= text@);
    assert(cs@.skip(start as int) =~= Seq::<char>::empty());
    assert(tail_within(text@, limit as nat) + Seq::<char>::empty() =~= tail_within(text@, limit as nat));
    while start > 0 && char_width(cs[start - 1]) <= limit - kept
        invariant
            cs@ == text@,
            start <= cs.len(),
            kept <= limit,
            tail_within(text@, limit as nat) == tail_within(cs@.take(start as int), (limit - kept) as nat)
                + cs@.skip(start as int),
        decreases start,
    {
        let w = char_width(cs[start - 1]);
        proof {
            let pre = cs@.take(start as int);
            assert(pre.drop_last() =~= cs@.take(start - 1));
            assert(pre.last() == cs@[start - 1]);
            assert(tail_within(pre, (limit - kept) as nat) == tail_within(cs@.take(start - 1), (limit - kept - w) as nat).push(
                cs@[start - 1],
            ));
            assert(tail_within(cs@.take(start - 1), (limit - kept - w) as nat).push(cs@[start - 1]) + cs@.skip(start as int)
                =~= tail_within(cs@.take(start - 1), (limit - kept - w) as nat) + cs@.skip(start - 1));
        }
        kept = kept + w;
        start = start - 1;
    }
    proof {
        let pre = cs@.take(start as int);
        if start > 0 {
            assert(pre.last() == cs@[start - 1]);
        }
        assert(tail_within(pre, (limit - kept) as nat) =~= Seq::<char>::empty());
        assert(Seq::<char>::empty() + cs@.skip(start as int) =~= cs@.skip(start as int));
    }
    let mut out = owned("…");
    let body = string_of(&cs, start, cs.len());
    push_str(&mut out, body.as_str());
    assert(body@ =~= cs@.skip(start as int));
    out
}

/// No text can make the tail unsafe: a text that fits is kept whole;
/// otherwise the tail is `…` and a suffix of the text within the limit.
pub proof fn law_bounded_tail_is_a_safe_suffix(text: Seq<char>, limit: nat)
    ensures
        utf8_len(text) <= limit ==> bounded_tail_spec(text, limit) == text,
        utf8_len(text) > limit ==> exists|body: Seq<char>|
            #![trigger utf8_len(body)]
            bounded_tail_spec(text, limit) == "…"@ + body && utf8_len(body) <= limit && body.len() <= text.len()
                && body == text.skip(text.len() - body.len()),
{
    if utf8_len(text) > limit {
        lemma_tail_within_suffix(text, limit);
        let body = tail_within(text, limit);
        assert(utf8_len(body) <= limit);
    }
}

/// Max bytes of log tail a heartbeat carries for a crashed container.
pub const LOG_TAIL_LIMIT: usize = 4096;

/// The end of a crashed container's log as a heartbeat carries it: the log
/// trimmed, none if that is empty, kept to the last 4096 bytes.
pub open spec fn log_tail_spec(text: Seq<char>) -> Option<Seq<char>> {
    if trim(text).len() == 0 {
        None
    } else {
        Some(bounded_tail_spec(trim(text), LOG_TAIL_LIMIT as nat))
    }
}

/// The end of a crashed container's log as a heartbeat carries it.
pub fn log_tail(text: &str) -> (res: Option<String>)
    ensures
        match log_tail_spec(text@) {
            Some(t) => res matches Some(r) && r@ == t,
            None => res is None,
        },
{
    let t = trimmed(text);
    if t.as_str().is_empty() {
        None
    } else {
        Some(bounded_tail(t.as_str(), LOG_TAIL_LIMIT))
    }
}

/// The status a report gives for an observed status.
pub open spec fn report_status_spec(s: WorkloadStatus) -> Seq<char> {
    match s {
        WorkloadStatus::Running => "running"@,
        WorkloadStatus::Stopped | WorkloadStatus::Completed => "stopped"@,
        WorkloadStatus::Failed => "failed"@,
        WorkloadStatus::Pending | WorkloadStatus::Creating => "pending"@,
        WorkloadStatus::Stopping => "stopping"@,
    }
}

/// The status a report gives for an observed status.
pub fn report_status(s: WorkloadStatus) -> (res: &'static str)
    ensures
        res@ == report_status_spec(s),
{
    match s {
        WorkloadStatus::Running => "running",
        WorkloadStatus::Stopped | WorkloadStatus::Completed => "stopped",
        WorkloadStatus::Failed => "failed",
        WorkloadStatus::Pending | WorkloadStatus::Creating => "pending",
        WorkloadStatus::Stopping => "stopping",
    }
}

/// The workloads this agent runs, by runtime id: the service each belongs
/// to and its last known status.
pub struct WorkloadCache {
    entries: Vec<(String, String, WorkloadStatus)>,
}

/// Cache entries as plain values.
pub open spec fn cache_view(v: Seq<(String, String, WorkloadStatus)>) -> Seq<(Seq<char>, Seq<char>, WorkloadStatus)> {
    v.map_values(|e: (String, String, WorkloadStatus)| (e.0@, e.1@, e.2))
}

/// The entry for runtime id `id`.
pub open spec fn cache_find(es: Seq<(Seq<char>, Seq<char>, WorkloadStatus)>, id: Seq<char>) -> Option<int>
    decreases es.len(),
{
    if es.len() == 0 {
        None
    } else if es.last().0 == id {
        Some(es.len() - 1)
    } else {
        cache_find(es.drop_last(), id)
    }
}

proof fn lemma_cache_find(es: Seq<(Seq<char>, Seq<char>, WorkloadStatus)>, id: Seq<char>)
    ensures
        cache_find(es, id) matches Some(k) ==> 0 <= k < es.len() && es[k].0 == id,
        cache_find(es, id) is None ==> forall|j: int| 0 <= j < es.len() ==> (#[trigger] es[j]).0 != id,
    decreases es.len(),
{
    if es.len() > 0 {
        lemma_cache_find(es.drop_last(), id);
        if es.last().0 != id {
            assert forall|j: int| 0 <= j < es.len() && (#[trigger] es[j]).0 == id implies cache_find(es, id) is Some by {
                if j < es.len() - 1 {
                    assert(es.drop_last()[j] == es[j]);
                }
            }
        }
    }
}

/// Cache entries as a map from runtime id to service and status.
pub open spec fn cache_map(es: Seq<(Seq<char>, Seq<char>, WorkloadStatus)>) -> Map<Seq<char>, (Seq<char>, WorkloadStatus)> {
    Map::new(
        |id: Seq<char>| cache_find(es, id) is Some,
        |id: Seq<char>| (es[cache_find(es, id).unwrap()].1, es[cache_find(es, id).unwrap()].2),
    )
}

/// No runtime id occurs twice.
pub open spec fn ids_distinct(es: Seq<(Seq<char>, Seq<char>, WorkloadStatus)>) -> bool {
    forall|i: int, j: int| 0 <= i < j < es.len() ==> (#[trigger] es[i]).0 != (#[trigger] es[j]).0
}

proof fn lemma_map_update(es: Seq<(Seq<char>, Seq<char>, WorkloadStatus)>, i: int, e: (Seq<char>, Seq<char>, WorkloadStatus))
    requires
        ids_distinct(es),
        0 <= i < es.len(),
        es[i].0 == e.0,
    ensures
        ids_distinct(es.update(i, e)),
        cache_map(es.update(i, e)) == cache_map(es).insert(e.0, (e.1, e.2)),
{
    let u = es.update(i, e);
    assert forall|a: int, b: int| 0 <= a < b < u.len() implies (#[trigger] u[a]).0 != (#[trigger] u[b]).0 by {
        assert(es[a].0 != es[b].0);
    }
    assert forall|k: Seq<char>| #[trigger] cache_find(u, k) == cache_find(es, k) by {
        lemma_cache_find_update(es, i, e, k);
    }
    lemma_cache_find(es, e.0);
    let j = cache_find(es, e.0).unwrap();
    if j != i {
        if j < i {
            assert(es[j].0 != es[i].0);
        } else {
            assert(es[i].0 != es[j].0);
        }
    }
    assert forall|k: Seq<char>| cache_map(u).contains_key(k) implies cache_map(u)[k] == cache_map(es).insert(e.0, (e.1, e.2))[k] by {
        lemma_cache_find(es, k);
    }
    assert(cache_map(u) =~= cache_map(es).insert(e.0, (e.1, e.2)));
}

proof fn lemma_map_push(es: Seq<(Seq<char>, Seq<char>, WorkloadStatus)>, e: (Seq<char>, Seq<char>, WorkloadStatus))
    requires
        ids_distinct(es),
        cache_find(es, e.0) is None,
    ensures
        ids_distinct(es.push(e)),
        cache_map(es.push(e)) == cache_map(es).insert(e.0, (e.1, e.2)),
{
    let u = es.push(e);
    lemma_cache_find(es, e.0);
    assert(u.drop_last() =~= es);
    assert forall|a: int, b: int| 0 <= a < b < u.len() implies (#[trigger] u[a]).0 != (#[trigger] u[b]).0 by {
        if b < es.len() {
            assert(es[a].0 != es[b].0);
        } else {
            assert(u[a] == es[a]);
        }
    }
    assert forall|k: Seq<char>| cache_map(u).contains_key(k) implies cache_map(u)[k] == cache_map(es).insert(e.0, (e.1, e.2))[k] by {
        lemma_cache_find(es, k);
    }
    assert(cache_map(u) =~= cache_map(es).insert(e.0, (e.1, e.2)));
}

/// Observations as runtime ids and statuses.
pub open spec fn observed_view(v: Seq<(String, WorkloadStatus)>) -> Seq<(Seq<char>, WorkloadStatus)> {
    v.map_values(|o: (String, WorkloadStatus)| (o.0@, o.1))
}

/// The cache after taking the observations in order: an observed id that
/// is recorded gets the observed status; others are left as they were.
pub open spec fn converged(
    m: Map<Seq<char>, (Seq<char>, WorkloadStatus)>,
    obs: Seq<(Seq<char>, WorkloadStatus)>,
) -> Map<Seq<char>, (Seq<char>, WorkloadStatus)>
    decreases obs.len(),
{
    if obs.len() == 0 {
        m
    } else {
        let prev = converged(m, obs.drop_last());
        let (id, st) = obs.last();
        if prev.contains_key(id) {
            prev.insert(id, (prev[id].0, st))
        } else {
            prev
        }
    }
}

/// What the cache reports is what was observed, not what was recorded at
/// deploy time: converging records no new workload and forgets none, keeps
/// each one's service, gives an observed workload the status it was last
/// observed in, and leaves an unobserved one as it was.
pub proof fn law_converge_reports_what_was_observed(
    m: Map<Seq<char>, (Seq<char>, WorkloadStatus)>,
    obs: Seq<(Seq<char>, WorkloadStatus)>,
    id: Seq<char>,
)
    ensures
        converged(m, obs).dom() == m.dom(),
        m.contains_key(id) ==> converged(m, obs)[id].0 == m[id].0,
        m.contains_key(id) && (forall|j: int| 0 <= j < obs.len() ==> (#[trigger] obs[j]).0 != id) ==> converged(m, obs)[id]
            == m[id],
        m.contains_key(id) && obs.len() > 0 && obs.last().0 == id ==> converged(m, obs)[id].1 == obs.last().1,
    decreases obs.len(),
{
    if obs.len() > 0 {
        law_converge_reports_what_was_observed(m, obs.drop_last(), id);
        let prev = converged(m, obs.drop_last());
        assert(converged(m, obs).dom() =~= m.dom());
        if m.contains_key(id) && (forall|j: int| 0 <= j < obs.len() ==> (#[trigger] obs[j]).0 != id) {
            assert forall|j: int| 0 <= j < obs.drop_last().len() implies (#[trigger] obs.drop_last()[j]).0 != id by {
                assert(obs.drop_last()[j] == obs[j]);
            }
            assert(obs[obs.len() - 1].0 != id);
        }
    }
}

impl View for WorkloadCache {
    type V = Map<Seq<char>, (Seq<char>, WorkloadStatus)>;

    closed spec fn view(&self) -> Map<Seq<char>, (Seq<char>, WorkloadStatus)> {
        cache_map(cache_view(self.entries@))
    }
}

impl WorkloadCache {
    /// No runtime id is recorded twice.
    pub closed spec fn wf(&self) -> bool {
        ids_distinct(cache_view(self.entries@))
    }

    /// No workloads.
    pub fn new() -> (res: WorkloadCache)
        ensures
            res.wf(),
            res@ == Map::<Seq<char>, (Seq<char>, WorkloadStatus)>::empty(),
    {
        let res = WorkloadCache { entries: Vec::new() };
        assert(res@ =~= Map::<Seq<char>, (Seq<char>, WorkloadStatus)>::empty());
        res
    }

    fn position(&self, id: &str) -> (res: Option<usize>)
        ensures
            match res {
                Some(i) => cache_find(cache_view(self.entries@), id@) == Some(i as int),
                None => cache_find(cache_view(self.entries@), id@) is None,
            },
    {
        let ghost es = cache_view(self.entries@);
        let mut i: usize = self.entries.len();
        assert(es.take(i as int) =~= es);
        while i > 0
            invariant
                es == cache_view(self.entries@),
                i <= self.entries.len(),
                cache_find(es, id@) == cache_find(es.take(i as int), id@),
            decreases i,
        {
            assert(es.take(i as int).drop_last() =~= es.take(i - 1));
            assert(es.take(i as int).last() == es[i - 1]);
            if crate::text::same_text(self.entries[i - 1].0.as_str(), id) {
                return Some(i - 1);
            }
            i = i - 1;
        }
        None
    }

    /// Record workload `id` of `service` with `status`, replacing what was
    /// known of it.
    pub fn update_workload_status(&mut self, id: &str, service: &str, status: WorkloadStatus)
        requires
            old(self).wf(),
        ensures
            final(self).wf(),
            final(self)@ == old(self)@.insert(id@, (service@, status)),
    {
        let ghost es = cache_view(self.entries@);
        let e = (owned(id), owned(service), status);
        let ghost ev = (id@, service@, status);
        match self.position(id) {
            Some(i) => {
                proof {
                    lemma_cache_find(es, id@);
                    lemma_map_update(es, i as int, ev);
                }
                self.entries.set(i, e);
                assert(cache_view(self.entries@) =~= es.update(i as int, ev));
            },
            None => {
                proof {
                    lemma_map_push(es, ev);
                }
                self.entries.push(e);
                assert(cache_view(self.entries@) =~= es.push(ev));
            },
        }
    }

    /// Every workload as runtime id and service, in the order recorded.
    pub fn snapshot(&self) -> (res: Vec<(String, String)>)
        requires
            self.wf(),
        ensures
            forall|id: Seq<char>| #[trigger] self@.contains_key(id) ==> exists|i: int| 0 <= i < res@.len() && res@[i].0@ == id,
            forall|i: int|
                0 <= i < res@.len() ==> self@.contains_key(#[trigger] res@[i].0@) && self@[res@[i].0@].0
                    == res@[i].1@,
            forall|i: int, j: int| 0 <= i < j < res@.len() ==> (#[trigger] res@[i]).0@ != (#[trigger] res@[j]).0@,
    {
        let ghost es = cache_view(self.entries@);
        let mut res: Vec<(String, String)> = Vec::new();
        let mut i: usize = 0;
        while i < self.entries.len()
            invariant
                es == cache_view(self.entries@),
                i <= self.entries.len(),
                res@.len() == i,
                forall|j: int| 0 <= j < i ==> (#[trigger] res@[j]).0@ == es[j].0 && res@[j].1@ == es[j].1,
            decreases self.entries.len() - i,
        {
            res.push((owned(self.entries[i].0.as_str()), owned(self.entries[i].1.as_str())));
            i = i + 1;
        }
        proof {
            assert forall|i: int| 0 <= i < res@.len() implies self@.contains_key(#[trigger] res@[i].0@)
                && self@[res@[i].0@].0 == res@[i].1@ by {
                lemma_cache_find(es, es[i].0);
                let k = cache_find(es, es[i].0).unwrap();
                if k != i {
                    if k < i {
                        assert(es[k].0 != es[i].0);
                    } else {
                        assert(es[i].0 != es[k].0);
                    }
                }
            }
            assert forall|id: Seq<char>| #[trigger] self@.contains_key(id) implies exists|i: int| 0 <= i < res@.len() && res@[i].0@ == id by {
                lemma_cache_find(es, id);
                let k = cache_find(es, id).unwrap();
                assert(res@[k].0@ == id);
            }
            assert forall|i: int, j: int| 0 <= i < j < res@.len() implies (#[trigger] res@[i]).0@ != (#[trigger] res@[j]).0@ by {
                assert(es[i].0 != es[j].0);
            }
        }
        res
    }

    /// Converge the cache to what was observed, in order: each id still
    /// recorded gets its observed status; ids no longer recorded are not
    /// added.
    pub fn converge(&mut self, observed: &Vec<(String, WorkloadStatus)>)
        requires
            old(self).wf(),
        ensures
            final(self).wf(),
            final(self)@ == converged(old(self)@, observed_view(observed@)),
    {
        let ghost obs = observed_view(observed@);
        let mut i: usize = 0;
        assert(obs.take(0) =~= Seq::<(Seq<char>, WorkloadStatus)>::empty());
        while i < observed.len()
            invariant
                i <= observed.len(),
                obs == observed_view(observed@),
                self.wf(),
                self@ == converged(old(self)@, obs.take(i as int)),
            decreases observed.len() - i,
        {
            let ghost es = cache_view(self.entries@);
            let ghost before = self@;
            assert(obs.take(i + 1).drop_last() =~= obs.take(i as int));
            assert(obs.take(i + 1).last() == (observed@[i as int].0@, observed@[i as int].1));
            match self.position(observed[i].0.as_str()) {
                Some(k) => {
                    proof {
                        lemma_cache_find(es, observed@[i as int].0@);
                    }
                    let svc = owned(self.entries[k].1.as_str());
                    let id = owned(self.entries[k].0.as_str());
                    let e = (id, svc, observed[i].1);
                    let ghost ev = (e.0@, e.1@, e.2);
                    proof {
                        lemma_map_update(es, k as int, ev);
                    }
                    let ghost prev = self@;
                    self.entries.set(k, e);
                    assert(cache_view(self.entries@) =~= es.update(k as int, ev));
                    assert(prev.contains_key(ev.0) && prev[ev.0].0 == ev.1);
                    assert(self@ == prev.insert(ev.0, (ev.1, ev.2)));
                },
                None => {
                    proof {
                        lemma_cache_find(es, observed@[i as int].0@);
                        assert(!before.contains_key(observed@[i as int].0@));
                    }
                },
            }
            i = i + 1;
        }
        assert(obs.take(i as int) =~= obs);
    }
}

proof fn lemma_cache_find_update(
    es: Seq<(Seq<char>, Seq<char>, WorkloadStatus)>,
    i: int,
    e: (Seq<char>, Seq<char>, WorkloadStatus),
    k: Seq<char>,
)
    requires
        0 <= i < es.len(),
        es[i].0 == e.0,
    ensures
        cache_find(es.update(i, e), k) == cache_find(es, k),
    decreases es.len(),
{
    let u = es.update(i, e);
    if i < es.len() - 1 {
        assert(u.drop_last() =~= es.drop_last().update(i, e));
        lemma_cache_find_update(es.drop_last(), i, e, k);
    } else {
        assert(u.drop_last() =~= es.drop_last());
    }
}


/// One workload as a heartbeat reports it. The CPU share, a fraction the
/// caller measures, travels beside it.
pub struct WorkloadReport {
    pub service_name: String,
    pub status: String,
    pub container_id: Option<String>,
    pub memory_bytes: u64,
    pub exit_code: Option<i64>,
    pub restart_count: u32,
    pub last_logs: Option<String>,
}

/// The report of workload `id` of `service`, observed in `status`. A
/// running workload carries its memory use; any other carries why it is
/// not running: its exit code, its restarts and the end of its log (`log`,
/// as read), bounded.
pub open spec fn report_ok(
    service: Seq<char>,
    id: Seq<char>,
    status: WorkloadStatus,
    memory_bytes: u64,
    exit_code: Option<i64>,
    restart_count: u32,
    log: Option<Seq<char>>,
    r: WorkloadReport,
) -> bool {
    &&& r.service_name@ == service
    &&& r.status@ == report_status_spec(status)
    &&& (r.container_id matches Some(c) && c@ == id)
    &&& if status == WorkloadStatus::Running {
        &&& r.memory_bytes == memory_bytes
        &&& r.exit_code is None
        &&& r.restart_count == 0
        &&& r.last_logs is None
    } else {
        &&& r.memory_bytes == 0
        &&& r.exit_code == exit_code
        &&& r.restart_count == restart_count
        &&& match log {
            Some(l) => match log_tail_spec(l) {
                Some(t) => r.last_logs matches Some(x) && x@ == t,
                None => r.last_logs is None,
            },
            None => r.last_logs is None,
        }
    }
}

/// The report of workload `id` of `service`, observed in `status`.
pub fn workload_report(
    service: String,
    id: String,
    status: WorkloadStatus,
    memory_bytes: u64,
    exit_code: Option<i64>,
    restart_count: u32,
    log: Option<String>,
) -> (res: WorkloadReport)
    ensures
        report_ok(service@, id@, status, memory_bytes, exit_code, restart_count, match log {
            Some(l) => Some(l@),
            None => None,
        }, res),
{
    let text = owned(report_status(status));
    if status == WorkloadStatus::Running {
        WorkloadReport {
            service_name: service,
            status: text,
            container_id: Some(id),
            memory_bytes,
            exit_code: None,
            restart_count: 0,
            last_logs: None,
        }
    } else {
        let last_logs = match &log {
            Some(l) => log_tail(l.as_str()),
            None => None,
        };
        WorkloadReport {
            service_name: service,
            status: text,
            container_id: Some(id),
            memory_bytes: 0,
            exit_code,
            restart_count,
            last_logs,
        }
    }
}
} // verus!
