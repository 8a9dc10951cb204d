//! This node's `orca-*` networks and who is on them, as the dashboard shows
//! them: every orca network (empty ones too), each with the orca containers
//! attached and the aliases they answer to there.

use vstd::prelude::*;

use crate::text::{
    lemma_lex_antisym, lemma_lex_refl, lemma_lex_total, lemma_lex_trans, lex_le, lex_le_exec, owned,
    starts_with, starts_with_str, views,
};

verus! {

/// A container as inspected: its name, without the leading `/`, and each
/// network it is attached to with its aliases there.
pub struct InspectedContainer {
    pub name: String,
    pub networks: Vec<(String, Vec<String>)>,
}

/// A container attached to a network.
pub struct NetworkService {
    pub name: String,
    pub aliases: Vec<String>,
    /// Filled in by the master once it compares the services' settings.
    pub missing_aliases: Vec<String>,
}

/// An orca network and the containers on it.
pub struct DockerNetwork {
    pub name: String,
    pub services: Vec<NetworkService>,
}

/// A network attachment as name and aliases.
pub type Member = (Seq<char>, Seq<Seq<char>>);

/// A container as plain values.
pub type ContainerView = (Seq<char>, Seq<Member>);

/// Containers as plain values.
pub open spec fn containers_view(v: Seq<InspectedContainer>) -> Seq<ContainerView> {
    v.map_values(|c: InspectedContainer| (c.name@, attachments_view(c.networks@)))
}

/// Attachments as plain values.
pub open spec fn attachments_view(v: Seq<(String, Vec<String>)>) -> Seq<Member> {
    v.map_values(|a: (String, Vec<String>)| (a.0@, views(a.1@)))
}

/// A name of orca's.
pub open spec fn is_orca(n: Seq<char>) -> bool {
    starts_with(n, "orca-"@)
}

/// The orca names among `ns`, in order.
pub open spec fn orca_names(ns: Seq<Seq<char>>) -> Seq<Seq<char>>
    decreases ns.len(),
{
    if ns.len() == 0 {
        Seq::empty()
    } else if is_orca(ns.last()) {
        orca_names(ns.drop_last()).push(ns.last())
    } else {
        orca_names(ns.drop_last())
    }
}

/// The orca networks a container is attached to, in order.
pub open spec fn orca_attachments(ms: Seq<Member>) -> Seq<Seq<char>>
    decreases ms.len(),
{
    if ms.len() == 0 {
        Seq::empty()
    } else if is_orca(ms.last().0) {
        orca_attachments(ms.drop_last()).push(ms.last().0)
    } else {
        orca_attachments(ms.drop_last())
    }
}

/// Whether network `n` is listed: it is an orca network Docker lists, or
/// an orca container is attached to it.
pub open spec fn listed(seed: Seq<Seq<char>>, cs: Seq<ContainerView>, n: Seq<char>) -> bool {
    orca_names(seed).contains(n) || exists|j: int|
        0 <= j < cs.len() && is_orca(cs[j].0) && #[trigger] orca_attachments(cs[j].1).contains(n)
}

/// The attachments of container `c` to network `n`, as members.
pub open spec fn members_of(c: ContainerView, n: Seq<char>) -> Seq<Member>
    decreases c.1.len(),
{
    if c.1.len() == 0 {
        Seq::empty()
    } else {
        let prev = members_of((c.0, c.1.drop_last()), n);
        if c.1.last().0 == n {
            prev.push((c.0, c.1.last().1))
        } else {
            prev
        }
    }
}

/// The orca containers on network `n`, each with its aliases there.
pub open spec fn members(cs: Seq<ContainerView>, n: Seq<char>) -> Seq<Member>
    decreases cs.len(),
{
    if cs.len() == 0 {
        Seq::empty()
    } else if is_orca(cs.last().0) {
        members(cs.drop_last(), n) + members_of(cs.last(), n)
    } else {
        members(cs.drop_last(), n)
    }
}

/// Names in strictly increasing order.
pub open spec fn strictly_sorted(v: Seq<Seq<char>>) -> bool {
    forall|i: int, j: int| 0 <= i < j < v.len() ==> lex_le(#[trigger] v[i], #[trigger] v[j]) && v[i] != v[j]
}

/// Members in order of their names.
pub open spec fn members_sorted(v: Seq<Member>) -> bool {
    forall|i: int, j: int| 0 <= i < j < v.len() ==> lex_le((#[trigger] v[i]).0, (#[trigger] v[j]).0)
}

/// A network's services as members.
pub open spec fn services_view(v: Seq<NetworkService>) -> Seq<Member> {
    v.map_values(|s: NetworkService| (s.name@, views(s.aliases@)))
}

/// The listing is right: each listed network once, in order of name; each
/// with exactly its members, in order of name, none of them missing an
/// alias yet.
pub open spec fn listing_ok(seed: Seq<Seq<char>>, cs: Seq<ContainerView>, out: Seq<DockerNetwork>) -> bool {
    let names = out.map_values(|d: DockerNetwork| d.name@);
    &&& strictly_sorted(names)
    &&& forall|n: Seq<char>| #[trigger] names.contains(n) <==> listed(seed, cs, n)
    &&& forall|i: int|
        0 <= i < out.len() ==> {
            &&& members_sorted(services_view((#[trigger] out[i]).services@))
            &&& services_view(out[i].services@).to_multiset() == members(cs, out[i].name@).to_multiset()
            &&& forall|k: int| 0 <= k < out[i].services@.len() ==> (#[trigger] out[i].services@[k]).missing_aliases@.len() == 0
        }
}

fn copy_strings(v: &Vec<String>) -> (res: Vec<String>)
    ensures
        views(res@) == views(v@),
{
    let mut res: Vec<String> = Vec::new();
    let mut i: usize = 0;
    while i < v.len()
        invariant
            i <= v.len(),
            views(res@) == views(v@).take(i as int),
        decreases v.len() - i,
    {
        let ghost before = views(res@);
        let s = owned(v[i].as_str());
        res.push(s);
        assert(views(v@).take(i + 1) =~= views(v@).take(i as int).push(s@));
        assert(views(res@) =~= before.push(s@));
        i = i + 1;
    }
    assert(views(v@).take(i as int) =~= views(v@));
    res
}

/// Add `x` to the strictly sorted `names`, unless it is there.
fn insert_name(names: &mut Vec<String>, x: &String)
    requires
        strictly_sorted(views(old(names)@)),
    ensures
        strictly_sorted(views(final(names)@)),
        forall|y: Seq<char>| #[trigger] views(final(names)@).contains(y) <==> views(old(names)@).contains(y) || y == x@,
{
    let ghost old_v = views(names@);
    let mut p: usize = 0;
    while p < names.len() && !lex_le_exec(x.as_str(), names[p].as_str())
        invariant
            old_v == views(names@),
            p <= names.len(),
            forall|k: int| 0 <= k < p ==> !lex_le(x@, #[trigger] old_v[k]),
        decreases names.len() - p,
    {
        assert(old_v[p as int] == names@[p as int]@);
        p = p + 1;
    }
    if p < names.len() && names[p] == *x {
        proof {
            assert(old_v[p as int] == x@);
            assert forall|y: Seq<char>| #[trigger] views(names@).contains(y) <==> old_v.contains(y) || y == x@ by {
                if y == x@ {
                    assert(old_v[p as int] == y);
                }
            }
        }
        return;
    }
    let s = owned(x.as_str());
    names.insert(p, s);
    proof {
        let nv = views(names@);
        assert(nv =~= old_v.insert(p as int, x@));
        if p < old_v.len() {
            assert(old_v[p as int] == names@[p as int + 1]@);
            assert(lex_le(x@, old_v[p as int]));
            assert(old_v[p as int] != x@);
        }
        assert forall|i: int, j: int| 0 <= i < j < nv.len() implies lex_le(#[trigger] nv[i], #[trigger] nv[j]) && nv[i] != nv[j] by {
            if j < p {
                assert(nv[i] == old_v[i] && nv[j] == old_v[j]);
            } else if j == p {
                assert(nv[i] == old_v[i]);
                lemma_lex_total(x@, old_v[i]);
                if old_v[i] == x@ {
                    lemma_lex_refl(x@);
                }
            } else if i == p {
                assert(nv[j] == old_v[j - 1]);
                if j - 1 > p {
                    lemma_lex_trans(x@, old_v[p as int], old_v[j - 1]);
                    if old_v[j - 1] == x@ {
                        lemma_lex_antisym(old_v[p as int], x@);
                    }
                }
            } else if i < p {
                assert(nv[i] == old_v[i] && nv[j] == old_v[j - 1]);
                lemma_lex_total(x@, old_v[i]);
                if old_v[i] == x@ {
                    lemma_lex_refl(x@);
                }
                lemma_lex_trans(old_v[i], x@, old_v[p as int]);
                if j - 1 > p {
                    lemma_lex_trans(old_v[i], old_v[p as int], old_v[j - 1]);
                    if old_v[i] == old_v[j - 1] {
                        lemma_lex_antisym(old_v[i], old_v[p as int]);
                    }
                } else if old_v[i] == old_v[p as int] {
                }
            } else {
                assert(nv[i] == old_v[i - 1] && nv[j] == old_v[j - 1]);
            }
        }
        assert forall|y: Seq<char>| #[trigger] nv.contains(y) <==> old_v.contains(y) || y == x@ by {
            if nv.contains(y) {
                let k = choose|k: int| 0 <= k < nv.len() && nv[k] == y;
                if k < p {
                    assert(old_v[k] == y);
                } else if k > p {
                    assert(old_v[k - 1] == y);
                }
            }
            if old_v.contains(y) {
                let k = choose|k: int| 0 <= k < old_v.len() && old_v[k] == y;
                if k < p {
                    assert(nv[k] == y);
                } else {
                    assert(nv[k + 1] == y);
                }
            }
            if y == x@ {
                assert(nv[p as int] == y);
            }
        }
    }
}

/// Insert `m` after every member whose name comes no later than its own.
fn insert_member(out: &mut Vec<NetworkService>, m: NetworkService)
    requires
        members_sorted(services_view(old(out)@)),
    ensures
        members_sorted(services_view(final(out)@)),
        services_view(final(out)@).to_multiset() == services_view(old(out)@).to_multiset().insert(
            (m.name@, views(m.aliases@)),
        ),
        forall|k: int| 0 <= k < final(out)@.len() ==> (#[trigger] final(out)@[k]).missing_aliases@.len() == 0
            || (exists|j: int| 0 <= j < old(out)@.len() && old(out)@[j] == final(out)@[k]) || final(out)@[k] == m,
{
    let ghost mv = (m.name@, views(m.aliases@));
    let ghost old_v = services_view(out@);
    let mut p: usize = 0;
    while p < out.len() && lex_le_exec(out[p].name.as_str(), m.name.as_str())
        invariant
            old_v == services_view(out@),
            mv.0 == m.name@,
            p <= out.len(),
            forall|k: int| 0 <= k < p ==> lex_le((#[trigger] old_v[k]).0, mv.0),
        decreases out.len() - p,
    {
        assert(old_v[p as int].0 == out@[p as int].name@);
        p = p + 1;
    }
    let ghost old_out = out@;
    out.insert(p, m);
    proof {
        let nv = services_view(out@);
        assert(nv =~= old_v.insert(p as int, mv));
        vstd::seq_lib::to_multiset_insert(old_v, p as int, mv);
        if p < old_v.len() {
            assert(old_v[p as int].0 == old_out[p as int].name@);
            lemma_lex_total(old_v[p as int].0, mv.0);
        }
        assert forall|i: int, j: int| 0 <= i < j < nv.len() implies lex_le((#[trigger] nv[i]).0, (#[trigger] nv[j]).0) by {
            if j < p {
                assert(nv[i] == old_v[i] && nv[j] == old_v[j]);
            } else if j == p {
                assert(nv[i] == old_v[i]);
            } else if i == p {
                assert(nv[j] == old_v[j - 1]);
                if j - 1 > p {
                    lemma_lex_trans(mv.0, old_v[p as int].0, old_v[j - 1].0);
                }
            } else if i < p {
                assert(nv[i] == old_v[i] && nv[j] == old_v[j - 1]);
                lemma_lex_trans(old_v[i].0, mv.0, old_v[p as int].0);
                if j - 1 > p {
                    lemma_lex_trans(old_v[i].0, old_v[p as int].0, old_v[j - 1].0);
                }
            } else {
                assert(nv[i] == old_v[i - 1] && nv[j] == old_v[j - 1]);
            }
        }
        assert forall|k: int| 0 <= k < out@.len() implies (#[trigger] out@[k]).missing_aliases@.len() == 0
            || (exists|j: int| 0 <= j < old_out.len() && old_out[j] == out@[k]) || out@[k] == m by {
            if k < p {
                assert(old_out[k] == out@[k]);
            } else if k > p {
                assert(old_out[k - 1] == out@[k]);
            }
        }
    }
}

/// The members of container `c` on network `name`, collected into `out`
/// in order of name.
fn add_members(out: &mut Vec<NetworkService>, c: &InspectedContainer, name: &String)
    requires
        members_sorted(services_view(old(out)@)),
        forall|k: int| 0 <= k < old(out)@.len() ==> (#[trigger] old(out)@[k]).missing_aliases@.len() == 0,
    ensures
        members_sorted(services_view(final(out)@)),
        services_view(final(out)@).to_multiset() == services_view(old(out)@).to_multiset().add(
            members_of((c.name@, attachments_view(c.networks@)), name@).to_multiset(),
        ),
        forall|k: int| 0 <= k < final(out)@.len() ==> (#[trigger] final(out)@[k]).missing_aliases@.len() == 0,
{
    let ghost cv = (c.name@, attachments_view(c.networks@));
    let ghost start = services_view(out@).to_multiset();
    let mut k: usize = 0;
    proof {
        assert(cv.1.take(0) =~= Seq::<Member>::empty());
        assert(members_of((cv.0, cv.1.take(0)), name@) =~= Seq::<Member>::empty());
        broadcast use vstd::multiset::group_multiset_axioms;
        vstd::seq_lib::to_multiset_len(Seq::<Member>::empty());
        vstd::multiset::lemma_multiset_empty_len(Seq::<Member>::empty().to_multiset());
        assert(Seq::<Member>::empty().to_multiset() =~= vstd::multiset::Multiset::<Member>::empty());
        assert(start.add(vstd::multiset::Multiset::<Member>::empty()) =~= start);
    }
    while k < c.networks.len()
        invariant
            cv == (c.name@, attachments_view(c.networks@)),
            k <= c.networks.len(),
            members_sorted(services_view(out@)),
            forall|q: int| 0 <= q < out@.len() ==> (#[trigger] out@[q]).missing_aliases@.len() == 0,
            services_view(out@).to_multiset() == start.add(members_of((cv.0, cv.1.take(k as int)), name@).to_multiset()),
        decreases c.networks.len() - k,
    {
        let ghost pre = (cv.0, cv.1.take(k as int));
        let ghost next = (cv.0, cv.1.take(k + 1));
        assert(next.1.drop_last() =~= pre.1);
        assert(next.1.last() == cv.1[k as int]);
        assert(cv.1[k as int] == (c.networks@[k as int].0@, views(c.networks@[k as int].1@)));
        if c.networks[k].0 == *name {
            let m = NetworkService {
                name: owned(c.name.as_str()),
                aliases: copy_strings(&c.networks[k].1),
                missing_aliases: Vec::new(),
            };
            let ghost mv = (m.name@, views(m.aliases@));
            let ghost before = out@;
            insert_member(out, m);
            proof {
                assert(members_of(next, name@) == members_of(pre, name@).push(mv));
                vstd::seq_lib::to_multiset_build(members_of(pre, name@), mv);
                broadcast use vstd::multiset::group_multiset_axioms;
                assert(start.add(members_of(pre, name@).to_multiset().insert(mv)) =~= start.add(
                    members_of(pre, name@).to_multiset(),
                ).insert(mv));
                assert forall|q: int| 0 <= q < out@.len() implies (#[trigger] out@[q]).missing_aliases@.len() == 0 by {
                    if !(out@[q].missing_aliases@.len() == 0) {
                        if out@[q] != m {
                            let j = choose|j: int| 0 <= j < before.len() && before[j] == out@[q];
                            assert(before[j].missing_aliases@.len() == 0);
                        }
                    }
                }
            }
        } else {
            assert(members_of(next, name@) == members_of(pre, name@));
        }
        k = k + 1;
    }
    assert(cv.1.take(k as int) =~= cv.1);
}

/// This node's orca networks, in order of name, each with the orca
/// containers on it in order of name. `listed_networks` are the networks
/// Docker lists; `containers` the containers it could inspect.
pub fn orca_networks(listed_networks: &Vec<String>, containers: &Vec<InspectedContainer>) -> (res: Vec<DockerNetwork>)
    ensures
        listing_ok(views(listed_networks@), containers_view(containers@), res@),
{
    let ghost seed = views(listed_networks@);
    let ghost cs = containers_view(containers@);
    let mut names: Vec<String> = Vec::new();
    proof {
        reveal_strlit("orca-");
    }
    // Every orca network Docker lists.
    let mut i: usize = 0;
    assert(seed.take(0) =~= Seq::<Seq<char>>::empty());
    while i < listed_networks.len()
        invariant
            seed == views(listed_networks@),
            i <= listed_networks.len(),
            strictly_sorted(views(names@)),
            forall|y: Seq<char>| #[trigger] views(names@).contains(y) <==> orca_names(seed.take(i as int)).contains(y),
        decreases listed_networks.len() - i,
    {
        assert(seed.take(i + 1).drop_last() =~= seed.take(i as int));
        assert(seed.take(i + 1).last() == listed_networks@[i as int]@);
        if starts_with_str(listed_networks[i].as_str(), "orca-") {
            insert_name(&mut names, &listed_networks[i]);
            proof {
                let o = orca_names(seed.take(i as int));
                assert(orca_names(seed.take(i + 1)) == o.push(listed_networks@[i as int]@));
                assert forall|y: Seq<char>| o.push(listed_networks@[i as int]@).contains(y) <==> o.contains(y) || y == listed_networks@[i as int]@ by {
                    if o.push(listed_networks@[i as int]@).contains(y) {
                        let k = choose|k: int| 0 <= k < o.len() + 1 && o.push(listed_networks@[i as int]@)[k] == y;
                        if k < o.len() {
                            assert(o[k] == y);
                        }
                    }
                    if o.contains(y) {
                        let k = choose|k: int| 0 <= k < o.len() && o[k] == y;
                        assert(o.push(listed_networks@[i as int]@)[k] == y);
                    }
                    if y == listed_networks@[i as int]@ {
                        assert(o.push(listed_networks@[i as int]@)[o.len() as int] == y);
                    }
                }
            }
        }
        i = i + 1;
    }
    assert(seed.take(i as int) =~= seed);
    // Every orca network an orca container is attached to.
    let mut j: usize = 0;
    while j < containers.len()
        invariant
            seed == views(listed_networks@),
            cs == containers_view(containers@),
            j <= containers.len(),
            strictly_sorted(views(names@)),
            forall|y: Seq<char>| #[trigger] views(names@).contains(y) <==> orca_names(seed).contains(y) || exists|q: int|
                0 <= q < j && is_orca(cs[q].0) && #[trigger] orca_attachments(cs[q].1).contains(y),
        decreases containers.len() - j,
    {
        let c = &containers[j];
        assert(cs[j as int] == (c.name@, attachments_view(c.networks@)));
        if starts_with_str(c.name.as_str(), "orca-") {
            let ghost ms = attachments_view(c.networks@);
            let mut k: usize = 0;
            assert(ms.take(0) =~= Seq::<Member>::empty());
            while k < c.networks.len()
                invariant
                    seed == views(listed_networks@),
                    cs == containers_view(containers@),
                    j < containers.len(),
                    c == &containers[j as int],
                    cs[j as int] == (c.name@, ms),
                    is_orca(c.name@),
                    ms == attachments_view(c.networks@),
                    k <= c.networks.len(),
                    strictly_sorted(views(names@)),
                    forall|y: Seq<char>| #[trigger] views(names@).contains(y) <==> orca_names(seed).contains(y)
                        || (exists|q: int| 0 <= q < j && is_orca(cs[q].0) && #[trigger] orca_attachments(cs[q].1).contains(y))
                        || orca_attachments(ms.take(k as int)).contains(y),
                decreases c.networks.len() - k,
            {
                assert(ms.take(k + 1).drop_last() =~= ms.take(k as int));
                assert(ms.take(k + 1).last() == ms[k as int]);
                assert(ms[k as int].0 == c.networks@[k as int].0@);
                let ghost before = views(names@);
                let ghost prev = orca_attachments(ms.take(k as int));
                if starts_with_str(c.networks[k].0.as_str(), "orca-") {
                    insert_name(&mut names, &c.networks[k].0);
                    proof {
                        let x = ms[k as int].0;
                        assert(orca_attachments(ms.take(k + 1)) == prev.push(x));
                        assert forall|y: Seq<char>| prev.push(x).contains(y) <==> prev.contains(y) || y == x by {
                            if prev.push(x).contains(y) {
                                let t = choose|t: int| 0 <= t < prev.len() + 1 && prev.push(x)[t] == y;
                                if t < prev.len() {
                                    assert(prev[t] == y);
                                }
                            }
                            if prev.contains(y) {
                                let t = choose|t: int| 0 <= t < prev.len() && prev[t] == y;
                                assert(prev.push(x)[t] == y);
                            }
                            if y == x {
                                assert(prev.push(x)[prev.len() as int] == y);
                            }
                        }
                    }
                } else {
                    assert(orca_attachments(ms.take(k + 1)) == prev);
                }
                k = k + 1;
            }
            assert(ms.take(k as int) =~= ms);
            proof {
                assert forall|y: Seq<char>| #[trigger] views(names@).contains(y) <==> orca_names(seed).contains(y) || exists|q: int|
                    0 <= q < j + 1 && is_orca(cs[q].0) && #[trigger] orca_attachments(cs[q].1).contains(y) by {
                    if orca_attachments(ms).contains(y) {
                        assert(orca_attachments(cs[j as int].1).contains(y));
                    }
                    if exists|q: int| 0 <= q < j + 1 && is_orca(cs[q].0) && #[trigger] orca_attachments(cs[q].1).contains(y) {
                        let q = choose|q: int| 0 <= q < j + 1 && is_orca(cs[q].0) && #[trigger] orca_attachments(cs[q].1).contains(y);
                        if q == j {
                            assert(orca_attachments(ms).contains(y));
                        }
                    }
                }
            }
        } else {
            proof {
                assert forall|y: Seq<char>| #[trigger] views(names@).contains(y) <==> orca_names(seed).contains(y) || exists|q: int|
                    0 <= q < j + 1 && is_orca(cs[q].0) && #[trigger] orca_attachments(cs[q].1).contains(y) by {
                    if exists|q: int| 0 <= q < j + 1 && is_orca(cs[q].0) && #[trigger] orca_attachments(cs[q].1).contains(y) {
                        let q = choose|q: int| 0 <= q < j + 1 && is_orca(cs[q].0) && #[trigger] orca_attachments(cs[q].1).contains(y);
                        assert(q != j);
                    }
                }
            }
        }
        j = j + 1;
    }
    // Each network with its members.
    let mut out: Vec<DockerNetwork> = Vec::new();
    let mut n: usize = 0;
    while n < names.len()
        invariant
            seed == views(listed_networks@),
            cs == containers_view(containers@),
            n <= names.len(),
            strictly_sorted(views(names@)),
            forall|y: Seq<char>| #[trigger] views(names@).contains(y) <==> listed(seed, cs, y),
            out@.len() == n,
            forall|i: int| 0 <= i < n ==> (#[trigger] out@[i]).name@ == names@[i]@ && {
                &&& members_sorted(services_view(out@[i].services@))
                &&& services_view(out@[i].services@).to_multiset() == members(cs, out@[i].name@).to_multiset()
                &&& forall|k: int| 0 <= k < out@[i].services@.len() ==> (#[trigger] out@[i].services@[k]).missing_aliases@.len() == 0
            },
        decreases names.len() - n,
    {
        let name = &names[n];
        let mut services: Vec<NetworkService> = Vec::new();
        let mut q: usize = 0;
        proof {
            assert(cs.take(0) =~= Seq::<ContainerView>::empty());
            assert(services_view(services@) =~= Seq::<Member>::empty());
        }
        while q < containers.len()
            invariant
                cs == containers_view(containers@),
                q <= containers.len(),
                members_sorted(services_view(services@)),
                forall|k: int| 0 <= k < services@.len() ==> (#[trigger] services@[k]).missing_aliases@.len() == 0,
                services_view(services@).to_multiset() == members(cs.take(q as int), name@).to_multiset(),
            decreases containers.len() - q,
        {
            assert(cs.take(q + 1).drop_last() =~= cs.take(q as int));
            assert(cs.take(q + 1).last() == cs[q as int]);
            assert(cs[q as int] == (containers@[q as int].name@, attachments_view(containers@[q as int].networks@)));
            if starts_with_str(containers[q].name.as_str(), "orca-") {
                add_members(&mut services, &containers[q], name);
                proof {
                    vstd::seq_lib::lemma_multiset_commutative(
                        members(cs.take(q as int), name@),
                        members_of(cs[q as int], name@),
                    );
                }
            }
            q = q + 1;
        }
        assert(cs.take(q as int) =~= cs);
        let d = DockerNetwork { name: owned(name.as_str()), services };
        out.push(d);
        n = n + 1;
    }
    proof {
        let names_out = out@.map_values(|d: DockerNetwork| d.name@);
        assert(names_out =~= views(names@));
    }
    out
}

} // verus!
