//! What a container's `orca.*` labels say about the service it runs: enough
//! for a node-local proxy to rebuild its routes and for the master to adopt
//! a container it lost track of, with no other state.

use vstd::prelude::*;

use crate::agent::container_config::{labels_spec, route_labels_spec};
use crate::agent::workload::WorkloadSpec;
use crate::number::{all_digits, digit_value, digits_value, is_digit, parse_u16, parse_u16_spec, unsigned_digits};
use crate::text::{
    decimal, digit_char, find_char_from, join, lemma_find_char_from, lemma_first_char, owned, split,
    split_char, views,
};

verus! {

/// Label pairs as views.
pub open spec fn labels_view(v: Seq<(String, String)>) -> Seq<(Seq<char>, Seq<char>)> {
    v.map_values(|p: (String, String)| (p.0@, p.1@))
}

/// The value of label `key` (the first one, labels being unique).
pub open spec fn label(ls: Seq<(Seq<char>, Seq<char>)>, key: Seq<char>) -> Option<Seq<char>>
    decreases ls.len(),
{
    if ls.len() == 0 {
        None
    } else if ls[0].0 == key {
        Some(ls[0].1)
    } else {
        label(ls.skip(1), key)
    }
}

/// The value of label `key`.
pub fn get_label(labels: &Vec<(String, String)>, key: &str) -> (res: Option<String>)
    ensures
        match label(labels_view(labels@), key@) {
            Some(v) => res matches Some(r) && r@ == v,
            None => res is None,
        },
{
    let ghost lv = labels_view(labels@);
    let mut i: usize = 0;
    assert(lv.skip(0) =~= lv);
    while i < labels.len()
        invariant
            lv == labels_view(labels@),
            i <= labels.len(),
            label(lv, key@) == label(lv.skip(i as int), key@),
        decreases labels.len() - i,
    {
        assert(lv.skip(i as int)[0] == (labels@[i as int].0@, labels@[i as int].1@));
        assert(lv.skip(i as int).skip(1) =~= lv.skip(i + 1));
        if crate::text::same_text(labels[i].0.as_str(), key) {
            return Some(owned(labels[i].1.as_str()));
        }
        i = i + 1;
    }
    assert(lv.skip(i as int) =~= Seq::<(Seq<char>, Seq<char>)>::empty());
    None
}

/// The non-empty pieces of a comma-joined list, in order.
pub open spec fn non_empty(ps: Seq<Seq<char>>) -> Seq<Seq<char>>
    decreases ps.len(),
{
    if ps.len() == 0 {
        ps
    } else if ps.last().len() == 0 {
        non_empty(ps.drop_last())
    } else {
        non_empty(ps.drop_last()).push(ps.last())
    }
}

/// A comma-joined label value as a list, empty entries dropped; an absent
/// label is an empty list.
pub open spec fn split_label_spec(value: Option<Seq<char>>) -> Seq<Seq<char>> {
    match value {
        Some(s) => non_empty(split(s, ',')),
        None => Seq::empty(),
    }
}

/// A comma-joined label value as a clean list.
pub fn split_label(value: Option<&String>) -> (res: Vec<String>)
    ensures
        views(res@) == split_label_spec(match value {
            Some(s) => Some(s@),
            None => None,
        }),
{
    let mut out: Vec<String> = Vec::new();
    let s = match value {
        Some(s) => s,
        None => {
            return out;
        },
    };
    let parts = split_char(s.as_str(), ',');
    let ghost ps = views(parts@);
    let mut i: usize = 0;
    assert(ps.take(0) =~= Seq::<Seq<char>>::empty());
    while i < parts.len()
        invariant
            ps == views(parts@),
            ps == split(s@, ','),
            i <= parts.len(),
            views(out@) == non_empty(ps.take(i as int)),
        decreases parts.len() - i,
    {
        assert(ps.take(i + 1).drop_last() =~= ps.take(i as int));
        assert(ps.take(i + 1).last() == parts@[i as int]@);
        if !parts[i].as_str().is_empty() {
            let ghost before = views(out@);
            let p = owned(parts[i].as_str());
            out.push(p);
            assert(views(out@) =~= before.push(p@));
        }
        i = i + 1;
    }
    assert(ps.take(i as int) =~= ps);
    out
}

/// Where a node-local proxy sends a domain's traffic.
pub struct LocalRoute {
    pub service: String,
    pub domain: String,
    pub host_port: u16,
    pub routes: Vec<String>,
    pub strip_prefix: Option<String>,
}

/// What a container's labels say a proxy route needs, before its host port
/// is known: the service (the domain if unlabelled), the domain, the
/// container port, the path patterns and the strip prefix. A container
/// without a domain or a readable port has none.
pub open spec fn route_target_spec(ls: Seq<(Seq<char>, Seq<char>)>) -> Option<(Seq<char>, Seq<char>, u16, Seq<Seq<char>>, Option<Seq<char>>)> {
    match label(ls, "orca.domain"@) {
        None => None,
        Some(domain) => match label(ls, "orca.port"@) {
            None => None,
            Some(p) => match parse_u16_spec(p) {
                None => None,
                Some(port) => Some(
                    (
                        match label(ls, "orca.service"@) {
                            Some(s) => s,
                            None => domain,
                        },
                        domain,
                        port,
                        split_label_spec(label(ls, "orca.routes"@)),
                        label(ls, "orca.strip_prefix"@),
                    ),
                ),
            },
        },
    }
}

/// The route a container's labels describe, once its container port is
/// published on `host_port`.
pub open spec fn local_route_ok(ls: Seq<(Seq<char>, Seq<char>)>, host_port: u16, r: LocalRoute) -> bool {
    route_target_spec(ls) matches Some((service, domain, _port, routes, strip)) && r.service@ == service
        && r.domain@ == domain && r.host_port == host_port && views(r.routes@) == routes && match r.strip_prefix {
        Some(s) => strip == Some(s@),
        None => strip is None,
    }
}

/// The container port a route needs published, if the labels describe a
/// route at all.
pub fn route_port(labels: &Vec<(String, String)>) -> (res: Option<u16>)
    ensures
        match route_target_spec(labels_view(labels@)) {
            Some(t) => res == Some(t.2),
            None => res is None,
        },
{
    let domain = get_label(labels, "orca.domain");
    if domain.is_none() {
        return None;
    }
    match get_label(labels, "orca.port") {
        Some(p) => parse_u16(p.as_str()),
        None => None,
    }
}

/// The route a container's labels describe, with its port published on
/// `host_port`.
pub fn local_route(labels: &Vec<(String, String)>, host_port: u16) -> (res: Option<LocalRoute>)
    ensures
        match route_target_spec(labels_view(labels@)) {
            Some(_) => res matches Some(r) && local_route_ok(labels_view(labels@), host_port, r),
            None => res is None,
        },
{
    let domain = match get_label(labels, "orca.domain") {
        Some(d) => d,
        None => {
            return None;
        },
    };
    let port = match get_label(labels, "orca.port") {
        Some(p) => parse_u16(p.as_str()),
        None => None,
    };
    if port.is_none() {
        return None;
    }
    let service = match get_label(labels, "orca.service") {
        Some(s) => s,
        None => owned(domain.as_str()),
    };
    let routes_label = get_label(labels, "orca.routes");
    let routes = split_label(routes_label.as_ref());
    let strip_prefix = get_label(labels, "orca.strip_prefix");
    Some(LocalRoute { service, domain, host_port, routes, strip_prefix })
}

/// A container of this node the master may adopt.
pub struct ManagedContainer {
    pub service_name: String,
    pub image: String,
    pub status: String,
    pub container_id: String,
    pub port: Option<u16>,
    pub domains: Vec<String>,
    pub network: Option<String>,
    pub routes: Vec<String>,
    pub strip_prefix: Option<String>,
}

/// The domains a container's labels give: the multi-domain list, or else
/// the single domain.
pub open spec fn domains_spec(ls: Seq<(Seq<char>, Seq<char>)>) -> Seq<Seq<char>> {
    let many = split_label_spec(label(ls, "orca.domains"@));
    if many.len() == 0 {
        match label(ls, "orca.domain"@) {
            Some(d) => seq![d],
            None => Seq::empty(),
        }
    } else {
        many
    }
}

/// An optional text as its view.
pub open spec fn opt_text(o: Option<String>) -> Option<Seq<char>> {
    match o {
        Some(s) => Some(s@),
        None => None,
    }
}

/// What the master learns of a managed container: its service (a container
/// without a non-empty `orca.service` label cannot be adopted), image,
/// state, id, port, domains, network, routes and strip prefix.
pub open spec fn managed_ok(
    ls: Seq<(Seq<char>, Seq<char>)>,
    image: Seq<char>,
    state: Seq<char>,
    id: Seq<char>,
    m: ManagedContainer,
) -> bool {
    &&& label(ls, "orca.service"@) == Some(m.service_name@)
    &&& m.service_name@.len() > 0
    &&& m.image@ == image
    &&& m.status@ == state
    &&& m.container_id@ == id
    &&& m.port == match label(ls, "orca.port"@) {
        Some(p) => parse_u16_spec(p),
        None => None,
    }
    &&& views(m.domains@) == domains_spec(ls)
    &&& opt_text(m.network) == label(ls, "orca.network"@)
    &&& views(m.routes@) == split_label_spec(label(ls, "orca.routes"@))
    &&& opt_text(m.strip_prefix) == label(ls, "orca.strip_prefix"@)
}

/// What the master learns of a managed container, if it can be adopted.
pub fn managed_container(labels: &Vec<(String, String)>, image: &str, state: &str, id: &str) -> (res: Option<ManagedContainer>)
    ensures
        match label(labels_view(labels@), "orca.service"@) {
            Some(s) if s.len() > 0 => res matches Some(m) && managed_ok(labels_view(labels@), image@, state@, id@, m),
            _ => res is None,
        },
{
    let service_name = match get_label(labels, "orca.service") {
        Some(s) => s,
        None => {
            return None;
        },
    };
    if service_name.as_str().is_empty() {
        return None;
    }
    let routes_label = get_label(labels, "orca.routes");
    let routes = split_label(routes_label.as_ref());
    let domains_label = get_label(labels, "orca.domains");
    let mut domains = split_label(domains_label.as_ref());
    if domains.len() == 0 {
        if let Some(d) = get_label(labels, "orca.domain") {
            domains.push(d);
        }
        assert(views(domains@) =~= domains_spec(labels_view(labels@)));
    }
    let port = match get_label(labels, "orca.port") {
        Some(p) => parse_u16(p.as_str()),
        None => None,
    };
    Some(ManagedContainer {
        service_name,
        image: owned(image),
        status: owned(state),
        container_id: owned(id),
        port,
        domains,
        network: get_label(labels, "orca.network"),
        routes,
        strip_prefix: get_label(labels, "orca.strip_prefix"),
    })
}


// ---------------------------------------------------------------------------
// Reading back what was written
// ---------------------------------------------------------------------------

proof fn lemma_digit_roundtrip(k: nat)
    requires
        k < 10,
    ensures
        is_digit(digit_char(k)),
        digit_value(digit_char(k)) == k,
{
    if k == 0 {
    } else if k == 1 {
    } else if k == 2 {
    } else if k == 3 {
    } else if k == 4 {
    } else if k == 5 {
    } else if k == 6 {
    } else if k == 7 {
    } else if k == 8 {
    } else {
    }
}

proof fn lemma_decimal_parses(n: nat)
    ensures
        decimal(n).len() > 0,
        all_digits(decimal(n)),
        digits_value(decimal(n)) == n,
    decreases n,
{
    if n >= 10 {
        lemma_decimal_parses(n / 10);
        lemma_digit_roundtrip(n % 10);
        let d = decimal(n / 10).push(digit_char(n % 10));
        assert(decimal(n) == d);
        assert((n / 10) * 10 + n % 10 == n);
        assert(d.drop_last() =~= decimal(n / 10));
        assert(d.last() == digit_char(n % 10));
        assert forall|i: int| 0 <= i < d.len() implies is_digit(d[i]) by {
            if i < d.len() - 1 {
                assert(d[i] == decimal(n / 10)[i]);
            }
        }
        assert(digits_value(d) == digits_value(d.drop_last()) * 10 + digit_value(d.last()));
        assert(digits_value(d.drop_last()) == n / 10);
        assert(digit_value(d.last()) == n % 10);
        assert(digits_value(d) == n);
    } else {
        lemma_digit_roundtrip(n);
        let d = seq![digit_char(n)];
        assert(d.drop_last() =~= Seq::<char>::empty());
        assert(d.last() == digit_char(n));
        assert(decimal(n) == d);
        assert(digits_value(d) == digits_value(d.drop_last()) * 10 + digit_value(d.last()));
        assert(digits_value(d.drop_last()) == 0);
    }
}

proof fn lemma_port_parses(p: u16)
    ensures
        parse_u16_spec(decimal(p as nat)) == Some(p),
{
    lemma_decimal_parses(p as nat);
    let d = decimal(p as nat);
    assert(is_digit(d[0]));
    assert(unsigned_digits(d) == Some(d));
}

proof fn lemma_join_front(ps: Seq<Seq<char>>, sep: Seq<char>)
    requires
        ps.len() >= 2,
    ensures
        join(ps, sep) == ps[0] + sep + join(ps.skip(1), sep),
    decreases ps.len(),
{
    if ps.len() == 2 {
        assert(ps.drop_last() =~= seq![ps[0]]);
        assert(ps.skip(1) =~= seq![ps[1]]);
        assert(join(ps.drop_last(), sep) == ps[0]);
        assert(join(ps.skip(1), sep) == ps[1]);
        assert(join(ps, sep) == join(ps.drop_last(), sep) + sep + ps.last());
        assert(join(ps, sep) =~= ps[0] + sep + join(ps.skip(1), sep));
    } else {
        lemma_join_front(ps.drop_last(), sep);
        assert(ps.drop_last().skip(1) =~= ps.skip(1).drop_last());
        assert(ps.skip(1).last() == ps.last());
        assert(ps.drop_last()[0] == ps[0]);
        assert(join(ps.skip(1), sep) == join(ps.skip(1).drop_last(), sep) + sep + ps.last());
        assert(join(ps, sep) == join(ps.drop_last(), sep) + sep + ps.last());
        assert(join(ps, sep) =~= ps[0] + sep + join(ps.skip(1), sep));
    }
}

/// No piece holds a comma, and none is empty.
pub open spec fn clean_pieces(ps: Seq<Seq<char>>) -> bool {
    forall|i: int| 0 <= i < ps.len() ==> (#[trigger] ps[i]).len() > 0 && find_char_from(ps[i], ',', 0) is None
}

proof fn lemma_split_join(ps: Seq<Seq<char>>)
    requires
        ps.len() > 0,
        clean_pieces(ps),
    ensures
        split(join(ps, ","@), ',') == ps,
    decreases ps.len(),
{
    reveal_strlit(",");
    if ps.len() == 1 {
        let a = ps[0];
        lemma_find_char_from(a, ',', 0);
        assert(split(a, ',') =~= seq![a]);
        assert(ps =~= seq![a]);
    } else {
        let a = ps[0];
        let rest = ps.skip(1);
        assert forall|i: int| 0 <= i < rest.len() implies (#[trigger] rest[i]).len() > 0 && find_char_from(rest[i], ',', 0) is None by {
            assert(rest[i] == ps[i + 1]);
        }
        lemma_split_join(rest);
        lemma_join_front(ps, ","@);
        let whole = a + ","@ + join(rest, ","@);
        lemma_find_char_from(a, ',', 0);
        assert forall|j: int| 0 <= j < a.len() implies whole[j] != ',' by {
            assert(whole[j] == a[j]);
        }
        assert(whole[a.len() as int] == ',');
        lemma_first_char(whole, ',', a.len() as int);
        assert(whole.take(a.len() as int) =~= a);
        assert(whole.skip(a.len() as int + 1) =~= join(rest, ","@));
        assert(ps =~= seq![a] + rest);
    }
}

proof fn lemma_non_empty_clean(ps: Seq<Seq<char>>)
    requires
        clean_pieces(ps),
    ensures
        non_empty(ps) == ps,
    decreases ps.len(),
{
    if ps.len() > 0 {
        assert forall|i: int| 0 <= i < ps.drop_last().len() implies (#[trigger] ps.drop_last()[i]).len() > 0
            && find_char_from(ps.drop_last()[i], ',', 0) is None by {
            assert(ps.drop_last()[i] == ps[i]);
        }
        lemma_non_empty_clean(ps.drop_last());
        assert(ps.drop_last().push(ps.last()) =~= ps);
    }
}

proof fn lemma_route_labels_read_back(spec: WorkloadSpec)
    requires
        spec.domain is Some,
        spec.port is Some,
        clean_pieces(views(spec.routes@)),
    ensures
        route_target_spec(route_labels_spec(spec)) == Some(
            (
                spec.name@,
                spec.domain.unwrap()@,
                spec.port.unwrap(),
                views(spec.routes@),
                opt_text(spec.strip_prefix),
            ),
        ),
{
    reveal_strlit("orca.managed");
    reveal_strlit("orca.service");
    reveal_strlit("orca.network");
    reveal_strlit("orca.domain");
    reveal_strlit("orca.port");
    reveal_strlit("orca.routes");
    reveal_strlit("orca.strip_prefix");
    let ls = route_labels_spec(spec);
    let p1: Seq<(Seq<char>, Seq<char>)> = match spec.network {
        Some(n) => seq![("orca.network"@, n@)],
        None => Seq::empty(),
    };
    let rs = views(spec.routes@);
    let p4: Seq<(Seq<char>, Seq<char>)> = if spec.routes@.len() > 0 {
        seq![("orca.routes"@, join(rs, ","@))]
    } else {
        Seq::empty()
    };
    let p5: Seq<(Seq<char>, Seq<char>)> = match spec.strip_prefix {
        Some(sp) => seq![("orca.strip_prefix"@, sp@)],
        None => Seq::empty(),
    };
    let d = spec.domain.unwrap()@;
    let p = spec.port.unwrap();
    let head = seq![("orca.managed"@, "true"@), ("orca.service"@, spec.name@)];
    assert(ls =~= head + p1 + seq![("orca.domain"@, d)] + seq![("orca.port"@, decimal(p as nat))] + p4 + p5);
    lemma_port_parses(p);
    assert("orca.managed"@[5] != "orca.service"@[5]);
    assert("orca.managed"@[5] != "orca.network"@[5]);
    assert("orca.service"@[5] != "orca.network"@[5]);
    assert("orca.domain"@[5] != "orca.routes"@[5]);
    let strip_at: int = 4 + p1.len() as int + p4.len() as int;
    let n1: int = p1.len() as int;
    assert(ls.len() == strip_at + p5.len());
    assert forall|j: int| 0 <= j < ls.len() implies (#[trigger] ls[j]).0 == (if j == 0 {
        "orca.managed"@
    } else if j == 1 {
        "orca.service"@
    } else if j < 2 + n1 {
        "orca.network"@
    } else if j == 2 + n1 {
        "orca.domain"@
    } else if j == 3 + n1 {
        "orca.port"@
    } else if j < strip_at {
        "orca.routes"@
    } else {
        "orca.strip_prefix"@
    }) by {
        if 2 <= j < 2 + n1 {
            assert(ls[j] == p1[j - 2]);
        } else if 4 + n1 <= j < strip_at {
            assert(ls[j] == p4[j - 4 - n1]);
        } else if strip_at <= j {
            assert(ls[j] == p5[j - strip_at]);
        }
    }
    // Each key of interest occurs once.
    let di: int = 2 + p1.len() as int;
    let pi: int = 3 + p1.len() as int;
    assert(ls[di].0 == "orca.domain"@ && ls[di].1 == d);
    assert(ls[pi].0 == "orca.port"@ && ls[pi].1 == decimal(p as nat));
    assert(ls[1].0 == "orca.service"@ && ls[1].1 == spec.name@);
    assert forall|j: int| 0 <= j < ls.len() && j != di implies (#[trigger] ls[j]).0 != "orca.domain"@ by {
        let k = ls[j].0;
    }
    lemma_label_at(ls, "orca.domain"@, di);
    assert forall|j: int| 0 <= j < ls.len() && j != pi implies (#[trigger] ls[j]).0 != "orca.port"@ by {
        let k = ls[j].0;
    }
    lemma_label_at(ls, "orca.port"@, pi);
    assert forall|j: int| 0 <= j < ls.len() && j != 1 implies (#[trigger] ls[j]).0 != "orca.service"@ by {
        let k = ls[j].0;
    }
    lemma_label_at(ls, "orca.service"@, 1);
    if spec.routes@.len() > 0 {
        assert(ls[4 + p1.len() as int].0 == "orca.routes"@);
        assert forall|j: int| 0 <= j < ls.len() && j != 4 + p1.len() as int implies (#[trigger] ls[j]).0
            != "orca.routes"@ by {
            let k = ls[j].0;
        }
        lemma_label_at(ls, "orca.routes"@, 4 + p1.len() as int);
        lemma_split_join(rs);
    } else {
        assert forall|j: int| 0 <= j < ls.len() implies (#[trigger] ls[j]).0 != "orca.routes"@ by {
            let k = ls[j].0;
        }
        lemma_label_absent(ls, "orca.routes"@);
        assert(rs =~= Seq::<Seq<char>>::empty());
    }
    lemma_non_empty_clean(rs);
    match spec.strip_prefix {
        Some(sp) => {
            assert(ls[4 + p1.len() as int + p4.len() as int].0 == "orca.strip_prefix"@);
            assert forall|j: int| 0 <= j < ls.len() && j != strip_at implies (#[trigger] ls[j]).0
                != "orca.strip_prefix"@ by {
                let k = ls[j].0;
            }
            lemma_label_at(ls, "orca.strip_prefix"@, 4 + p1.len() as int + p4.len() as int);
        },
        None => {
            assert(p5.len() == 0);
            assert forall|j: int| 0 <= j < ls.len() implies (#[trigger] ls[j]).0 != "orca.strip_prefix"@ by {
                assert(j < strip_at);
            }
            lemma_label_absent(ls, "orca.strip_prefix"@);
        },
    }
}

/// What a node-local proxy reads back from the labels a container was
/// created with is what the workload said: for a workload with a domain
/// and a port, the route target is its name, domain, port, routes and strip
/// prefix (routes being non-empty and free of commas, as path patterns
/// are).
pub proof fn law_labels_read_back(spec: WorkloadSpec)
    requires
        spec.domain is Some,
        spec.port is Some,
        clean_pieces(views(spec.routes@)),
    ensures
        route_target_spec(labels_spec(spec)) == Some(
            (
                spec.name@,
                spec.domain.unwrap()@,
                spec.port.unwrap(),
                views(spec.routes@),
                opt_text(spec.strip_prefix),
            ),
        ),
{
    lemma_route_labels_read_back(spec);
    reveal_strlit("orca.fingerprint");
    reveal_strlit("orca.domain");
    reveal_strlit("orca.port");
    reveal_strlit("orca.service");
    reveal_strlit("orca.routes");
    reveal_strlit("orca.strip_prefix");
    let a = route_labels_spec(spec);
    let b: Seq<(Seq<char>, Seq<char>)> = match spec.fingerprint {
        Some(f) => seq![("orca.fingerprint"@, f@)],
        None => Seq::empty(),
    };
    assert(labels_spec(spec) =~= a + b);
    assert forall|j: int| 0 <= j < b.len() implies (#[trigger] b[j]).0 == "orca.fingerprint"@ by {}
    assert("orca.fingerprint"@[6] != "orca.domain"@[6]);
    assert("orca.fingerprint"@[6] != "orca.port"@[6]);
    assert("orca.fingerprint"@[6] != "orca.service"@[6]);
    assert("orca.fingerprint"@[6] != "orca.routes"@[6]);
    assert("orca.fingerprint"@[6] != "orca.strip_prefix"@[6]);
    lemma_label_append(a, b, "orca.domain"@);
    lemma_label_append(a, b, "orca.port"@);
    lemma_label_append(a, b, "orca.service"@);
    lemma_label_append(a, b, "orca.routes"@);
    lemma_label_append(a, b, "orca.strip_prefix"@);
    lemma_label_absent(b, "orca.domain"@);
    lemma_label_absent(b, "orca.port"@);
    lemma_label_absent(b, "orca.service"@);
    lemma_label_absent(b, "orca.routes"@);
    lemma_label_absent(b, "orca.strip_prefix"@);
    let ls = labels_spec(spec);
    assert(label(ls, "orca.domain"@) == label(a, "orca.domain"@));
    assert(label(ls, "orca.port"@) == label(a, "orca.port"@));
    assert(label(ls, "orca.service"@) == label(a, "orca.service"@));
    assert(label(ls, "orca.routes"@) == label(a, "orca.routes"@));
    assert(label(ls, "orca.strip_prefix"@) == label(a, "orca.strip_prefix"@));
}

proof fn lemma_label_append(a: Seq<(Seq<char>, Seq<char>)>, b: Seq<(Seq<char>, Seq<char>)>, key: Seq<char>)
    ensures
        label(a + b, key) == match label(a, key) {
            Some(v) => Some(v),
            None => label(b, key),
        },
    decreases a.len(),
{
    if a.len() > 0 {
        assert((a + b).skip(1) =~= a.skip(1) + b);
        assert((a + b)[0] == a[0]);
        lemma_label_append(a.skip(1), b, key);
    } else {
        assert(a + b =~= b);
    }
}

proof fn lemma_label_at(ls: Seq<(Seq<char>, Seq<char>)>, key: Seq<char>, i: int)
    requires
        0 <= i < ls.len(),
        ls[i].0 == key,
        forall|j: int| 0 <= j < ls.len() && j != i ==> (#[trigger] ls[j]).0 != key,
    ensures
        label(ls, key) == Some(ls[i].1),
    decreases i,
{
    if i > 0 {
        assert forall|j: int| 0 <= j < ls.skip(1).len() && j != i - 1 implies (#[trigger] ls.skip(1)[j]).0 != key by {
            assert(ls.skip(1)[j] == ls[j + 1]);
        }
        assert(ls[0].0 != key);
        lemma_label_at(ls.skip(1), key, i - 1);
    }
}

proof fn lemma_label_absent(ls: Seq<(Seq<char>, Seq<char>)>, key: Seq<char>)
    requires
        forall|j: int| 0 <= j < ls.len() ==> (#[trigger] ls[j]).0 != key,
    ensures
        label(ls, key) is None,
    decreases ls.len(),
{
    if ls.len() > 0 {
        assert(ls[0].0 != key);
        assert forall|j: int| 0 <= j < ls.skip(1).len() implies (#[trigger] ls.skip(1)[j]).0 != key by {
            assert(ls.skip(1)[j] == ls[j + 1]);
        }
        lemma_label_absent(ls.skip(1), key);
    }
}
} // verus!
