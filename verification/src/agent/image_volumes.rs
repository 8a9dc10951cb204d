//! Image-declared `VOLUME`s a service does not cover.
//!
//! Docker gives every `VOLUME` of an image that no mount covers exactly a
//! fresh anonymous volume on each container create, and leaves the previous
//! one dangling. For data that means a redeploy silently starts empty, as
//! when an image moves its `VOLUME` one level up.

use vstd::prelude::*;

use crate::agent::workload::WorkloadSpec;
use crate::text::{lemma_lex_total, lemma_lex_trans, lex_le, lex_le_exec, chars_of, owned, split, split_char, starts_with, string_of, trim_end_char, views};

verus! {

/// How an uncovered image volume relates to what the service declares.
pub enum Uncovered {
    /// A declared volume or mount lies inside it: the rest of that directory
    /// is recreated empty on every deploy.
    Partially { inside: String },
    /// Nothing covers it.
    Entirely,
}

/// How an uncovered volume is covered, as plain values.
pub enum UncoveredView {
    Partially(Seq<char>),
    Entirely,
}

impl View for Uncovered {
    type V = UncoveredView;

    open spec fn view(&self) -> UncoveredView {
        match self {
            Uncovered::Partially { inside } => UncoveredView::Partially(inside@),
            Uncovered::Entirely => UncoveredView::Entirely,
        }
    }
}

/// A path without trailing slashes; the root stays `/`.
pub open spec fn normalize_spec(p: Seq<char>) -> Seq<char> {
    let t = trim_end_char(p, '/');
    if t.len() == 0 {
        "/"@
    } else {
        t
    }
}

/// A path without trailing slashes; the root stays `/`.
pub fn normalize(path: &str) -> (res: String)
    ensures
        res@ == normalize_spec(path@),
{
    let cs = chars_of(path);
    let mut hi: usize = cs.len();
    assert(cs@.take(hi as int) =~= path@);
    while hi > 0 && cs[hi - 1] == '/'
        invariant
            cs@ == path@,
            hi <= cs.len(),
            trim_end_char(path@, '/') == trim_end_char(cs@.take(hi as int), '/'),
        decreases hi,
    {
        assert(cs@.take(hi as int).drop_last() =~= cs@.take(hi - 1));
        hi = hi - 1;
    }
    proof {
        if hi > 0 {
            assert(cs@.take(hi as int).last() != '/');
        }
        assert(trim_end_char(cs@.take(hi as int), '/') == cs@.take(hi as int));
    }
    if hi == 0 {
        owned("/")
    } else {
        let res = string_of(&cs, 0, hi);
        assert(res@ =~= cs@.take(hi as int));
        res
    }
}

/// Where a bind mount `host:container[:mode]` lands in the container.
pub open spec fn mount_target(m: Seq<char>) -> Option<Seq<char>> {
    if split(m, ':').len() >= 2 {
        Some(split(m, ':')[1])
    } else {
        None
    }
}

/// The targets of the bind mounts, normalized, in order.
pub open spec fn mount_targets(ms: Seq<Seq<char>>) -> Seq<Seq<char>>
    decreases ms.len(),
{
    if ms.len() == 0 {
        Seq::empty()
    } else {
        match mount_target(ms.last()) {
            Some(t) => mount_targets(ms.drop_last()).push(normalize_spec(t)),
            None => mount_targets(ms.drop_last()),
        }
    }
}

/// The paths a service declares: its volume's, then its mounts' targets,
/// each normalized.
pub open spec fn declared_spec(spec: WorkloadSpec) -> Seq<Seq<char>> {
    (match spec.volume {
        Some(v) => seq![normalize_spec(v.path@)],
        None => Seq::empty(),
    }) + mount_targets(views(spec.mounts@))
}

/// The first declared path strictly inside `v`.
pub open spec fn inside_of(declared: Seq<Seq<char>>, v: Seq<char>) -> Option<Seq<char>>
    decreases declared.len(),
{
    if declared.len() == 0 {
        None
    } else if starts_with(declared[0], v + "/"@) {
        Some(declared[0])
    } else {
        inside_of(declared.skip(1), v)
    }
}

/// How an image volume at `v` is covered.
pub open spec fn coverage(declared: Seq<Seq<char>>, v: Seq<char>) -> UncoveredView {
    match inside_of(declared, v) {
        Some(d) => UncoveredView::Partially(d),
        None => UncoveredView::Entirely,
    }
}

/// The image volumes, normalized, that no declared path covers exactly,
/// each with how it is covered, in the image's order.
pub open spec fn uncovered_entries(image: Seq<Seq<char>>, declared: Seq<Seq<char>>) -> Seq<(Seq<char>, UncoveredView)>
    decreases image.len(),
{
    if image.len() == 0 {
        Seq::empty()
    } else {
        let prev = uncovered_entries(image.drop_last(), declared);
        let v = normalize_spec(image.last());
        if declared.contains(v) {
            prev
        } else {
            prev.push((v, coverage(declared, v)))
        }
    }
}

/// Entries ordered by path.
pub open spec fn by_path(a: (Seq<char>, UncoveredView), b: (Seq<char>, UncoveredView)) -> bool {
    lex_le(a.0, b.0)
}

/// Entries in order of their paths.
pub open spec fn sorted_by_path(v: Seq<(Seq<char>, UncoveredView)>) -> bool {
    forall|i: int, j: int| 0 <= i < j < v.len() ==> #[trigger] by_path(v[i], v[j])
}

/// Entries as plain values.
pub open spec fn entries_view(v: Seq<(String, Uncovered)>) -> Seq<(Seq<char>, UncoveredView)> {
    v.map_values(|e: (String, Uncovered)| (e.0@, e.1@))
}

/// Where a bind mount lands in the container, normalized.
fn mount_target_exec(m: &str) -> (res: Option<String>)
    ensures
        match mount_target(m@) {
            Some(t) => res matches Some(r) && r@ == normalize_spec(t),
            None => res is None,
        },
{
    let parts = split_char(m, ':');
    if parts.len() >= 2 {
        assert(views(parts@)[1] == parts@[1]@);
        Some(normalize(parts[1].as_str()))
    } else {
        None
    }
}

/// The paths a service declares, normalized.
pub fn declared_paths(spec: &WorkloadSpec) -> (res: Vec<String>)
    ensures
        views(res@) == declared_spec(*spec),
{
    let mut res: Vec<String> = Vec::new();
    if let Some(v) = &spec.volume {
        res.push(normalize(v.path.as_str()));
    }
    let ghost head = views(res@);
    assert(head =~= (match spec.volume {
        Some(v) => seq![normalize_spec(v.path@)],
        None => Seq::<Seq<char>>::empty(),
    }));
    let ghost ms = views(spec.mounts@);
    let mut i: usize = 0;
    assert(ms.take(0) =~= Seq::<Seq<char>>::empty());
    while i < spec.mounts.len()
        invariant
            ms == views(spec.mounts@),
            i <= spec.mounts.len(),
            views(res@) == head + mount_targets(ms.take(i as int)),
        decreases spec.mounts.len() - i,
    {
        assert(ms.take(i + 1).drop_last() =~= ms.take(i as int));
        assert(ms.take(i + 1).last() == spec.mounts@[i as int]@);
        let ghost before = views(res@);
        if let Some(t) = mount_target_exec(spec.mounts[i].as_str()) {
            res.push(t);
            assert(views(res@) =~= before.push(t@));
        }
        i = i + 1;
    }
    assert(ms.take(i as int) =~= ms);
    res
}

fn contains_text(v: &Vec<String>, s: &String) -> (res: bool)
    ensures
        res == views(v@).contains(s@),
{
    let mut i: usize = 0;
    while i < v.len()
        invariant
            i <= v.len(),
            forall|j: int| 0 <= j < i ==> v@[j]@ != s@,
        decreases v.len() - i,
    {
        if v[i] == *s {
            assert(views(v@)[i as int] == s@);
            return true;
        }
        i = i + 1;
    }
    false
}

fn coverage_exec(declared: &Vec<String>, v: &String) -> (res: Uncovered)
    ensures
        res@ == coverage(views(declared@), v@),
{
    let mut prefix = owned(v.as_str());
    crate::text::push_str(&mut prefix, "/");
    let ghost all = views(declared@);
    let mut i: usize = 0;
    assert(all.skip(0) =~= all);
    while i < declared.len()
        invariant
            all == views(declared@),
            prefix@ == v@ + "/"@,
            i <= declared.len(),
            inside_of(all, v@) == inside_of(all.skip(i as int), v@),
        decreases declared.len() - i,
    {
        assert(all.skip(i as int)[0] == declared@[i as int]@);
        assert(all.skip(i as int).skip(1) =~= all.skip(i + 1));
        if crate::text::starts_with_str(declared[i].as_str(), prefix.as_str()) {
            return Uncovered::Partially { inside: owned(declared[i].as_str()) };
        }
        i = i + 1;
    }
    assert(all.skip(i as int) =~= Seq::<Seq<char>>::empty());
    Uncovered::Entirely
}

/// Insert `e` after every entry whose path comes no later than its own.
fn insert_sorted(out: &mut Vec<(String, Uncovered)>, e: (String, Uncovered))
    requires
        sorted_by_path(entries_view(old(out)@)),
    ensures
        sorted_by_path(entries_view(final(out)@)),
        entries_view(final(out)@).to_multiset() == entries_view(old(out)@).to_multiset().insert((e.0@, e.1@)),
{
    let ghost ev = (e.0@, e.1@);
    let ghost old_v = entries_view(out@);
    let mut p: usize = 0;
    while p < out.len() && lex_le_exec(out[p].0.as_str(), e.0.as_str())
        invariant
            old_v == entries_view(out@),
            ev.0 == e.0@,
            p <= out.len(),
            forall|k: int| 0 <= k < p ==> lex_le(#[trigger] old_v[k].0, ev.0),
        decreases out.len() - p,
    {
        assert(old_v[p as int].0 == out@[p as int].0@);
        p = p + 1;
    }
    out.insert(p, e);
    proof {
        let nv = entries_view(out@);
        assert(nv =~= old_v.insert(p as int, ev));
        vstd::seq_lib::to_multiset_insert(old_v, p as int, ev);
        if p < old_v.len() {
            lemma_lex_total(old_v[p as int].0, ev.0);
        }
        assert forall|i: int, j: int| 0 <= i < j < nv.len() implies by_path(nv[i], nv[j]) by {
            if j < p {
                assert(nv[i] == old_v[i] && nv[j] == old_v[j]);
            } else if j == p {
                assert(nv[i] == old_v[i]);
            } else if i == p {
                assert(nv[j] == old_v[j - 1]);
                if j - 1 > p {
                    assert(by_path(old_v[p as int], old_v[j - 1]));
                    lemma_lex_trans(ev.0, old_v[p as int].0, old_v[j - 1].0);
                }
            } else if i < p {
                assert(nv[i] == old_v[i] && nv[j] == old_v[j - 1]);
                lemma_lex_trans(old_v[i].0, ev.0, old_v[p as int].0);
                if j - 1 > p {
                    assert(by_path(old_v[p as int], old_v[j - 1]));
                    lemma_lex_trans(old_v[i].0, old_v[p as int].0, old_v[j - 1].0);
                }
            } else {
                assert(nv[i] == old_v[i - 1] && nv[j] == old_v[j - 1]);
            }
        }
    }
}

/// The image's `VOLUME` paths that no volume or mount of `spec` covers
/// exactly, normalized and sorted by path, each with how it is covered.
/// Docker mounts an anonymous volume at exactly each uncovered path, even if
/// a parent or a child directory is mounted.
pub fn uncovered(image_volumes: &Vec<String>, spec: &WorkloadSpec) -> (res: Vec<(String, Uncovered)>)
    ensures
        sorted_by_path(entries_view(res@)),
        entries_view(res@).to_multiset() == uncovered_entries(views(image_volumes@), declared_spec(*spec)).to_multiset(),
{
    let declared = declared_paths(spec);
    let ghost dv = views(declared@);
    let ghost image = views(image_volumes@);
    let mut out: Vec<(String, Uncovered)> = Vec::new();
    let mut i: usize = 0;
    assert(image.take(0) =~= Seq::<Seq<char>>::empty());
    assert(entries_view(out@) =~= Seq::<(Seq<char>, UncoveredView)>::empty());
    while i < image_volumes.len()
        invariant
            dv == views(declared@),
            dv == declared_spec(*spec),
            image == views(image_volumes@),
            i <= image_volumes.len(),
            sorted_by_path(entries_view(out@)),
            entries_view(out@).to_multiset() == uncovered_entries(image.take(i as int), dv).to_multiset(),
        decreases image_volumes.len() - i,
    {
        assert(image.take(i + 1).drop_last() =~= image.take(i as int));
        assert(image.take(i + 1).last() == image_volumes@[i as int]@);
        let v = normalize(image_volumes[i].as_str());
        if !contains_text(&declared, &v) {
            let how = coverage_exec(&declared, &v);
            proof {
                vstd::seq_lib::to_multiset_build(uncovered_entries(image.take(i as int), dv), (v@, how@));
            }
            insert_sorted(&mut out, (v, how));
        }
        i = i + 1;
    }
    assert(image.take(i as int) =~= image);
    out
}

/// An uncovered entry is an image volume no declared path covers exactly;
/// it is partially covered exactly when a declared path lies inside it, and
/// then by such a path.
pub open spec fn entry_ok(declared: Seq<Seq<char>>, e: (Seq<char>, UncoveredView)) -> bool {
    &&& !declared.contains(e.0)
    &&& match e.1 {
        UncoveredView::Partially(d) => declared.contains(d) && starts_with(d, e.0 + "/"@),
        UncoveredView::Entirely => forall|i: int| 0 <= i < declared.len() ==> !starts_with(#[trigger] declared[i], e.0 + "/"@),
    }
}

proof fn lemma_inside_of(declared: Seq<Seq<char>>, v: Seq<char>)
    ensures
        inside_of(declared, v) matches Some(d) ==> declared.contains(d) && starts_with(d, v + "/"@),
        inside_of(declared, v) is None ==> forall|i: int| 0 <= i < declared.len() ==> !starts_with(#[trigger] declared[i], v + "/"@),
    decreases declared.len(),
{
    if declared.len() > 0 {
        let rest = declared.skip(1);
        lemma_inside_of(rest, v);
        if let Some(d) = inside_of(rest, v) {
            if !starts_with(declared[0], v + "/"@) {
                let k = choose|k: int| 0 <= k < rest.len() && rest[k] == d;
                assert(declared[k + 1] == d);
            }
        } else {
            assert forall|i: int| 0 <= i < declared.len() && starts_with(#[trigger] declared[i], v + "/"@) implies inside_of(declared, v) is Some by {
                if i > 0 {
                    assert(rest[i - 1] == declared[i]);
                }
            }
        }
        if starts_with(declared[0], v + "/"@) {
            assert(declared[0] == declared[0]);
        }
    }
}

/// Every path reported uncovered is declared by no volume or mount of the
/// service, and its coverage is told right: partial exactly when some
/// declared path lies inside it.
pub proof fn law_uncovered_entries_are_right(image: Seq<Seq<char>>, declared: Seq<Seq<char>>)
    ensures
        forall|k: int| 0 <= k < uncovered_entries(image, declared).len() ==> entry_ok(
            declared,
            #[trigger] uncovered_entries(image, declared)[k],
        ),
    decreases image.len(),
{
    if image.len() > 0 {
        law_uncovered_entries_are_right(image.drop_last(), declared);
        let v = normalize_spec(image.last());
        lemma_inside_of(declared, v);
        let prev = uncovered_entries(image.drop_last(), declared);
        if !declared.contains(v) {
            let cur = prev.push((v, coverage(declared, v)));
            assert(uncovered_entries(image, declared) == cur);
            assert forall|k: int| 0 <= k < cur.len() implies entry_ok(declared, #[trigger] cur[k]) by {
                if k < prev.len() {
                    assert(cur[k] == prev[k]);
                } else {
                    assert(cur[k] == (v, coverage(declared, v)));
                }
            }
        }
    }
}

} // verus!
