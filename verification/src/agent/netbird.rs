//! The NetBird WireGuard mesh on this node: how it is joined, and what its
//! status output says of this node's mesh address and connection.

use vstd::prelude::*;

use crate::agent::json::{json_parses, json_string_at, parse_json, string_at};

use crate::text::{contains, find, is_whitespace, lines, owned, push_str, views};

verus! {

/// Manages this node's membership in a NetBird mesh.
pub struct NetbirdManager {
    /// The self-hosted management server; NetBird's local configuration
    /// when absent.
    pub management_url: Option<String>,
}

impl NetbirdManager {
    /// A manager for the mesh at `management_url`, or NetBird's configured
    /// one.
    pub fn new(management_url: Option<String>) -> (res: NetbirdManager)
        ensures
            crate::agent::workload::opt_chars(res.management_url) == crate::agent::workload::opt_chars(
                management_url,
            ),
    {
        NetbirdManager { management_url }
    }

    /// The arguments of `netbird` that join the mesh with `setup_key`.
    pub fn connect_args(&self, setup_key: &str) -> (res: Vec<String>)
        ensures
            views(res@) == seq!["up"@, "--setup-key"@, setup_key@] + match self.management_url {
                Some(u) => seq!["--management-url"@, u@],
                None => Seq::empty(),
            },
    {
        let mut a: Vec<String> = Vec::new();
        a.push(owned("up"));
        a.push(owned("--setup-key"));
        a.push(owned(setup_key));
        if let Some(u) = &self.management_url {
            a.push(owned("--management-url"));
            a.push(owned(u.as_str()));
        }
        assert(views(a@) =~= seq!["up"@, "--setup-key"@, setup_key@] + match self.management_url {
            Some(u) => seq!["--management-url"@, u@],
            None => Seq::<Seq<char>>::empty(),
        });
        a
    }
}

/// `s` without any trailing run of `/32` (the host prefix NetBird writes
/// after an address).
pub open spec fn strip_host_prefix(s: Seq<char>) -> Seq<char>
    decreases s.len(),
{
    if s.len() >= 3 && s.subrange(s.len() - 3, s.len() as int) == "/32"@ {
        strip_host_prefix(s.take(s.len() - 3))
    } else {
        s
    }
}

/// An address without its `/32` suffixes.
pub fn strip_host_prefix_exec(s: &str) -> (res: String)
    ensures
        res@ == strip_host_prefix(s@),
{
    let cs = crate::text::chars_of(s);
    let mut hi: usize = cs.len();
    proof {
        reveal_strlit("/32");
    }
    assert(cs@.take(hi as int) =~= s@);
    while hi >= 3 && cs[hi - 3] == '/' && cs[hi - 2] == '3' && cs[hi - 1] == '2'
        invariant
            cs@ == s@,
            hi <= cs.len(),
            strip_host_prefix(s@) == strip_host_prefix(cs@.take(hi as int)),
        decreases hi,
    {
        let ghost t = cs@.take(hi as int);
        proof {
            reveal_strlit("/32");
        }
        assert(t.subrange(hi - 3, hi as int) =~= "/32"@);
        assert(t.take(hi - 3) =~= cs@.take(hi - 3));
        hi = hi - 3;
    }
    proof {
        let t = cs@.take(hi as int);
        if hi >= 3 && t.subrange(hi - 3, hi as int) == "/32"@ {
            assert(t.subrange(hi - 3, hi as int)[0] == cs@[hi - 3]);
            assert(t.subrange(hi - 3, hi as int)[1] == cs@[hi - 2]);
            assert(t.subrange(hi - 3, hi as int)[2] == cs@[hi - 1]);
        }
    }
    let res = crate::text::string_of(&cs, 0, hi);
    assert(res@ =~= cs@.take(hi as int));
    res
}

/// What `netbird status --json` holds at `localPeerState.ip`: none if the
/// text is not JSON; some, with the address if it holds a string there.
pub open spec fn status_json_ip(text: Seq<char>) -> Option<Option<Seq<char>>> {
    if json_parses(text) {
        Some(json_string_at(text, seq!["localPeerState"@, "ip"@]))
    } else {
        None
    }
}

/// Reads `localPeerState.ip` out of NetBird's JSON status.
fn json_ip(text: &str) -> (res: Option<Option<String>>)
    ensures
        match status_json_ip(text@) {
            None => res is None,
            Some(None) => res matches Some(None),
            Some(Some(ip)) => res matches Some(Some(r)) && r@ == ip,
        },
{
    if parse_json(text).is_none() {
        return None;
    }
    let path: Vec<&str> = vec!["localPeerState", "ip"];
    assert(path@.map_values(|k: &str| k@) =~= seq!["localPeerState"@, "ip"@]);
    Some(string_at(text, &path))
}

/// The last whitespace-separated word of a line, if it has one.
pub open spec fn last_word(l: Seq<char>) -> Option<Seq<char>> {
    let t = crate::text::trim_end(l);
    if t.len() == 0 {
        None
    } else {
        Some(t.skip(last_space_end(t)))
    }
}

/// Where the last word of `t` starts: just after its last whitespace.
pub open spec fn last_space_end(t: Seq<char>) -> int
    decreases t.len(),
{
    if t.len() == 0 {
        0
    } else if is_whitespace(t.last()) {
        t.len() as int
    } else {
        last_space_end(t.drop_last())
    }
}

/// The first line of text status output that names an IP (holds `IP:`)
/// and has a last word: that word.
pub open spec fn text_ip(ls: Seq<Seq<char>>) -> Option<Seq<char>>
    decreases ls.len(),
{
    if ls.len() == 0 {
        None
    } else if contains(ls[0], "IP:"@) && last_word(ls[0]) is Some {
        last_word(ls[0])
    } else {
        text_ip(ls.skip(1))
    }
}

/// This node's mesh address per NetBird's status output: from the JSON
/// form if the output is JSON, else from the first text line naming an IP;
/// `/32` suffixes dropped.
pub open spec fn mesh_ip_spec(stdout: Seq<char>) -> Option<Seq<char>> {
    match status_json_ip(stdout) {
        Some(ip) => match ip {
            Some(a) => Some(strip_host_prefix(a)),
            None => None,
        },
        None => match text_ip(lines(stdout)) {
            Some(w) => Some(strip_host_prefix(w)),
            None => None,
        },
    }
}

fn last_word_exec(l: &str) -> (res: Option<String>)
    ensures
        match last_word(l@) {
            Some(w) => res matches Some(r) && r@ == w,
            None => res is None,
        },
{
    let cs = crate::text::chars_of(l);
    let mut hi: usize = cs.len();
    assert(cs@.take(hi as int) =~= l@);
    while hi > 0 && crate::text::is_whitespace_char(cs[hi - 1])
        invariant
            cs@ == l@,
            hi <= cs.len(),
            crate::text::trim_end(l@) == crate::text::trim_end(cs@.take(hi as int)),
        decreases hi,
    {
        assert(cs@.take(hi as int).drop_last() =~= cs@.take(hi - 1));
        hi = hi - 1;
    }
    proof {
        if hi > 0 {
            assert(cs@.take(hi as int).last() == cs@[hi - 1]);
        }
        assert(crate::text::trim_end(cs@.take(hi as int)) == cs@.take(hi as int));
    }
    if hi == 0 {
        return None;
    }
    let ghost t = cs@.take(hi as int);
    let mut lo: usize = hi;
    assert(t.take(lo as int) =~= t);
    while lo > 0 && !crate::text::is_whitespace_char(cs[lo - 1])
        invariant
            cs@ == l@,
            lo <= hi <= cs.len(),
            t == cs@.take(hi as int),
            last_space_end(t) == last_space_end(t.take(lo as int)),
        decreases lo,
    {
        assert(t.take(lo as int).drop_last() =~= t.take(lo - 1));
        assert(t.take(lo as int).last() == cs@[lo - 1]);
        lo = lo - 1;
    }
    proof {
        if lo > 0 {
            assert(t.take(lo as int).last() == cs@[lo - 1]);
        }
    }
    let w = crate::text::string_of(&cs, lo, hi);
    assert(w@ =~= t.skip(lo as int));
    Some(w)
}

/// This node's mesh address per NetBird's status output.
pub fn mesh_ip(stdout: &str) -> (res: Option<String>)
    ensures
        match mesh_ip_spec(stdout@) {
            Some(ip) => res matches Some(r) && r@ == ip,
            None => res is None,
        },
{
    match json_ip(stdout) {
        Some(Some(ip)) => {
            return Some(strip_host_prefix_exec(ip.as_str()));
        },
        Some(None) => {
            return None;
        },
        None => {},
    }
    let ls = crate::text::lines_of(stdout);
    let ghost lv = views(ls@);
    let mut i: usize = 0;
    assert(lv.skip(0) =~= lv);
    proof {
        reveal_strlit("IP:");
    }
    while i < ls.len()
        invariant
            lv == views(ls@),
            lv == lines(stdout@),
            status_json_ip(stdout@) is None,
            i <= ls.len(),
            text_ip(lv) == text_ip(lv.skip(i as int)),
        decreases ls.len() - i,
    {
        assert(lv.skip(i as int)[0] == ls@[i as int]@);
        assert(lv.skip(i as int).skip(1) =~= lv.skip(i + 1));
        if crate::agent::netbird::has_text(ls[i].as_str(), "IP:") {
            if let Some(w) = last_word_exec(ls[i].as_str()) {
                return Some(strip_host_prefix_exec(w.as_str()));
            }
        }
        i = i + 1;
    }
    assert(lv.skip(i as int) =~= Seq::<Seq<char>>::empty());
    None
}

/// Whether `s` holds `p`.
pub fn has_text(s: &str, p: &str) -> (res: bool)
    ensures
        res == contains(s@, p@),
{
    let cs = crate::text::chars_of(s);
    let ps = crate::text::chars_of(p);
    crate::text::find_chars_from(&cs, &ps, 0).is_some()
}

/// Whether NetBird's status output says it is connected.
pub fn is_connected(stdout: &str) -> (res: bool)
    ensures
        res == (contains(stdout@, "Connected"@) || contains(stdout@, "connected"@)),
{
    has_text(stdout, "Connected") || has_text(stdout, "connected")
}

} // verus!
