//! The address of the master's agent channel, and what the agent can tell
//! of a master host from its URL alone.

use vstd::prelude::*;

use crate::text::{
    chars_of, decimal, find_char_from, owned, push_decimal, push_str, replace, replace_all,
    starts_with, string_of,
};

verus! {

/// A leader URL with its scheme switched to WebSocket: `https://` becomes
/// `wss://` and `http://` becomes `ws://`, wherever they occur.
pub open spec fn ws_base(leader_url: Seq<char>) -> Seq<char> {
    replace(replace(leader_url, "https://"@, "wss://"@), "http://"@, "ws://"@)
}

/// A node address made safe for a query string: each `:` as `%3A`.
pub open spec fn encoded_address(address: Seq<char>) -> Seq<char> {
    replace(address, ":"@, "%3A"@)
}

/// The master's agent-channel URL: the node's id and address, and no
/// credential, so it is safe to log.
pub open spec fn ws_url_spec(leader_url: Seq<char>, node_id: u64, address: Seq<char>) -> Seq<char> {
    ws_base(leader_url) + "/api/v1/ws/agent?node_id="@ + decimal(node_id as nat) + "&address="@
        + encoded_address(address)
}

fn base_and_address(leader_url: &str, address: &str) -> (res: (String, String))
    ensures
        res.0@ == ws_base(leader_url@),
        res.1@ == encoded_address(address@),
{
    proof {
        reveal_strlit("https://");
        reveal_strlit("http://");
        reveal_strlit(":");
    }
    let b = replace_all(leader_url, "https://", "wss://");
    let base = replace_all(b.as_str(), "http://", "ws://");
    let addr = replace_all(address, ":", "%3A");
    (base, addr)
}

/// The master's agent-channel URL. The cluster token travels in a header,
/// never here.
pub fn build_ws_url(leader_url: &str, node_id: u64, address: &str) -> (res: String)
    ensures
        res@ == ws_url_spec(leader_url@, node_id, address@),
{
    let (mut url, addr) = base_and_address(leader_url, address);
    push_str(&mut url, "/api/v1/ws/agent?node_id=");
    push_decimal(&mut url, node_id);
    push_str(&mut url, "&address=");
    push_str(&mut url, addr.as_str());
    url
}

/// The value of the `Authorization` header that carries the token.
pub fn bearer_value(token: &str) -> (res: String)
    ensures
        res@ == "Bearer "@ + token@,
{
    let mut v = owned("Bearer ");
    push_str(&mut v, token);
    v
}

/// The last position of `c` in `s`.
pub open spec fn last_char(s: Seq<char>, c: char) -> Option<int>
    decreases s.len(),
{
    if s.len() == 0 {
        None
    } else if s.last() == c {
        Some(s.len() - 1)
    } else {
        last_char(s.drop_last(), c)
    }
}

/// The host part of a URL authority: `host:port`, `host`, or `[v6]:port`
/// (the address between the brackets).
pub open spec fn host_of_spec(authority: Seq<char>) -> Seq<char> {
    if authority.len() > 0 && authority[0] == '[' {
        let b = authority.skip(1);
        match find_char_from(b, ']', 0) {
            Some(k) => b.take(k),
            None => b,
        }
    } else {
        match last_char(authority, ':') {
            Some(k) => authority.take(k),
            None => authority,
        }
    }
}

proof fn lemma_last_char(s: Seq<char>, c: char)
    ensures
        last_char(s, c) matches Some(k) ==> 0 <= k < s.len() && s[k] == c,
    decreases s.len(),
{
    if s.len() > 0 {
        lemma_last_char(s.drop_last(), c);
    }
}

/// The host part of a URL authority.
pub fn host_of(authority: &str) -> (res: String)
    ensures
        res@ == host_of_spec(authority@),
{
    let cs = chars_of(authority);
    if cs.len() > 0 && cs[0] == '[' {
        let ghost b = cs@.skip(1);
        proof {
            crate::text::lemma_find_char_skip(cs@, ']', 1, 0);
            crate::text::lemma_find_char_from(cs@, ']', 1);
        }
        match crate::text::find_char(&cs, ']', 1) {
            Some(k) => {
                let res = string_of(&cs, 1, k);
                assert(res@ =~= b.take(k - 1));
                res
            },
            None => {
                let res = string_of(&cs, 1, cs.len());
                assert(res@ =~= b);
                res
            },
        }
    } else {
        let mut i: usize = cs.len();
        assert(cs@.take(i as int) =~= authority@);
        while i > 0 && cs[i - 1] != ':'
            invariant
                cs@ == authority@,
                i <= cs.len(),
                last_char(authority@, ':') == last_char(cs@.take(i as int), ':'),
            decreases i,
        {
            assert(cs@.take(i as int).drop_last() =~= cs@.take(i - 1));
            i = i - 1;
        }
        if i == 0 {
            assert(last_char(cs@.take(0), ':') is None);
            owned(authority)
        } else {
            assert(cs@.take(i as int).last() == ':');
            let res = string_of(&cs, 0, i - 1);
            assert(res@ =~= authority@.take(i - 1));
            res
        }
    }
}


/// An IP address as its octets or its sixteen-bit groups.
pub enum IpAddress {
    V4(u8, u8, u8, u8),
    V6([u16; 8]),
}

/// Addresses whose traffic stays on a network that is not public:
/// loopback, the RFC 1918 private ranges, link-local, and `100.64.0.0/10`
/// (the range WireGuard meshes such as NetBird and Tailscale assign, whose
/// traffic is encrypted already); for IPv6 loopback, unique-local
/// (`fc00::/7`) and link-local unicast (`fe80::/10`).
pub open spec fn private_or_mesh_spec(ip: IpAddress) -> bool {
    match ip {
        IpAddress::V4(a, b, _, _) => a == 127 || a == 10 || (a == 172 && 16 <= b <= 31) || (a == 192 && b
            == 168) || (a == 169 && b == 254) || (a == 100 && 64 <= b <= 127),
        IpAddress::V6(g) => (g[0] == 0 && g[1] == 0 && g[2] == 0 && g[3] == 0 && g[4] == 0 && g[5] == 0
            && g[6] == 0 && g[7] == 1) || (0xfc00 <= g[0] <= 0xfdff) || (0xfe80 <= g[0] <= 0xfebf),
    }
}

/// Whether traffic to `ip` stays off public networks.
pub fn is_private_or_mesh(ip: &IpAddress) -> (res: bool)
    ensures
        res == private_or_mesh_spec(*ip),
{
    match ip {
        IpAddress::V4(a, b, _, _) => *a == 127 || *a == 10 || (*a == 172 && 16 <= *b && *b <= 31) || (*a == 192
            && *b == 168) || (*a == 169 && *b == 254) || (*a == 100 && 64 <= *b && *b <= 127),
        IpAddress::V6(g) => (g[0] == 0 && g[1] == 0 && g[2] == 0 && g[3] == 0 && g[4] == 0 && g[5] == 0 && g[6]
            == 0 && g[7] == 1) || (0xfc00 <= g[0] && g[0] <= 0xfdff) || (0xfe80 <= g[0] && g[0] <= 0xfebf),
    }
}

/// The authority of a URL's remainder: what precedes the first `/` or `?`.
pub open spec fn authority_spec(rest: Seq<char>) -> Seq<char> {
    rest.take(first_of_slash_or_query(rest, 0))
}

/// The first position at or after `i` holding `/` or `?`, or the end.
pub open spec fn first_of_slash_or_query(s: Seq<char>, i: int) -> int
    decreases s.len() - i,
{
    if i < 0 || i >= s.len() {
        s.len() as int
    } else if s[i] == '/' || s[i] == '?' {
        i
    } else {
        first_of_slash_or_query(s, i + 1)
    }
}

/// `localhost`, in any case.
pub open spec fn is_localhost(h: Seq<char>) -> bool {
    h.len() == 9 && forall|i: int| 0 <= i < 9 ==> h[i] == "localhost"@[i] || h[i] == "LOCALHOST"@[i]
}

/// The master host a URL names, if the URL would carry the token in
/// cleartext (`ws://`) to a host other than `localhost`. Whether that host
/// is a private or mesh address is decided from its parsed address.
pub open spec fn cleartext_host_spec(url: Seq<char>) -> Option<Seq<char>> {
    if starts_with(url, "ws://"@) {
        let h = host_of_spec(authority_spec(url.skip(5)));
        if is_localhost(h) {
            None
        } else {
            Some(h)
        }
    } else {
        None
    }
}

/// The master host a URL names, if the URL would carry the token in
/// cleartext to a host other than `localhost`. `wss://` never does.
pub fn cleartext_host(url: &str) -> (res: Option<String>)
    ensures
        match cleartext_host_spec(url@) {
            Some(h) => res matches Some(r) && r@ == h,
            None => res is None,
        },
{
    proof {
        reveal_strlit("ws://");
        reveal_strlit("localhost");
        reveal_strlit("LOCALHOST");
    }
    if !crate::text::starts_with_str(url, "ws://") {
        return None;
    }
    let cs = chars_of(url);
    let ghost rest = url@.skip(5);
    let mut i: usize = 5;
    assert(first_of_slash_or_query(rest, 0) == first_of_slash_or_query(rest, (i - 5) as int));
    while i < cs.len() && cs[i] != '/' && cs[i] != '?'
        invariant
            cs@ == url@,
            5 <= i <= cs.len(),
            rest == url@.skip(5),
            first_of_slash_or_query(rest, 0) == first_of_slash_or_query(rest, (i - 5) as int),
        decreases cs.len() - i,
    {
        assert(rest[i - 5] == cs@[i as int]);
        i = i + 1;
    }
    proof {
        if i < cs.len() {
            assert(rest[i - 5] == cs@[i as int]);
        }
    }
    let authority = string_of(&cs, 5, i);
    assert(authority@ =~= authority_spec(rest));
    let host = host_of(authority.as_str());
    let hs = chars_of(host.as_str());
    let lower = chars_of("localhost");
    let upper = chars_of("LOCALHOST");
    let mut local = hs.len() == 9;
    let mut k: usize = 0;
    while local && k < 9
        invariant
            hs@ == host@,
            lower@ == "localhost"@,
            upper@ == "LOCALHOST"@,
            lower.len() == 9,
            upper.len() == 9,
            k <= 9,
            local ==> hs.len() == 9 && forall|j: int| 0 <= j < k ==> hs@[j] == lower@[j] || hs@[j] == upper@[j],
            !local ==> !is_localhost(host@),
        decreases 9 - k + (if local { 1int } else { 0int }),
    {
        if hs[k] != lower[k] && hs[k] != upper[k] {
            local = false;
        } else {
            k = k + 1;
        }
    }
    if local {
        None
    } else {
        Some(host)
    }
}

/// The master host, if the URL would carry the token and this node's
/// secrets in cleartext over a network that may be public: `host` is what
/// `cleartext_host` gave, `parsed` its address if it is one. A hostname
/// cannot be classified without resolving it, so it counts as exposed.
pub fn plaintext_exposure(host: Option<String>, parsed: Option<IpAddress>) -> (res: Option<String>)
    ensures
        match host {
            None => res is None,
            Some(h) => match parsed {
                Some(ip) => if private_or_mesh_spec(ip) {
                    res is None
                } else {
                    res matches Some(r) && r@ == h@
                },
                None => res matches Some(r) && r@ == h@,
            },
        },
{
    let h = match host {
        Some(h) => h,
        None => {
            return None;
        },
    };
    match parsed {
        Some(ip) => {
            if is_private_or_mesh(&ip) {
                None
            } else {
                Some(h)
            }
        },
        None => Some(h),
    }
}
} // verus!
