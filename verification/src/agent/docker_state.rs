//! Reading what Docker reports: a container's state, whether an image must
//! be pulled, which registry credentials apply, which container a service
//! already has.

use vstd::prelude::*;

use crate::agent::json::{json_string_at, string_at};
use crate::agent::codec::{base64_standard_decode, decode_base64, text_of_utf8, utf8_text};
use crate::text::{
    chars_of, find_char_from, owned, same_text, split_once, split_once_char, starts_with, string_of,
    trim_start_char,
};

verus! {

/// Where a workload stands.
#[derive(Clone, Copy, Debug, PartialEq, Eq, Structural)]
pub enum WorkloadStatus {
    Pending,
    Creating,
    Running,
    Stopping,
    Stopped,
    Completed,
    Failed,
}

/// The workload status a container state maps to. `state` is Docker's
/// state in lowercase; `exit_code` is the container's last exit code.
/// Paused and restarting containers count as running; an exited or dead
/// one completed if it exited with 0 and failed otherwise (also when its
/// code is unknown).
pub open spec fn workload_status_spec(state: Seq<char>, exit_code: Option<i64>) -> WorkloadStatus {
    if state == "running"@ || state == "paused"@ || state == "restarting"@ {
        WorkloadStatus::Running
    } else if state == "created"@ {
        WorkloadStatus::Creating
    } else if state == "exited"@ || state == "dead"@ {
        if exit_code == Some(0i64) {
            WorkloadStatus::Completed
        } else {
            WorkloadStatus::Failed
        }
    } else {
        WorkloadStatus::Stopped
    }
}

/// The workload status a container state maps to.
pub fn workload_status(state: &str, exit_code: Option<i64>) -> (res: WorkloadStatus)
    ensures
        res == workload_status_spec(state@, exit_code),
{
    if same_text(state, "running") || same_text(state, "paused") || same_text(state, "restarting") {
        WorkloadStatus::Running
    } else if same_text(state, "created") {
        WorkloadStatus::Creating
    } else if same_text(state, "exited") || same_text(state, "dead") {
        let code: i64 = match exit_code {
            Some(c) => c,
            None => -1,
        };
        if code == 0 {
            WorkloadStatus::Completed
        } else {
            WorkloadStatus::Failed
        }
    } else {
        WorkloadStatus::Stopped
    }
}

/// The lowercase name of a status.
pub open spec fn status_name_spec(s: WorkloadStatus) -> Seq<char> {
    match s {
        WorkloadStatus::Pending => "pending"@,
        WorkloadStatus::Creating => "creating"@,
        WorkloadStatus::Running => "running"@,
        WorkloadStatus::Stopping => "stopping"@,
        WorkloadStatus::Stopped => "stopped"@,
        WorkloadStatus::Completed => "completed"@,
        WorkloadStatus::Failed => "failed"@,
    }
}

/// The lowercase name of a status, as reports carry it.
pub fn status_name(s: WorkloadStatus) -> (res: &'static str)
    ensures
        res@ == status_name_spec(s),
{
    match s {
        WorkloadStatus::Pending => "pending",
        WorkloadStatus::Creating => "creating",
        WorkloadStatus::Running => "running",
        WorkloadStatus::Stopping => "stopping",
        WorkloadStatus::Stopped => "stopped",
        WorkloadStatus::Completed => "completed",
        WorkloadStatus::Failed => "failed",
    }
}

/// The last position of `c` in `s`.
pub open spec fn rfind_char(s: Seq<char>, c: char) -> Option<int>
    decreases s.len(),
{
    if s.len() == 0 {
        None
    } else if s.last() == c {
        Some(s.len() - 1)
    } else {
        rfind_char(s.drop_last(), c)
    }
}

/// The tag of an image reference: what follows its last `:`, or `latest`.
pub open spec fn image_tag(image: Seq<char>) -> Seq<char> {
    match rfind_char(image, ':') {
        Some(k) => image.skip(k + 1),
        None => "latest"@,
    }
}

/// An image is pulled on every create when its tag is `latest` (or it has
/// none), to pick up upstream updates; a pinned tag is pulled only when the
/// image is not present.
pub open spec fn always_pull_spec(image: Seq<char>) -> bool {
    image_tag(image) == "latest"@
}

proof fn lemma_rfind(s: Seq<char>, c: char)
    ensures
        rfind_char(s, c) matches Some(k) ==> 0 <= k < s.len() && s[k] == c,
    decreases s.len(),
{
    if s.len() > 0 {
        lemma_rfind(s.drop_last(), c);
    }
}

/// Whether an image is pulled even when it is present.
pub fn always_pull(image: &str) -> (res: bool)
    ensures
        res == always_pull_spec(image@),
{
    let cs = chars_of(image);
    let mut i: usize = cs.len();
    assert(cs@.take(i as int) =~= image@);
    while i > 0 && cs[i - 1] != ':'
        invariant
            cs@ == image@,
            i <= cs.len(),
            rfind_char(image@, ':') == rfind_char(cs@.take(i as int), ':'),
        decreases i,
    {
        assert(cs@.take(i as int).drop_last() =~= cs@.take(i - 1));
        i = i - 1;
    }
    if i == 0 {
        assert(rfind_char(cs@.take(0), ':') is None);
        true
    } else {
        assert(cs@.take(i as int).last() == ':');
        let tag = string_of(&cs, i, cs.len());
        assert(tag@ =~= image@.skip(i as int));
        same_text(tag.as_str(), "latest")
    }
}

/// The registry host of an image reference: the part before its first `/`,
/// when that part names a host (it holds a `.` or a `:`). Docker Hub images
/// have none.
pub open spec fn registry_host_spec(image: Seq<char>) -> Option<Seq<char>> {
    match split_once(image, '/') {
        Some((h, _)) => if find_char_from(h, '.', 0) is Some || find_char_from(h, ':', 0) is Some {
            Some(h)
        } else {
            None
        },
        None => None,
    }
}

/// The registry host of an image reference, if it names one.
pub fn registry_host(image: &str) -> (res: Option<String>)
    ensures
        match registry_host_spec(image@) {
            Some(h) => res matches Some(r) && r@ == h,
            None => res is None,
        },
{
    match split_once_char(image, '/') {
        Some((h, _rest)) => {
            let hs = chars_of(h.as_str());
            if crate::text::find_char(&hs, '.', 0).is_some() || crate::text::find_char(&hs, ':', 0).is_some() {
                Some(h)
            } else {
                None
            }
        },
        None => None,
    }
}

/// The `auth` entry that the Docker client configuration `raw` (the text of
/// `~/.docker/config.json`) holds for `host`: the string at
/// `auths.<host>.auth`, if `raw` is JSON and holds one there.
pub open spec fn docker_config_auth(raw: Seq<char>, host: Seq<char>) -> Option<Seq<char>> {
    json_string_at(raw, seq!["auths"@, host, "auth"@])
}

/// Reads `auths.<host>.auth` out of a Docker client configuration.
fn config_auth(raw: &str, host: &str) -> (res: Option<String>)
    ensures
        match docker_config_auth(raw@, host@) {
            Some(a) => res matches Some(r) && r@ == a,
            None => res is None,
        },
{
    let path: Vec<&str> = vec!["auths", host, "auth"];
    assert(path@.map_values(|k: &str| k@) =~= seq!["auths"@, host@, "auth"@]);
    string_at(raw, &path)
}

/// The user name and password of a registry's `auth` entry: base64 of
/// `user:password`.
pub open spec fn credentials_of_auth(auth: Seq<char>) -> Option<(Seq<char>, Seq<char>)> {
    match base64_standard_decode(auth) {
        Some(bytes) => match utf8_text(bytes) {
            Some(t) => split_once(t, ':'),
            None => None,
        },
        None => None,
    }
}

/// The credentials to pull `image` with: those the Docker client
/// configuration `config` (absent if there is none) holds for the image's
/// registry host. Docker Hub images get none.
pub open spec fn registry_credentials_spec(image: Seq<char>, config: Option<Seq<char>>) -> Option<(Seq<char>, Seq<char>)> {
    match registry_host_spec(image) {
        Some(host) => match config {
            Some(raw) => match docker_config_auth(raw, host) {
                Some(auth) => credentials_of_auth(auth),
                None => None,
            },
            None => None,
        },
        None => None,
    }
}

/// The user name and password to pull `image` with.
pub fn registry_credentials(image: &str, config: Option<&str>) -> (res: Option<(String, String)>)
    ensures
        match registry_credentials_spec(image@, match config {
            Some(c) => Some(c@),
            None => None,
        }) {
            Some((u, p)) => res matches Some(r) && r.0@ == u && r.1@ == p,
            None => res is None,
        },
{
    let host = match registry_host(image) {
        Some(h) => h,
        None => {
            return None;
        },
    };
    let raw = match config {
        Some(c) => c,
        None => {
            return None;
        },
    };
    let auth = match config_auth(raw, host.as_str()) {
        Some(a) => a,
        None => {
            return None;
        },
    };
    let bytes = match decode_base64(auth.as_str()) {
        Some(b) => b,
        None => {
            return None;
        },
    };
    let text = match text_of_utf8(bytes) {
        Some(t) => t,
        None => {
            return None;
        },
    };
    split_once_char(text.as_str(), ':')
}

/// A container's name as Docker lists it, without the leading `/`s.
pub fn listed_name(raw: &str) -> (res: String)
    ensures
        res@ == trim_start_char(raw@, '/'),
{
    let cs = chars_of(raw);
    let mut i: usize = 0;
    assert(cs@.skip(0) =~= raw@);
    while i < cs.len() && cs[i] == '/'
        invariant
            cs@ == raw@,
            i <= cs.len(),
            trim_start_char(raw@, '/') == trim_start_char(cs@.skip(i as int), '/'),
        decreases cs.len() - i,
    {
        assert(cs@.skip(i as int).skip(1) =~= cs@.skip(i + 1));
        i = i + 1;
    }
    let res = string_of(&cs, i, cs.len());
    assert(res@ =~= cs@.skip(i as int));
    res
}

/// Whether a listed container is the running container of `prefix`'s
/// service: Docker's name filter matches substrings, so `keycloak` must not
/// pick up `keycloak-db`; the name has to be exactly `orca-<prefix>`.
pub fn is_service_container(first_name: Option<&str>, prefix: &str) -> (res: bool)
    ensures
        res == (match first_name {
            Some(n) => trim_start_char(n@, '/'),
            None => Seq::<char>::empty(),
        } == "orca-"@ + prefix@),
{
    let name = match first_name {
        Some(n) => listed_name(n),
        None => String::new(),
    };
    let wanted = crate::agent::workload::container_name(prefix);
    same_text(name.as_str(), wanted.as_str())
}

} // verus!
