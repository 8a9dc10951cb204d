//! Replacing a container without losing the old one on failure.
//!
//! The replacement takes the old container's name, so the old one has to
//! make way first. It is stopped and renamed aside, removed only once the
//! replacement runs, and otherwise renamed back and restarted.

use vstd::prelude::*;

use crate::text::{join2, owned, push_str};

verus! {

/// The name the old container waits under while its replacement starts.
pub open spec fn aside_name_spec(name: Seq<char>) -> Seq<char> {
    name + ".replaced"@
}

/// The name the old container waits under while its replacement starts.
pub fn aside_name(name: &str) -> (res: String)
    ensures
        res@ == aside_name_spec(name@),
{
    join2(name, ".replaced")
}

/// What to do with a container left aside by an earlier, interrupted
/// replacement.
#[derive(Clone, Copy, Debug, PartialEq, Eq, Structural)]
pub enum LeftAside {
    /// None is there.
    Nothing,
    /// The primary exists too: the aside copy is stale, remove it.
    RemoveStale,
    /// The primary is gone: the aside one may be the only copy, bring it
    /// back first.
    Restore,
}

/// What to do with a container found aside, given whether the primary
/// container and an aside one exist.
pub fn left_aside(primary_exists: bool, aside_exists: bool) -> (res: LeftAside)
    ensures
        !aside_exists ==> res == LeftAside::Nothing,
        aside_exists && primary_exists ==> res == LeftAside::RemoveStale,
        aside_exists && !primary_exists ==> res == LeftAside::Restore,
{
    if !aside_exists {
        LeftAside::Nothing
    } else if primary_exists {
        LeftAside::RemoveStale
    } else {
        LeftAside::Restore
    }
}

/// What becomes of the container set aside once the replacement was tried.
#[derive(Clone, Copy, Debug, PartialEq, Eq, Structural)]
pub enum AfterReplace {
    /// Nothing was set aside.
    Nothing,
    /// The replacement runs: remove the old container.
    RemoveAside,
    /// The replacement failed: rename the old container back and start it.
    RestoreAside,
}

/// What becomes of the container set aside (if any) once the replacement
/// succeeded or failed: the old container is removed only once its
/// replacement runs, and is otherwise put back.
pub fn after_replace(replacement_runs: bool, set_aside: bool) -> (res: AfterReplace)
    ensures
        !set_aside ==> res == AfterReplace::Nothing,
        set_aside && replacement_runs ==> res == AfterReplace::RemoveAside,
        set_aside && !replacement_runs ==> res == AfterReplace::RestoreAside,
{
    if !set_aside {
        AfterReplace::Nothing
    } else if replacement_runs {
        AfterReplace::RemoveAside
    } else {
        AfterReplace::RestoreAside
    }
}

/// Whether a Docker error status is one of `codes` (such as 304, already
/// stopped, or 404, no such container).
pub fn is_status(status: Option<u16>, codes: &Vec<u16>) -> (res: bool)
    ensures
        res == match status {
            Some(s) => codes@.contains(s),
            None => false,
        },
{
    if status.is_none() {
        return false;
    }
    let s = status.unwrap();
    let mut i: usize = 0;
    while i < codes.len()
        invariant
            status == Some(s),
            i <= codes.len(),
            forall|j: int| 0 <= j < i ==> codes@[j] != s,
        decreases codes.len() - i,
    {
        if codes[i] == s {
            assert(codes@[i as int] == s);
            return true;
        }
        i = i + 1;
    }
    false
}

} // verus!
