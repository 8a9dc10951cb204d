//! The cluster token this agent authenticates with, and where a rotated
//! token is saved so that the agent's next start uses it too.
//!
//! The token is replaced in place when the master rotates it: a restart is
//! exactly what rotation must avoid. Saving it is a sequence of decisions
//! around a few file reads and writes, which the caller performs.

use vstd::prelude::*;

use crate::text::{concat_map, lines, owned, push_str, trim, trimmed};

verus! {

/// The token to present to the master.
pub struct TokenStore {
    rotated: Option<String>,
}

impl TokenStore {
    /// No token was rotated in yet.
    pub fn new() -> (res: TokenStore)
        ensures
            res.rotated() is None,
    {
        TokenStore { rotated: None }
    }

    /// The token rotated in, if any.
    pub closed spec fn rotated(&self) -> Option<Seq<char>> {
        match self.rotated {
            Some(t) => Some(t@),
            None => None,
        }
    }

    /// The token to present: the rotated one if any, else the one the
    /// process was started with (`ORCA_TOKEN`, empty if unset).
    pub fn current(&self, started_with: &str) -> (res: String)
        ensures
            res@ == presented(self.rotated(), started_with@),
    {
        match &self.rotated {
            Some(t) => owned(t.as_str()),
            None => owned(started_with),
        }
    }

    /// Use `token` from now on.
    pub fn set(&mut self, token: String)
        ensures
            final(self).rotated() == Some(token@),
    {
        self.rotated = Some(token);
    }
}

/// The token presented given the rotated one, if any, and the one the
/// process was started with.
pub open spec fn presented(rotated: Option<Seq<char>>, started_with: Seq<char>) -> Seq<char> {
    match rotated {
        Some(t) => t,
        None => started_with,
    }
}

/// A rotation takes effect at once: once `set` has stored a token, it is
/// the token presented, whatever the process was started with, until the
/// next rotation.
pub proof fn law_rotation_takes_effect_at_once(store: TokenStore, token: Seq<char>, started_with: Seq<char>)
    requires
        store.rotated() == Some(token),
    ensures
        presented(store.rotated(), started_with) == token,
{
}

/// What rotating did, reported back to the master.
pub struct Rotated {
    /// The agent's next start will use the new token too.
    pub persisted: bool,
    /// Where it was saved, or what the operator must change.
    pub detail: Option<String>,
}

/// A rotation outcome as plain values.
pub open spec fn rotated_view(r: Rotated) -> (bool, Option<Seq<char>>) {
    (r.persisted, match r.detail {
        Some(d) => Some(d@),
        None => None,
    })
}

/// The token was saved at `path`.
pub open spec fn saved_spec(path: Seq<char>) -> (bool, Option<Seq<char>>) {
    (true, Some("saved to "@ + path))
}

/// The token was saved at `path` (as displayed).
pub fn saved(path: &str) -> (res: Rotated)
    ensures
        rotated_view(res) == saved_spec(path@),
{
    let mut d = owned("saved to ");
    push_str(&mut d, path);
    Rotated { persisted: true, detail: Some(d) }
}

/// The token could not be saved, for the reason `detail`.
pub fn not_saved(detail: String) -> (res: Rotated)
    ensures
        rotated_view(res) == (false, Some(detail@)),
{
    Rotated { persisted: false, detail: Some(detail) }
}

/// What the token file holds: the token and a line end.
pub fn token_file_content(new: &str) -> (res: String)
    ensures
        res@ == new@ + "\n"@,
{
    let mut c = owned(new);
    push_str(&mut c, "\n");
    c
}

/// What the operator is told when the unit passes the token itself.
pub open spec fn cannot_rewrite_text() -> Seq<char> {
    "the unit passes the token with --token or ORCA_TOKEN, which orca cannot rewrite. Remove it from the unit and restart the agent: the new token is already in ~/.orca/cluster.token, which the agent then reads. Do this before the agent's next restart."@
}

/// Where saving stands once the token file was written.
pub enum PersistStep {
    /// Decided.
    Done(Rotated),
    /// The token came from the unit: read `agent.env` and see whether it
    /// holds the old token.
    CheckEnvFile,
}

/// The outcome once the token file (`token_file`, as displayed) was
/// written, with `mirrored` telling how that went. A token that came from
/// that file is saved exactly when the write succeeded. Otherwise, an
/// agent that was started with the new token already counts as saved; any
/// other case goes on to `agent.env`.
pub fn after_token_file(
    from_file: bool,
    started_with: &str,
    new: &str,
    token_file: &str,
    mirrored: Result<(), String>,
) -> (res: PersistStep)
    ensures
        from_file ==> (res matches PersistStep::Done(r) && rotated_view(r) == match mirrored {
            Ok(()) => saved_spec(token_file@),
            Err(e) => (false, Some("could not save "@ + token_file@ + ": "@ + e@)),
        }),
        !from_file && started_with@.len() > 0 && started_with@ == new@ ==> (res matches PersistStep::Done(r)
            && rotated_view(r) == (true, Some("started with the new token"@))),
        !from_file && !(started_with@.len() > 0 && started_with@ == new@) ==> res is CheckEnvFile,
{
    if from_file {
        return match mirrored {
            Ok(()) => PersistStep::Done(saved(token_file)),
            Err(e) => {
                let mut d = owned("could not save ");
                push_str(&mut d, token_file);
                push_str(&mut d, ": ");
                push_str(&mut d, e.as_str());
                PersistStep::Done(not_saved(d))
            },
        };
    }
    if !started_with.is_empty() && crate::text::same_text(started_with, new) {
        return PersistStep::Done(Rotated { persisted: true, detail: Some(owned("started with the new token")) });
    }
    PersistStep::CheckEnvFile
}

/// The line of `agent.env` that sets the token `t`.
pub open spec fn token_line(t: Seq<char>) -> Seq<char> {
    "ORCA_TOKEN="@ + t
}

/// A line of `agent.env` after the rotation: the line that set the old
/// token (whitespace around it ignored) now sets the new one; every line
/// ends in a line end.
pub open spec fn rewritten_line(l: Seq<char>, old: Seq<char>, new: Seq<char>) -> Seq<char> {
    if trim(l) == token_line(old) {
        token_line(new) + "\n"@
    } else {
        l + "\n"@
    }
}

/// `agent.env` with the old token replaced, if it holds a line that sets
/// exactly the old (non-empty) token; otherwise it is not orca's to edit.
pub open spec fn rewrite_env_spec(content: Seq<char>, old: Seq<char>, new: Seq<char>) -> Option<Seq<char>> {
    if old.len() > 0 && exists|i: int|
        0 <= i < lines(content).len() && trim(#[trigger] lines(content)[i]) == token_line(old) {
        Some(concat_map(lines(content), |l: Seq<char>| rewritten_line(l, old, new)))
    } else {
        None
    }
}

/// `agent.env` with the old token replaced, if it holds it.
pub fn rewrite_env(content: &str, old: &str, new: &str) -> (res: Option<String>)
    ensures
        match rewrite_env_spec(content@, old@, new@) {
            Some(u) => res matches Some(r) && r@ == u,
            None => res is None,
        },
{
    let ls = crate::text::lines_of(content);
    let mut old_line = owned("ORCA_TOKEN=");
    push_str(&mut old_line, old);
    let mut new_line = owned("ORCA_TOKEN=");
    push_str(&mut new_line, new);
    let ghost lv = lines(content@);
    let ghost f = |l: Seq<char>| rewritten_line(l, old@, new@);
    let mut found = false;
    let mut out = String::new();
    let mut i: usize = 0;
    assert(lv.take(0) =~= Seq::<Seq<char>>::empty());
    while i < ls.len()
        invariant
            crate::text::views(ls@) == lv,
            lv == lines(content@),
            f == (|l: Seq<char>| rewritten_line(l, old@, new@)),
            old_line@ == token_line(old@),
            new_line@ == token_line(new@),
            i <= ls.len(),
            out@ == concat_map(lv.take(i as int), f),
            found == exists|j: int| 0 <= j < i && trim(#[trigger] lv[j]) == token_line(old@),
        decreases ls.len() - i,
    {
        proof {
            crate::text::lemma_concat_map_step(lv, i as int, f);
        }
        let t = trimmed(ls[i].as_str());
        assert(lv[i as int] == ls@[i as int]@);
        if t == old_line {
            found = true;
            push_str(&mut out, new_line.as_str());
            push_str(&mut out, "\n");
        } else {
            push_str(&mut out, ls[i].as_str());
            push_str(&mut out, "\n");
        }
        i = i + 1;
    }
    assert(lv.take(i as int) =~= lv);
    if !old.is_empty() && found {
        Some(out)
    } else {
        None
    }
}

/// The outcome once `agent.env` (`env_file`, as displayed) was rewritten,
/// with `written` telling how that went.
pub fn after_env_file(env_file: &str, written: Result<(), String>) -> (res: Rotated)
    ensures
        rotated_view(res) == match written {
            Ok(()) => saved_spec(env_file@),
            Err(e) => (false, Some("could not update "@ + env_file@ + ": "@ + e@)),
        },
{
    match written {
        Ok(()) => saved(env_file),
        Err(e) => {
            let mut d = owned("could not update ");
            push_str(&mut d, env_file);
            push_str(&mut d, ": ");
            push_str(&mut d, e.as_str());
            not_saved(d)
        },
    }
}

/// The outcome when `agent.env` is missing or does not hold the old token:
/// not saved, and what the operator must change.
pub fn cannot_rewrite() -> (res: Rotated)
    ensures
        rotated_view(res) == (false, Some(cannot_rewrite_text())),
{
    not_saved(
        owned(
            "the unit passes the token with --token or ORCA_TOKEN, which orca cannot rewrite. Remove it from the unit and restart the agent: the new token is already in ~/.orca/cluster.token, which the agent then reads. Do this before the agent's next restart.",
        ),
    )
}

} // verus!
