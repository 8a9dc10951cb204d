//! Building service images from source: where a repository is checked out,
//! the git and docker invocations, and the tag an image gets.

use vstd::prelude::*;

use crate::agent::reporting::utf8_len;
use crate::ai::channels::is_char_boundary;
use crate::text::{join, owned, push_str, trim, trimmed, views};

verus! {

/// Builds images from source repositories.
pub struct DockerBuilder {
    /// Where repositories are checked out, one directory per service.
    pub builds_dir: String,
}

impl DockerBuilder {
    /// A builder that checks repositories out under `builds_dir`.
    pub fn new(builds_dir: String) -> (res: DockerBuilder)
        ensures
            res.builds_dir@ == builds_dir@,
    {
        DockerBuilder { builds_dir }
    }
}

/// Where a service's source comes from.
pub struct BuildConfig {
    pub repo: String,
    pub branch: Option<String>,
    pub dockerfile: Option<String>,
    pub context: Option<String>,
}

fn or_default(o: &Option<String>, d: &str) -> (res: String)
    ensures
        res@ == match o {
            Some(s) => s@,
            None => d@,
        },
{
    match o {
        Some(s) => owned(s.as_str()),
        None => owned(d),
    }
}

impl BuildConfig {
    /// The branch to build: `main` unless set.
    pub fn branch_or_default(&self) -> (res: String)
        ensures
            res@ == match self.branch {
                Some(b) => b@,
                None => "main"@,
            },
    {
        or_default(&self.branch, "main")
    }

    /// The Dockerfile: `Dockerfile` unless set.
    pub fn dockerfile_or_default(&self) -> (res: String)
        ensures
            res@ == match self.dockerfile {
                Some(d) => d@,
                None => "Dockerfile"@,
            },
    {
        or_default(&self.dockerfile, "Dockerfile")
    }

    /// The build context: `.` unless set.
    pub fn context_or_default(&self) -> (res: String)
        ensures
            res@ == match self.context {
                Some(c) => c@,
                None => "."@,
            },
    {
        or_default(&self.context, ".")
    }
}

/// The tag of a service's image built at a commit: the commit's first 12
/// bytes (all of it if shorter).
pub open spec fn image_tag_spec(service: Seq<char>, commit: Seq<char>) -> Seq<char> {
    "orca-build-"@ + service + ":"@ + if utf8_len(commit) <= 12 {
        commit
    } else {
        commit.take(choose|k: int| 0 <= k <= commit.len() && utf8_len(#[trigger] commit.take(k)) == 12)
    }
}

/// The tag of a service's image built at a commit. A commit id is ASCII;
/// the cut may not fall inside a character.
pub fn build_image_tag(service_name: &str, commit_hash: &str) -> (res: String)
    requires
        utf8_len(commit_hash@) <= 12 || is_char_boundary(commit_hash@, 12),
    ensures
        res@ == image_tag_spec(service_name@, commit_hash@),
{
    let cut = crate::ai::channels::truncate(commit_hash, 12);
    let mut tag = owned("orca-build-");
    push_str(&mut tag, service_name);
    push_str(&mut tag, ":");
    let ghost cv = cut@;
    if crate::agent::reporting::fits_bytes(commit_hash, 12) {
        push_str(&mut tag, cut.as_str());
    } else {
        // `truncate` marks the cut; the tag takes the part before the mark.
        let cs = crate::text::chars_of(cut.as_str());
        proof {
            reveal_strlit("…");
        }
        let body = crate::text::string_of(&cs, 0, cs.len() - 1);
        assert(body@ =~= cv.drop_last());
        push_str(&mut tag, body.as_str());
    }
    tag
}

/// The git invocations that update a checked-out repository to the tip
/// of `branch`.
pub open spec fn pull_commands_spec(branch: Seq<char>) -> Seq<Seq<Seq<char>>> {
    seq![
        seq!["fetch"@, "origin"@, branch],
        seq!["checkout"@, branch],
        seq!["reset"@, "--hard"@, "origin/"@ + branch],
    ]
}

/// The git invocations that update a checked-out repository.
pub fn pull_commands(branch: &str) -> (res: Vec<Vec<String>>)
    ensures
        res@.map_values(|a: Vec<String>| views(a@)) == pull_commands_spec(branch@),
{
    let mut fetch: Vec<String> = Vec::new();
    fetch.push(owned("fetch"));
    fetch.push(owned("origin"));
    fetch.push(owned(branch));
    let mut checkout: Vec<String> = Vec::new();
    checkout.push(owned("checkout"));
    checkout.push(owned(branch));
    let mut reset: Vec<String> = Vec::new();
    reset.push(owned("reset"));
    reset.push(owned("--hard"));
    let mut target = owned("origin/");
    push_str(&mut target, branch);
    reset.push(target);
    let mut res: Vec<Vec<String>> = Vec::new();
    res.push(fetch);
    res.push(checkout);
    res.push(reset);
    assert(views(res@[0]@) =~= seq!["fetch"@, "origin"@, branch@]);
    assert(views(res@[1]@) =~= seq!["checkout"@, branch@]);
    assert(views(res@[2]@) =~= seq!["reset"@, "--hard"@, "origin/"@ + branch@]);
    assert(res@.map_values(|a: Vec<String>| views(a@)) =~= pull_commands_spec(branch@));
    res
}

/// The git invocation that clones `branch` of `repo` into `dest`.
pub fn clone_command(repo: &str, branch: &str, dest: &str) -> (res: Vec<String>)
    ensures
        views(res@) == seq!["clone"@, "--branch"@, branch@, "--single-branch"@, repo@, dest@],
{
    let mut a: Vec<String> = Vec::new();
    a.push(owned("clone"));
    a.push(owned("--branch"));
    a.push(owned(branch));
    a.push(owned("--single-branch"));
    a.push(owned(repo));
    a.push(owned(dest));
    assert(views(a@) =~= seq!["clone"@, "--branch"@, branch@, "--single-branch"@, repo@, dest@]);
    a
}

/// The docker invocation that builds `tag` from `dockerfile` in `context`.
pub fn docker_build_command(tag: &str, dockerfile: &str, context: &str) -> (res: Vec<String>)
    ensures
        views(res@) == seq!["build"@, "-t"@, tag@, "-f"@, dockerfile@, context@],
{
    let mut a: Vec<String> = Vec::new();
    a.push(owned("build"));
    a.push(owned("-t"));
    a.push(owned(tag));
    a.push(owned("-f"));
    a.push(owned(dockerfile));
    a.push(owned(context));
    assert(views(a@) =~= seq!["build"@, "-t"@, tag@, "-f"@, dockerfile@, context@]);
    a
}

/// Why a git invocation failed: its arguments and what it wrote to stderr.
pub fn git_failure(args: &Vec<String>, stderr: &str) -> (res: String)
    ensures
        res@ == "git "@ + join(views(args@), " "@) + " failed:\n"@ + stderr@,
{
    let mut m = owned("git ");
    let joined = crate::text::join_first(args, args.len(), " ");
    assert(views(args@).take(args.len() as int) =~= views(args@));
    push_str(&mut m, joined.as_str());
    push_str(&mut m, " failed:\n");
    push_str(&mut m, stderr);
    m
}

/// Why an image build failed.
pub fn docker_build_failure(tag: &str, stderr: &str) -> (res: String)
    ensures
        res@ == "docker build failed for "@ + tag@ + ":\n"@ + stderr@,
{
    let mut m = owned("docker build failed for ");
    push_str(&mut m, tag);
    push_str(&mut m, ":\n");
    push_str(&mut m, stderr);
    m
}

/// The commit `git rev-parse HEAD` printed.
pub fn head_commit(stdout: &str) -> (res: String)
    ensures
        res@ == trim(stdout@),
{
    trimmed(stdout)
}

} // verus!
