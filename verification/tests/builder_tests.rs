use orca::agent::builder::{build_image_tag, clone_command, pull_commands, BuildConfig, DockerBuilder};

#[test]
fn image_tag_format() {
    let tag = build_image_tag("api", "abc123def456789");
    assert_eq!(tag, "orca-build-api:abc123def456");
}

#[test]
fn image_tag_short_hash() {
    let tag = build_image_tag("web", "abc");
    assert_eq!(tag, "orca-build-web:abc");
}

#[test]
fn build_config_defaults() {
    let config = BuildConfig {
        repo: "git@github.com:org/repo.git".to_string(),
        branch: None,
        dockerfile: None,
        context: None,
    };
    assert_eq!(config.branch_or_default(), "main");
    assert_eq!(config.dockerfile_or_default(), "Dockerfile");
    assert_eq!(config.context_or_default(), ".");
}

#[test]
fn a_set_branch_is_used_as_is() {
    let config = BuildConfig {
        repo: "r".to_string(),
        branch: Some("dev".to_string()),
        dockerfile: Some("docker/Dockerfile.prod".to_string()),
        context: Some("app".to_string()),
    };
    assert_eq!(config.branch_or_default(), "dev");
    assert_eq!(config.dockerfile_or_default(), "docker/Dockerfile.prod");
    assert_eq!(config.context_or_default(), "app");
}

#[test]
fn a_pull_fetches_checks_out_and_resets_to_the_remote_branch() {
    let cmds = pull_commands("main");
    assert_eq!(cmds.len(), 3);
    assert_eq!(cmds[0], vec!["fetch", "origin", "main"]);
    assert_eq!(cmds[1], vec!["checkout", "main"]);
    assert_eq!(cmds[2], vec!["reset", "--hard", "origin/main"]);
}

#[test]
fn a_clone_takes_only_the_branch() {
    let args = clone_command("git@x:o/r.git", "main", "/b/api");
    assert_eq!(args, vec!["clone", "--branch", "main", "--single-branch", "git@x:o/r.git", "/b/api"]);
}

#[test]
fn a_builder_keeps_its_directory() {
    let b = DockerBuilder::new("/home/u/.orca/builds".to_string());
    assert_eq!(b.builds_dir, "/home/u/.orca/builds");
}
