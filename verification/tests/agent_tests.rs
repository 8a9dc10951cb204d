use orca::agent::connect::{bearer_value, build_ws_url, host_of};
use orca::agent::docker_state::{
    always_pull, is_service_container, listed_name, registry_credentials, registry_host,
    workload_status, WorkloadStatus,
};
use orca::agent::exec::{exec_input_bytes, exec_output_data, EXEC_FAILED};
use orca::agent::heartbeat::{command_kind, next_backoff, CommandKind, RetryOutcome, RetryQueue, MAX_COMMAND_RETRIES};
use orca::agent::labels::{local_route, managed_container, route_port, split_label};
use orca::agent::netbird::{is_connected, mesh_ip, NetbirdManager};
use orca::agent::reconcile::{reconcile_action, running_names, spec_drifted, ReconcileAction};
use orca::agent::replace::{after_replace, aside_name, left_aside, AfterReplace, LeftAside};
use orca::agent::reporting::{bounded_tail, log_tail, workload_report, WorkloadCache, LOG_TAIL_LIMIT};
use orca::agent::session::{backup_result, log_reply, BackupRun, LogRead, LOG_READ_LIMIT};
use orca::agent::token::{
    after_env_file, after_token_file, cannot_rewrite, not_saved, rewrite_env, saved, PersistStep,
    TokenStore,
};
use orca::agent::wasm_logs::{append_log, log_text};
use orca::agent::workload::container_name;

#[test]
fn build_ws_url_http() {
    let url = orca::agent::session::build_ws_url("http://46.225.100.82:6880", 123, "abc", "10.0.0.5:6881");
    assert_eq!(
        url,
        "ws://46.225.100.82:6880/api/v1/ws/agent?token=abc&node_id=123&address=10.0.0.5%3A6881"
    );
}

#[test]
fn build_ws_url_https() {
    let url = orca::agent::session::build_ws_url("https://orca.example.com", 42, "tok", "192.168.1.5:6881");
    assert_eq!(
        url,
        "wss://orca.example.com/api/v1/ws/agent?token=tok&node_id=42&address=192.168.1.5%3A6881"
    );
}

#[test]
fn url_carries_identity_but_never_the_token() {
    let url = build_ws_url("http://46.225.100.82:6880", 123, "10.0.0.5:6881");
    assert_eq!(
        url,
        "ws://46.225.100.82:6880/api/v1/ws/agent?node_id=123&address=10.0.0.5%3A6881"
    );
    assert!(!url.contains("token"));
}

#[test]
fn https_leader_becomes_wss() {
    let url = build_ws_url("https://orca.example.com", 42, "192.168.1.5:6881");
    assert_eq!(
        url,
        "wss://orca.example.com/api/v1/ws/agent?node_id=42&address=192.168.1.5%3A6881"
    );
}

#[test]
fn the_token_travels_as_a_bearer_value() {
    assert_eq!(bearer_value("s3cret"), "Bearer s3cret");
}

#[test]
fn host_of_authorities() {
    assert_eq!(host_of("46.225.100.82:6880"), "46.225.100.82");
    assert_eq!(host_of("[2a01:4f8::1]:6880"), "2a01:4f8::1");
    assert_eq!(host_of("localhost"), "localhost");
    assert_eq!(host_of("[::1"), "::1");
}

#[test]
fn ws_client_stream_logs_handle_uses_orca_prefix() {
    let service_name = "my-service";
    let runtime_id = container_name(service_name);
    assert_eq!(runtime_id, "orca-my-service");
    let name = container_name(service_name);
    assert_eq!(name, runtime_id);
}

#[test]
fn logs_stream_logs_handle_uses_orca_prefix() {
    let service_name = "my-service";
    let runtime_id = container_name(service_name);
    assert_eq!(runtime_id, "orca-my-service");
    let name = container_name(service_name);
    assert_eq!(name, runtime_id);
}

#[test]
fn every_log_reply_is_the_last_chunk() {
    let ok = log_reply("req-1", "myapp", LogRead::Data(b"some log line\n".to_vec()));
    assert!(ok.done);
    assert_eq!(ok.data, "some log line\n");
    let broken = log_reply("req-1", "myapp", LogRead::ReadFailed("eof".into()));
    assert!(broken.done);
    assert_eq!(broken.data, "error reading logs: eof");
    let gone = log_reply("req-2", "x", LogRead::Unavailable("no such container".into()));
    assert_eq!(gone.data, "logs unavailable: no such container");
    assert_eq!(gone.request_id, "req-2");
}

#[test]
fn a_log_reply_carries_at_most_a_mebibyte() {
    let mut big = vec![b'x'; LOG_READ_LIMIT];
    big.extend_from_slice(b"TAIL");
    let r = log_reply("r", "s", LogRead::Data(big));
    assert_eq!(r.data.len(), LOG_READ_LIMIT);
    assert!(!r.data.contains("TAIL"));
    let bad = log_reply("r", "s", LogRead::Data(vec![b'a', 0xff, b'b']));
    assert_eq!(bad.data, "a\u{FFFD}b");
}

#[test]
fn backup_results_say_why() {
    let (ok, msg) = backup_result(BackupRun::SpawnFailed("No such file".into()));
    assert!(!ok);
    assert!(msg.contains("spawn failed"));
    let (ok, msg) = backup_result(BackupRun::Exited { success: true, stdout: "  done\n".into(), stderr: String::new() });
    assert!(ok);
    assert_eq!(msg, "done");
    let (ok, msg) = backup_result(BackupRun::Exited { success: false, stdout: "x".into(), stderr: " 403 \n".into() });
    assert!(!ok);
    assert_eq!(msg, "403");
}

#[test]
fn test_backoff_doubles() {
    let min_backoff = 5;
    let max_backoff = 60;
    let mut interval = min_backoff;
    assert_eq!(interval, 5);
    interval = next_backoff(interval, min_backoff, max_backoff);
    assert_eq!(interval, 10);
    interval = next_backoff(interval, min_backoff, max_backoff);
    assert_eq!(interval, 20);
    interval = next_backoff(interval, min_backoff, max_backoff);
    assert_eq!(interval, 40);
    interval = next_backoff(interval, min_backoff, max_backoff);
    assert_eq!(interval, 60, "should be capped at 60s");
    interval = next_backoff(interval, min_backoff, max_backoff);
    assert_eq!(interval, 60, "should remain at cap");
}

#[test]
fn a_short_wait_is_raised_to_the_minimum() {
    assert_eq!(next_backoff(1, 5, 60), 5);
    assert_eq!(next_backoff(0, 5, 60), 5);
}

#[test]
fn a_failed_command_is_retried_until_the_limit() {
    let mut q: RetryQueue<&str> = RetryQueue::new();
    q.enqueue("deploy test-svc");
    let taken = q.take_all();
    assert_eq!(taken, vec![("deploy test-svc", 1)]);
    assert_eq!(q.failed_again("deploy test-svc", 1), RetryOutcome::Requeued(2));
    let taken = q.take_all();
    assert_eq!(taken, vec![("deploy test-svc", 2)]);
    assert_eq!(q.failed_again("deploy test-svc", MAX_COMMAND_RETRIES), RetryOutcome::Dropped);
    assert!(q.take_all().is_empty());
}

#[test]
fn command_actions() {
    assert_eq!(command_kind("deploy"), CommandKind::Deploy);
    assert_eq!(command_kind("stop"), CommandKind::Stop);
    assert_eq!(command_kind("reboot"), CommandKind::Unknown);
}

#[test]
fn a_short_log_is_returned_whole() {
    assert_eq!(bounded_tail("boom", 4096), "boom");
}

#[test]
fn a_long_ascii_log_keeps_its_last_bytes() {
    let log = "x".repeat(5000) + "END";
    let out = bounded_tail(&log, 10);
    assert_eq!(out, format!("…{}", &log[log.len() - 10..]));
    assert!(out.ends_with("END"));
}

#[test]
fn a_cut_inside_a_multibyte_character_does_not_panic() {
    let log = "€".repeat(2000);
    let naive_cut = log.len() - LOG_TAIL_LIMIT;
    assert!(!log.is_char_boundary(naive_cut), "the test must exercise a mid-character cut");
    let out = bounded_tail(&log, LOG_TAIL_LIMIT);
    assert!(out.starts_with('…'));
    assert!(out.ends_with('€'));
}

#[test]
fn bounded_tail_is_a_suffix_within_the_limit() {
    for (text, limit) in [("héllo wörld", 5usize), ("€€€", 4), ("abc", 0), ("", 3)] {
        let out = bounded_tail(text, limit);
        if text.len() <= limit {
            assert_eq!(out, text);
        } else {
            let body = out.strip_prefix('…').expect("a cut is marked");
            assert!(body.len() <= limit);
            assert!(text.ends_with(body));
        }
    }
}

#[test]
fn a_crashed_container_reports_why() {
    assert_eq!(log_tail("   \n"), None);
    assert_eq!(log_tail("  panic: boom\n"), Some("panic: boom".to_string()));
    let r = workload_report("api".into(), "c1".into(), WorkloadStatus::Failed, 999, Some(137), 4, Some("oom\n".into()));
    assert_eq!(r.status, "failed");
    assert_eq!(r.memory_bytes, 0);
    assert_eq!(r.exit_code, Some(137));
    assert_eq!(r.restart_count, 4);
    assert_eq!(r.last_logs.as_deref(), Some("oom"));
    let r = workload_report("api".into(), "c1".into(), WorkloadStatus::Running, 999, Some(1), 4, Some("x".into()));
    assert_eq!(r.status, "running");
    assert_eq!(r.memory_bytes, 999);
    assert_eq!(r.exit_code, None);
    assert_eq!(r.last_logs, None);
    let r = workload_report("w".into(), "c2".into(), WorkloadStatus::Completed, 0, Some(0), 0, None);
    assert_eq!(r.status, "stopped");
}

#[test]
fn the_cache_converges_to_what_was_observed() {
    let mut c = WorkloadCache::new();
    c.update_workload_status("c1", "api", WorkloadStatus::Running);
    c.update_workload_status("c2", "db", WorkloadStatus::Running);
    c.update_workload_status("c1", "api", WorkloadStatus::Running);
    assert_eq!(c.snapshot().len(), 2);
    c.converge(&vec![("c1".to_string(), WorkloadStatus::Failed), ("gone".to_string(), WorkloadStatus::Failed)]);
    let snap = c.snapshot();
    assert_eq!(snap.len(), 2);
    assert!(snap.contains(&("c1".to_string(), "api".to_string())));
}

#[test]
fn container_states_map_to_workload_statuses() {
    assert_eq!(workload_status("running", None), WorkloadStatus::Running);
    assert_eq!(workload_status("paused", None), WorkloadStatus::Running);
    assert_eq!(workload_status("created", None), WorkloadStatus::Creating);
    assert_eq!(workload_status("exited", Some(0)), WorkloadStatus::Completed);
    assert_eq!(workload_status("dead", Some(2)), WorkloadStatus::Failed);
    assert_eq!(workload_status("exited", None), WorkloadStatus::Failed);
    assert_eq!(workload_status("", None), WorkloadStatus::Stopped);
}

#[test]
fn only_latest_tags_are_always_pulled() {
    assert!(always_pull("nginx"));
    assert!(always_pull("nginx:latest"));
    assert!(!always_pull("postgres:18"));
    assert!(!always_pull("registry.local:5000/app"));
}

#[test]
fn registry_hosts_and_credentials() {
    assert_eq!(registry_host("nginx:latest"), None);
    assert_eq!(registry_host("library/nginx"), None);
    assert_eq!(registry_host("ghcr.io/org/app:1"), Some("ghcr.io".to_string()));
    assert_eq!(registry_host("localhost:5000/app"), Some("localhost:5000".to_string()));
    // "user:pass" in standard base64.
    let cfg = r#"{"auths":{"ghcr.io":{"auth":"dXNlcjpwYXNz"}}}"#;
    assert_eq!(
        registry_credentials("ghcr.io/org/app:1", Some(cfg)),
        Some(("user".to_string(), "pass".to_string()))
    );
    assert_eq!(registry_credentials("quay.io/org/app", Some(cfg)), None);
    assert_eq!(registry_credentials("ghcr.io/org/app", None), None);
    assert_eq!(registry_credentials("ghcr.io/org/app", Some("not json")), None);
    assert_eq!(registry_credentials("nginx", Some(cfg)), None);
}

#[test]
fn only_the_exact_container_name_matches() {
    assert_eq!(listed_name("//orca-keycloak"), "orca-keycloak");
    assert!(is_service_container(Some("/orca-keycloak"), "keycloak"));
    assert!(!is_service_container(Some("/orca-keycloak-db"), "keycloak"));
    assert!(!is_service_container(None, "keycloak"));
}

fn labels(pairs: &[(&str, &str)]) -> Vec<(String, String)> {
    pairs.iter().map(|(k, v)| (k.to_string(), v.to_string())).collect()
}

#[test]
fn split_label_drops_empty_entries() {
    let v = ",/a,,/b,".to_string();
    assert_eq!(split_label(Some(&v)), vec!["/a", "/b"]);
    assert!(split_label(None).is_empty());
}

#[test]
fn labels_give_a_proxy_its_route() {
    let ls = labels(&[
        ("orca.managed", "true"),
        ("orca.service", "shop"),
        ("orca.domain", "shop.example.com"),
        ("orca.port", "8080"),
        ("orca.routes", "/api/*,/*"),
    ]);
    assert_eq!(route_port(&ls), Some(8080));
    let r = local_route(&ls, 32768).expect("a route");
    assert_eq!(r.service, "shop");
    assert_eq!(r.domain, "shop.example.com");
    assert_eq!(r.host_port, 32768);
    assert_eq!(r.routes, vec!["/api/*", "/*"]);
    assert_eq!(r.strip_prefix, None);
    let no_port = labels(&[("orca.domain", "x.example.com"), ("orca.port", "http")]);
    assert!(local_route(&no_port, 1).is_none());
    let unnamed = labels(&[("orca.domain", "x.example.com"), ("orca.port", "80")]);
    assert_eq!(local_route(&unnamed, 1).unwrap().service, "x.example.com");
}

#[test]
fn a_container_without_a_service_cannot_be_adopted() {
    let ls = labels(&[("orca.managed", "true")]);
    assert!(managed_container(&ls, "img", "running", "id").is_none());
    let ls = labels(&[("orca.service", "api"), ("orca.domain", "a.example.com"), ("orca.port", "80")]);
    let m = managed_container(&ls, "img:1", "running", "abc").unwrap();
    assert_eq!(m.service_name, "api");
    assert_eq!(m.domains, vec!["a.example.com"]);
    assert_eq!(m.port, Some(80));
    let ls = labels(&[("orca.service", "api"), ("orca.domains", "a.com,b.com"), ("orca.domain", "c.com")]);
    assert_eq!(managed_container(&ls, "i", "s", "d").unwrap().domains, vec!["a.com", "b.com"]);
}

#[test]
fn netbird_status_gives_the_mesh_address() {
    assert_eq!(mesh_ip(r#"{"localPeerState":{"ip":"100.80.5.14/32"}}"#), Some("100.80.5.14".to_string()));
    assert_eq!(mesh_ip(r#"{"other":1}"#), None);
    assert_eq!(mesh_ip("Daemon status: Connected\nNetBird IP: 100.64.0.9/32\n"), Some("100.64.0.9".to_string()));
    assert_eq!(mesh_ip("nothing here"), None);
    assert!(is_connected("Management: Connected"));
    assert!(!is_connected("Management: down"));
}

#[test]
fn netbird_joins_with_the_setup_key_and_management_url() {
    let m = NetbirdManager::new(Some("https://nb.example.com".into()));
    assert_eq!(m.connect_args("KEY"), vec!["up", "--setup-key", "KEY", "--management-url", "https://nb.example.com"]);
    let m = NetbirdManager::new(None);
    assert_eq!(m.connect_args("KEY"), vec!["up", "--setup-key", "KEY"]);
}

#[test]
fn reconcile_decisions() {
    assert_eq!(reconcile_action(false, None, false), ReconcileAction::Deploy);
    assert_eq!(reconcile_action(false, Some(WorkloadStatus::Stopped), false), ReconcileAction::Deploy);
    assert_eq!(reconcile_action(false, Some(WorkloadStatus::Running), false), ReconcileAction::Adopt);
    assert_eq!(reconcile_action(true, None, false), ReconcileAction::Skip);
    assert_eq!(reconcile_action(true, None, true), ReconcileAction::Redeploy);
}

#[test]
fn only_a_definite_fingerprint_mismatch_is_drift() {
    assert!(spec_drifted(Some("new"), Ok(Some("old".into()))));
    assert!(!spec_drifted(Some("same"), Ok(Some("same".into()))));
    assert!(!spec_drifted(Some("new"), Ok(None)));
    assert!(!spec_drifted(None, Ok(Some("old".into()))));
    assert!(!spec_drifted(Some("new"), Err("inspect failed".into())));
}

#[test]
fn only_running_containers_count_as_running() {
    let r1 = workload_report("a".into(), "1".into(), WorkloadStatus::Running, 0, None, 0, None);
    let r2 = workload_report("b".into(), "2".into(), WorkloadStatus::Failed, 0, Some(1), 0, None);
    assert_eq!(running_names(&vec![r1, r2]), vec!["a"]);
}

#[test]
fn the_old_container_waits_aside() {
    assert_eq!(aside_name("orca-api"), "orca-api.replaced");
    assert_eq!(left_aside(true, true), LeftAside::RemoveStale);
    assert_eq!(left_aside(false, true), LeftAside::Restore);
    assert_eq!(left_aside(true, false), LeftAside::Nothing);
    assert_eq!(after_replace(true, true), AfterReplace::RemoveAside);
    assert_eq!(after_replace(false, true), AfterReplace::RestoreAside);
    assert_eq!(after_replace(false, false), AfterReplace::Nothing);
}

#[test]
fn set_replaces_the_token_in_memory() {
    let mut store = TokenStore::new();
    assert_eq!(store.current("from-env"), "from-env");
    store.set("rotated".into());
    assert_eq!(store.current("from-env"), "rotated");
}

#[test]
fn an_agent_started_with_the_new_token_counts_as_saved() {
    match after_token_file(false, "new", "new", "/h/.orca/cluster.token", Ok(())) {
        PersistStep::Done(r) => assert!(r.persisted, "{:?}", r.detail),
        PersistStep::CheckEnvFile => panic!("should be decided"),
    }
}

#[test]
fn a_file_sourced_token_is_saved_when_its_file_is_written() {
    match after_token_file(true, "", "new", "/h/.orca/cluster.token", Ok(())) {
        PersistStep::Done(r) => {
            assert!(r.persisted);
            assert_eq!(r.detail.as_deref(), Some("saved to /h/.orca/cluster.token"));
        }
        PersistStep::CheckEnvFile => panic!("should be decided"),
    }
    match after_token_file(true, "", "new", "/t", Err("denied".into())) {
        PersistStep::Done(r) => {
            assert!(!r.persisted);
            assert_eq!(r.detail.as_deref(), Some("could not save /t: denied"));
        }
        PersistStep::CheckEnvFile => panic!("should be decided"),
    }
    assert!(matches!(after_token_file(false, "old", "new", "/t", Ok(())), PersistStep::CheckEnvFile));
}

#[test]
fn agent_env_holding_the_old_token_is_rewritten_in_place() {
    assert_eq!(
        rewrite_env("OTHER=1\nORCA_TOKEN=old\n", "old", "new"),
        Some("OTHER=1\nORCA_TOKEN=new\n".to_string())
    );
    assert_eq!(rewrite_env("ORCA_TOKEN=something-else\n", "old", "new"), None);
    assert_eq!(rewrite_env("ORCA_TOKEN=\n", "", "new"), None);
    let r = cannot_rewrite();
    assert!(!r.persisted);
    assert!(r.detail.unwrap().contains("Remove it from the unit"));
    assert!(after_env_file("/e", Ok(())).persisted);
    assert_eq!(after_env_file("/e", Err("ro".into())).detail.as_deref(), Some("could not update /e: ro"));
    assert_eq!(saved("/p").detail.as_deref(), Some("saved to /p"));
    assert!(!not_saved("why".into()).persisted);
}

#[test]
fn wasm_logs_keep_the_last_thousand_lines() {
    let mut logs: Vec<String> = Vec::new();
    for i in 0..1005 {
        append_log(&mut logs, format!("line {i}"));
    }
    assert_eq!(logs.len(), 1000);
    assert_eq!(logs[0], "line 5");
    assert_eq!(log_text(&logs, Some(2)), "line 1003\nline 1004\n");
    let few = vec!["a".to_string()];
    assert_eq!(log_text(&few, None), "a\n");
}

#[test]
fn terminal_data_travels_as_base64() {
    assert_eq!(exec_output_data(b"hi\n"), "aGkK");
    assert_eq!(exec_output_data(b""), "");
    assert_eq!(exec_output_data(b"a"), "YQ==");
    assert_eq!(exec_output_data(b"ab"), "YWI=");
    assert_eq!(exec_output_data(&[0xfb, 0xff, 0xbf]), "+/+/");
    assert_eq!(exec_input_bytes("aGkK"), Some(b"hi\n".to_vec()));
    assert_eq!(exec_input_bytes("not base64!"), None);
    assert_eq!(EXEC_FAILED, -1);
}
