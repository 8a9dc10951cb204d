use orca::agent::container_config::{
    build_container_config, limits_fit_exec, memory_fits_exec, build_gpu_passthrough, build_log_config, build_restart_policy,
    drifted_service_network, network_name, network_plan, parse_extra_port, parse_memory_string,
    public_database_port, ContainerConfig, RestartPolicyName,
};
use orca::agent::image_volumes::{normalize, uncovered, Uncovered};
use orca::agent::workload::{GpuSpec, ResourceLimits, VolumeSpec, WorkloadSpec};

fn spec(name: &str) -> WorkloadSpec {
    WorkloadSpec {
        name: name.to_string(),
        image: "nginx:latest".to_string(),
        port: None,
        host_port: None,
        domain: None,
        routes: vec![],
        env: vec![],
        resources: None,
        volume: None,
        network: None,
        aliases: vec![],
        mounts: vec![],
        internal: false,
        cmd: vec![],
        extra_ports: vec![],
        strip_prefix: None,
        restart_policy: None,
        fingerprint: None,
    }
}

fn binding(s: &WorkloadSpec, container_port: &str) -> (String, String) {
    let config: ContainerConfig = build_container_config(s, None, None);
    let b = config
        .port_bindings
        .iter()
        .find(|b| b.key == container_port)
        .expect("binding");
    (b.host_ip.clone(), b.host_port.clone())
}

#[test]
fn config_builder_test_parse_memory_ki() {
    assert_eq!(parse_memory_string("64Ki"), Some(65536));
}

#[test]
fn config_builder_test_parse_memory_mi() {
    assert_eq!(parse_memory_string("512Mi"), Some(536870912));
}

#[test]
fn config_builder_test_parse_memory_gi() {
    assert_eq!(parse_memory_string("2Gi"), Some(2147483648));
}

#[test]
fn config_builder_test_parse_memory_plain_bytes() {
    assert_eq!(parse_memory_string("1048576"), Some(1048576));
}

#[test]
fn config_builder_test_parse_memory_invalid() {
    assert_eq!(parse_memory_string("abc"), None);
}

#[test]
fn config_builder_test_memory_limit_zero() {
    assert_eq!(parse_memory_string("0"), Some(0));
}

#[test]
fn config_builder_test_very_large_memory() {
    assert_eq!(parse_memory_string("128Gi"), Some(137_438_953_472));
}

#[test]
fn config_builder_test_log_config() {
    let (driver, opts) = build_log_config();
    assert_eq!(driver, "json-file");
    assert_eq!(opts.iter().find(|(k, _)| k == "max-size").map(|(_, v)| v.as_str()), Some("10m"));
    assert_eq!(opts.iter().find(|(k, _)| k == "max-file").map(|(_, v)| v.as_str()), Some("3"));
}

#[test]
fn helpers_test_parse_memory_ki() {
    assert_eq!(parse_memory_string("64Ki"), Some(65536));
}

#[test]
fn helpers_test_parse_memory_mi() {
    assert_eq!(parse_memory_string("512Mi"), Some(536870912));
}

#[test]
fn helpers_test_parse_memory_gi() {
    assert_eq!(parse_memory_string("2Gi"), Some(2147483648));
}

#[test]
fn helpers_test_parse_memory_plain_bytes() {
    assert_eq!(parse_memory_string("1048576"), Some(1048576));
}

#[test]
fn helpers_test_parse_memory_invalid() {
    assert_eq!(parse_memory_string("abc"), None);
}

#[test]
fn helpers_test_memory_limit_zero() {
    assert_eq!(parse_memory_string("0"), Some(0));
}

#[test]
fn helpers_test_very_large_memory() {
    assert_eq!(parse_memory_string("128Gi"), Some(137_438_953_472));
}

#[test]
fn helpers_test_log_config() {
    let (driver, opts) = build_log_config();
    assert_eq!(driver, "json-file");
    assert_eq!(opts.iter().find(|(k, _)| k == "max-size").map(|(_, v)| v.as_str()), Some("10m"));
    assert_eq!(opts.iter().find(|(k, _)| k == "max-file").map(|(_, v)| v.as_str()), Some("3"));
}

#[test]
fn memory_strings_tolerate_whitespace_and_plain_negatives() {
    assert_eq!(parse_memory_string("  1Ki \n"), Some(1024));
    assert_eq!(parse_memory_string("-5"), Some(-5));
    assert_eq!(parse_memory_string("Mi"), None);
    assert_eq!(parse_memory_string("+3Ki"), Some(3072));
}

fn gpu(vendor: Option<&str>, count: u32) -> ResourceLimits {
    ResourceLimits {
        memory: None,
        nano_cpus: None,
        gpu: Some(GpuSpec {
            count,
            vendor: vendor.map(String::from),
            vram_min: None,
            model: None,
        }),
    }
}

#[test]
fn gpu_nvidia_generates_device_request() {
    let mut s = spec("test");
    s.resources = Some(gpu(Some("nvidia"), 2));
    let g = build_gpu_passthrough(&s, None, None);
    assert_eq!(g.device_requests.len(), 1);
    assert_eq!(g.device_requests[0].count, 2);
    assert_eq!(g.device_requests[0].driver, "nvidia");
    assert_eq!(g.device_requests[0].capabilities, vec![vec!["gpu".to_string()]]);
    assert!(g.devices.is_empty());
    assert!(g.group_add.is_empty());
}

#[test]
fn gpu_amd_generates_device_mappings() {
    let mut s = spec("test");
    s.resources = Some(gpu(Some("amd"), 1));
    let g = build_gpu_passthrough(&s, None, None);
    assert!(g.device_requests.is_empty());
    assert_eq!(g.devices.len(), 2);
    assert_eq!(g.devices[0].path_on_host, "/dev/kfd");
    assert_eq!(g.devices[1].path_on_host, "/dev/dri");
    assert_eq!(g.group_add.len(), 2);
}

#[test]
fn no_gpu_returns_empty() {
    let s = spec("test");
    let g = build_gpu_passthrough(&s, None, None);
    assert!(g.device_requests.is_empty());
    assert!(g.devices.is_empty());
    assert!(g.group_add.is_empty());
}

#[test]
fn amd_groups_default_to_the_standard_ids_and_follow_the_devices() {
    let mut s = spec("test");
    s.resources = Some(gpu(Some("rocm"), 1));
    assert_eq!(build_gpu_passthrough(&s, None, None).group_add, vec!["39", "105"]);
    assert_eq!(build_gpu_passthrough(&s, Some(44), Some(993)).group_add, vec!["44", "993"]);
    s.resources = Some(gpu(None, 3));
    assert_eq!(build_gpu_passthrough(&s, None, None).device_requests[0].count, 3);
}

fn with_volume(path: &str) -> WorkloadSpec {
    let mut s = spec("db");
    s.volume = Some(VolumeSpec {
        path: path.into(),
        size: None,
    });
    s
}

#[test]
fn a_declared_path_inside_the_image_volume_is_partial_coverage() {
    let s = with_volume("/var/lib/postgresql/data");
    let out = uncovered(&vec!["/var/lib/postgresql".to_string()], &s);
    assert_eq!(out.len(), 1);
    assert_eq!(out[0].0, "/var/lib/postgresql");
    match &out[0].1 {
        Uncovered::Partially { inside } => assert_eq!(inside, "/var/lib/postgresql/data"),
        Uncovered::Entirely => panic!("expected partial coverage"),
    }
}

#[test]
fn an_exact_volume_or_mount_covers_it() {
    let mut s = with_volume("/var/lib/postgresql/data");
    s.mounts = vec!["/srv/html:/var/www/html:ro".into()];
    let image = vec!["/var/lib/postgresql/data/".to_string(), "/var/www/html".to_string()];
    assert!(uncovered(&image, &s).is_empty());
}

#[test]
fn an_unrelated_image_volume_is_entirely_uncovered() {
    let s = with_volume("/data");
    let out = uncovered(&vec!["/var/cache/nginx".to_string()], &s);
    assert_eq!(out.len(), 1);
    assert_eq!(out[0].0, "/var/cache/nginx");
    assert!(matches!(out[0].1, Uncovered::Entirely));
}

#[test]
fn uncovered_paths_come_sorted_and_normalized() {
    let s = spec("svc");
    let image = vec!["/z/".to_string(), "/a".to_string(), "/m//".to_string()];
    let out = uncovered(&image, &s);
    let paths: Vec<&str> = out.iter().map(|(p, _)| p.as_str()).collect();
    assert_eq!(paths, vec!["/a", "/m", "/z"]);
    assert_eq!(normalize("///"), "/");
    assert_eq!(normalize("/x/"), "/x");
}

#[test]
fn restart_policy_mapping() {
    assert!(build_restart_policy(None).is_none());
    assert_eq!(build_restart_policy(Some("always")).unwrap().name, RestartPolicyName::Always);
    assert_eq!(
        build_restart_policy(Some("unless-stopped")).unwrap().name,
        RestartPolicyName::UnlessStopped
    );
    let p = build_restart_policy(Some("on-failure:5")).unwrap();
    assert_eq!(p.name, RestartPolicyName::OnFailure);
    assert_eq!(p.maximum_retry_count, Some(5));
    let p = build_restart_policy(Some("on-failure")).unwrap();
    assert_eq!(p.maximum_retry_count, None);
    assert!(build_restart_policy(Some("garbage")).is_none());
}

#[test]
fn restart_policy_no_and_odd_suffixes() {
    assert_eq!(build_restart_policy(Some("no")).unwrap().name, RestartPolicyName::No);
    let p = build_restart_policy(Some("on-failure:x")).unwrap();
    assert_eq!(p.name, RestartPolicyName::OnFailure);
    assert_eq!(p.maximum_retry_count, None);
}

#[test]
fn no_drift_when_on_the_derived_network() {
    let attached = vec!["orca-dxseo".to_string(), "orca-internal".to_string()];
    assert_eq!(drifted_service_network("orca-dxseo", &attached), None);
}

#[test]
fn drift_when_existing_service_network_differs() {
    let attached = vec!["orca-dxseo".to_string()];
    assert_eq!(
        drifted_service_network("orca-dx-seo", &attached),
        Some("orca-dxseo".to_string())
    );
}

#[test]
fn internal_and_non_orca_networks_are_ignored() {
    let attached = vec!["orca-internal".to_string(), "bridge".to_string()];
    assert_eq!(drifted_service_network("orca-app", &attached), None);
}

#[test]
fn no_container_no_drift() {
    assert_eq!(drifted_service_network("orca-app", &[]), None);
}

#[test]
fn a_random_backend_port_is_published_on_loopback_only() {
    let mut s = spec("gitea");
    s.port = Some(3000);
    assert_eq!(binding(&s, "3000/tcp"), ("127.0.0.1".into(), "0".into()));
}

#[test]
fn an_explicit_host_port_stays_public() {
    let mut s = spec("coturn");
    s.port = Some(3478);
    s.host_port = Some(3478);
    assert_eq!(binding(&s, "3478/tcp"), ("0.0.0.0".into(), "3478".into()));
}

#[test]
fn extra_ports_keep_their_address() {
    let mut s = spec("jitsi-jvb");
    s.extra_ports = vec!["10000:10000/udp".into(), "127.0.0.1:54321:5432".into()];
    assert_eq!(binding(&s, "10000/udp"), ("0.0.0.0".into(), "10000".into()));
    assert_eq!(binding(&s, "5432/tcp"), ("127.0.0.1".into(), "54321".into()));
}

#[test]
fn a_later_extra_port_replaces_an_earlier_binding() {
    let mut s = spec("web");
    s.port = Some(80);
    s.extra_ports = vec!["8080:80".into(), "not-a-port".into()];
    let config = build_container_config(&s, None, None);
    assert_eq!(config.port_bindings.len(), 1);
    assert_eq!(binding(&s, "80/tcp"), ("0.0.0.0".into(), "8080".into()));
    assert!(parse_extra_port("1:2:3:4").is_none());
    assert!(parse_extra_port("a:80").is_none());
}

#[test]
fn only_public_database_ports_are_flagged() {
    assert_eq!(public_database_port("0.0.0.0", "5432"), Some("PostgreSQL"));
    assert_eq!(public_database_port("127.0.0.1", "5432"), None);
    assert_eq!(public_database_port("0.0.0.0", "22"), None);
    assert_eq!(public_database_port("0.0.0.0", "10000"), None);
}

#[test]
fn the_whole_container_carries_env_mounts_labels_and_limits() {
    let mut s = spec("shop-web");
    s.env = vec![("A".into(), "1".into()), ("B".into(), "x=y".into())];
    s.volume = Some(VolumeSpec { path: "/data".into(), size: None });
    s.mounts = vec!["/h:/c:ro".into()];
    s.domain = Some("shop.example.com".into());
    s.port = Some(8080);
    s.routes = vec!["/api/*".into(), "/*".into()];
    s.resources = Some(ResourceLimits { memory: Some("512Mi".into()), nano_cpus: Some(1_500_000_000), gpu: None });
    s.restart_policy = Some("always".into());
    let c = build_container_config(&s, None, None);
    assert_eq!(c.env, vec!["A=1", "B=x=y"]);
    assert_eq!(c.binds, vec!["orca-shop-web-data:/data", "/h:/c:ro"]);
    assert_eq!(c.memory, Some(536870912));
    assert_eq!(c.nano_cpus, Some(1_500_000_000));
    assert_eq!(c.restart_policy.unwrap().name, RestartPolicyName::Always);
    let labels: Vec<(&str, &str)> = c.labels.iter().map(|(k, v)| (k.as_str(), v.as_str())).collect();
    assert_eq!(
        labels,
        vec![
            ("orca.managed", "true"),
            ("orca.service", "shop-web"),
            ("orca.domain", "shop.example.com"),
            ("orca.port", "8080"),
            ("orca.routes", "/api/*,/*"),
        ]
    );
    assert_eq!(network_name(&s), "orca-shop");
    s.network = Some("proj".into());
    assert_eq!(network_name(&s), "orca-proj");
}

#[test]
fn an_internal_service_also_joins_the_shared_network() {
    let mut s = spec("api");
    s.internal = true;
    s.aliases = vec!["backend".into()];
    let plan = network_plan(&s);
    assert_eq!(plan.len(), 2);
    assert_eq!(plan[0].0, "orca-api");
    assert_eq!(plan[0].1, vec!["backend", "orca-api"]);
    assert_eq!(plan[1].0, "orca-internal");
    assert_eq!(plan[1].1, vec!["orca-api"]);
}

#[test]
fn memory_that_overflows_is_refused_before_it_is_read() {
    assert!(memory_fits_exec("512Mi"));
    assert!(memory_fits_exec("1048576"));
    assert!(memory_fits_exec("garbageGi"));
    assert!(memory_fits_exec("17179869183Gi"));
    assert!(!memory_fits_exec("17179869184Gi"));
    assert!(memory_fits_exec(" 99999999999999999999Ki "));
    let mut s = spec("api");
    assert!(limits_fit_exec(&s));
    s.resources = Some(ResourceLimits { memory: Some("18446744073709551615Ki".to_string()), nano_cpus: None, gpu: None });
    assert!(!limits_fit_exec(&s));
}
