use orca::agent::connect::{cleartext_host, is_private_or_mesh, plaintext_exposure, IpAddress};
use orca::agent::networks::{orca_networks, InspectedContainer};
use orca::agent::session::{backup_args, network_totals, node_hostname};

/// What `plaintext_exposure` says of `url`, with the host's address as the
/// resolver-free parse would give it.
fn exposure(url: &str, parsed: Option<IpAddress>) -> Option<String> {
    plaintext_exposure(cleartext_host(url), parsed)
}

fn v4(a: u8, b: u8, c: u8, d: u8) -> Option<IpAddress> {
    Some(IpAddress::V4(a, b, c, d))
}

fn v6(g: [u16; 8]) -> Option<IpAddress> {
    Some(IpAddress::V6(g))
}

#[test]
fn plaintext_to_a_public_ip_is_exposed() {
    assert_eq!(
        exposure("ws://46.225.100.82:6880/api/v1/ws/agent?node_id=1", v4(46, 225, 100, 82)),
        Some("46.225.100.82".to_string())
    );
    assert_eq!(
        exposure(
            "ws://[2a01:4f8:1c19:e903::1]:6880/x",
            v6([0x2a01, 0x4f8, 0x1c19, 0xe903, 0, 0, 0, 1])
        ),
        Some("2a01:4f8:1c19:e903::1".to_string())
    );
}

#[test]
fn plaintext_to_a_hostname_is_treated_as_exposed() {
    assert_eq!(
        exposure("ws://orca.example.com:6880/x", None),
        Some("orca.example.com".to_string())
    );
}

#[test]
fn private_mesh_and_loopback_addresses_are_not_exposed() {
    let cases: Vec<(&str, Option<IpAddress>)> = vec![
        ("ws://100.80.5.14:6880/x", v4(100, 80, 5, 14)),
        ("ws://100.64.0.1/x", v4(100, 64, 0, 1)),
        ("ws://100.127.255.254/x", v4(100, 127, 255, 254)),
        ("ws://10.0.0.1:6880/x", v4(10, 0, 0, 1)),
        ("ws://172.16.5.4/x", v4(172, 16, 5, 4)),
        ("ws://192.168.1.10/x", v4(192, 168, 1, 10)),
        ("ws://169.254.1.1/x", v4(169, 254, 1, 1)),
        ("ws://127.0.0.1:6880/x", v4(127, 0, 0, 1)),
        ("ws://localhost:6880/x", None),
        ("ws://[::1]:6880/x", v6([0, 0, 0, 0, 0, 0, 0, 1])),
        ("ws://[fd00::1]:6880/x", v6([0xfd00, 0, 0, 0, 0, 0, 0, 1])),
        ("ws://[fe80::1]:6880/x", v6([0xfe80, 0, 0, 0, 0, 0, 0, 1])),
    ];
    for (url, ip) in cases {
        assert_eq!(exposure(url, ip), None, "{url}");
    }
}

#[test]
fn the_cgnat_range_boundary_is_exact() {
    assert!(exposure("ws://100.63.255.255/x", v4(100, 63, 255, 255)).is_some());
    assert!(exposure("ws://100.128.0.0/x", v4(100, 128, 0, 0)).is_some());
}

#[test]
fn tls_is_never_exposed() {
    assert_eq!(exposure("wss://46.225.100.82:6880/x", v4(46, 225, 100, 82)), None);
    assert_eq!(exposure("wss://orca.example.com/x", None), None);
}

#[test]
fn cleartext_hosts_are_taken_from_the_authority() {
    assert_eq!(cleartext_host("ws://h.example:1/p?q=1"), Some("h.example".to_string()));
    assert_eq!(cleartext_host("ws://h.example?x"), Some("h.example".to_string()));
    assert_eq!(cleartext_host("ws://[fd00::1]/x"), Some("fd00::1".to_string()));
    assert_eq!(cleartext_host("ws://LocalHost:1/x"), None);
    assert_eq!(cleartext_host("ws://LOCALHOST:1/x"), None);
    assert_eq!(cleartext_host("ws://localhost.example:1/x"), Some("localhost.example".to_string()));
    assert_eq!(cleartext_host("http://h/x"), None);
}

#[test]
fn private_ranges_have_exact_edges() {
    assert!(is_private_or_mesh(&IpAddress::V4(172, 31, 0, 1)));
    assert!(!is_private_or_mesh(&IpAddress::V4(172, 32, 0, 1)));
    assert!(!is_private_or_mesh(&IpAddress::V4(172, 15, 0, 1)));
    assert!(!is_private_or_mesh(&IpAddress::V4(192, 169, 0, 1)));
    assert!(is_private_or_mesh(&IpAddress::V6([0xfc00, 0, 0, 0, 0, 0, 0, 1])));
    assert!(!is_private_or_mesh(&IpAddress::V6([0xfe00, 0, 0, 0, 0, 0, 0, 1])));
    assert!(is_private_or_mesh(&IpAddress::V6([0xfebf, 0, 0, 0, 0, 0, 0, 1])));
    assert!(!is_private_or_mesh(&IpAddress::V6([0, 0, 0, 0, 0, 0, 0, 2])));
}

fn strings(v: &[&str]) -> Vec<String> {
    v.iter().map(|s| s.to_string()).collect()
}

fn container(name: &str, nets: &[(&str, &[&str])]) -> InspectedContainer {
    InspectedContainer {
        name: name.to_string(),
        networks: nets.iter().map(|(n, a)| (n.to_string(), strings(a))).collect(),
    }
}

#[test]
fn orca_networks_list_members_by_name() {
    let listed = strings(&["bridge", "orca-web", "orca-db", "host", "orca-empty"]);
    let containers = vec![
        container("orca-web-2", &[("orca-web", &["web"]), ("bridge", &[])]),
        container("orca-api", &[("orca-web", &["api", "backend"]), ("orca-db", &[])]),
        container("nginx", &[("orca-web", &["proxy"])]),
        container("orca-extra", &[("orca-side", &["side"])]),
    ];
    let nets = orca_networks(&listed, &containers);
    let names: Vec<&str> = nets.iter().map(|n| n.name.as_str()).collect();
    assert_eq!(names, vec!["orca-db", "orca-empty", "orca-side", "orca-web"]);
    let db: Vec<&str> = nets[0].services.iter().map(|s| s.name.as_str()).collect();
    assert_eq!(db, vec!["orca-api"]);
    assert!(nets[1].services.is_empty());
    assert_eq!(nets[2].services[0].aliases, strings(&["side"]));
    let web: Vec<&str> = nets[3].services.iter().map(|s| s.name.as_str()).collect();
    assert_eq!(web, vec!["orca-api", "orca-web-2"]);
    assert_eq!(nets[3].services[0].aliases, strings(&["api", "backend"]));
    assert!(nets[3].services.iter().all(|s| s.missing_aliases.is_empty()));
}

#[test]
fn no_orca_networks_gives_an_empty_listing() {
    let nets = orca_networks(&strings(&["bridge", "host"]), &vec![]);
    assert!(nets.is_empty());
}

#[test]
fn the_host_name_falls_back_to_the_environment() {
    assert_eq!(node_hostname(Some("  node-a\n"), Some("env")), "node-a");
    assert_eq!(node_hostname(None, Some("env-b")), "env-b");
    assert_eq!(node_hostname(None, None), "unknown");
}

#[test]
fn network_totals_sum_every_interface() {
    assert_eq!(network_totals(&vec![(1, 2), (30, 40), (500, 600)]), (531, 642));
    assert_eq!(network_totals(&vec![]), (0, 0));
}

#[test]
fn backups_run_the_all_command() {
    assert_eq!(backup_args(), vec!["backup".to_string(), "all".to_string()]);
}
