use tor_router::config::RouteConfig;
use tor_router::status::{
    latency_to_status, latency_to_string, node_to_response, status_list, NodeStatus,
    NOT_CONNECTED_NANOS,
};

const MS: u128 = 1_000_000;

fn route(id: i64, name: &str) -> RouteConfig {
    RouteConfig {
        id,
        name: name.to_string(),
        bind_address: None,
        input_port: 1080,
        username: Some("u".to_string()),
        password: None,
        country_code: "de".to_string(),
        swap_interval_hours: None,
        test_interval_minutes: Some(30),
        restart_trigger: None,
        tor_ip: Some("1.1.1.1".to_string()),
        last_checked_at: Some("5".to_string()),
    }
}

#[test]
fn health_thresholds() {
    assert_eq!(latency_to_status(NOT_CONNECTED_NANOS), "error");
    assert_eq!(latency_to_status(NOT_CONNECTED_NANOS + 1), "error");
    assert_eq!(latency_to_status(800 * MS), "warning");
    assert_eq!(latency_to_status(800 * MS - 1), "healthy");
    assert_eq!(latency_to_status(0), "healthy");
}

#[test]
fn latency_texts() {
    assert_eq!(latency_to_string(NOT_CONNECTED_NANOS), "Connecting/Error");
    assert_eq!(latency_to_string(0), "Pending");
    assert_eq!(latency_to_string(MS - 1), "Pending");
    assert_eq!(latency_to_string(MS), "1ms");
    assert_eq!(latency_to_string(1234 * MS + 999), "1234ms");
}

#[test]
fn not_connected_is_3596400_seconds() {
    assert_eq!(NOT_CONNECTED_NANOS, std::time::Duration::from_secs(3596400).as_nanos());
}

#[test]
fn entry_without_node_uses_stored_state() {
    let r = node_to_response(&route(-3, "x"), None);
    assert_eq!(r.id, "-3");
    assert_eq!(r.bind_address, "127.0.0.0");
    assert_eq!(r.country_code, "DE");
    assert_eq!(r.swap_interval_minutes, 1440);
    assert_eq!(r.test_interval_minutes, 30);
    assert_eq!(r.latency, "Connecting/Error");
    assert_eq!(r.status, "error");
    assert_eq!(r.tor_ip.as_deref(), Some("1.1.1.1"));
    assert_eq!(r.username.as_deref(), Some("u"));
}

#[test]
fn entry_with_node_uses_observed_state() {
    let n = NodeStatus { latency_nanos: 250 * MS, tor_ip: None, last_checked_at: Some("9".to_string()) };
    let r = node_to_response(&route(1, "x"), Some(&n));
    assert_eq!(r.latency, "250ms");
    assert_eq!(r.status, "healthy");
    assert_eq!(r.tor_ip, None);
    assert_eq!(r.last_checked_at.as_deref(), Some("9"));
}

#[test]
fn status_list_matches_nodes_by_id() {
    let nodes = vec![(2, NodeStatus { latency_nanos: 900 * MS, tor_ip: None, last_checked_at: None })];
    let l = status_list(&vec![route(1, "a"), route(2, "b")], &nodes);
    assert_eq!(l.len(), 2);
    assert_eq!(l[0].status, "error");
    assert_eq!(l[1].status, "warning");
    assert_eq!(l[1].latency, "900ms");
}
