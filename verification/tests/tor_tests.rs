use tor_router::tor::WorkerState;
use tor_router::config::RouteConfig;
use tor_router::router::{listener_credentials, Slot};
use tor_router::daemon::{log_filter, restart_command, start_log_level, AppLogger, RestartCommand};
use tor_router::status::NOT_CONNECTED_NANOS;
use tor_router::tor::{
    build_torrc, instance_name, ip_from_text, now_iso, probe_proxy_url, route_proxy_url,
    should_promote, should_test, socks_address, stamp_of, swap_allowed, tor_proxy_url,
    worker_params,
};

fn route() -> RouteConfig {
    RouteConfig {
        id: 1,
        name: "nl".to_string(),
        bind_address: Some("0.0.0.0".to_string()),
        input_port: 1081,
        username: Some("u".to_string()),
        password: Some("p".to_string()),
        country_code: "NL".to_string(),
        swap_interval_hours: None,
        test_interval_minutes: Some(5),
        restart_trigger: None,
        tor_ip: None,
        last_checked_at: None,
    }
}

#[test]
fn torrc_with_country() {
    let t = build_torrc("127.0.0.1:9999", "/tmp/d", "/g", "/g6", " NL ");
    assert_eq!(
        t,
        "SocksPort 127.0.0.1:9999\nDataDirectory /tmp/d\nGeoIPFile /g\nGeoIPv6File /g6\nExitNodes {nl}\nStrictNodes 1\nLog notice stdout\nAvoidDiskWrites 1\n"
    );
}

#[test]
fn torrc_without_country() {
    let t = build_torrc("a", "b", "c", "d", "  ");
    assert_eq!(t, "SocksPort a\nDataDirectory b\nGeoIPFile c\nGeoIPv6File d\nLog notice stdout\nAvoidDiskWrites 1\n");
}

#[test]
fn addresses_and_names() {
    assert_eq!(socks_address(9050), "127.0.0.1:9050");
    assert_eq!(instance_name("r", "1000"), "r_1000");
    assert_eq!(stamp_of(1_700_000_000), "1700000000000");
    assert_eq!(stamp_of(u64::MAX), u64::MAX.wrapping_mul(1000).to_string());
    assert_eq!(tor_proxy_url("127.0.0.1:1"), "socks5h://127.0.0.1:1");
    let n = now_iso();
    assert!(n.ends_with("000") && n.chars().all(|c| c.is_ascii_digit()));
}

#[test]
fn stamp_follows_the_clock() {
    let before = std::time::SystemTime::now().duration_since(std::time::UNIX_EPOCH).unwrap().as_secs();
    let stamp: u64 = now_iso().parse().unwrap();
    let after = std::time::SystemTime::now().duration_since(std::time::UNIX_EPOCH).unwrap().as_secs();
    assert!(before * 1000 <= stamp && stamp <= after * 1000);
}

#[test]
fn probe_urls() {
    assert_eq!(probe_proxy_url("0.0.0.0", 1080), "socks5h://127.0.0.1:1080");
    assert_eq!(probe_proxy_url("10.0.0.2", 1), "socks5h://10.0.0.2:1");
    assert_eq!(route_proxy_url(&route()), "socks5h://u:p@127.0.0.1:1081");
    let mut r = route();
    r.password = Some(String::new());
    r.bind_address = None;
    assert_eq!(route_proxy_url(&r), "socks5h://127.0.0.1:1081");
}

#[test]
fn exit_ip_text() {
    assert_eq!(ip_from_text(" 1.2.3.4\n").as_deref(), Some("1.2.3.4"));
    assert_eq!(ip_from_text("   "), None);
    assert_eq!(ip_from_text(&"a".repeat(45)).map(|s| s.len()), Some(45));
    assert_eq!(ip_from_text(&"a".repeat(46)), None);
    assert_eq!(ip_from_text(&"é".repeat(23)), None);
    assert_eq!(ip_from_text(&"é".repeat(22)).map(|s| s.len()), Some(44));
}

#[test]
fn worker_decisions() {
    assert!(swap_allowed(10_000, 0, 2));
    assert!(!swap_allowed(7_199, 0, 2));
    assert!(swap_allowed(7_200, 0, 2));
    assert!(swap_allowed(5, 10, 1));
    assert!(should_test(false, false, 0));
    assert!(should_test(true, true, 0));
    assert!(should_test(true, false, NOT_CONNECTED_NANOS));
    assert!(!should_test(true, false, 5));
    assert!(should_promote(false, 0, NOT_CONNECTED_NANOS));
    assert!(should_promote(true, 10, 5));
    assert!(!should_promote(true, 10, 10));
    assert!(!should_promote(true, NOT_CONNECTED_NANOS + 1, NOT_CONNECTED_NANOS));
    let (name, swap, test, cc) = worker_params(&route());
    assert_eq!((name.as_str(), swap, test, cc.as_str()), ("nl", 1440, 5, "NL"));
}

#[test]
fn slot_promotion() {
    let mut s = Slot::empty();
    s.promote("a".to_string());
    assert_eq!(s.active.as_ref().map(|b| b.socks.as_str()), Some("a"));
    assert!(s.draining.is_none());
    s.promote("b".to_string());
    assert_eq!(s.active.as_ref().map(|b| b.socks.as_str()), Some("b"));
    assert_eq!(s.draining.as_ref().map(|b| b.socks.as_str()), Some("a"));
    assert_eq!(s.active_backend().map(|b| b.socks), Some("b".to_string()));
    s.clear();
    assert!(s.active.is_none() && s.draining.is_none());
}

#[test]
fn listener_credentials_default_to_empty() {
    let (u, p) = listener_credentials(&route());
    assert_eq!((u.as_str(), p.as_str()), ("u", "p"));
    let mut r = route();
    r.username = None;
    r.password = None;
    let (u, p) = listener_credentials(&r);
    assert_eq!((u.as_str(), p.as_str()), ("", ""));
}

#[test]
fn restart_signals() {
    assert!(restart_command(-1) == RestartCommand::RestartWeb);
    assert!(restart_command(7) == RestartCommand::StopRoute(7));
    assert_eq!(log_filter("debug"), "tor_router=debug,hyper=info,reqwest=info,h2=info");
}

#[test]
fn in_memory_log_is_bounded() {
    let l = AppLogger::new();
    let mut logs: Vec<String> = Vec::new();
    for i in 0..1005 {
        l.record(&mut logs, format!("line {}", i).as_bytes());
    }
    assert_eq!(logs.len(), 1001);
    assert_eq!(logs.last().map(|s| s.as_str()), Some("line 1004"));
    assert_eq!(logs[0], "line 4");
    l.record(&mut logs, &[0xff]);
    assert_eq!(logs.last().map(|s| s.as_str()), Some("\u{fffd}"));
    l.record(&mut logs, &[0x61, 0xff, 0x62]);
    assert_eq!(logs.last().map(|s| s.as_str()), Some("a\u{fffd}b"));
}

#[test]
fn start_level_prefers_environment() {
    assert_eq!(start_log_level(Some("debug".to_string()), "warn"), "debug");
    assert_eq!(start_log_level(None, "warn"), "warn");
    assert_eq!(start_log_level(None, ""), "info");
    assert_eq!(start_log_level(Some(String::new()), "warn"), "info");
}

fn backend_of(slot: &Slot) -> (Option<String>, Option<String>) {
    (
        slot.active.as_ref().map(|b| b.socks.clone()),
        slot.draining.as_ref().map(|b| b.socks.clone()),
    )
}

#[test]
fn worker_keeps_one_instance() {
    let mut w = WorkerState::new();
    let mut slot = Slot::empty();
    assert!(w.wants_test(10, 24, NOT_CONNECTED_NANOS));
    // The first test instance is always kept; nothing runs before it.
    let stop = w.finish_test(&mut slot, NOT_CONNECTED_NANOS, 0, "127.0.0.1:1".to_string(), 900, 100);
    assert_eq!(stop, None);
    assert_eq!(w.active, Some(0));
    assert_eq!(w.last_swap, 100);
    assert_eq!(backend_of(&slot), (Some("127.0.0.1:1".to_string()), None));
    // A connected running instance, before the swap interval: no test.
    assert!(!w.wants_test(200, 24, 900));
    assert!(w.wants_test(100 + 24 * 3600, 24, 900));
    // A slower test instance is stopped.
    let stop = w.finish_test(&mut slot, 900, 1, "127.0.0.1:2".to_string(), 950, 300);
    assert_eq!(stop, Some(1));
    assert_eq!(w.active, Some(0));
    assert_eq!(w.last_swap, 100);
    assert_eq!(backend_of(&slot), (Some("127.0.0.1:1".to_string()), None));
    // A faster one replaces the running one, which is stopped.
    let stop = w.finish_test(&mut slot, 900, 2, "127.0.0.1:3".to_string(), 500, 400);
    assert_eq!(stop, Some(0));
    assert_eq!(w.active, Some(2));
    assert_eq!(w.last_swap, 400);
    assert_eq!(backend_of(&slot), (Some("127.0.0.1:3".to_string()), Some("127.0.0.1:1".to_string())));
    // A test instance that is not connected never replaces a running one.
    let stop = w.finish_test(&mut slot, 900, 3, "127.0.0.1:4".to_string(), NOT_CONNECTED_NANOS, 500);
    assert_eq!(stop, Some(3));
    assert_eq!(w.active, Some(2));
}
