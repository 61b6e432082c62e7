use tor_router::config::RouteConfig;
use tor_router::routes::{
    add_route, apply_edit, find_by_name, mark_restart, remove_route, replace_route,
    restart_marker, RouteBody,
};

fn route(id: i64, name: &str) -> RouteConfig {
    RouteConfig {
        id,
        name: name.to_string(),
        bind_address: Some("0.0.0.0".to_string()),
        input_port: 1080,
        username: None,
        password: None,
        country_code: "us".to_string(),
        swap_interval_hours: Some(24),
        test_interval_minutes: Some(15),
        restart_trigger: None,
        tor_ip: None,
        last_checked_at: None,
    }
}

#[test]
fn body_defaults() {
    let b = RouteBody {
        name: "de-1".to_string(),
        bind_address: None,
        input_port: 9050,
        username: Some(String::new()),
        password: Some("x".to_string()),
        country_code: "DE".to_string(),
        swap_interval_minutes: None,
        test_interval_minutes: Some(5),
    };
    let r = b.into_route();
    assert_eq!(r.id, 0);
    assert_eq!(r.bind_address.as_deref(), Some("127.0.0.1"));
    assert_eq!(r.username, None);
    assert_eq!(r.password.as_deref(), Some("x"));
    assert_eq!(r.country_code, "de");
    assert_eq!(r.swap_interval_hours, Some(1440));
    assert_eq!(r.test_interval_minutes, Some(5));
    assert_eq!(r.restart_trigger, None);
}

#[test]
fn body_country_lowercased_in_unicode() {
    let b = RouteBody {
        name: "x".to_string(),
        bind_address: Some("0.0.0.0".to_string()),
        input_port: 1,
        username: None,
        password: None,
        country_code: "ÄB".to_string(),
        swap_interval_minutes: Some(60),
        test_interval_minutes: None,
    };
    assert_eq!(b.into_route().country_code, "äb");
}

#[test]
fn edit_keeps_marker_and_observed_state() {
    let mut old = route(3, "old");
    old.restart_trigger = Some("123".to_string());
    old.tor_ip = Some("5.6.7.8".to_string());
    let edit = route(0, "new");
    let r = apply_edit(edit, Some(&old), 3);
    assert_eq!(r.id, 3);
    assert_eq!(r.name, "new");
    assert_eq!(r.restart_trigger.as_deref(), Some("123"));
    assert_eq!(r.tor_ip.as_deref(), Some("5.6.7.8"));
    let r = apply_edit(route(0, "n"), None, 4);
    assert_eq!(r.id, 4);
    assert_eq!(r.restart_trigger, None);
}

#[test]
fn replace_only_the_first_match() {
    let mut v = vec![route(1, "a"), route(2, "b"), route(2, "c")];
    replace_route(&mut v, 2, route(2, "z"));
    assert_eq!(v[1].name, "z");
    assert_eq!(v[2].name, "c");
    replace_route(&mut v, 9, route(9, "q"));
    assert_eq!(v.len(), 3);
}

#[test]
fn remove_every_match_keeps_order() {
    let mut v = vec![route(1, "a"), route(2, "b"), route(3, "c"), route(2, "d")];
    remove_route(&mut v, 2);
    let names: Vec<&str> = v.iter().map(|r| r.name.as_str()).collect();
    assert_eq!(names, vec!["a", "c"]);
    remove_route(&mut v, 2);
    assert_eq!(v.len(), 2);
}

#[test]
fn mark_restart_sets_marker() {
    let mut v = vec![route(1, "a"), route(2, "b")];
    let m = restart_marker(1700000000123);
    assert_eq!(m, "1700000000123");
    mark_restart(&mut v, 2, &m);
    assert_eq!(v[1].restart_trigger.as_deref(), Some("1700000000123"));
    assert_eq!(v[0].restart_trigger, None);
}

#[test]
fn find_route_by_name() {
    let v = vec![route(1, "a"), route(2, "b"), route(3, "b")];
    assert_eq!(find_by_name(&v, "b"), Some(1));
    assert_eq!(find_by_name(&v, "zz"), None);
}

#[test]
fn created_route_gets_its_id() {
    let mut v = vec![route(1, "a")];
    add_route(&mut v, route(0, "b"), 42);
    assert_eq!(v.len(), 2);
    assert_eq!(v[1].id, 42);
    assert_eq!(v[1].name, "b");
}
