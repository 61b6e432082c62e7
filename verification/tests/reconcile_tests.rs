use tor_router::config::RouteConfig;
use tor_router::reconcile::{desired_routes, normalize_route, plan_reload, RouteAction};

fn route(id: i64, name: &str) -> RouteConfig {
    RouteConfig {
        id,
        name: name.to_string(),
        bind_address: Some("0.0.0.0".to_string()),
        input_port: 1080,
        username: None,
        password: None,
        country_code: "us".to_string(),
        swap_interval_hours: Some(24),
        test_interval_minutes: Some(15),
        restart_trigger: None,
        tor_ip: None,
        last_checked_at: None,
    }
}

fn describe(a: &RouteAction) -> String {
    match a {
        RouteAction::Stop(id) => format!("stop {}", id),
        RouteAction::Start(c) => format!("start {}", c.id),
        RouteAction::Change { id, restart_worker, restart_router, update_config, .. } => {
            format!("change {} {} {} {}", id, restart_worker, restart_router, update_config)
        }
    }
}

#[test]
fn intervals_are_normalized() {
    let mut r = route(1, "a");
    r.swap_interval_hours = Some(0);
    r.test_interval_minutes = None;
    normalize_route(&mut r);
    assert_eq!(r.swap_interval_hours, Some(1440));
    assert_eq!(r.test_interval_minutes, Some(15));
}

#[test]
fn last_row_of_an_id_wins() {
    let d = desired_routes(&vec![route(1, "a"), route(2, "b"), route(1, "c")]);
    let names: Vec<&str> = d.iter().map(|r| r.name.as_str()).collect();
    assert_eq!(names, vec!["b", "c"]);
}

#[test]
fn reload_starts_and_stops() {
    let running = vec![route(1, "a"), route(2, "b")];
    let loaded = vec![route(2, "b"), route(3, "c")];
    let plan: Vec<String> = plan_reload(&running, &loaded).iter().map(describe).collect();
    assert_eq!(plan, vec!["stop 1", "start 3"]);
}

#[test]
fn reload_restarts_what_changed() {
    let running = vec![route(1, "a"), route(2, "b"), route(3, "c"), route(4, "d")];
    let mut l1 = route(1, "a");
    l1.country_code = "de".to_string();
    let mut l2 = route(2, "b");
    l2.input_port = 2000;
    let mut l3 = route(3, "c");
    l3.username = Some("u".to_string());
    let mut l4 = route(4, "d");
    l4.tor_ip = Some("9.9.9.9".to_string());
    let plan: Vec<String> =
        plan_reload(&running, &vec![l1, l2, l3, l4]).iter().map(describe).collect();
    assert_eq!(
        plan,
        vec!["change 1 true false false", "change 2 false true true", "change 3 false false true"]
    );
}

#[test]
fn reload_restarts_worker_on_marker() {
    let running = vec![route(5, "e")];
    let mut l = route(5, "e");
    l.restart_trigger = Some("1".to_string());
    l.bind_address = Some("127.0.0.1".to_string());
    let plan: Vec<String> = plan_reload(&running, &vec![l]).iter().map(describe).collect();
    assert_eq!(plan, vec!["change 5 true true false"]);
}

#[test]
fn settled_reload_does_nothing() {
    let loaded = vec![route(1, "a"), route(2, "b")];
    let running = desired_routes(&loaded);
    assert!(plan_reload(&running, &loaded).is_empty());
}

#[test]
fn reload_from_nothing_starts_everything() {
    let plan: Vec<String> =
        plan_reload(&Vec::new(), &vec![route(1, "a"), route(2, "b")]).iter().map(describe).collect();
    assert_eq!(plan, vec!["start 1", "start 2"]);
}
