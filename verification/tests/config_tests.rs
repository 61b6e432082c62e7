use tor_router::config::{
    route_from_row, route_to_row, settings_from_rows, settings_rows, RouteConfig, Settings,
    SettingsUpdate,
};

fn route(id: i64, name: &str) -> RouteConfig {
    RouteConfig {
        id,
        name: name.to_string(),
        bind_address: Some("0.0.0.0".to_string()),
        input_port: 1080,
        username: None,
        password: None,
        country_code: "us".to_string(),
        swap_interval_hours: Some(24),
        test_interval_minutes: Some(15),
        restart_trigger: None,
        tor_ip: None,
        last_checked_at: None,
    }
}

fn sample_settings() -> Settings {
    Settings {
        web_panel_port: 8443,
        web_bind_address: "10.0.0.1".to_string(),
        api_port: 9191,
        admin_username: "root".to_string(),
        admin_password: "s3cret".to_string(),
        domain: Some("panel.example.org".to_string()),
        use_custom_cert: true,
        custom_cert_path: Some("/etc/cert.pem".to_string()),
        custom_key_path: None,
        web_base_path: "/panel".to_string(),
        log_level: "debug".to_string(),
    }
}

fn same_settings(a: &Settings, b: &Settings) -> bool {
    a.web_panel_port == b.web_panel_port
        && a.web_bind_address == b.web_bind_address
        && a.api_port == b.api_port
        && a.admin_username == b.admin_username
        && a.admin_password == b.admin_password
        && a.domain == b.domain
        && a.use_custom_cert == b.use_custom_cert
        && a.custom_cert_path == b.custom_cert_path
        && a.custom_key_path == b.custom_key_path
        && a.web_base_path == b.web_base_path
        && a.log_level == b.log_level
}

#[test]
fn default_settings() {
    let s = Settings::default();
    assert_eq!(s.web_panel_port, 3000);
    assert_eq!(s.web_bind_address, "0.0.0.0");
    assert_eq!(s.api_port, 9090);
    assert_eq!(s.admin_username, "admin");
    assert_eq!(s.admin_password, "admin");
    assert_eq!(s.domain, None);
    assert!(!s.use_custom_cert);
    assert_eq!(s.web_base_path, "");
    assert_eq!(s.log_level, "info");
}

#[test]
fn settings_rows_are_the_stored_form() {
    let rows = settings_rows(&sample_settings());
    let keys: Vec<&str> = rows.iter().map(|r| r.0.as_str()).collect();
    assert_eq!(
        keys,
        vec![
            "web_panel_port", "web_bind_address", "api_port", "admin_username", "admin_password",
            "domain", "use_custom_cert", "custom_cert_path", "custom_key_path", "web_base_path",
            "log_level"
        ]
    );
    assert_eq!(rows[0].1, "8443");
    assert_eq!(rows[6].1, "true");
    assert_eq!(rows[8].1, "");
}

#[test]
fn settings_load_after_save_in_any_order() {
    let s = sample_settings();
    let mut rows = settings_rows(&s);
    assert!(same_settings(&settings_from_rows(&rows), &s));
    rows.reverse();
    assert!(same_settings(&settings_from_rows(&rows), &s));
}

#[test]
fn empty_optional_setting_reads_back_absent() {
    let mut s = sample_settings();
    s.domain = Some(String::new());
    let back = settings_from_rows(&settings_rows(&s));
    assert_eq!(back.domain, None);
}

#[test]
fn loading_falls_back_and_ignores_unknown_keys() {
    let rows = vec![
        ("web_panel_port".to_string(), "not a port".to_string()),
        ("api_port".to_string(), "70000".to_string()),
        ("use_custom_cert".to_string(), "TRUE".to_string()),
        ("colour".to_string(), "blue".to_string()),
        ("admin_username".to_string(), "first".to_string()),
        ("admin_username".to_string(), "last".to_string()),
    ];
    let s = settings_from_rows(&rows);
    assert_eq!(s.web_panel_port, 3000);
    assert_eq!(s.api_port, 9090);
    assert!(!s.use_custom_cert);
    assert_eq!(s.admin_username, "last");
    assert_eq!(s.admin_password, "admin");
}

#[test]
fn route_row_round_trip_fills_defaults() {
    let mut r = route(0, "r1");
    r.bind_address = None;
    r.username = Some(String::new());
    r.password = Some("pw".to_string());
    r.swap_interval_hours = None;
    r.test_interval_minutes = None;
    let row = route_to_row(&r, 7);
    assert_eq!(row.bind_address, "0.0.0.0");
    assert_eq!(row.swap_interval_hours, 24);
    assert_eq!(row.test_interval_minutes, 15);
    let back = route_from_row(row);
    assert_eq!(back.id, 7);
    assert_eq!(back.bind_address.as_deref(), Some("0.0.0.0"));
    assert_eq!(back.username, None);
    assert_eq!(back.password.as_deref(), Some("pw"));
    assert_eq!(back.swap_interval_hours, Some(24));
    assert_eq!(back.test_interval_minutes, Some(15));
    let again = route_from_row(route_to_row(&back, 7));
    assert!(again == back);
}

#[test]
fn huge_interval_survives_the_signed_column() {
    let mut r = route(1, "big");
    r.swap_interval_hours = Some(u64::MAX);
    let row = route_to_row(&r, 1);
    assert_eq!(row.swap_interval_hours, -1);
    assert_eq!(route_from_row(row).swap_interval_hours, Some(u64::MAX));
}

#[test]
fn route_equality_ignores_observed_state() {
    let a = route(1, "a");
    let mut b = route(1, "a");
    b.tor_ip = Some("1.2.3.4".to_string());
    b.last_checked_at = Some("1700000000000".to_string());
    assert!(a == b);
    b.restart_trigger = Some("1".to_string());
    assert!(a != b);
    let c = a.clone();
    assert!(c == a);
}

#[test]
fn settings_update_overwrites_given_fields() {
    let mut s = sample_settings();
    let u = SettingsUpdate {
        web_panel_port: Some(4000),
        web_bind_address: None,
        api_port: None,
        admin_username: Some("boss".to_string()),
        admin_password: None,
        domain: None,
        use_custom_cert: None,
        custom_cert_path: None,
        custom_key_path: Some("/k".to_string()),
        web_base_path: None,
        log_level: None,
    };
    s.apply_update(u);
    assert_eq!(s.web_panel_port, 4000);
    assert_eq!(s.admin_username, "boss");
    assert_eq!(s.admin_password, "s3cret");
    assert_eq!(s.domain, None);
    assert_eq!(s.custom_cert_path, None);
    assert_eq!(s.custom_key_path.as_deref(), Some("/k"));
    assert!(s.use_custom_cert);
}

#[test]
fn settings_update_twice_is_once() {
    let make = || SettingsUpdate {
        web_panel_port: Some(5000),
        web_bind_address: Some("127.0.0.1".to_string()),
        api_port: None,
        admin_username: None,
        admin_password: None,
        domain: Some("d.example".to_string()),
        use_custom_cert: Some(false),
        custom_cert_path: None,
        custom_key_path: None,
        web_base_path: Some("x".to_string()),
        log_level: Some("warn".to_string()),
    };
    let mut once = sample_settings();
    once.apply_update(make());
    let mut twice = sample_settings();
    twice.apply_update(make());
    twice.apply_update(make());
    assert!(same_settings(&once, &twice));
}
