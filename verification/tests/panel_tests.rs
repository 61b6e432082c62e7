use tor_router::config::Settings;
use tor_router::panel::{
    api_url, credentials_update, edit_form, format_age, format_age_at, latency_color, menu_choice,
    normalize_base_path, panel_address, port_choice, ports_update, probe_request_url, route_form,
    serve_mode, web_bind, MenuChoice, RouteForm, ServeMode,
};

#[test]
fn base_path_normalization() {
    assert_eq!(normalize_base_path(""), "");
    assert_eq!(normalize_base_path("/"), "");
    assert_eq!(normalize_base_path("  panel/ "), "/panel");
    assert_eq!(normalize_base_path("/a/b//"), "/a/b");
    assert_eq!(normalize_base_path("//"), "");
}

#[test]
fn bind_and_api_addresses() {
    let mut s = Settings::default();
    assert_eq!(web_bind(&s), "0.0.0.0:3000");
    assert_eq!(api_url(&s), "http://127.0.0.1:3000");
    s.web_base_path = "admin/".to_string();
    s.domain = Some("tor.example.com".to_string());
    assert_eq!(api_url(&s), "https://tor.example.com:3000/admin");
    s.domain = Some("  ".to_string());
    assert_eq!(api_url(&s), "http://127.0.0.1:3000/admin");
    s.use_custom_cert = true;
    assert_eq!(api_url(&s), "https://  :3000/admin");
}

#[test]
fn panel_addresses() {
    let mut s = Settings::default();
    assert_eq!(panel_address(&s), "http://127.0.0.1:3000");
    s.web_panel_port = 80;
    s.web_bind_address = "10.1.1.1".to_string();
    s.web_base_path = "p".to_string();
    assert_eq!(panel_address(&s), "http://10.1.1.1/p/");
    s.domain = Some("x.org".to_string());
    s.web_panel_port = 443;
    assert_eq!(panel_address(&s), "https://x.org/p/");
}

#[test]
fn menu_choices() {
    assert!(menu_choice("1\n") == MenuChoice::LiveStatus);
    assert!(menu_choice(" 9 ") == MenuChoice::PanelInfo);
    assert!(menu_choice("0") == MenuChoice::Exit);
    assert!(menu_choice("10") == MenuChoice::Invalid);
    assert!(menu_choice("") == MenuChoice::Invalid);
}

#[test]
fn port_choices() {
    assert_eq!(port_choice("\n"), 3000);
    assert_eq!(port_choice("8080\n"), 8080);
    assert_eq!(port_choice("x"), 3000);
    assert_eq!(port_choice("70000"), 3000);
    let u = ports_update(8080);
    assert_eq!(u.web_panel_port, Some(8080));
    assert_eq!(u.api_port, Some(8080));
    assert_eq!(u.domain, None);
}

#[test]
fn latency_colors() {
    assert_eq!(latency_color("Connecting/Error"), "\x1b[31m");
    assert_eq!(latency_color("2s"), "\x1b[33m");
    assert_eq!(latency_color("120ms"), "\x1b[32m");
    assert_eq!(latency_color("Pending"), "\x1b[32m");
}

#[test]
fn ages() {
    let now = 10_000_000i64;
    assert_eq!(format_age_at(&None, now), "-");
    assert_eq!(format_age_at(&Some("abc".to_string()), now), "-");
    assert_eq!(format_age_at(&Some((now + 5).to_string()), now), "0s");
    assert_eq!(format_age_at(&Some((now - 59_999).to_string()), now), "59s");
    assert_eq!(format_age_at(&Some((now - 60_000).to_string()), now), "1m");
    assert_eq!(format_age_at(&Some((now - 3_599_999).to_string()), now), "59m");
    assert_eq!(format_age_at(&Some((now - 7_200_000).to_string()), now), "2h");
    assert_eq!(format_age(&Some("x".to_string())), "-");
    assert_eq!(format_age(&Some("0".to_string())).chars().last(), Some('h'));
}

#[test]
fn credentials_menu() {
    assert!(credentials_update("\n", " ", "").is_none());
    let u = credentials_update("bob\n", "", "-").unwrap();
    assert_eq!(u.admin_username.as_deref(), Some("bob"));
    assert_eq!(u.admin_password, None);
    assert_eq!(u.web_base_path.as_deref(), Some(""));
    let u = credentials_update("", "pw", "/p").unwrap();
    assert_eq!(u.admin_password.as_deref(), Some("pw"));
    assert_eq!(u.web_base_path.as_deref(), Some("/p"));
}

#[test]
fn creation_dialogue() {
    assert!(route_form(" \n", "", "", "", "", "", "", "").is_none());
    let f = route_form("r1\n", "\n", "x\n", "\n", "pw\n", " us\n", "12\n", "no\n").unwrap();
    assert_eq!(f.name, "r1");
    assert_eq!(f.bind_address, "127.0.0.1");
    assert_eq!(f.input_port, 0);
    assert_eq!(f.username, None);
    assert_eq!(f.password.as_deref(), Some("pw"));
    assert_eq!(f.country_code, "us");
    assert_eq!(f.swap_interval_hours, Some(12));
    assert_eq!(f.test_interval_minutes, None);
}

#[test]
fn edit_dialogue() {
    let old = RouteForm {
        name: "a".to_string(),
        bind_address: "0.0.0.0".to_string(),
        input_port: 1080,
        username: Some("u".to_string()),
        password: None,
        country_code: "us".to_string(),
        swap_interval_hours: None,
        test_interval_minutes: None,
    };
    let f = edit_form(old, 24, 15, "\n", "127.0.0.1\n", "bad\n", "\n", "p\n", "\n", "48\n", "x\n");
    assert_eq!(f.name, "a");
    assert_eq!(f.bind_address, "127.0.0.1");
    assert_eq!(f.input_port, 1080);
    assert_eq!(f.username.as_deref(), Some("u"));
    assert_eq!(f.password.as_deref(), Some("p"));
    assert_eq!(f.country_code, "us");
    assert_eq!(f.swap_interval_hours, Some(48));
    assert_eq!(f.test_interval_minutes, Some(15));
}

#[test]
fn probe_request() {
    assert_eq!(
        probe_request_url("http://h:3000//", "0.0.0.0", 1080),
        "http://h:3000/probe?bind=0.0.0.0&port=1080"
    );
}

#[test]
fn custom_certificate_when_both_paths_set() {
    let mut s = Settings::default();
    s.use_custom_cert = true;
    s.custom_cert_path = Some("/c.pem".to_string());
    s.custom_key_path = Some("/k.pem".to_string());
    s.domain = Some("example.org".to_string());
    match serve_mode(&s) {
        ServeMode::CustomTls { cert, key } => {
            assert_eq!(cert, "/c.pem");
            assert_eq!(key, "/k.pem");
        }
        _ => panic!("custom certificate expected"),
    }
}

#[test]
fn plain_http_when_certificate_paths_missing() {
    let mut s = Settings::default();
    s.use_custom_cert = true;
    s.custom_cert_path = Some("/c.pem".to_string());
    s.domain = Some("example.org".to_string());
    assert!(matches!(serve_mode(&s), ServeMode::Plain { cert_missing: true }));
}

#[test]
fn automatic_certificates_for_trimmed_domain() {
    let mut s = Settings::default();
    s.domain = Some("  panel.example.org ".to_string());
    match serve_mode(&s) {
        ServeMode::Acme { domain } => assert_eq!(domain, "panel.example.org"),
        _ => panic!("automatic certificates expected"),
    }
}

#[test]
fn plain_http_without_domain() {
    let mut s = Settings::default();
    assert!(matches!(serve_mode(&s), ServeMode::Plain { cert_missing: false }));
    s.domain = Some("   ".to_string());
    assert!(matches!(serve_mode(&s), ServeMode::Plain { cert_missing: false }));
}
