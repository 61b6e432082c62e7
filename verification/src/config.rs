//! Route and settings records, and the rows they are stored as.

use vstd::prelude::*;
use crate::text::{
    filter_non_empty, non_empty, copy_opt, decimal, lemma_parse_u16_decimal, opt_eq, opt_view, parse_u16, parse_u16_spec, str_eq,
    string_of, u128_to_string,
};

verus! {

// ---------------------------------------------------------------- routes

/// One SOCKS5 entry point and the Tor exit country it leads to.
pub struct RouteConfig {
    pub id: i64,
    pub name: String,
    pub bind_address: Option<String>,
    pub input_port: u16,
    pub username: Option<String>,
    pub password: Option<String>,
    pub country_code: String,
    pub swap_interval_hours: Option<u64>,
    pub test_interval_minutes: Option<u64>,
    pub restart_trigger: Option<String>,
    pub tor_ip: Option<String>,
    pub last_checked_at: Option<String>,
}

/// A route as a mathematical value.
pub struct RouteView {
    pub id: i64,
    pub name: Seq<char>,
    pub bind_address: Option<Seq<char>>,
    pub input_port: u16,
    pub username: Option<Seq<char>>,
    pub password: Option<Seq<char>>,
    pub country_code: Seq<char>,
    pub swap_interval_hours: Option<u64>,
    pub test_interval_minutes: Option<u64>,
    pub restart_trigger: Option<Seq<char>>,
    pub tor_ip: Option<Seq<char>>,
    pub last_checked_at: Option<Seq<char>>,
}

impl View for RouteConfig {
    type V = RouteView;

    open spec fn view(&self) -> RouteView {
        RouteView {
            id: self.id,
            name: self.name@,
            bind_address: opt_view(self.bind_address),
            input_port: self.input_port,
            username: opt_view(self.username),
            password: opt_view(self.password),
            country_code: self.country_code@,
            swap_interval_hours: self.swap_interval_hours,
            test_interval_minutes: self.test_interval_minutes,
            restart_trigger: opt_view(self.restart_trigger),
            tor_ip: opt_view(self.tor_ip),
            last_checked_at: opt_view(self.last_checked_at),
        }
    }
}

/// Route equality: every field but the observed exit address and the time
/// it was observed.
pub open spec fn same_route(a: RouteView, b: RouteView) -> bool {
    &&& a.id == b.id
    &&& a.name == b.name
    &&& a.bind_address == b.bind_address
    &&& a.input_port == b.input_port
    &&& a.username == b.username
    &&& a.password == b.password
    &&& a.country_code == b.country_code
    &&& a.swap_interval_hours == b.swap_interval_hours
    &&& a.test_interval_minutes == b.test_interval_minutes
    &&& a.restart_trigger == b.restart_trigger
}

impl RouteConfig {
    /// A field-by-field copy.
    pub fn copy(&self) -> (r: RouteConfig)
        ensures
            r@ == self@,
    {
        RouteConfig {
            id: self.id,
            name: self.name.clone(),
            bind_address: copy_opt(&self.bind_address),
            input_port: self.input_port,
            username: copy_opt(&self.username),
            password: copy_opt(&self.password),
            country_code: self.country_code.clone(),
            swap_interval_hours: self.swap_interval_hours,
            test_interval_minutes: self.test_interval_minutes,
            restart_trigger: copy_opt(&self.restart_trigger),
            tor_ip: copy_opt(&self.tor_ip),
            last_checked_at: copy_opt(&self.last_checked_at),
        }
    }

    /// Whether two routes are the same apart from their observed state.
    pub fn same_as(&self, other: &RouteConfig) -> (r: bool)
        ensures
            r == same_route(self@, other@),
    {
        self.id == other.id && self.name == other.name && opt_eq(
            &self.bind_address,
            &other.bind_address,
        ) && self.input_port == other.input_port && opt_eq(&self.username, &other.username)
            && opt_eq(&self.password, &other.password) && self.country_code == other.country_code
            && self.swap_interval_hours == other.swap_interval_hours && self.test_interval_minutes
            == other.test_interval_minutes && opt_eq(&self.restart_trigger, &other.restart_trigger)
    }
}

impl Clone for RouteConfig {
    fn clone(&self) -> (r: Self)
        ensures
            r@ == self@,
    {
        self.copy()
    }
}

impl PartialEq for RouteConfig {
    fn eq(&self, other: &Self) -> (r: bool) {
        self.same_as(other)
    }
}

impl vstd::std_specs::cmp::PartialEqSpecImpl for RouteConfig {
    open spec fn obeys_eq_spec() -> bool {
        true
    }

    open spec fn eq_spec(&self, other: &RouteConfig) -> bool {
        same_route(self@, other@)
    }
}

/// All configured routes.
pub struct Config {
    pub routes: Vec<RouteConfig>,
}

/// The routes of a configuration as values.
pub open spec fn routes_view(routes: Seq<RouteConfig>) -> Seq<RouteView> {
    routes.map_values(|r: RouteConfig| r@)
}

impl View for Config {
    type V = Seq<RouteView>;

    open spec fn view(&self) -> Seq<RouteView> {
        routes_view(self.routes@)
    }
}


/// One row of the routes table, column by column.
pub struct RouteRow {
    pub id: i64,
    pub name: String,
    pub bind_address: String,
    pub input_port: u16,
    pub username: Option<String>,
    pub password: Option<String>,
    pub country_code: String,
    pub swap_interval_hours: i64,
    pub test_interval_minutes: i64,
    pub tor_ip: Option<String>,
    pub last_checked_at: Option<String>,
    pub restart_trigger: Option<String>,
}

/// A routes-table row as a value.
pub struct RouteRowView {
    pub id: i64,
    pub name: Seq<char>,
    pub bind_address: Seq<char>,
    pub input_port: u16,
    pub username: Option<Seq<char>>,
    pub password: Option<Seq<char>>,
    pub country_code: Seq<char>,
    pub swap_interval_hours: i64,
    pub test_interval_minutes: i64,
    pub tor_ip: Option<Seq<char>>,
    pub last_checked_at: Option<Seq<char>>,
    pub restart_trigger: Option<Seq<char>>,
}

impl View for RouteRow {
    type V = RouteRowView;

    open spec fn view(&self) -> RouteRowView {
        RouteRowView {
            id: self.id,
            name: self.name@,
            bind_address: self.bind_address@,
            input_port: self.input_port,
            username: opt_view(self.username),
            password: opt_view(self.password),
            country_code: self.country_code@,
            swap_interval_hours: self.swap_interval_hours,
            test_interval_minutes: self.test_interval_minutes,
            tor_ip: opt_view(self.tor_ip),
            last_checked_at: opt_view(self.last_checked_at),
            restart_trigger: opt_view(self.restart_trigger),
        }
    }
}

/// The route a stored row describes: empty credentials count as absent,
/// and the stored intervals are read as unsigned.
pub open spec fn route_of_row(r: RouteRowView) -> RouteView {
    RouteView {
        id: r.id,
        name: r.name,
        bind_address: Some(r.bind_address),
        input_port: r.input_port,
        username: non_empty(r.username),
        password: non_empty(r.password),
        country_code: r.country_code,
        swap_interval_hours: Some(r.swap_interval_hours as u64),
        test_interval_minutes: Some(r.test_interval_minutes as u64),
        restart_trigger: r.restart_trigger,
        tor_ip: r.tor_ip,
        last_checked_at: r.last_checked_at,
    }
}

/// The row under which `r` is written with id `id`: the bind address
/// defaults to all interfaces, the swap interval to 24 and the test
/// interval to 15.
pub open spec fn row_of_route(r: RouteView, id: i64) -> RouteRowView {
    RouteRowView {
        id: id,
        name: r.name,
        bind_address: match r.bind_address {
            Some(b) => b,
            None => "0.0.0.0"@,
        },
        input_port: r.input_port,
        username: r.username,
        password: r.password,
        country_code: r.country_code,
        swap_interval_hours: r.swap_interval_hours.unwrap_or(24) as i64,
        test_interval_minutes: r.test_interval_minutes.unwrap_or(15) as i64,
        tor_ip: r.tor_ip,
        last_checked_at: r.last_checked_at,
        restart_trigger: r.restart_trigger,
    }
}

/// Reads a route out of a stored row.
pub fn route_from_row(row: RouteRow) -> (r: RouteConfig)
    ensures
        r@ == route_of_row(row@),
{
    RouteConfig {
        id: row.id,
        name: row.name,
        bind_address: Some(row.bind_address),
        input_port: row.input_port,
        username: filter_non_empty(row.username),
        password: filter_non_empty(row.password),
        country_code: row.country_code,
        swap_interval_hours: Some(row.swap_interval_hours as u64),
        test_interval_minutes: Some(row.test_interval_minutes as u64),
        restart_trigger: row.restart_trigger,
        tor_ip: row.tor_ip,
        last_checked_at: row.last_checked_at,
    }
}

/// The row that writing `route` under `id` stores.
pub fn route_to_row(route: &RouteConfig, id: i64) -> (r: RouteRow)
    ensures
        r@ == row_of_route(route@, id),
{
    let bind = match &route.bind_address {
        Some(b) => b.clone(),
        None => string_of("0.0.0.0"),
    };
    let swap: u64 = match route.swap_interval_hours {
        Some(h) => h,
        None => 24,
    };
    let test: u64 = match route.test_interval_minutes {
        Some(m) => m,
        None => 15,
    };
    RouteRow {
        id: id,
        name: route.name.clone(),
        bind_address: bind,
        input_port: route.input_port,
        username: copy_opt(&route.username),
        password: copy_opt(&route.password),
        country_code: route.country_code.clone(),
        swap_interval_hours: swap as i64,
        test_interval_minutes: test as i64,
        tor_ip: copy_opt(&route.tor_ip),
        last_checked_at: copy_opt(&route.last_checked_at),
        restart_trigger: copy_opt(&route.restart_trigger),
    }
}

/// What a route looks like once it has been stored and read back.
pub open spec fn stored_route(r: RouteView, id: i64) -> RouteView {
    RouteView {
        id: id,
        bind_address: Some(
            match r.bind_address {
                Some(b) => b,
                None => "0.0.0.0"@,
            },
        ),
        username: non_empty(r.username),
        password: non_empty(r.password),
        swap_interval_hours: Some(r.swap_interval_hours.unwrap_or(24)),
        test_interval_minutes: Some(r.test_interval_minutes.unwrap_or(15)),
        ..r
    }
}

/// A route read back from the row it was written as is the route itself,
/// with the defaults filled in and empty credentials dropped; a route that
/// has been through the table once comes back unchanged.
pub proof fn law_route_read_after_write(r: RouteView, id: i64)
    ensures
        route_of_row(row_of_route(r, id)) == stored_route(r, id),
        route_of_row(row_of_route(stored_route(r, id), id)) == stored_route(r, id),
{
    let h = r.swap_interval_hours.unwrap_or(24);
    let m = r.test_interval_minutes.unwrap_or(15);
    assert((h as i64) as u64 == h) by (bit_vector);
    assert((m as i64) as u64 == m) by (bit_vector);
}

// ---------------------------------------------------------------- settings

/// How the web panel and its API are served, and who may log in.
pub struct Settings {
    pub web_panel_port: u16,
    pub web_bind_address: String,
    pub api_port: u16,
    pub admin_username: String,
    pub admin_password: String,
    pub domain: Option<String>,
    pub use_custom_cert: bool,
    pub custom_cert_path: Option<String>,
    pub custom_key_path: Option<String>,
    pub web_base_path: String,
    pub log_level: String,
}

/// Settings as a mathematical value.
pub struct SettingsView {
    pub web_panel_port: u16,
    pub web_bind_address: Seq<char>,
    pub api_port: u16,
    pub admin_username: Seq<char>,
    pub admin_password: Seq<char>,
    pub domain: Option<Seq<char>>,
    pub use_custom_cert: bool,
    pub custom_cert_path: Option<Seq<char>>,
    pub custom_key_path: Option<Seq<char>>,
    pub web_base_path: Seq<char>,
    pub log_level: Seq<char>,
}

impl View for Settings {
    type V = SettingsView;

    open spec fn view(&self) -> SettingsView {
        SettingsView {
            web_panel_port: self.web_panel_port,
            web_bind_address: self.web_bind_address@,
            api_port: self.api_port,
            admin_username: self.admin_username@,
            admin_password: self.admin_password@,
            domain: opt_view(self.domain),
            use_custom_cert: self.use_custom_cert,
            custom_cert_path: opt_view(self.custom_cert_path),
            custom_key_path: opt_view(self.custom_key_path),
            web_base_path: self.web_base_path@,
            log_level: self.log_level@,
        }
    }
}

/// The settings in force before any are saved.
pub open spec fn default_settings() -> SettingsView {
    SettingsView {
        web_panel_port: 3000,
        web_bind_address: "0.0.0.0"@,
        api_port: 9090,
        admin_username: "admin"@,
        admin_password: "admin"@,
        domain: None,
        use_custom_cert: false,
        custom_cert_path: None,
        custom_key_path: None,
        web_base_path: ""@,
        log_level: "info"@,
    }
}

impl Default for Settings {
    fn default() -> (s: Self)
        ensures
            s@ == default_settings(),
    {
        Settings {
            web_panel_port: 3000,
            web_bind_address: string_of("0.0.0.0"),
            api_port: 9090,
            admin_username: string_of("admin"),
            admin_password: string_of("admin"),
            domain: None,
            use_custom_cert: false,
            custom_cert_path: None,
            custom_key_path: None,
            web_base_path: string_of(""),
            log_level: string_of("info"),
        }
    }
}

impl Settings {
    /// A field-by-field copy.
    pub fn copy(&self) -> (r: Settings)
        ensures
            r@ == self@,
    {
        Settings {
            web_panel_port: self.web_panel_port,
            web_bind_address: self.web_bind_address.clone(),
            api_port: self.api_port,
            admin_username: self.admin_username.clone(),
            admin_password: self.admin_password.clone(),
            domain: copy_opt(&self.domain),
            use_custom_cert: self.use_custom_cert,
            custom_cert_path: copy_opt(&self.custom_cert_path),
            custom_key_path: copy_opt(&self.custom_key_path),
            web_base_path: self.web_base_path.clone(),
            log_level: self.log_level.clone(),
        }
    }
}

impl Clone for Settings {
    fn clone(&self) -> (r: Self)
        ensures
            r@ == self@,
    {
        self.copy()
    }
}

/// A key/value row of the settings table, as values.
pub type RowView = (Seq<char>, Seq<char>);

/// The rows of a settings table, as values.
pub open spec fn rows_view(rows: Seq<(String, String)>) -> Seq<RowView> {
    rows.map_values(|r: (String, String)| (r.0@, r.1@))
}

/// `Some(v)` unless `v` is empty: how an optional setting is read back.
pub open spec fn optional_text(v: Seq<char>) -> Option<Seq<char>> {
    if v.len() == 0 {
        None
    } else {
        Some(v)
    }
}

/// How an optional setting is stored: its text, or empty when absent.
pub open spec fn stored_text(o: Option<Seq<char>>) -> Seq<char> {
    match o {
        Some(v) => v,
        None => Seq::empty(),
    }
}

/// What one stored row does to the settings being loaded; rows with an
/// unknown key change nothing, and unreadable port numbers fall back to
/// the defaults.
pub open spec fn apply_row(s: SettingsView, k: Seq<char>, v: Seq<char>) -> SettingsView {
    if k == "web_panel_port"@ {
        SettingsView { web_panel_port: parse_u16_spec(v).unwrap_or(3000), ..s }
    } else if k == "web_bind_address"@ {
        SettingsView { web_bind_address: v, ..s }
    } else if k == "api_port"@ {
        SettingsView { api_port: parse_u16_spec(v).unwrap_or(9090), ..s }
    } else if k == "admin_username"@ {
        SettingsView { admin_username: v, ..s }
    } else if k == "admin_password"@ {
        SettingsView { admin_password: v, ..s }
    } else if k == "domain"@ {
        SettingsView { domain: optional_text(v), ..s }
    } else if k == "use_custom_cert"@ {
        SettingsView { use_custom_cert: v == "true"@, ..s }
    } else if k == "custom_cert_path"@ {
        SettingsView { custom_cert_path: optional_text(v), ..s }
    } else if k == "custom_key_path"@ {
        SettingsView { custom_key_path: optional_text(v), ..s }
    } else if k == "web_base_path"@ {
        SettingsView { web_base_path: v, ..s }
    } else if k == "log_level"@ {
        SettingsView { log_level: v, ..s }
    } else {
        s
    }
}

/// The settings that result from applying `rows` in order to `init`.
pub open spec fn apply_rows(init: SettingsView, rows: Seq<RowView>) -> SettingsView
    decreases rows.len(),
{
    if rows.len() == 0 {
        init
    } else {
        let last = rows.last();
        apply_row(apply_rows(init, rows.drop_last()), last.0, last.1)
    }
}

/// The rows that saving `s` writes, one per key. The log level is saved
/// with the rest: the settings change that the panel saves carries it, and
/// the daemon reads it back from this table when it starts and when it
/// restarts its web server.
pub open spec fn save_rows(s: SettingsView) -> Seq<RowView> {
    seq![
        ("web_panel_port"@, decimal(s.web_panel_port as nat)),
        ("web_bind_address"@, s.web_bind_address),
        ("api_port"@, decimal(s.api_port as nat)),
        ("admin_username"@, s.admin_username),
        ("admin_password"@, s.admin_password),
        ("domain"@, stored_text(s.domain)),
        ("use_custom_cert"@, if s.use_custom_cert { "true"@ } else { "false"@ }),
        ("custom_cert_path"@, stored_text(s.custom_cert_path)),
        ("custom_key_path"@, stored_text(s.custom_key_path)),
        ("web_base_path"@, s.web_base_path),
        ("log_level"@, s.log_level),
    ]
}

fn text_or_empty(o: &Option<String>) -> (r: String)
    ensures
        r@ == stored_text(opt_view(*o)),
{
    match o {
        Some(v) => v.clone(),
        None => {
            let e = string_of("");
            proof {
                reveal_strlit("");
            }
            e
        },
    }
}

/// The key/value rows under which `s` is saved, in the order they are written.
pub fn settings_rows(s: &Settings) -> (r: Vec<(String, String)>)
    ensures
        rows_view(r@) == save_rows(s@),
{
    let mut r: Vec<(String, String)> = Vec::new();
    r.push((string_of("web_panel_port"), u128_to_string(s.web_panel_port as u128)));
    r.push((string_of("web_bind_address"), s.web_bind_address.clone()));
    r.push((string_of("api_port"), u128_to_string(s.api_port as u128)));
    r.push((string_of("admin_username"), s.admin_username.clone()));
    r.push((string_of("admin_password"), s.admin_password.clone()));
    r.push((string_of("domain"), text_or_empty(&s.domain)));
    let cert = if s.use_custom_cert {
        string_of("true")
    } else {
        string_of("false")
    };
    r.push((string_of("use_custom_cert"), cert));
    r.push((string_of("custom_cert_path"), text_or_empty(&s.custom_cert_path)));
    r.push((string_of("custom_key_path"), text_or_empty(&s.custom_key_path)));
    r.push((string_of("web_base_path"), s.web_base_path.clone()));
    r.push((string_of("log_level"), s.log_level.clone()));
    proof {
        assert(rows_view(r@) =~= save_rows(s@));
    }
    r
}

fn optional_string(v: String) -> (r: Option<String>)
    ensures
        opt_view(r) == optional_text(v@),
{
    let n = crate::text::chars_of(v.as_str());
    if n.len() == 0 {
        None
    } else {
        Some(v)
    }
}

/// Applies one stored row to the settings being loaded.
pub fn apply_setting(s: &mut Settings, key: &str, value: String)
    ensures
        final(s)@ == apply_row(old(s)@, key@, value@),
{
    if str_eq(key, "web_panel_port") {
        s.web_panel_port = match parse_u16(value.as_str()) {
            Some(p) => p,
            None => 3000,
        };
    } else if str_eq(key, "web_bind_address") {
        s.web_bind_address = value;
    } else if str_eq(key, "api_port") {
        s.api_port = match parse_u16(value.as_str()) {
            Some(p) => p,
            None => 9090,
        };
    } else if str_eq(key, "admin_username") {
        s.admin_username = value;
    } else if str_eq(key, "admin_password") {
        s.admin_password = value;
    } else if str_eq(key, "domain") {
        s.domain = optional_string(value);
    } else if str_eq(key, "use_custom_cert") {
        s.use_custom_cert = str_eq(value.as_str(), "true");
    } else if str_eq(key, "custom_cert_path") {
        s.custom_cert_path = optional_string(value);
    } else if str_eq(key, "custom_key_path") {
        s.custom_key_path = optional_string(value);
    } else if str_eq(key, "web_base_path") {
        s.web_base_path = value;
    } else if str_eq(key, "log_level") {
        s.log_level = value;
    }
}

/// The settings that the rows of the settings table describe, read in the
/// given order over the defaults.
pub fn settings_from_rows(rows: &Vec<(String, String)>) -> (s: Settings)
    ensures
        s@ == apply_rows(default_settings(), rows_view(rows@)),
{
    let mut s = Settings::default();
    let ghost all = rows_view(rows@);
    let mut i: usize = 0;
    while i < rows.len()
        invariant
            all == rows_view(rows@),
            i <= rows.len(),
            s@ == apply_rows(default_settings(), all.subrange(0, i as int)),
        decreases rows.len() - i,
    {
        let row = &rows[i];
        proof {
            assert(all.subrange(0, i + 1).drop_last() =~= all.subrange(0, i as int));
        }
        apply_setting(&mut s, row.0.as_str(), row.1.clone());
        i = i + 1;
    }
    proof {
        assert(all.subrange(0, rows.len() as int) =~= all);
    }
    s
}


/// A partial change of the settings, as the panel sends it.
pub struct SettingsUpdate {
    pub web_panel_port: Option<u16>,
    pub web_bind_address: Option<String>,
    pub api_port: Option<u16>,
    pub admin_username: Option<String>,
    pub admin_password: Option<String>,
    pub domain: Option<String>,
    pub use_custom_cert: Option<bool>,
    pub custom_cert_path: Option<String>,
    pub custom_key_path: Option<String>,
    pub web_base_path: Option<String>,
    pub log_level: Option<String>,
}

/// A settings change as a value.
pub struct SettingsUpdateView {
    pub web_panel_port: Option<u16>,
    pub web_bind_address: Option<Seq<char>>,
    pub api_port: Option<u16>,
    pub admin_username: Option<Seq<char>>,
    pub admin_password: Option<Seq<char>>,
    pub domain: Option<Seq<char>>,
    pub use_custom_cert: Option<bool>,
    pub custom_cert_path: Option<Seq<char>>,
    pub custom_key_path: Option<Seq<char>>,
    pub web_base_path: Option<Seq<char>>,
    pub log_level: Option<Seq<char>>,
}

impl View for SettingsUpdate {
    type V = SettingsUpdateView;

    open spec fn view(&self) -> SettingsUpdateView {
        SettingsUpdateView {
            web_panel_port: self.web_panel_port,
            web_bind_address: opt_view(self.web_bind_address),
            api_port: self.api_port,
            admin_username: opt_view(self.admin_username),
            admin_password: opt_view(self.admin_password),
            domain: opt_view(self.domain),
            use_custom_cert: self.use_custom_cert,
            custom_cert_path: opt_view(self.custom_cert_path),
            custom_key_path: opt_view(self.custom_key_path),
            web_base_path: opt_view(self.web_base_path),
            log_level: opt_view(self.log_level),
        }
    }
}

/// The value `o` sets, or `keep` when it sets none.
pub open spec fn or_keep<T>(o: Option<T>, keep: T) -> T {
    match o {
        Some(v) => v,
        None => keep,
    }
}

/// Settings after a change: every field the change gives is replaced; the
/// domain and the certificate and key paths are always taken from the
/// change, so a change without them clears them.
pub open spec fn updated_settings(s: SettingsView, u: SettingsUpdateView) -> SettingsView {
    SettingsView {
        web_panel_port: or_keep(u.web_panel_port, s.web_panel_port),
        web_bind_address: or_keep(u.web_bind_address, s.web_bind_address),
        api_port: or_keep(u.api_port, s.api_port),
        admin_username: or_keep(u.admin_username, s.admin_username),
        admin_password: or_keep(u.admin_password, s.admin_password),
        domain: u.domain,
        use_custom_cert: or_keep(u.use_custom_cert, s.use_custom_cert),
        custom_cert_path: u.custom_cert_path,
        custom_key_path: u.custom_key_path,
        web_base_path: or_keep(u.web_base_path, s.web_base_path),
        log_level: or_keep(u.log_level, s.log_level),
    }
}

impl Settings {
    /// Applies a change from the panel.
    pub fn apply_update(&mut self, u: SettingsUpdate)
        ensures
            final(self)@ == updated_settings(old(self)@, u@),
    {
        if let Some(p) = u.web_panel_port {
            self.web_panel_port = p;
        }
        if let Some(a) = u.web_bind_address {
            self.web_bind_address = a;
        }
        if let Some(p) = u.api_port {
            self.api_port = p;
        }
        if let Some(x) = u.admin_username {
            self.admin_username = x;
        }
        if let Some(x) = u.admin_password {
            self.admin_password = x;
        }
        if let Some(x) = u.use_custom_cert {
            self.use_custom_cert = x;
        }
        if let Some(x) = u.web_base_path {
            self.web_base_path = x;
        }
        if let Some(x) = u.log_level {
            self.log_level = x;
        }
        self.custom_cert_path = u.custom_cert_path;
        self.custom_key_path = u.custom_key_path;
        self.domain = u.domain;
    }
}

/// A change from the panel sets every field it gives and keeps every field
/// it leaves out, except the domain and the certificate and key paths, which
/// are always taken from the change (a change without them clears them).
pub proof fn law_update_sets_fields(s: SettingsView, u: SettingsUpdateView)
    ensures
        ({
            let n = updated_settings(s, u);
            &&& u.web_panel_port is Some ==> n.web_panel_port == u.web_panel_port->0
            &&& u.web_panel_port is None ==> n.web_panel_port == s.web_panel_port
            &&& u.web_bind_address is Some ==> n.web_bind_address == u.web_bind_address->0
            &&& u.web_bind_address is None ==> n.web_bind_address == s.web_bind_address
            &&& u.api_port is Some ==> n.api_port == u.api_port->0
            &&& u.api_port is None ==> n.api_port == s.api_port
            &&& u.admin_username is Some ==> n.admin_username == u.admin_username->0
            &&& u.admin_username is None ==> n.admin_username == s.admin_username
            &&& u.admin_password is Some ==> n.admin_password == u.admin_password->0
            &&& u.admin_password is None ==> n.admin_password == s.admin_password
            &&& u.use_custom_cert is Some ==> n.use_custom_cert == u.use_custom_cert->0
            &&& u.use_custom_cert is None ==> n.use_custom_cert == s.use_custom_cert
            &&& u.web_base_path is Some ==> n.web_base_path == u.web_base_path->0
            &&& u.web_base_path is None ==> n.web_base_path == s.web_base_path
            &&& u.log_level is Some ==> n.log_level == u.log_level->0
            &&& u.log_level is None ==> n.log_level == s.log_level
            &&& n.domain == u.domain
            &&& n.custom_cert_path == u.custom_cert_path
            &&& n.custom_key_path == u.custom_key_path
        }),
{
}

/// Applying the same change twice is applying it once.
pub proof fn law_update_idempotent(s: SettingsView, u: SettingsUpdateView)
    ensures
        updated_settings(updated_settings(s, u), u) == updated_settings(s, u),
{
}

/// The value of the last row with key `k`, if any.
pub open spec fn last_value(rows: Seq<RowView>, k: Seq<char>) -> Option<Seq<char>>
    decreases rows.len(),
{
    if rows.len() == 0 {
        None
    } else if rows.last().0 == k {
        Some(rows.last().1)
    } else {
        last_value(rows.drop_last(), k)
    }
}

/// The settings `init` with every field whose key `look` gives a value
/// replaced by what that value is read as.
pub open spec fn settings_with(init: SettingsView, look: spec_fn(Seq<char>) -> Option<Seq<char>>) -> SettingsView {
    SettingsView {
        web_panel_port: match look("web_panel_port"@) {
            Some(v) => parse_u16_spec(v).unwrap_or(3000),
            None => init.web_panel_port,
        },
        web_bind_address: match look("web_bind_address"@) {
            Some(v) => v,
            None => init.web_bind_address,
        },
        api_port: match look("api_port"@) {
            Some(v) => parse_u16_spec(v).unwrap_or(9090),
            None => init.api_port,
        },
        admin_username: match look("admin_username"@) {
            Some(v) => v,
            None => init.admin_username,
        },
        admin_password: match look("admin_password"@) {
            Some(v) => v,
            None => init.admin_password,
        },
        domain: match look("domain"@) {
            Some(v) => optional_text(v),
            None => init.domain,
        },
        use_custom_cert: match look("use_custom_cert"@) {
            Some(v) => v == "true"@,
            None => init.use_custom_cert,
        },
        custom_cert_path: match look("custom_cert_path"@) {
            Some(v) => optional_text(v),
            None => init.custom_cert_path,
        },
        custom_key_path: match look("custom_key_path"@) {
            Some(v) => optional_text(v),
            None => init.custom_key_path,
        },
        web_base_path: match look("web_base_path"@) {
            Some(v) => v,
            None => init.web_base_path,
        },
        log_level: match look("log_level"@) {
            Some(v) => v,
            None => init.log_level,
        },
    }
}

proof fn lemma_setting_keys_distinct()
    ensures
        "web_panel_port"@ != "web_bind_address"@,
        "web_panel_port"@ != "api_port"@,
        "web_panel_port"@ != "admin_username"@,
        "web_panel_port"@ != "admin_password"@,
        "web_panel_port"@ != "domain"@,
        "web_panel_port"@ != "use_custom_cert"@,
        "web_panel_port"@ != "custom_cert_path"@,
        "web_panel_port"@ != "custom_key_path"@,
        "web_panel_port"@ != "web_base_path"@,
        "web_panel_port"@ != "log_level"@,
        "web_bind_address"@ != "api_port"@,
        "web_bind_address"@ != "admin_username"@,
        "web_bind_address"@ != "admin_password"@,
        "web_bind_address"@ != "domain"@,
        "web_bind_address"@ != "use_custom_cert"@,
        "web_bind_address"@ != "custom_cert_path"@,
        "web_bind_address"@ != "custom_key_path"@,
        "web_bind_address"@ != "web_base_path"@,
        "web_bind_address"@ != "log_level"@,
        "api_port"@ != "admin_username"@,
        "api_port"@ != "admin_password"@,
        "api_port"@ != "domain"@,
        "api_port"@ != "use_custom_cert"@,
        "api_port"@ != "custom_cert_path"@,
        "api_port"@ != "custom_key_path"@,
        "api_port"@ != "web_base_path"@,
        "api_port"@ != "log_level"@,
        "admin_username"@ != "admin_password"@,
        "admin_username"@ != "domain"@,
        "admin_username"@ != "use_custom_cert"@,
        "admin_username"@ != "custom_cert_path"@,
        "admin_username"@ != "custom_key_path"@,
        "admin_username"@ != "web_base_path"@,
        "admin_username"@ != "log_level"@,
        "admin_password"@ != "domain"@,
        "admin_password"@ != "use_custom_cert"@,
        "admin_password"@ != "custom_cert_path"@,
        "admin_password"@ != "custom_key_path"@,
        "admin_password"@ != "web_base_path"@,
        "admin_password"@ != "log_level"@,
        "domain"@ != "use_custom_cert"@,
        "domain"@ != "custom_cert_path"@,
        "domain"@ != "custom_key_path"@,
        "domain"@ != "web_base_path"@,
        "domain"@ != "log_level"@,
        "use_custom_cert"@ != "custom_cert_path"@,
        "use_custom_cert"@ != "custom_key_path"@,
        "use_custom_cert"@ != "web_base_path"@,
        "use_custom_cert"@ != "log_level"@,
        "custom_cert_path"@ != "custom_key_path"@,
        "custom_cert_path"@ != "web_base_path"@,
        "custom_cert_path"@ != "log_level"@,
        "custom_key_path"@ != "web_base_path"@,
        "custom_key_path"@ != "log_level"@,
        "web_base_path"@ != "log_level"@,
        "true"@ != "false"@,
{
    reveal_strlit("web_panel_port");
    reveal_strlit("web_bind_address");
    reveal_strlit("api_port");
    reveal_strlit("admin_username");
    reveal_strlit("admin_password");
    reveal_strlit("domain");
    reveal_strlit("use_custom_cert");
    reveal_strlit("custom_cert_path");
    reveal_strlit("custom_key_path");
    reveal_strlit("web_base_path");
    reveal_strlit("log_level");
    reveal_strlit("true");
    reveal_strlit("false");
    assert("web_panel_port"@[4] != "web_bind_address"@[4]);
    assert("web_panel_port"@[0] != "api_port"@[0]);
    assert("web_panel_port"@[0] != "admin_username"@[0]);
    assert("web_panel_port"@[0] != "admin_password"@[0]);
    assert("web_panel_port"@[0] != "domain"@[0]);
    assert("web_panel_port"@[0] != "use_custom_cert"@[0]);
    assert("web_panel_port"@[0] != "custom_cert_path"@[0]);
    assert("web_panel_port"@[0] != "custom_key_path"@[0]);
    assert("web_panel_port"@[4] != "web_base_path"@[4]);
    assert("web_panel_port"@[0] != "log_level"@[0]);
    assert("web_bind_address"@[0] != "api_port"@[0]);
    assert("web_bind_address"@[0] != "admin_username"@[0]);
    assert("web_bind_address"@[0] != "admin_password"@[0]);
    assert("web_bind_address"@[0] != "domain"@[0]);
    assert("web_bind_address"@[0] != "use_custom_cert"@[0]);
    assert("web_bind_address"@[0] != "custom_cert_path"@[0]);
    assert("web_bind_address"@[0] != "custom_key_path"@[0]);
    assert("web_bind_address"@[5] != "web_base_path"@[5]);
    assert("web_bind_address"@[0] != "log_level"@[0]);
    assert("api_port"@[1] != "admin_username"@[1]);
    assert("api_port"@[1] != "admin_password"@[1]);
    assert("api_port"@[0] != "domain"@[0]);
    assert("api_port"@[0] != "use_custom_cert"@[0]);
    assert("api_port"@[0] != "custom_cert_path"@[0]);
    assert("api_port"@[0] != "custom_key_path"@[0]);
    assert("api_port"@[0] != "web_base_path"@[0]);
    assert("api_port"@[0] != "log_level"@[0]);
    assert("admin_username"@[6] != "admin_password"@[6]);
    assert("admin_username"@[0] != "domain"@[0]);
    assert("admin_username"@[0] != "use_custom_cert"@[0]);
    assert("admin_username"@[0] != "custom_cert_path"@[0]);
    assert("admin_username"@[0] != "custom_key_path"@[0]);
    assert("admin_username"@[0] != "web_base_path"@[0]);
    assert("admin_username"@[0] != "log_level"@[0]);
    assert("admin_password"@[0] != "domain"@[0]);
    assert("admin_password"@[0] != "use_custom_cert"@[0]);
    assert("admin_password"@[0] != "custom_cert_path"@[0]);
    assert("admin_password"@[0] != "custom_key_path"@[0]);
    assert("admin_password"@[0] != "web_base_path"@[0]);
    assert("admin_password"@[0] != "log_level"@[0]);
    assert("domain"@[0] != "use_custom_cert"@[0]);
    assert("domain"@[0] != "custom_cert_path"@[0]);
    assert("domain"@[0] != "custom_key_path"@[0]);
    assert("domain"@[0] != "web_base_path"@[0]);
    assert("domain"@[0] != "log_level"@[0]);
    assert("use_custom_cert"@[0] != "custom_cert_path"@[0]);
    assert("use_custom_cert"@[0] != "custom_key_path"@[0]);
    assert("use_custom_cert"@[0] != "web_base_path"@[0]);
    assert("use_custom_cert"@[0] != "log_level"@[0]);
    assert("custom_cert_path"@[7] != "custom_key_path"@[7]);
    assert("custom_cert_path"@[0] != "web_base_path"@[0]);
    assert("custom_cert_path"@[0] != "log_level"@[0]);
    assert("custom_key_path"@[0] != "web_base_path"@[0]);
    assert("custom_key_path"@[0] != "log_level"@[0]);
    assert("web_base_path"@[0] != "log_level"@[0]);
    assert("true"@.len() != "false"@.len());
}

/// Loading applies the last row of each key: the result of reading `rows`
/// over `init` is `init` with each field taken from the last row of its key.
pub proof fn lemma_apply_rows_last_value(init: SettingsView, rows: Seq<RowView>)
    ensures
        apply_rows(init, rows) == settings_with(init, |k: Seq<char>| last_value(rows, k)),
    decreases rows.len(),
{
    lemma_setting_keys_distinct();
    if rows.len() > 0 {
        lemma_apply_rows_last_value(init, rows.drop_last());
    }
}

/// Whether `rows` lists exactly the entries of the keyed table `table`.
pub open spec fn enumerates(rows: Seq<RowView>, table: Map<Seq<char>, Seq<char>>) -> bool {
    &&& forall|i: int|
        0 <= i < rows.len() ==> table.contains_key((#[trigger] rows[i]).0) && table[rows[i].0]
            == rows[i].1
    &&& forall|k: Seq<char>| #[trigger]
        table.contains_key(k) ==> exists|i: int| 0 <= i < rows.len() && (#[trigger] rows[i]).0 == k
}

/// The settings table after saving `s` into `table`: each key written
/// replaces any earlier value under that key.
pub open spec fn save_into(table: Map<Seq<char>, Seq<char>>, s: SettingsView) -> Map<Seq<char>, Seq<char>> {
    let r = save_rows(s);
    table.insert(r[0].0, r[0].1).insert(r[1].0, r[1].1).insert(r[2].0, r[2].1).insert(
        r[3].0,
        r[3].1,
    ).insert(r[4].0, r[4].1).insert(r[5].0, r[5].1).insert(r[6].0, r[6].1).insert(
        r[7].0,
        r[7].1,
    ).insert(r[8].0, r[8].1).insert(r[9].0, r[9].1).insert(r[10].0, r[10].1)
}

proof fn lemma_last_value_in_table(rows: Seq<RowView>, table: Map<Seq<char>, Seq<char>>, k: Seq<char>)
    requires
        forall|i: int|
            0 <= i < rows.len() ==> table.contains_key((#[trigger] rows[i]).0) && table[rows[i].0]
                == rows[i].1,
    ensures
        last_value(rows, k) is Some ==> table.contains_key(k) && last_value(rows, k) == Some(table[k]),
        last_value(rows, k) is None ==> forall|i: int| 0 <= i < rows.len() ==> (#[trigger] rows[i]).0 != k,
    decreases rows.len(),
{
    if rows.len() > 0 {
        let d = rows.drop_last();
        assert forall|i: int| 0 <= i < d.len() implies table.contains_key((#[trigger] d[i]).0)
            && table[d[i].0] == d[i].1 by {
            assert(d[i] == rows[i]);
        }
        lemma_last_value_in_table(d, table, k);
        assert(rows.last() == rows[rows.len() - 1]);
        if last_value(rows, k) is None {
            assert forall|i: int| 0 <= i < rows.len() implies (#[trigger] rows[i]).0 != k by {
                if i < rows.len() - 1 {
                    assert(d[i] == rows[i]);
                }
            }
        }
    }
}

/// Loading gives back what was saved. Whatever the settings table held
/// before, once `s` is saved into it, reading its rows back, in any order,
/// yields `s` again; the one exception is an optional setting saved as
/// present but empty, which is read back as absent.
pub proof fn law_settings_load_after_save(table: Map<Seq<char>, Seq<char>>, s: SettingsView, rows: Seq<RowView>)
    requires
        enumerates(rows, save_into(table, s)),
        s.domain != Some(Seq::<char>::empty()),
        s.custom_cert_path != Some(Seq::<char>::empty()),
        s.custom_key_path != Some(Seq::<char>::empty()),
    ensures
        apply_rows(default_settings(), rows) == s,
{
    let t = save_into(table, s);
    let r = save_rows(s);
    lemma_setting_keys_distinct();
    lemma_apply_rows_last_value(default_settings(), rows);
    lemma_parse_u16_decimal(s.web_panel_port);
    lemma_parse_u16_decimal(s.api_port);
    assert forall|j: int| 0 <= j < 11 implies last_value(rows, (#[trigger] r[j]).0) == Some(r[j].1) by {
        lemma_last_value_in_table(rows, t, r[j].0);
        assert(t.contains_key(r[j].0));
        if last_value(rows, r[j].0) is None {
            let i = choose|i: int| 0 <= i < rows.len() && (#[trigger] rows[i]).0 == r[j].0;
            assert(rows[i].0 == r[j].0);
        }
    }
    assert(last_value(rows, r[0].0) == Some(r[0].1));
    assert(last_value(rows, r[1].0) == Some(r[1].1));
    assert(last_value(rows, r[2].0) == Some(r[2].1));
    assert(last_value(rows, r[3].0) == Some(r[3].1));
    assert(last_value(rows, r[4].0) == Some(r[4].1));
    assert(last_value(rows, r[5].0) == Some(r[5].1));
    assert(last_value(rows, r[6].0) == Some(r[6].1));
    assert(last_value(rows, r[7].0) == Some(r[7].1));
    assert(last_value(rows, r[8].0) == Some(r[8].1));
    assert(last_value(rows, r[9].0) == Some(r[9].1));
    assert(last_value(rows, r[10].0) == Some(r[10].1));
    reveal_strlit("");
    let look = |k: Seq<char>| last_value(rows, k);
    let res = settings_with(default_settings(), look);
    if let Some(d) = s.domain {
        if d.len() == 0 {
            assert(d =~= Seq::<char>::empty());
        }
    }
    if let Some(d) = s.custom_cert_path {
        if d.len() == 0 {
            assert(d =~= Seq::<char>::empty());
        }
    }
    if let Some(d) = s.custom_key_path {
        if d.len() == 0 {
            assert(d =~= Seq::<char>::empty());
        }
    }
    assert(res == s);
}

} // verus!
