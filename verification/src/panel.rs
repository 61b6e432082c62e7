//! Addresses of the web panel and the command-line menu's decisions.

use vstd::prelude::*;
use crate::config::{Settings, SettingsUpdate, SettingsView};
use crate::text::{
    cat, chars_of, decimal, signed_decimal, parse_i64, parse_i64_spec, parse_u16, parse_u16_spec,
    str_eq, strip_trailing, strip_trailing_chars, string_from_chars, string_of, trim, trim_chars,
    trim_str, u128_to_string, i64_to_string,
};

verus! {

/// The base path under which the panel is served: trimmed, without
/// trailing slashes, and with one leading slash unless it is empty.
pub open spec fn base_path(raw: Seq<char>) -> Seq<char> {
    let t = strip_trailing(trim(raw), '/');
    if t.len() > 0 && t[0] != '/' {
        seq!['/'] + t
    } else {
        t
    }
}

/// The normalized base path of the panel.
pub fn normalize_base_path(raw: &str) -> (r: String)
    ensures
        r@ == base_path(raw@),
{
    let t0 = trim_str(raw);
    let mut t = strip_trailing_chars(&t0, '/');
    if t.len() > 0 && t[0] != '/' {
        let ghost before = t@;
        t.insert(0, '/');
        proof {
            assert(t@ =~= seq!['/'] + before);
        }
    }
    string_from_chars(t.as_slice())
}

proof fn lemma_strip_trailing(s: Seq<char>, c: char)
    ensures
        strip_trailing(s, c).len() > 0 ==> strip_trailing(s, c).last() != c,
        strip_trailing(s, c).len() <= s.len(),
        forall|i: int| 0 <= i < strip_trailing(s, c).len() ==> strip_trailing(s, c)[i] == s[i],
    decreases s.len(),
{
    if s.len() > 0 && s.last() == c {
        lemma_strip_trailing(s.drop_last(), c);
        assert forall|i: int| 0 <= i < s.len() - 1 implies s.drop_last()[i] == s[i] by {}
    }
}

/// A normalized base path is empty, or starts with a slash and does not end
/// with one.
pub proof fn law_base_path_shape(raw: Seq<char>)
    ensures
        base_path(raw).len() == 0 || (base_path(raw)[0] == '/' && base_path(raw).last() != '/'),
{
    let t = strip_trailing(trim(raw), '/');
    lemma_strip_trailing(trim(raw), '/');
    if t.len() > 0 && t[0] != '/' {
        assert((seq!['/'] + t).last() == t.last());
    }
}

/// Whether a domain is configured: present and not blank.
pub open spec fn has_domain(s: SettingsView) -> bool {
    match s.domain {
        Some(d) => trim(d).len() > 0,
        None => false,
    }
}

/// Whether the panel is served over HTTPS: with a custom certificate, or
/// with a domain for automatic certificates.
pub open spec fn uses_https(s: SettingsView) -> bool {
    s.use_custom_cert || has_domain(s)
}

/// The scheme the panel is served with.
pub open spec fn scheme(s: SettingsView) -> Seq<char> {
    if uses_https(s) {
        "https"@
    } else {
        "http"@
    }
}

/// The address the panel listens on, reached from this machine: the
/// wildcard address becomes the loopback address.
pub open spec fn local_host(s: SettingsView) -> Seq<char> {
    if s.web_bind_address == "0.0.0.0"@ {
        "127.0.0.1"@
    } else {
        s.web_bind_address
    }
}

fn domain_configured(s: &Settings) -> (r: bool)
    ensures
        r == has_domain(s@),
{
    match &s.domain {
        Some(d) => trim_str(d.as_str()).len() > 0,
        None => false,
    }
}

fn local_host_of(s: &Settings) -> (r: String)
    ensures
        r@ == local_host(s@),
{
    if str_eq(s.web_bind_address.as_str(), "0.0.0.0") {
        string_of("127.0.0.1")
    } else {
        s.web_bind_address.clone()
    }
}

fn scheme_of(s: &Settings) -> (r: &'static str)
    ensures
        r@ == scheme(s@),
{
    if s.use_custom_cert || domain_configured(s) {
        "https"
    } else {
        "http"
    }
}

/// The address the daemon binds its panel and API to.
pub fn web_bind(s: &Settings) -> (r: String)
    ensures
        r@ == s.web_bind_address@ + seq![':'] + decimal(s.web_panel_port as nat),
{
    proof {
        reveal_strlit(":");
    }
    let a = cat(s.web_bind_address.as_str(), ":");
    let p = u128_to_string(s.web_panel_port as u128);
    cat(a.as_str(), p.as_str())
}

/// The API address the command line talks to: the domain over HTTPS, when
/// the panel is served over HTTPS and a domain is set (even a blank one),
/// and the local address otherwise; then the port and the base path.
pub open spec fn cli_api_url(s: SettingsView) -> Seq<char> {
    let host = if uses_https(s) {
        match s.domain {
            Some(d) => d,
            None => local_host(s),
        }
    } else {
        local_host(s)
    };
    scheme(s) + "://"@ + host + seq![':'] + decimal(s.web_panel_port as nat) + base_path(
        s.web_base_path,
    )
}

/// The API address the command line talks to.
pub fn api_url(s: &Settings) -> (r: String)
    ensures
        r@ == cli_api_url(s@),
{
    proof {
        reveal_strlit(":");
    }
    let https = s.use_custom_cert || domain_configured(s);
    let host = if https {
        match &s.domain {
            Some(d) => d.clone(),
            None => local_host_of(s),
        }
    } else {
        local_host_of(s)
    };
    let a = cat(scheme_of(s), "://");
    let b = cat(a.as_str(), host.as_str());
    let c = cat(b.as_str(), ":");
    let port = u128_to_string(s.web_panel_port as u128);
    let d = cat(c.as_str(), port.as_str());
    let base = normalize_base_path(s.web_base_path.as_str());
    cat(d.as_str(), base.as_str())
}

/// The panel address shown to the administrator: the domain when one is
/// set, else the local address; the port left out when it is the default
/// of the scheme; the base path followed by a slash when there is one.
pub open spec fn panel_url(s: SettingsView) -> Seq<char> {
    let host = if has_domain(s) {
        s.domain->0
    } else {
        local_host(s)
    };
    let b = base_path(s.web_base_path);
    let path = if b.len() > 0 {
        b.push('/')
    } else {
        b
    };
    let default_port = (uses_https(s) && s.web_panel_port == 443) || (!uses_https(s)
        && s.web_panel_port == 80);
    if default_port {
        scheme(s) + "://"@ + host + path
    } else {
        scheme(s) + "://"@ + host + seq![':'] + decimal(s.web_panel_port as nat) + path
    }
}

/// The panel address names the port unless it is the default of the
/// scheme: it is the scheme, `://` and the host (the domain when one is set,
/// else the local address), then `:` and the port's decimal text unless the
/// panel is served over HTTPS on 443 or over HTTP on 80, then the base path
/// with a closing slash when there is one.
pub proof fn law_panel_port_shown(s: SettingsView)
    ensures
        ({
            let https = s.use_custom_cert || has_domain(s);
            let host = if has_domain(s) {
                s.domain->0
            } else {
                local_host(s)
            };
            let head = (if https {
                "https"@
            } else {
                "http"@
            }) + "://"@ + host;
            let b = base_path(s.web_base_path);
            let path = if b.len() > 0 {
                b.push('/')
            } else {
                b
            };
            &&& ((https && s.web_panel_port == 443) || (!https && s.web_panel_port == 80))
                ==> panel_url(s) == head + path
            &&& !((https && s.web_panel_port == 443) || (!https && s.web_panel_port == 80))
                ==> panel_url(s) == head + seq![':'] + decimal(s.web_panel_port as nat) + path
        }),
{
}

/// The panel address shown to the administrator.
pub fn panel_address(s: &Settings) -> (r: String)
    ensures
        r@ == panel_url(s@),
{
    proof {
        reveal_strlit(":");
        reveal_strlit("/");
    }
    let https = s.use_custom_cert || domain_configured(s);
    let host = if domain_configured(s) {
        match &s.domain {
            Some(d) => d.clone(),
            None => local_host_of(s),
        }
    } else {
        local_host_of(s)
    };
    let b = normalize_base_path(s.web_base_path.as_str());
    let path = if chars_of(b.as_str()).len() > 0 {
        cat(b.as_str(), "/")
    } else {
        b
    };
    let a = cat(scheme_of(s), "://");
    let h = cat(a.as_str(), host.as_str());
    if (https && s.web_panel_port == 443) || (!https && s.web_panel_port == 80) {
        cat(h.as_str(), path.as_str())
    } else {
        let c = cat(h.as_str(), ":");
        let port = u128_to_string(s.web_panel_port as u128);
        let d = cat(c.as_str(), port.as_str());
        cat(d.as_str(), path.as_str())
    }
}

// ---------------------------------------------------------------- serving

/// How the web server serves the panel.
pub enum ServeMode {
    /// HTTPS with the certificate and the key read from these files.
    CustomTls { cert: String, key: String },
    /// HTTPS for this domain, with certificates obtained from Let's Encrypt.
    Acme { domain: String },
    /// Plain HTTP; `cert_missing` when a custom certificate is asked for
    /// but its certificate or key path is not set.
    Plain { cert_missing: bool },
}

/// How the panel is served: with the custom certificate when one is asked
/// for and both its paths are set; else, when none is asked for and a
/// domain is set, with automatic certificates for the trimmed domain; else
/// over plain HTTP.
pub fn serve_mode(s: &Settings) -> (r: ServeMode)
    ensures
        (r is CustomTls) <==> (s.use_custom_cert && s.custom_cert_path is Some
            && s.custom_key_path is Some),
        (r is Acme) <==> (!s.use_custom_cert && has_domain(s@)),
        r matches ServeMode::CustomTls { cert, key } ==> (s@.custom_cert_path == Some(cert@)
            && s@.custom_key_path == Some(key@)),
        r matches ServeMode::Acme { domain } ==> domain@ == trim(s@.domain->0),
        r matches ServeMode::Plain { cert_missing } ==> cert_missing == s.use_custom_cert,
{
    if s.use_custom_cert {
        match &s.custom_cert_path {
            Some(c) => match &s.custom_key_path {
                Some(k) => ServeMode::CustomTls { cert: c.clone(), key: k.clone() },
                None => ServeMode::Plain { cert_missing: true },
            },
            None => ServeMode::Plain { cert_missing: true },
        }
    } else if domain_configured(s) {
        match &s.domain {
            Some(d) => ServeMode::Acme { domain: string_from_chars(trim_str(d.as_str()).as_slice()) },
            None => ServeMode::Plain { cert_missing: false },
        }
    } else {
        ServeMode::Plain { cert_missing: false }
    }
}

// ---------------------------------------------------------------- the menu

/// A choice in the command-line menu.
#[derive(PartialEq, Eq, Structural)]
pub enum MenuChoice {
    LiveStatus,
    RestartRoute,
    RestartAll,
    ChangePorts,
    CreateRoute,
    EditRoute,
    DeleteRoute,
    UpdateCredentials,
    PanelInfo,
    Exit,
    Invalid,
}

/// The menu choice a typed line stands for, once trimmed.
pub open spec fn menu_choice_of(line: Seq<char>) -> MenuChoice {
    let t = trim(line);
    if t == "1"@ {
        MenuChoice::LiveStatus
    } else if t == "2"@ {
        MenuChoice::RestartRoute
    } else if t == "3"@ {
        MenuChoice::RestartAll
    } else if t == "4"@ {
        MenuChoice::ChangePorts
    } else if t == "5"@ {
        MenuChoice::CreateRoute
    } else if t == "6"@ {
        MenuChoice::EditRoute
    } else if t == "7"@ {
        MenuChoice::DeleteRoute
    } else if t == "8"@ {
        MenuChoice::UpdateCredentials
    } else if t == "9"@ {
        MenuChoice::PanelInfo
    } else if t == "0"@ {
        MenuChoice::Exit
    } else {
        MenuChoice::Invalid
    }
}

fn is_text(v: &Vec<char>, s: &str) -> (r: bool)
    ensures
        r == (v@ == s@),
{
    let w = chars_of(s);
    crate::text::chars_eq(v, &w)
}

/// The menu choice a typed line stands for.
pub fn menu_choice(line: &str) -> (r: MenuChoice)
    ensures
        r == menu_choice_of(line@),
{
    let t = trim_str(line);
    if is_text(&t, "1") {
        MenuChoice::LiveStatus
    } else if is_text(&t, "2") {
        MenuChoice::RestartRoute
    } else if is_text(&t, "3") {
        MenuChoice::RestartAll
    } else if is_text(&t, "4") {
        MenuChoice::ChangePorts
    } else if is_text(&t, "5") {
        MenuChoice::CreateRoute
    } else if is_text(&t, "6") {
        MenuChoice::EditRoute
    } else if is_text(&t, "7") {
        MenuChoice::DeleteRoute
    } else if is_text(&t, "8") {
        MenuChoice::UpdateCredentials
    } else if is_text(&t, "9") {
        MenuChoice::PanelInfo
    } else if is_text(&t, "0") {
        MenuChoice::Exit
    } else {
        MenuChoice::Invalid
    }
}

/// The port typed for the panel: 3000 when the line is blank or is not a
/// port number.
pub fn port_choice(line: &str) -> (r: u16)
    ensures
        r == (if trim(line@).len() == 0 {
            3000
        } else {
            parse_u16_spec(trim(line@)).unwrap_or(3000)
        }),
{
    let t = trim_str(line);
    if t.len() == 0 {
        3000
    } else {
        let s = string_from_chars(t.as_slice());
        match parse_u16(s.as_str()) {
            Some(p) => p,
            None => 3000,
        }
    }
}

/// The settings change that sets the panel and API port.
pub fn ports_update(port: u16) -> (u: SettingsUpdate)
    ensures
        u@ == (crate::config::SettingsUpdateView {
            web_panel_port: Some(port),
            api_port: Some(port),
            web_bind_address: None,
            admin_username: None,
            admin_password: None,
            domain: None,
            use_custom_cert: None,
            custom_cert_path: None,
            custom_key_path: None,
            web_base_path: None,
            log_level: None,
        }),
{
    SettingsUpdate {
        web_panel_port: Some(port),
        web_bind_address: None,
        api_port: Some(port),
        admin_username: None,
        admin_password: None,
        domain: None,
        use_custom_cert: None,
        custom_cert_path: None,
        custom_key_path: None,
        web_base_path: None,
        log_level: None,
    }
}

/// The typed line, trimmed, or `None` when that leaves nothing.
pub open spec fn given(line: Seq<char>) -> Option<Seq<char>> {
    if trim(line).len() == 0 {
        None
    } else {
        Some(trim(line))
    }
}

fn given_text(line: &str) -> (r: Option<String>)
    ensures
        crate::text::opt_view(r) == given(line@),
{
    let t = trim_str(line);
    if t.len() == 0 {
        None
    } else {
        Some(string_from_chars(t.as_slice()))
    }
}

/// The settings change the credentials menu asks for, from the three typed
/// lines: `None` when all are blank; a base path of `-` clears it.
pub open spec fn credentials_update_of(user: Seq<char>, pass: Seq<char>, base: Seq<char>) -> Option<
    crate::config::SettingsUpdateView,
> {
    if given(user) is None && given(pass) is None && given(base) is None {
        None
    } else {
        Some(
            crate::config::SettingsUpdateView {
                web_panel_port: None,
                web_bind_address: None,
                api_port: None,
                admin_username: given(user),
                admin_password: given(pass),
                domain: None,
                use_custom_cert: None,
                custom_cert_path: None,
                custom_key_path: None,
                web_base_path: match given(base) {
                    Some(b) => if b == "-"@ {
                        Some(Seq::empty())
                    } else {
                        Some(b)
                    },
                    None => None,
                },
                log_level: None,
            },
        )
    }
}

/// The settings change the credentials menu asks for.
pub fn credentials_update(user: &str, pass: &str, base: &str) -> (r: Option<SettingsUpdate>)
    ensures
        match r {
            Some(u) => credentials_update_of(user@, pass@, base@) == Some(u@),
            None => credentials_update_of(user@, pass@, base@) is None,
        },
{
    let u = given_text(user);
    let p = given_text(pass);
    let b = given_text(base);
    if u.is_none() && p.is_none() && b.is_none() {
        return None;
    }
    proof {
        reveal_strlit("");
        assert(""@ =~= Seq::<char>::empty());
    }
    let base_path = match b {
        Some(x) => if str_eq(x.as_str(), "-") {
            Some(string_of(""))
        } else {
            Some(x)
        },
        None => None,
    };
    Some(
        SettingsUpdate {
            web_panel_port: None,
            web_bind_address: None,
            api_port: None,
            admin_username: u,
            admin_password: p,
            domain: None,
            use_custom_cert: None,
            custom_cert_path: None,
            custom_key_path: None,
            web_base_path: base_path,
            log_level: None,
        },
    )
}

/// A route as the command line sends it to the API.
pub struct RouteForm {
    pub name: String,
    pub bind_address: String,
    pub input_port: u16,
    pub username: Option<String>,
    pub password: Option<String>,
    pub country_code: String,
    pub swap_interval_hours: Option<u64>,
    pub test_interval_minutes: Option<u64>,
}

/// A route form as a value.
pub struct RouteFormView {
    pub name: Seq<char>,
    pub bind_address: Seq<char>,
    pub input_port: u16,
    pub username: Option<Seq<char>>,
    pub password: Option<Seq<char>>,
    pub country_code: Seq<char>,
    pub swap_interval_hours: Option<u64>,
    pub test_interval_minutes: Option<u64>,
}

impl View for RouteForm {
    type V = RouteFormView;

    open spec fn view(&self) -> RouteFormView {
        RouteFormView {
            name: self.name@,
            bind_address: self.bind_address@,
            input_port: self.input_port,
            username: crate::text::opt_view(self.username),
            password: crate::text::opt_view(self.password),
            country_code: self.country_code@,
            swap_interval_hours: self.swap_interval_hours,
            test_interval_minutes: self.test_interval_minutes,
        }
    }
}

/// The route the creation dialogue describes, from its typed lines, each
/// trimmed: `None` when the name is blank; the bind address `127.0.0.1`
/// when blank; port 0 when not a port; blank credentials left out; the
/// intervals left out when not numbers.
pub open spec fn new_route_form(
    name: Seq<char>,
    bind: Seq<char>,
    port: Seq<char>,
    user: Seq<char>,
    pass: Seq<char>,
    country: Seq<char>,
    swap: Seq<char>,
    test: Seq<char>,
) -> Option<RouteFormView> {
    if trim(name).len() == 0 {
        None
    } else {
        Some(
            RouteFormView {
                name: trim(name),
                bind_address: if trim(bind).len() == 0 {
                    "127.0.0.1"@
                } else {
                    trim(bind)
                },
                input_port: parse_u16_spec(trim(port)).unwrap_or(0),
                username: given(user),
                password: given(pass),
                country_code: trim(country),
                swap_interval_hours: crate::text::parse_u64_spec(trim(swap)),
                test_interval_minutes: crate::text::parse_u64_spec(trim(test)),
            },
        )
    }
}

fn trimmed(line: &str) -> (r: String)
    ensures
        r@ == trim(line@),
{
    let t = trim_str(line);
    string_from_chars(t.as_slice())
}

/// The route the creation dialogue describes.
pub fn route_form(
    name: &str,
    bind: &str,
    port: &str,
    user: &str,
    pass: &str,
    country: &str,
    swap: &str,
    test: &str,
) -> (r: Option<RouteForm>)
    ensures
        match r {
            Some(f) => new_route_form(name@, bind@, port@, user@, pass@, country@, swap@, test@)
                == Some(f@),
            None => new_route_form(name@, bind@, port@, user@, pass@, country@, swap@, test@) is None,
        },
{
    let n = trimmed(name);
    if chars_of(n.as_str()).len() == 0 {
        return None;
    }
    let b = trimmed(bind);
    let b = if chars_of(b.as_str()).len() == 0 {
        string_of("127.0.0.1")
    } else {
        b
    };
    let p = trimmed(port);
    let sw = trimmed(swap);
    let te = trimmed(test);
    Some(
        RouteForm {
            name: n,
            bind_address: b,
            input_port: match parse_u16(p.as_str()) {
                Some(x) => x,
                None => 0,
            },
            username: given_text(user),
            password: given_text(pass),
            country_code: trimmed(country),
            swap_interval_hours: crate::text::parse_u64(sw.as_str()),
            test_interval_minutes: crate::text::parse_u64(te.as_str()),
        },
    )
}

/// A field of the edit dialogue: the old value when the typed line is
/// blank, the trimmed line otherwise.
pub open spec fn edited_text(old: Seq<char>, line: Seq<char>) -> Seq<char> {
    match given(line) {
        Some(t) => t,
        None => old,
    }
}

/// A numeric field of the edit dialogue: the old value when the line is
/// blank or not a number.
pub open spec fn edited_u64(old: u64, line: Seq<char>) -> u64 {
    match given(line) {
        Some(t) => crate::text::parse_u64_spec(t).unwrap_or(old),
        None => old,
    }
}

/// The route after the edit dialogue, from the route as listed and the
/// typed lines; the intervals are sent even when unchanged.
pub open spec fn edited_form(
    old: RouteFormView,
    old_swap: u64,
    old_test: u64,
    name: Seq<char>,
    bind: Seq<char>,
    port: Seq<char>,
    user: Seq<char>,
    pass: Seq<char>,
    country: Seq<char>,
    swap: Seq<char>,
    test: Seq<char>,
) -> RouteFormView {
    RouteFormView {
        name: edited_text(old.name, name),
        bind_address: edited_text(old.bind_address, bind),
        input_port: match given(port) {
            Some(t) => parse_u16_spec(t).unwrap_or(old.input_port),
            None => old.input_port,
        },
        username: match given(user) {
            Some(t) => Some(t),
            None => old.username,
        },
        password: match given(pass) {
            Some(t) => Some(t),
            None => old.password,
        },
        country_code: edited_text(old.country_code, country),
        swap_interval_hours: Some(edited_u64(old_swap, swap)),
        test_interval_minutes: Some(edited_u64(old_test, test)),
    }
}

fn edit_text(old: String, line: &str) -> (r: String)
    ensures
        r@ == edited_text(old@, line@),
{
    match given_text(line) {
        Some(t) => t,
        None => old,
    }
}

fn edit_u64(old: u64, line: &str) -> (r: u64)
    ensures
        r == edited_u64(old, line@),
{
    match given_text(line) {
        Some(t) => match crate::text::parse_u64(t.as_str()) {
            Some(v) => v,
            None => old,
        },
        None => old,
    }
}

/// The route after the edit dialogue.
pub fn edit_form(
    old: RouteForm,
    old_swap: u64,
    old_test: u64,
    name: &str,
    bind: &str,
    port: &str,
    user: &str,
    pass: &str,
    country: &str,
    swap: &str,
    test: &str,
) -> (r: RouteForm)
    ensures
        r@ == edited_form(old@, old_swap, old_test, name@, bind@, port@, user@, pass@, country@, swap@, test@),
{
    let input_port = match given_text(port) {
        Some(t) => match parse_u16(t.as_str()) {
            Some(v) => v,
            None => old.input_port,
        },
        None => old.input_port,
    };
    let username = match given_text(user) {
        Some(t) => Some(t),
        None => old.username,
    };
    let password = match given_text(pass) {
        Some(t) => Some(t),
        None => old.password,
    };
    RouteForm {
        name: edit_text(old.name, name),
        bind_address: edit_text(old.bind_address, bind),
        input_port,
        username,
        password,
        country_code: edit_text(old.country_code, country),
        swap_interval_hours: Some(edit_u64(old_swap, swap)),
        test_interval_minutes: Some(edit_u64(old_test, test)),
    }
}

/// The probe address the live view asks the daemon for, for a listener
/// bound to `bind` on `port`.
pub fn probe_request_url(api: &str, bind: &str, port: u16) -> (r: String)
    ensures
        r@ == strip_trailing(api@, '/') + "/probe?bind="@ + bind@ + "&port="@ + decimal(port as nat),
{
    let a = strip_trailing_chars(&chars_of(api), '/');
    let a = string_from_chars(a.as_slice());
    let b = cat(a.as_str(), "/probe?bind=");
    let c = cat(b.as_str(), bind);
    let d = cat(c.as_str(), "&port=");
    let p = u128_to_string(port as u128);
    cat(d.as_str(), p.as_str())
}

/// Whether the text `s` contains `m` immediately followed by `s`.
pub open spec fn contains_ms(s: Seq<char>) -> bool {
    exists|i: int| 0 <= i < s.len() - 1 && #[trigger] s[i] == 'm' && s[i + 1] == 's'
}

/// The terminal color of a latency in the live view: red for
/// `Connecting/Error`, yellow for a time in seconds (an `s` but no `ms`),
/// green otherwise.
pub open spec fn latency_color_of(lat: Seq<char>) -> Seq<char> {
    if lat == "Connecting/Error"@ {
        "\x1b[31m"@
    } else if lat.contains('s') && !contains_ms(lat) {
        "\x1b[33m"@
    } else {
        "\x1b[32m"@
    }
}

/// The terminal color of a latency in the live view.
pub fn latency_color(lat: &str) -> (r: &'static str)
    ensures
        r@ == latency_color_of(lat@),
{
    let v = chars_of(lat);
    if is_text(&v, "Connecting/Error") {
        return "\x1b[31m";
    }
    let mut has_s = false;
    let mut has_ms = false;
    let mut i: usize = 0;
    while i < v.len()
        invariant
            i <= v.len(),
            has_s == (exists|k: int| 0 <= k < i && v@[k] == 's'),
            has_ms == (exists|k: int| 0 <= k < i && k + 1 < v.len() && #[trigger] v@[k] == 'm' && v@[k + 1]
                == 's'),
        decreases v.len() - i,
    {
        if v[i] == 's' {
            has_s = true;
        }
        if v[i] == 'm' && i + 1 < v.len() && v[i + 1] == 's' {
            has_ms = true;
        }
        i = i + 1;
    }
    proof {
        if v@.contains('s') {
            let k = choose|k: int| 0 <= k < v@.len() && v@[k] == 's';
            assert(has_s);
        }
        if has_s {
            let k = choose|k: int| 0 <= k < v.len() && v@[k] == 's';
            assert(v@.contains('s'));
        }
    }
    if has_s && !has_ms {
        "\x1b[33m"
    } else {
        "\x1b[32m"
    }
}

/// How long ago a check made at `ms` (milliseconds since the epoch, as
/// text) was, at `now_ms`: `-` when the text is not a number, `0s` for a
/// time in the future, else whole seconds below a minute, minutes below an
/// hour, and hours.
pub open spec fn age_text(ms: Option<Seq<char>>, now_ms: i64) -> Seq<char> {
    match ms {
        None => "-"@,
        Some(t) => match parse_i64_spec(t) {
            None => "-"@,
            Some(at) => {
                let diff = now_ms.wrapping_sub(at);
                if diff < 0 {
                    "0s"@
                } else if diff / 1000 < 60 {
                    decimal((diff / 1000) as nat) + seq!['s']
                } else if diff / 60000 < 60 {
                    decimal((diff / 60000) as nat) + seq!['m']
                } else {
                    decimal((diff / 3600000) as nat) + seq!['h']
                }
            },
        },
    }
}

fn with_unit(n: i64, unit: &str) -> (r: String)
    requires
        n >= 0,
    ensures
        r@ == decimal(n as nat) + unit@,
{
    let d = u128_to_string(n as u128);
    cat(d.as_str(), unit)
}

/// How long ago a check was, at the time `now_ms`.
pub fn format_age_at(ms: &Option<String>, now_ms: i64) -> (r: String)
    ensures
        r@ == age_text(crate::text::opt_view(*ms), now_ms),
{
    proof {
        reveal_strlit("s");
        reveal_strlit("m");
        reveal_strlit("h");
    }
    match ms {
        None => string_of("-"),
        Some(t) => match parse_i64(t.as_str()) {
            None => string_of("-"),
            Some(at) => {
                let diff = now_ms.wrapping_sub(at);
                if diff < 0 {
                    string_of("0s")
                } else {
                    let secs = diff / 1000;
                    if secs < 60 {
                        with_unit(secs, "s")
                    } else {
                        let mins = secs / 60;
                        assert(mins == diff / 60000) by (nonlinear_arith)
                            requires
                                secs == diff / 1000,
                                mins == secs / 60,
                                diff >= 0,
                        ;
                        if mins < 60 {
                            with_unit(mins, "m")
                        } else {
                            let hours = mins / 60;
                            assert(hours == diff / 3600000) by (nonlinear_arith)
                                requires
                                    mins == diff / 60000,
                                    hours == mins / 60,
                                    diff >= 0,
                            ;
                            with_unit(hours, "h")
                        }
                    }
                }
            },
        },
    }
}

/// How long ago a check was, by the system clock; the clock's reading,
/// taken as an `i64` as the milliseconds are, is not stated.
pub fn format_age(ms: &Option<String>) -> (r: String)
    ensures
        exists|now: i64| r@ == age_text(crate::text::opt_view(*ms), now),
{
    let now = (crate::tor::unix_nanos_now() / 1_000_000) as i64;
    format_age_at(ms, now)
}

} // verus!
