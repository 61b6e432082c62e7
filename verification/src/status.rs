//! The status of each route as the panel and the command line show it.

use vstd::prelude::*;
use crate::config::{RouteConfig, RouteView};
use crate::text::{
    copy_opt, decimal, i64_to_string, opt_view, signed_decimal, string_from_chars, string_of,
    to_uppercase, u128_to_chars, uppercase,
};

verus! {

/// The latency, in nanoseconds, that stands for a route that answers no
/// probe: 3596400 seconds.
pub const NOT_CONNECTED_NANOS: u128 = 3_596_400_000_000_000u128;

/// Nanoseconds in a millisecond.
pub const NANOS_PER_MILLI: u128 = 1_000_000u128;

/// What the daemon last observed of a running route.
pub struct NodeStatus {
    /// Latency of the last probe, in nanoseconds.
    pub latency_nanos: u128,
    pub tor_ip: Option<String>,
    pub last_checked_at: Option<String>,
}

/// The health shown for a latency: `error` when not connected, `warning`
/// from 800 ms on, `healthy` below.
pub open spec fn status_of(lat: u128) -> Seq<char> {
    if lat >= NOT_CONNECTED_NANOS {
        "error"@
    } else if lat >= 800 * NANOS_PER_MILLI {
        "warning"@
    } else {
        "healthy"@
    }
}

/// The health shown for a latency.
pub fn latency_to_status(lat: u128) -> (r: &'static str)
    ensures
        r@ == status_of(lat),
{
    if lat >= NOT_CONNECTED_NANOS {
        "error"
    } else if lat >= 800 * NANOS_PER_MILLI {
        "warning"
    } else {
        "healthy"
    }
}

/// The text shown for a latency: `Connecting/Error` when not connected,
/// the whole milliseconds followed by `ms` when there is at least one, and
/// `Pending` below a millisecond.
pub open spec fn latency_text(lat: u128) -> Seq<char> {
    if lat >= NOT_CONNECTED_NANOS {
        "Connecting/Error"@
    } else if lat / NANOS_PER_MILLI > 0 {
        decimal((lat / NANOS_PER_MILLI) as nat) + seq!['m', 's']
    } else {
        "Pending"@
    }
}

/// The text shown for a latency.
pub fn latency_to_string(lat: u128) -> (r: String)
    ensures
        r@ == latency_text(lat),
{
    if lat >= NOT_CONNECTED_NANOS {
        string_of("Connecting/Error")
    } else if lat / NANOS_PER_MILLI > 0 {
        let mut v = u128_to_chars(lat / NANOS_PER_MILLI);
        let ghost d = v@;
        v.push('m');
        v.push('s');
        proof {
            assert(v@ =~= d + seq!['m', 's']);
        }
        string_from_chars(v.as_slice())
    } else {
        string_of("Pending")
    }
}

/// How bad a shown health is: `healthy` 0, `warning` 1, anything else 2.
pub open spec fn health_rank(h: Seq<char>) -> int {
    if h == "healthy"@ {
        0
    } else if h == "warning"@ {
        1
    } else {
        2
    }
}

/// A slower route never shows a better health: the shown health only
/// worsens as the latency grows; a route that answers no probe shows
/// `error` and the text `Connecting/Error`, and one that answers within
/// 800 ms shows `healthy`.
pub proof fn law_health_monotone(a: u128, b: u128)
    requires
        a <= b,
    ensures
        health_rank(status_of(a)) <= health_rank(status_of(b)),
        status_of(NOT_CONNECTED_NANOS) == "error"@,
        latency_text(NOT_CONNECTED_NANOS) == "Connecting/Error"@,
        a < 800_000_000 ==> status_of(a) == "healthy"@,
{
    reveal_strlit("healthy");
    reveal_strlit("warning");
    reveal_strlit("error");
    assert("error"@ != "healthy"@ && "error"@ != "warning"@ && "warning"@ != "healthy"@) by {
        assert("error"@.len() != "healthy"@.len());
        assert("error"@.len() != "warning"@.len());
        assert("warning"@[0] != "healthy"@[0]);
    }
    assert(health_rank("error"@) == 2);
    assert(health_rank("warning"@) == 1);
    assert(health_rank("healthy"@) == 0);
}

/// The latency shown for a connected route of at least a millisecond is
/// its whole milliseconds, followed by `ms`: the digits read back as that
/// number.
pub proof fn law_latency_text_reads_back(lat: u128)
    requires
        NANOS_PER_MILLI <= lat < NOT_CONNECTED_NANOS,
    ensures
        latency_text(lat).len() > 2,
        latency_text(lat).last() == 's',
        latency_text(lat).drop_last().last() == 'm',
        crate::text::parse_u64_spec(latency_text(lat).drop_last().drop_last()) == Some(
            (lat / NANOS_PER_MILLI) as u64,
        ),
{
    let ms = (lat / NANOS_PER_MILLI) as u64;
    crate::text::lemma_parse_u64_decimal(ms);
    crate::text::lemma_decimal_digits(ms as nat);
    let t = decimal(ms as nat) + seq!['m', 's'];
    assert(t.drop_last().drop_last() =~= decimal(ms as nat));
}

/// One route as the status list shows it.
pub struct RouteStatusResponse {
    pub id: String,
    pub name: String,
    pub bind_address: String,
    pub input_port: u16,
    pub username: Option<String>,
    pub password: Option<String>,
    pub country_code: String,
    pub swap_interval_minutes: u64,
    pub test_interval_minutes: u64,
    pub latency: String,
    pub tor_ip: Option<String>,
    pub last_checked_at: Option<String>,
    pub status: String,
}

/// A status entry as a value.
pub struct RouteStatusView {
    pub id: Seq<char>,
    pub name: Seq<char>,
    pub bind_address: Seq<char>,
    pub input_port: u16,
    pub username: Option<Seq<char>>,
    pub password: Option<Seq<char>>,
    pub country_code: Seq<char>,
    pub swap_interval_minutes: u64,
    pub test_interval_minutes: u64,
    pub latency: Seq<char>,
    pub tor_ip: Option<Seq<char>>,
    pub last_checked_at: Option<Seq<char>>,
    pub status: Seq<char>,
}

impl View for RouteStatusResponse {
    type V = RouteStatusView;

    open spec fn view(&self) -> RouteStatusView {
        RouteStatusView {
            id: self.id@,
            name: self.name@,
            bind_address: self.bind_address@,
            input_port: self.input_port,
            username: opt_view(self.username),
            password: opt_view(self.password),
            country_code: self.country_code@,
            swap_interval_minutes: self.swap_interval_minutes,
            test_interval_minutes: self.test_interval_minutes,
            latency: self.latency@,
            tor_ip: opt_view(self.tor_ip),
            last_checked_at: opt_view(self.last_checked_at),
            status: self.status@,
        }
    }
}

/// The status entry of route `cfg`: its latency and observed exit come
/// from the running node when there is one, and otherwise the route counts
/// as not connected with the exit last stored for it.
pub open spec fn status_entry(
    cfg: RouteView,
    node: Option<(u128, Option<Seq<char>>, Option<Seq<char>>)>,
) -> RouteStatusView {
    let (lat, ip, checked) = match node {
        Some(n) => n,
        None => (NOT_CONNECTED_NANOS, cfg.tor_ip, cfg.last_checked_at),
    };
    RouteStatusView {
        id: signed_decimal(cfg.id as int),
        name: cfg.name,
        bind_address: match cfg.bind_address {
            Some(b) => b,
            None => "127.0.0.0"@,
        },
        input_port: cfg.input_port,
        username: cfg.username,
        password: cfg.password,
        country_code: uppercase(cfg.country_code),
        swap_interval_minutes: cfg.swap_interval_hours.unwrap_or(1440),
        test_interval_minutes: cfg.test_interval_minutes.unwrap_or(15),
        latency: latency_text(lat),
        tor_ip: ip,
        last_checked_at: checked,
        status: status_of(lat),
    }
}

/// The view of what a node reports.
pub open spec fn node_view(n: Option<&NodeStatus>) -> Option<(u128, Option<Seq<char>>, Option<Seq<char>>)> {
    match n {
        Some(x) => Some((x.latency_nanos, opt_view(x.tor_ip), opt_view(x.last_checked_at))),
        None => None,
    }
}

/// The status entry of a route.
pub fn node_to_response(cfg: &RouteConfig, node: Option<&NodeStatus>) -> (r: RouteStatusResponse)
    ensures
        r@ == status_entry(cfg@, node_view(node)),
{
    let (lat, tor_ip, last_checked_at) = match node {
        Some(n) => (n.latency_nanos, copy_opt(&n.tor_ip), copy_opt(&n.last_checked_at)),
        None => (NOT_CONNECTED_NANOS, copy_opt(&cfg.tor_ip), copy_opt(&cfg.last_checked_at)),
    };
    let bind = match &cfg.bind_address {
        Some(b) => b.clone(),
        None => string_of("127.0.0.0"),
    };
    let status = latency_to_status(lat);
    RouteStatusResponse {
        id: i64_to_string(cfg.id),
        name: cfg.name.clone(),
        bind_address: bind,
        input_port: cfg.input_port,
        username: copy_opt(&cfg.username),
        password: copy_opt(&cfg.password),
        country_code: to_uppercase(cfg.country_code.as_str()),
        swap_interval_minutes: match cfg.swap_interval_hours {
            Some(v) => v,
            None => 1440,
        },
        test_interval_minutes: match cfg.test_interval_minutes {
            Some(v) => v,
            None => 15,
        },
        latency: latency_to_string(lat),
        tor_ip,
        last_checked_at,
        status: string_of(status),
    }
}

/// The status list: one entry per configured route, in order, each with the
/// node that `nodes` reports for its id, if any.
pub fn status_list(routes: &Vec<RouteConfig>, nodes: &Vec<(i64, NodeStatus)>) -> (r: Vec<RouteStatusResponse>)
    ensures
        r@.len() == routes@.len(),
        forall|i: int|
            0 <= i < routes@.len() ==> (#[trigger] r@[i])@ == status_entry(
                routes@[i]@,
                node_for(nodes@, routes@[i].id),
            ),
{
    let mut out: Vec<RouteStatusResponse> = Vec::new();
    let mut i: usize = 0;
    while i < routes.len()
        invariant
            i <= routes.len(),
            out@.len() == i,
            forall|k: int|
                0 <= k < i ==> (#[trigger] out@[k])@ == status_entry(
                    routes@[k]@,
                    node_for(nodes@, routes@[k].id),
                ),
        decreases routes.len() - i,
    {
        let n = find_node(nodes, routes[i].id);
        out.push(node_to_response(&routes[i], n));
        i = i + 1;
    }
    out
}

/// What the first node reported for id `id` says, if any.
pub open spec fn node_for(nodes: Seq<(i64, NodeStatus)>, id: i64) -> Option<(u128, Option<Seq<char>>, Option<Seq<char>>)>
    decreases nodes.len(),
{
    if nodes.len() == 0 {
        None
    } else if nodes[0].0 == id {
        node_view(Some(&nodes[0].1))
    } else {
        node_for(nodes.subrange(1, nodes.len() as int), id)
    }
}

fn find_node(nodes: &Vec<(i64, NodeStatus)>, id: i64) -> (r: Option<&NodeStatus>)
    ensures
        node_view(r) == node_for(nodes@, id),
{
    let mut i: usize = 0;
    proof {
        assert(nodes@.subrange(0, nodes@.len() as int) =~= nodes@);
    }
    while i < nodes.len()
        invariant
            i <= nodes.len(),
            node_for(nodes@, id) == node_for(nodes@.subrange(i as int, nodes@.len() as int), id),
        decreases nodes.len() - i,
    {
        proof {
            let t = nodes@.subrange(i as int, nodes@.len() as int);
            assert(t.subrange(1, t.len() as int) =~= nodes@.subrange(i + 1, nodes@.len() as int));
            assert(t[0] == nodes@[i as int]);
        }
        if nodes[i].0 == id {
            return Some(&nodes[i].1);
        }
        i = i + 1;
    }
    None
}

} // verus!
