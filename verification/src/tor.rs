//! Tor instances: their configuration file, the proxy addresses used to
//! reach them, and the decisions of the worker that keeps the fastest one.

use vstd::prelude::*;
use crate::config::RouteConfig;
use crate::router::{backend_view, Slot};
use crate::status::NOT_CONNECTED_NANOS;
use crate::text::{
    cat, chars_of, decimal, lowercase, str_eq, string_from_chars, string_of, to_lowercase, trim,
    trim_str, u128_to_string,
};

verus! {

/// The torrc of an instance listening on `socks`, keeping its data in
/// `dir`, with the two GeoIP databases; when a country is given (trimmed,
/// in lowercase) only exits in it are used.
pub open spec fn torrc_text(
    socks: Seq<char>,
    dir: Seq<char>,
    geoip: Seq<char>,
    geoip6: Seq<char>,
    country: Seq<char>,
) -> Seq<char> {
    let cc = lowercase(trim(country));
    let head = "SocksPort "@ + socks + "\n"@ + "DataDirectory "@ + dir + "\n"@ + "GeoIPFile "@
        + geoip + "\n"@ + "GeoIPv6File "@ + geoip6 + "\n"@;
    let exits = if cc.len() > 0 {
        "ExitNodes {"@ + cc + "}\n"@ + "StrictNodes 1\n"@
    } else {
        Seq::empty()
    };
    head + exits + "Log notice stdout\n"@ + "AvoidDiskWrites 1\n"@
}

fn line(acc: String, key: &str, value: &str) -> (r: String)
    ensures
        r@ == acc@ + key@ + value@ + "\n"@,
{
    let a = cat(acc.as_str(), key);
    let b = cat(a.as_str(), value);
    cat(b.as_str(), "\n")
}

/// The torrc of a new instance.
pub fn build_torrc(socks: &str, dir: &str, geoip: &str, geoip6: &str, country: &str) -> (r: String)
    ensures
        r@ == torrc_text(socks@, dir@, geoip@, geoip6@, country@),
{
    proof {
        reveal_strlit("");
    }
    let t = line(string_of(""), "SocksPort ", socks);
    let t = line(t, "DataDirectory ", dir);
    let t = line(t, "GeoIPFile ", geoip);
    let t = line(t, "GeoIPv6File ", geoip6);
    let trimmed = trim_str(country);
    let cc = to_lowercase(string_from_chars(trimmed.as_slice()).as_str());
    let t = if chars_of(cc.as_str()).len() > 0 {
        let a = cat(t.as_str(), "ExitNodes {");
        let b = cat(a.as_str(), cc.as_str());
        let c = cat(b.as_str(), "}\n");
        cat(c.as_str(), "StrictNodes 1\n")
    } else {
        t
    };
    let t = cat(t.as_str(), "Log notice stdout\n");
    let r = cat(t.as_str(), "AvoidDiskWrites 1\n");
    proof {
        assert(r@ =~= torrc_text(socks@, dir@, geoip@, geoip6@, country@));
    }
    r
}

/// The local SOCKS address of an instance on `port`.
pub fn socks_address(port: u16) -> (r: String)
    ensures
        r@ == "127.0.0.1:"@ + decimal(port as nat),
{
    let p = u128_to_string(port as u128);
    cat("127.0.0.1:", p.as_str())
}

/// The name of an instance of route `name` started at `stamp`.
pub fn instance_name(name: &str, stamp: &str) -> (r: String)
    ensures
        r@ == name@ + "_"@ + stamp@,
{
    let a = cat(name, "_");
    cat(a.as_str(), stamp)
}

/// The longest `Duration` in nanoseconds: `u64::MAX` seconds and
/// 999 999 999 nanoseconds.
pub const MAX_DURATION_NANOS: u128 = 18_446_744_073_709_551_615_999_999_999u128;

/// `SystemTime::now().duration_since(UNIX_EPOCH)`, in nanoseconds
/// (`Duration::as_nanos`), zero when the clock is set before the epoch. The
/// reading is not stated; a `Duration` holds at most `u64::MAX` seconds and
/// less than a second more.
#[verifier::external_body]
pub(crate) fn unix_nanos_now() -> (r: u128)
    ensures
        r <= MAX_DURATION_NANOS,
{
    std::time::SystemTime::now().duration_since(std::time::UNIX_EPOCH).unwrap_or_default().as_nanos()
}

/// The whole seconds in `nanos` nanoseconds of a `Duration`
/// (`Duration::as_secs`).
pub(crate) fn whole_seconds(nanos: u128) -> (r: u64)
    requires
        nanos <= MAX_DURATION_NANOS,
    ensures
        r == nanos / 1_000_000_000,
{
    (nanos / 1_000_000_000) as u64
}

/// A time stamp in milliseconds, with a whole-second resolution.
pub fn stamp_of(secs: u64) -> (r: String)
    ensures
        r@ == decimal(secs.wrapping_mul(1000) as nat),
{
    u128_to_string(secs.wrapping_mul(1000) as u128)
}

/// The time now, as a stamp in milliseconds; the clock's reading is not
/// stated.
pub fn now_iso() -> (r: String)
    ensures
        exists|secs: u64| r@ == decimal(secs.wrapping_mul(1000) as nat),
{
    stamp_of(whole_seconds(unix_nanos_now()))
}

/// The proxy URL for reaching an instance at `socks`.
pub fn tor_proxy_url(socks: &str) -> (r: String)
    ensures
        r@ == "socks5h://"@ + socks@,
{
    cat("socks5h://", socks)
}

/// The host to connect to for a listener bound to `bind`: the wildcard
/// address is reached on the loopback address.
pub open spec fn connect_host(bind: Seq<char>) -> Seq<char> {
    if bind == "0.0.0.0"@ {
        "127.0.0.1"@
    } else {
        bind
    }
}

fn connect_host_of(bind: &str) -> (r: String)
    ensures
        r@ == connect_host(bind@),
{
    if str_eq(bind, "0.0.0.0") {
        string_of("127.0.0.1")
    } else {
        string_of(bind)
    }
}

/// The proxy URL for probing a listener bound to `bind` on `port`.
pub open spec fn probe_url(bind: Seq<char>, port: u16) -> Seq<char> {
    "socks5h://"@ + connect_host(bind) + ":"@ + decimal(port as nat)
}

/// The proxy URL for probing a listener bound to `bind` on `port`.
pub fn probe_proxy_url(bind: &str, port: u16) -> (r: String)
    ensures
        r@ == probe_url(bind@, port),
{
    let h = connect_host_of(bind);
    let a = cat("socks5h://", h.as_str());
    let b = cat(a.as_str(), ":");
    let p = u128_to_string(port as u128);
    cat(b.as_str(), p.as_str())
}

/// The proxy URL for probing route `r` through its own listener: with its
/// credentials when both are present and not empty; the bind address
/// defaults to all interfaces.
pub open spec fn route_probe_url(r: crate::config::RouteView) -> Seq<char> {
    let bind = match r.bind_address {
        Some(b) => b,
        None => "0.0.0.0"@,
    };
    match (r.username, r.password) {
        (Some(u), Some(p)) => if u.len() > 0 && p.len() > 0 {
            "socks5h://"@ + u + ":"@ + p + "@"@ + connect_host(bind) + ":"@ + decimal(
                r.input_port as nat,
            )
        } else {
            probe_url(bind, r.input_port)
        },
        _ => probe_url(bind, r.input_port),
    }
}

/// The proxy URL for probing a route through its own listener.
pub fn route_proxy_url(r: &RouteConfig) -> (u: String)
    ensures
        u@ == route_probe_url(r@),
{
    let bind = match &r.bind_address {
        Some(b) => b.clone(),
        None => string_of("0.0.0.0"),
    };
    match (&r.username, &r.password) {
        (Some(u), Some(p)) => {
            if chars_of(u.as_str()).len() > 0 && chars_of(p.as_str()).len() > 0 {
                let a = cat("socks5h://", u.as_str());
                let b = cat(a.as_str(), ":");
                let c = cat(b.as_str(), p.as_str());
                let d = cat(c.as_str(), "@");
                let h = connect_host_of(bind.as_str());
                let e = cat(d.as_str(), h.as_str());
                let f = cat(e.as_str(), ":");
                let port = u128_to_string(r.input_port as u128);
                cat(f.as_str(), port.as_str())
            } else {
                probe_proxy_url(bind.as_str(), r.input_port)
            }
        },
        _ => probe_proxy_url(bind.as_str(), r.input_port),
    }
}

/// The exit address reported as plain text: trimmed, and kept when it is
/// not empty and at most 45 bytes long in UTF-8.
pub open spec fn ip_of_text(text: Seq<char>) -> Option<Seq<char>> {
    let t = trim(text);
    if t.len() > 0 && vstd::utf8::encode_utf8(t).len() <= 45 {
        Some(t)
    } else {
        None
    }
}

fn utf8_width(c: char) -> (w: u128)
    ensures
        w == vstd::utf8::encode_scalar(c as u32).len(),
{
    proof {
        vstd::utf8::char_is_scalar(c);
    }
    let u = c as u32;
    if u <= 0x7F {
        1
    } else if u <= 0x7FF {
        2
    } else if u <= 0xFFFF {
        3
    } else {
        4
    }
}

/// The length in bytes of the UTF-8 encoding of `v`.
fn utf8_len(v: &Vec<char>) -> (n: u128)
    ensures
        n == vstd::utf8::encode_utf8(v@).len(),
{
    let mut i: usize = v.len();
    let mut acc: u128 = 0;
    proof {
        assert(v@.skip(v.len() as int) =~= Seq::<char>::empty());
    }
    while i > 0
        invariant
            i <= v.len(),
            acc <= 4 * (v.len() - i),
            acc == vstd::utf8::encode_utf8(v@.skip(i as int)).len(),
        decreases i,
    {
        let w = utf8_width(v[i - 1]);
        proof {
            assert(v@.skip(i - 1).drop_first() =~= v@.skip(i as int));
            assert(v@.skip(i - 1)[0] == v@[i - 1]);
        }
        acc = acc + w;
        i = i - 1;
    }
    proof {
        assert(v@.skip(0) =~= v@);
    }
    acc
}

/// The exit address reported as plain text, if it is usable.
pub fn ip_from_text(text: &str) -> (r: Option<String>)
    ensures
        crate::text::opt_view(r) == ip_of_text(text@),
{
    let t = trim_str(text);
    if t.len() > 0 && utf8_len(&t) <= 45 {
        Some(string_from_chars(t.as_slice()))
    } else {
        None
    }
}

// ---------------------------------------------------------------- the worker

/// Whether the swap interval has passed since the last swap, in seconds
/// since the epoch (with the wrapping arithmetic of a release build).
pub open spec fn swap_due(now: u64, last_swap: u64, swap_hours: u64) -> bool {
    now.wrapping_sub(last_swap) >= swap_hours.wrapping_mul(3600)
}

/// Whether the swap interval has passed.
pub fn swap_allowed(now: u64, last_swap: u64, swap_hours: u64) -> (r: bool)
    ensures
        r == swap_due(now, last_swap, swap_hours),
{
    now.wrapping_sub(last_swap) >= swap_hours.wrapping_mul(3600)
}

/// Whether the worker starts a test instance: when none runs, when the swap
/// interval has passed, or when the running one is not connected.
pub fn should_test(has_active: bool, swap_due_now: bool, active_lat: u128) -> (r: bool)
    ensures
        r == (!has_active || swap_due_now || active_lat == NOT_CONNECTED_NANOS),
{
    !has_active || swap_due_now || active_lat == NOT_CONNECTED_NANOS
}

/// Whether the test instance replaces the running one: when none runs, or
/// when the test instance is connected and faster.
pub open spec fn promotes(has_active: bool, active_lat: u128, test_lat: u128) -> bool {
    !has_active || (test_lat != NOT_CONNECTED_NANOS && test_lat < active_lat)
}

/// Whether the test instance replaces the running one.
pub fn should_promote(has_active: bool, active_lat: u128, test_lat: u128) -> (r: bool)
    ensures
        r == promotes(has_active, active_lat, test_lat),
        !has_active ==> r,
        test_lat != NOT_CONNECTED_NANOS && test_lat < active_lat ==> r,
        r ==> !has_active || (test_lat != NOT_CONNECTED_NANOS && test_lat < active_lat),
{
    !has_active || (test_lat != NOT_CONNECTED_NANOS && test_lat < active_lat)
}

/// The worker keeps the faster instance: with none running, the test
/// instance is always kept; a connected test instance strictly faster than
/// the running one always replaces it, in particular when the running one
/// no longer answers.
pub proof fn law_faster_promoted(has_active: bool, active_lat: u128, test_lat: u128)
    ensures
        !has_active ==> promotes(has_active, active_lat, test_lat),
        test_lat != NOT_CONNECTED_NANOS && test_lat < active_lat ==> promotes(
            has_active,
            active_lat,
            test_lat,
        ),
        test_lat < NOT_CONNECTED_NANOS ==> promotes(has_active, NOT_CONNECTED_NANOS, test_lat),
{
}

/// A running instance is only ever replaced by a connected and strictly
/// faster one.
pub proof fn law_promotion_improves(active_lat: u128, test_lat: u128)
    ensures
        promotes(true, active_lat, test_lat) ==> test_lat < active_lat && test_lat
            != NOT_CONNECTED_NANOS,
{
}

/// The Tor instances in `a`: none, or the one with that number.
pub open spec fn instance_set(a: Option<u64>) -> Set<u64> {
    match a {
        Some(x) => set![x],
        None => Set::empty(),
    }
}

/// The instances still running after a test, when the running one was
/// `active`, the test one `test`, and the worker stops `stop`.
pub open spec fn running_after(active: Option<u64>, test: u64, stop: Option<u64>) -> Set<u64> {
    instance_set(active).insert(test).difference(instance_set(stop))
}

/// A route's worker between two iterations: the Tor instance it keeps
/// running, by the number its caller gave the instance when starting it,
/// and when it last swapped instances (seconds since the epoch).
pub struct WorkerState {
    pub active: Option<u64>,
    pub last_swap: u64,
}

impl WorkerState {
    /// A worker that runs no instance and has never swapped.
    pub fn new() -> (r: WorkerState)
        ensures
            r.active is None,
            r.last_swap == 0,
    {
        WorkerState { active: None, last_swap: 0 }
    }

    /// Whether this iteration starts a test instance, at `now`, with the
    /// route's swap interval and the running instance's measured latency
    /// (`NOT_CONNECTED_NANOS` when none runs).
    pub fn wants_test(&self, now: u64, swap_hours: u64, active_lat: u128) -> (r: bool)
        ensures
            r == (self.active is None || swap_due(now, self.last_swap, swap_hours) || active_lat
                == NOT_CONNECTED_NANOS),
    {
        let due = swap_allowed(now, self.last_swap, swap_hours);
        should_test(self.active.is_some(), due, active_lat)
    }

    /// The end of a test, at `now`: the test instance `test`, listening at
    /// `test_socks`, measured `test_lat` against the running one's
    /// `active_lat`. When it promotes, the test instance becomes the running
    /// one, new clients go to it, the swap time is `now`, and the instance
    /// that ran before (if any) is the one to stop; otherwise nothing changes
    /// and the test instance is the one to stop. Either way, of the instances
    /// running during the test, exactly the kept one runs afterwards.
    pub fn finish_test(
        &mut self,
        slot: &mut Slot,
        active_lat: u128,
        test: u64,
        test_socks: String,
        test_lat: u128,
        now: u64,
    ) -> (stop: Option<u64>)
        ensures
            promotes(old(self).active is Some, active_lat, test_lat) ==> {
                &&& final(self).active == Some(test)
                &&& final(self).last_swap == now
                &&& stop == old(self).active
                &&& backend_view(final(slot).active) == Some(test_socks@)
                &&& backend_view(final(slot).draining) == backend_view(old(slot).active)
            },
            !promotes(old(self).active is Some, active_lat, test_lat) ==> {
                &&& *final(self) == *old(self)
                &&& stop == Some(test)
                &&& *final(slot) == *old(slot)
            },
            old(self).active != Some(test) ==> running_after(old(self).active, test, stop)
                == instance_set(final(self).active),
    {
        let ghost before = self.active;
        if should_promote(self.active.is_some(), active_lat, test_lat) {
            slot.promote(test_socks);
            let previous = self.active;
            self.active = Some(test);
            self.last_swap = now;
            proof {
                if before != Some(test) {
                    assert(running_after(before, test, previous) =~= set![test]);
                }
            }
            previous
        } else {
            proof {
                if before != Some(test) {
                    assert(running_after(before, test, Some(test)) =~= instance_set(before));
                }
            }
            Some(test)
        }
    }
}

/// The worker's settings for a route: its name, swap interval (1440 unless
/// set), test interval (15 unless set) and country.
pub fn worker_params(r: &RouteConfig) -> (p: (String, u64, u64, String))
    ensures
        p.0@ == r.name@,
        p.1 == r.swap_interval_hours.unwrap_or(1440),
        p.2 == r.test_interval_minutes.unwrap_or(15),
        p.3@ == r.country_code@,
{
    (
        r.name.clone(),
        match r.swap_interval_hours {
            Some(v) => v,
            None => 1440,
        },
        match r.test_interval_minutes {
            Some(v) => v,
            None => 15,
        },
        r.country_code.clone(),
    )
}

} // verus!
