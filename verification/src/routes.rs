//! The list of configured routes that the web API keeps in memory, and the
//! edits its handlers make to it.

use vstd::prelude::*;
use crate::config::{routes_view, RouteConfig, RouteView};
use crate::text::{
    copy_opt, filter_non_empty, lowercase, non_empty, opt_view, str_eq, string_of, to_lowercase,
};

verus! {

/// The body the panel sends to create or edit a route.
pub struct RouteBody {
    pub name: String,
    pub bind_address: Option<String>,
    pub input_port: u16,
    pub username: Option<String>,
    pub password: Option<String>,
    pub country_code: String,
    pub swap_interval_minutes: Option<u64>,
    pub test_interval_minutes: Option<u64>,
}

/// The route a request body describes, before it has an id: bind address
/// `127.0.0.1` unless given, empty credentials dropped, the country code in
/// lowercase, swap interval 1440 and test interval 15 unless given.
pub open spec fn route_of_body(
    name: Seq<char>,
    bind_address: Option<Seq<char>>,
    input_port: u16,
    username: Option<Seq<char>>,
    password: Option<Seq<char>>,
    country_code: Seq<char>,
    swap: Option<u64>,
    test: Option<u64>,
) -> RouteView {
    RouteView {
        id: 0,
        name: name,
        bind_address: Some(
            match bind_address {
                Some(b) => b,
                None => "127.0.0.1"@,
            },
        ),
        input_port: input_port,
        username: non_empty(username),
        password: non_empty(password),
        country_code: lowercase(country_code),
        swap_interval_hours: Some(swap.unwrap_or(1440)),
        test_interval_minutes: Some(test.unwrap_or(15)),
        restart_trigger: None,
        tor_ip: None,
        last_checked_at: None,
    }
}

/// A route made from a body keeps what the body gives: its name and port,
/// the bind address given (the loopback address when none is), each
/// credential given with some text (none when it is missing or empty), the
/// country code in lowercase, and the intervals given (1440 hours and 15
/// minutes when not); it has no id, restart marker or state yet.
pub proof fn law_body_route(
    name: Seq<char>,
    bind_address: Option<Seq<char>>,
    input_port: u16,
    username: Option<Seq<char>>,
    password: Option<Seq<char>>,
    country_code: Seq<char>,
    swap: Option<u64>,
    test: Option<u64>,
)
    ensures
        ({
            let r = route_of_body(
                name,
                bind_address,
                input_port,
                username,
                password,
                country_code,
                swap,
                test,
            );
            &&& r.name == name
            &&& r.input_port == input_port
            &&& bind_address is Some ==> r.bind_address == bind_address
            &&& bind_address is None ==> r.bind_address == Some("127.0.0.1"@)
            &&& (username is Some && username->0.len() > 0) ==> r.username == username
            &&& (username is None || username->0.len() == 0) ==> r.username is None
            &&& (password is Some && password->0.len() > 0) ==> r.password == password
            &&& (password is None || password->0.len() == 0) ==> r.password is None
            &&& r.country_code == lowercase(country_code)
            &&& swap is Some ==> r.swap_interval_hours == swap
            &&& swap is None ==> r.swap_interval_hours == Some(1440u64)
            &&& test is Some ==> r.test_interval_minutes == test
            &&& test is None ==> r.test_interval_minutes == Some(15u64)
            &&& r.id == 0
            &&& r.restart_trigger is None
            &&& r.tor_ip is None
            &&& r.last_checked_at is None
        }),
{
}

impl RouteBody {
    /// The route this body describes.
    pub fn into_route(self) -> (r: RouteConfig)
        ensures
            r@ == route_of_body(
                self.name@,
                opt_view(self.bind_address),
                self.input_port,
                opt_view(self.username),
                opt_view(self.password),
                self.country_code@,
                self.swap_interval_minutes,
                self.test_interval_minutes,
            ),
    {
        let bind = match self.bind_address {
            Some(b) => b,
            None => string_of("127.0.0.1"),
        };
        RouteConfig {
            id: 0,
            name: self.name,
            bind_address: Some(bind),
            input_port: self.input_port,
            username: filter_non_empty(self.username),
            password: filter_non_empty(self.password),
            country_code: to_lowercase(self.country_code.as_str()),
            swap_interval_hours: Some(
                match self.swap_interval_minutes {
                    Some(v) => v,
                    None => 1440,
                },
            ),
            test_interval_minutes: Some(
                match self.test_interval_minutes {
                    Some(v) => v,
                    None => 15,
                },
            ),
            restart_trigger: None,
            tor_ip: None,
            last_checked_at: None,
        }
    }
}

/// An edited route as it is saved under `id`: the edit from the panel, with
/// the restart marker and the observed state of the stored route kept.
pub open spec fn edited_route(edit: RouteView, old: Option<RouteView>, id: i64) -> RouteView {
    match old {
        Some(o) => RouteView {
            id: id,
            restart_trigger: o.restart_trigger,
            tor_ip: o.tor_ip,
            last_checked_at: o.last_checked_at,
            ..edit
        },
        None => RouteView { id: id, ..edit },
    }
}

/// Combines an edit with the route it replaces.
pub fn apply_edit(edit: RouteConfig, old: Option<&RouteConfig>, id: i64) -> (r: RouteConfig)
    ensures
        r@ == edited_route(
            edit@,
            match old {
                Some(o) => Some(o@),
                None => None,
            },
            id,
        ),
{
    let mut r = edit;
    if let Some(o) = old {
        r.restart_trigger = copy_opt(&o.restart_trigger);
        r.tor_ip = copy_opt(&o.tor_ip);
        r.last_checked_at = copy_opt(&o.last_checked_at);
    }
    r.id = id;
    r
}

/// Whether `k` is the first position holding a route with id `id`.
pub open spec fn first_with_id(s: Seq<RouteView>, id: i64, k: int) -> bool {
    &&& 0 <= k < s.len()
    &&& s[k].id == id
    &&& forall|j: int| 0 <= j < k ==> s[j].id != id
}

/// Whether no route has id `id`.
pub open spec fn no_id(s: Seq<RouteView>, id: i64) -> bool {
    forall|j: int| 0 <= j < s.len() ==> s[j].id != id
}

pub fn find_id(routes: &Vec<RouteConfig>, id: i64) -> (r: Option<usize>)
    ensures
        match r {
            Some(k) => first_with_id(routes_view(routes@), id, k as int),
            None => no_id(routes_view(routes@), id),
        },
{
    let mut i: usize = 0;
    while i < routes.len()
        invariant
            i <= routes.len(),
            forall|j: int| 0 <= j < i ==> routes_view(routes@)[j].id != id,
        decreases routes.len() - i,
    {
        if routes[i].id == id {
            return Some(i);
        }
        i = i + 1;
    }
    None
}

/// Replaces the first route with id `id` by `route`; the list is unchanged
/// when there is none.
pub fn replace_route(routes: &mut Vec<RouteConfig>, id: i64, route: RouteConfig)
    ensures
        no_id(routes_view(old(routes)@), id) ==> routes_view(final(routes)@) == routes_view(
            old(routes)@,
        ),
        forall|k: int|
            first_with_id(routes_view(old(routes)@), id, k) ==> routes_view(final(routes)@)
                == routes_view(old(routes)@).update(k, route@),
{
    match find_id(routes, id) {
        Some(k) => {
            let ghost before = routes@;
            routes.set(k, route);
            proof {
                assert(routes_view(routes@) =~= routes_view(before).update(k as int, route@));
            }
        },
        None => {},
    }
}

/// Sets the restart marker of the first route with id `id`.
pub fn mark_restart(routes: &mut Vec<RouteConfig>, id: i64, trigger: &String)
    ensures
        no_id(routes_view(old(routes)@), id) ==> routes_view(final(routes)@) == routes_view(
            old(routes)@,
        ),
        forall|k: int|
            first_with_id(routes_view(old(routes)@), id, k) ==> routes_view(final(routes)@)
                == routes_view(old(routes)@).update(
                k,
                RouteView { restart_trigger: Some(trigger@), ..routes_view(old(routes)@)[k] },
            ),
{
    match find_id(routes, id) {
        Some(k) => {
            let ghost before = routes@;
            let mut r = routes[k].copy();
            r.restart_trigger = Some(trigger.clone());
            routes.set(k, r);
            proof {
                assert(routes_view(routes@) =~= routes_view(before).update(
                    k as int,
                    RouteView { restart_trigger: Some(trigger@), ..routes_view(before)[k as int] },
                ));
            }
        },
        None => {},
    }
}

/// The routes of `s` whose id is not `id`, in their order.
pub open spec fn without_id(s: Seq<RouteView>, id: i64) -> Seq<RouteView>
    decreases s.len(),
{
    if s.len() == 0 {
        s
    } else if s.last().id == id {
        without_id(s.drop_last(), id)
    } else {
        without_id(s.drop_last(), id).push(s.last())
    }
}

/// Drops every route with id `id`.
pub fn remove_route(routes: &mut Vec<RouteConfig>, id: i64)
    ensures
        routes_view(final(routes)@) == without_id(routes_view(old(routes)@), id),
{
    let mut old_routes: Vec<RouteConfig> = Vec::new();
    std::mem::swap(routes, &mut old_routes);
    let ghost all = routes_view(old_routes@);
    let mut i: usize = 0;
    while i < old_routes.len()
        invariant
            i <= old_routes.len(),
            all == routes_view(old_routes@),
            routes_view(routes@) == without_id(all.subrange(0, i as int), id),
        decreases old_routes.len() - i,
    {
        proof {
            assert(all.subrange(0, i + 1).drop_last() =~= all.subrange(0, i as int));
        }
        if old_routes[i].id != id {
            let ghost before = routes@;
            routes.push(old_routes[i].copy());
            proof {
                assert(routes_view(routes@) =~= routes_view(before).push(all[i as int]));
            }
        }
        i = i + 1;
    }
    proof {
        assert(all.subrange(0, old_routes.len() as int) =~= all);
    }
}

/// The first route named `name`.
pub fn find_by_name(routes: &Vec<RouteConfig>, name: &str) -> (r: Option<usize>)
    ensures
        match r {
            Some(k) => {
                &&& k < routes.len()
                &&& routes@[k as int].name@ == name@
                &&& forall|j: int| 0 <= j < k ==> routes@[j].name@ != name@
            },
            None => forall|j: int| 0 <= j < routes.len() ==> routes@[j].name@ != name@,
        },
{
    let mut i: usize = 0;
    while i < routes.len()
        invariant
            i <= routes.len(),
            forall|j: int| 0 <= j < i ==> routes@[j].name@ != name@,
        decreases routes.len() - i,
    {
        if str_eq(routes[i].name.as_str(), name) {
            return Some(i);
        }
        i = i + 1;
    }
    None
}

/// Whether no two routes of `s` share an id.
pub open spec fn distinct_ids(s: Seq<RouteView>) -> bool {
    forall|i: int, j: int| 0 <= i < s.len() && 0 <= j < s.len() && i != j ==> s[i].id != s[j].id
}

pub proof fn lemma_seq_push_contains(s: Seq<RouteView>, x: RouteView)
    ensures
        forall|y: RouteView| s.push(x).contains(y) <==> s.contains(y) || y == x,
{
    assert forall|y: RouteView| s.push(x).contains(y) <==> s.contains(y) || y == x by {
        if s.push(x).contains(y) {
            let k = choose|k: int| 0 <= k < s.len() + 1 && s.push(x)[k] == y;
            if k < s.len() {
                assert(s[k] == y);
            }
        }
        if s.contains(y) {
            let k = choose|k: int| 0 <= k < s.len() && s[k] == y;
            assert(s.push(x)[k] == y);
        }
        if y == x {
            assert(s.push(x)[s.len() as int] == y);
        }
    }
}

/// Removing a route by id keeps, in order, exactly the routes with another
/// id: afterwards none has that id, nothing changes when none had it, and
/// ids stay distinct.
pub proof fn law_remove_route(s: Seq<RouteView>, id: i64)
    ensures
        forall|x: RouteView| #[trigger] without_id(s, id).contains(x) <==> s.contains(x) && x.id != id,
        no_id(s, id) ==> without_id(s, id) == s,
        distinct_ids(s) ==> distinct_ids(without_id(s, id)),
        no_id(without_id(s, id), id),
    decreases s.len(),
{
    if s.len() > 0 {
        let d = s.drop_last();
        let x = s.last();
        law_remove_route(d, id);
        assert(s =~= d.push(x));
        lemma_seq_push_contains(d, x);
        let w = without_id(d, id);
        lemma_seq_push_contains(w, x);
        assert forall|y: RouteView| #[trigger] without_id(s, id).contains(y) <==> s.contains(y) && y.id != id by {
            assert(w.contains(y) <==> d.contains(y) && y.id != id);
            assert(s.contains(y) <==> d.contains(y) || y == x);
            assert(w.push(x).contains(y) <==> w.contains(y) || y == x);
        }
        if x.id != id {
            if no_id(s, id) {
                assert(no_id(d, id));
            }
            if distinct_ids(s) {
                assert(distinct_ids(d));
                assert forall|i: int| 0 <= i < w.len() implies w[i].id != x.id by {
                    assert(w.contains(w[i]));
                    assert(d.contains(w[i]));
                    let k = choose|k: int| 0 <= k < d.len() && d[k] == w[i];
                    assert(s[k] == d[k]);
                    assert(s[s.len() - 1] == x);
                }
            }
        } else {
            if distinct_ids(s) {
                assert(distinct_ids(d));
            }
            assert(!no_id(s, id));
        }
    }
}

/// The restart marker for a restart requested at `millis` (milliseconds
/// since the epoch): their decimal text.
pub fn restart_marker(millis: u128) -> (r: String)
    ensures
        r@ == crate::text::decimal(millis as nat),
{
    crate::text::u128_to_string(millis)
}

/// Adds a newly created route under the id the database gave it.
pub fn add_route(routes: &mut Vec<RouteConfig>, route: RouteConfig, id: i64)
    ensures
        routes_view(final(routes)@) == routes_view(old(routes)@).push(RouteView { id: id, ..route@ }),
{
    let mut r = route;
    r.id = id;
    let ghost before = routes_view(routes@);
    routes.push(r);
    proof {
        assert(routes_view(routes@) =~= before.push(RouteView { id: id, ..route@ }));
    }
}

/// What an edit writes is what is read back: after the first route with
/// id `id` is replaced by `c` (which keeps that id), `c` is the first route
/// with that id.
pub proof fn law_replace_read_back(s: Seq<RouteView>, id: i64, k: int, c: RouteView)
    requires
        first_with_id(s, id, k),
        c.id == id,
    ensures
        first_with_id(s.update(k, c), id, k),
        s.update(k, c)[k] == c,
{
}

/// A new route with an id not yet in use is the first route with that id.
pub proof fn law_add_read_back(s: Seq<RouteView>, c: RouteView)
    requires
        no_id(s, c.id),
    ensures
        first_with_id(s.push(c), c.id, s.len() as int),
{
    assert forall|j: int| 0 <= j < s.len() implies s.push(c)[j].id != c.id by {
        assert(s.push(c)[j] == s[j]);
    }
}

} // verus!
