//! What the daemon does on each tick to bring the running routes in line
//! with the routes stored in the database.

use vstd::prelude::*;
use crate::config::{routes_view, same_route, RouteConfig, RouteView};
use crate::routes::{
    distinct_ids, law_remove_route, lemma_seq_push_contains, no_id, remove_route, without_id,
};

verus! {

/// A stored route with its intervals made usable: no swap interval, or
/// zero, becomes 1440; no test interval, or zero, becomes 15.
pub open spec fn normalized(r: RouteView) -> RouteView {
    RouteView {
        swap_interval_hours: if r.swap_interval_hours.unwrap_or(0) == 0 {
            Some(1440)
        } else {
            r.swap_interval_hours
        },
        test_interval_minutes: if r.test_interval_minutes.unwrap_or(0) < 1 {
            Some(15)
        } else {
            r.test_interval_minutes
        },
        ..r
    }
}

/// The routes to run, given the rows read from the database: each
/// normalized, and for an id that occurs more than once only its last row.
pub open spec fn desired(loaded: Seq<RouteView>) -> Seq<RouteView>
    decreases loaded.len(),
{
    if loaded.len() == 0 {
        loaded
    } else {
        without_id(desired(loaded.drop_last()), loaded.last().id).push(normalized(loaded.last()))
    }
}

/// Normalizes the intervals of a route.
pub fn normalize_route(r: &mut RouteConfig)
    ensures
        final(r)@ == normalized(old(r)@),
{
    let swap: u64 = match r.swap_interval_hours {
        Some(v) => v,
        None => 0,
    };
    if swap == 0 {
        r.swap_interval_hours = Some(1440);
    }
    let test: u64 = match r.test_interval_minutes {
        Some(v) => v,
        None => 0,
    };
    if test < 1 {
        r.test_interval_minutes = Some(15);
    }
}

/// The routes to run, given the rows read from the database.
pub fn desired_routes(loaded: &Vec<RouteConfig>) -> (out: Vec<RouteConfig>)
    ensures
        routes_view(out@) == desired(routes_view(loaded@)),
{
    let ghost all = routes_view(loaded@);
    let mut out: Vec<RouteConfig> = Vec::new();
    let mut i: usize = 0;
    while i < loaded.len()
        invariant
            i <= loaded.len(),
            all == routes_view(loaded@),
            routes_view(out@) == desired(all.subrange(0, i as int)),
        decreases loaded.len() - i,
    {
        let mut r = loaded[i].copy();
        normalize_route(&mut r);
        proof {
            let p = all.subrange(0, i + 1);
            assert(p.drop_last() =~= all.subrange(0, i as int));
            assert(p.last() == all[i as int]);
        }
        remove_route(&mut out, r.id);
        let ghost before = out@;
        out.push(r);
        proof {
            assert(routes_view(out@) =~= routes_view(before).push(normalized(all[i as int])));
        }
        i = i + 1;
    }
    proof {
        assert(all.subrange(0, loaded.len() as int) =~= all);
    }
    out
}

/// The first route in `s` with id `id`.
pub open spec fn lookup(s: Seq<RouteView>, id: i64) -> Option<RouteView>
    decreases s.len(),
{
    if s.len() == 0 {
        None
    } else if s[0].id == id {
        Some(s[0])
    } else {
        lookup(s.subrange(1, s.len() as int), id)
    }
}

/// One step the daemon takes towards the desired routes.
pub enum RouteAction {
    /// Stop the route with this id and forget it.
    Stop(i64),
    /// Start a route that is not running yet.
    Start(RouteConfig),
    /// Bring a running route up to date.
    Change {
        id: i64,
        config: RouteConfig,
        /// Restart its Tor worker with the new configuration.
        restart_worker: bool,
        /// Restart its listener on the new address.
        restart_router: bool,
        /// Replace its configuration in place, without restarts.
        update_config: bool,
    },
}

/// A reload step as a value.
pub enum ActionView {
    Stop(i64),
    Start(RouteView),
    Change {
        id: i64,
        config: RouteView,
        restart_worker: bool,
        restart_router: bool,
        update_config: bool,
    },
}

impl View for RouteAction {
    type V = ActionView;

    open spec fn view(&self) -> ActionView {
        match self {
            RouteAction::Stop(id) => ActionView::Stop(*id),
            RouteAction::Start(c) => ActionView::Start(c@),
            RouteAction::Change { id, config, restart_worker, restart_router, update_config } =>
                ActionView::Change {
                id: *id,
                config: config@,
                restart_worker: *restart_worker,
                restart_router: *restart_router,
                update_config: *update_config,
            },
        }
    }
}

/// The actions as values.
pub open spec fn actions_view(a: Seq<RouteAction>) -> Seq<ActionView> {
    a.map_values(|x: RouteAction| x@)
}

/// What to do with a running route `old` that should now run as `new`: its
/// Tor worker restarts when the exit country or the restart marker changed,
/// its listener restarts when the bind address or port changed, and
/// otherwise a changed configuration is replaced in place. `None` when
/// nothing changed.
pub open spec fn change_for(old: RouteView, new: RouteView) -> Option<ActionView> {
    let w = old.country_code != new.country_code || old.restart_trigger != new.restart_trigger;
    let r = old.bind_address != new.bind_address || old.input_port != new.input_port;
    let u = !w && !same_route(old, new);
    if w || r || u {
        Some(
            ActionView::Change {
                id: new.id,
                config: new,
                restart_worker: w,
                restart_router: r,
                update_config: u,
            },
        )
    } else {
        None
    }
}

/// A stop for every running route that is no longer wanted, in the order
/// the routes run.
pub open spec fn stop_actions(running: Seq<RouteView>, want: Seq<RouteView>) -> Seq<ActionView>
    decreases running.len(),
{
    if running.len() == 0 {
        Seq::empty()
    } else {
        let rest = stop_actions(running.drop_last(), want);
        if no_id(want, running.last().id) {
            rest.push(ActionView::Stop(running.last().id))
        } else {
            rest
        }
    }
}

/// For every wanted route, in order: a start when it is not running, the
/// needed change when it runs with another configuration.
pub open spec fn want_actions(running: Seq<RouteView>, want: Seq<RouteView>) -> Seq<ActionView>
    decreases want.len(),
{
    if want.len() == 0 {
        Seq::empty()
    } else {
        let rest = want_actions(running, want.drop_last());
        let d = want.last();
        match lookup(running, d.id) {
            None => rest.push(ActionView::Start(d)),
            Some(o) => match change_for(o, d) {
                Some(a) => rest.push(a),
                None => rest,
            },
        }
    }
}

/// The whole reload: first the stops, then the starts and changes.
pub open spec fn reload_plan(running: Seq<RouteView>, loaded: Seq<RouteView>) -> Seq<ActionView> {
    let want = desired(loaded);
    stop_actions(running, want) + want_actions(running, want)
}

fn find_running(running: &Vec<RouteConfig>, id: i64) -> (r: Option<usize>)
    ensures
        match r {
            Some(k) => k < running.len() && lookup(routes_view(running@), id) == Some(
                running@[k as int]@,
            ),
            None => lookup(routes_view(running@), id) is None,
        },
{
    let ghost all = routes_view(running@);
    let mut i: usize = 0;
    proof {
        assert(all.subrange(0, all.len() as int) =~= all);
    }
    while i < running.len()
        invariant
            i <= running.len(),
            all == routes_view(running@),
            lookup(all, id) == lookup(all.subrange(i as int, all.len() as int), id),
        decreases running.len() - i,
    {
        proof {
            let t = all.subrange(i as int, all.len() as int);
            assert(t.subrange(1, t.len() as int) =~= all.subrange(i + 1, all.len() as int));
            assert(t[0] == all[i as int]);
        }
        if running[i].id == id {
            return Some(i);
        }
        i = i + 1;
    }
    None
}

fn change_action(old: &RouteConfig, new: &RouteConfig) -> (r: Option<RouteAction>)
    ensures
        match r {
            Some(a) => change_for(old@, new@) == Some(a@),
            None => change_for(old@, new@) is None,
        },
{
    let w = old.country_code != new.country_code || !crate::text::opt_eq(
        &old.restart_trigger,
        &new.restart_trigger,
    );
    let r = !crate::text::opt_eq(&old.bind_address, &new.bind_address) || old.input_port
        != new.input_port;
    let u = !w && !old.same_as(new);
    if w || r || u {
        Some(
            RouteAction::Change {
                id: new.id,
                config: new.copy(),
                restart_worker: w,
                restart_router: r,
                update_config: u,
            },
        )
    } else {
        None
    }
}

/// The actions that bring the routes running with configurations
/// `running` in line with the rows `loaded` from the database.
pub fn plan_reload(running: &Vec<RouteConfig>, loaded: &Vec<RouteConfig>) -> (plan: Vec<RouteAction>)
    ensures
        actions_view(plan@) == reload_plan(routes_view(running@), routes_view(loaded@)),
{
    let want = desired_routes(loaded);
    let ghost w = routes_view(want@);
    let ghost run = routes_view(running@);
    let mut plan: Vec<RouteAction> = Vec::new();
    let mut i: usize = 0;
    while i < running.len()
        invariant
            i <= running.len(),
            run == routes_view(running@),
            w == routes_view(want@),
            actions_view(plan@) == stop_actions(run.subrange(0, i as int), w),
        decreases running.len() - i,
    {
        proof {
            let p = run.subrange(0, i + 1);
            assert(p.drop_last() =~= run.subrange(0, i as int));
            assert(p.last() == run[i as int]);
        }
        let id = running[i].id;
        if crate::routes::find_id(&want, id).is_none() {
            let ghost before = plan@;
            plan.push(RouteAction::Stop(id));
            proof {
                assert(actions_view(plan@) =~= actions_view(before).push(ActionView::Stop(id)));
            }
        } else {
            proof {
                assert(!no_id(w, id));
            }
        }
        i = i + 1;
    }
    proof {
        assert(run.subrange(0, running.len() as int) =~= run);
    }
    let ghost stops = actions_view(plan@);
    let mut j: usize = 0;
    while j < want.len()
        invariant
            j <= want.len(),
            run == routes_view(running@),
            w == routes_view(want@),
            stops == stop_actions(run, w),
            actions_view(plan@) == stops + want_actions(run, w.subrange(0, j as int)),
        decreases want.len() - j,
    {
        proof {
            let p = w.subrange(0, j + 1);
            assert(p.drop_last() =~= w.subrange(0, j as int));
            assert(p.last() == w[j as int]);
        }
        let d = &want[j];
        let ghost before = plan@;
        match find_running(running, d.id) {
            None => {
                plan.push(RouteAction::Start(d.copy()));
                proof {
                    assert(actions_view(plan@) =~= actions_view(before).push(ActionView::Start(w[j as int])));
                }
            },
            Some(k) => {
                match change_action(&running[k], d) {
                    Some(a) => {
                        let ghost av = a@;
                        plan.push(a);
                        proof {
                            assert(actions_view(plan@) =~= actions_view(before).push(av));
                        }
                    },
                    None => {},
                }
            },
        }
        j = j + 1;
    }
    proof {
        assert(w.subrange(0, want.len() as int) =~= w);
    }
    plan
}


// ---------------------------------------------------------------- the reload law

/// The running configurations after one action: a stop forgets the route,
/// a start adds it, and a change that restarts the worker or updates in
/// place installs the new configuration.
pub open spec fn apply_action(s: Seq<RouteView>, a: ActionView) -> Seq<RouteView> {
    match a {
        ActionView::Stop(id) => without_id(s, id),
        ActionView::Start(c) => s.push(c),
        ActionView::Change { id, config, restart_worker, restart_router, update_config } => {
            if restart_worker || update_config {
                Seq::new(s.len(), |i: int| if s[i].id == id { config } else { s[i] })
            } else {
                s
            }
        },
    }
}

/// The running configurations after the actions `p`, in order.
pub open spec fn apply_plan(s: Seq<RouteView>, p: Seq<ActionView>) -> Seq<RouteView>
    decreases p.len(),
{
    if p.len() == 0 {
        s
    } else {
        apply_action(apply_plan(s, p.drop_last()), p.last())
    }
}

/// Whether the running configurations `s` are those of `want`: one route
/// per wanted id, each equal to the wanted route, and no other.
pub open spec fn runs_as(s: Seq<RouteView>, want: Seq<RouteView>) -> bool {
    &&& distinct_ids(s)
    &&& forall|j: int|
        0 <= j < want.len() ==> exists|i: int|
            0 <= i < s.len() && s[i].id == (#[trigger] want[j]).id && same_route(s[i], want[j])
    &&& forall|i: int|
        0 <= i < s.len() ==> exists|j: int| 0 <= j < want.len() && want[j].id == (#[trigger] s[i]).id
}

proof fn lemma_desired_distinct(loaded: Seq<RouteView>)
    ensures
        distinct_ids(desired(loaded)),
    decreases loaded.len(),
{
    if loaded.len() > 0 {
        let x = loaded.last();
        lemma_desired_distinct(loaded.drop_last());
        law_remove_route(desired(loaded.drop_last()), x.id);
    }
}

proof fn lemma_lookup(s: Seq<RouteView>, id: i64)
    ensures
        lookup(s, id) is None ==> forall|i: int| 0 <= i < s.len() ==> s[i].id != id,
        lookup(s, id) is Some ==> s.contains(lookup(s, id)->0) && lookup(s, id)->0.id == id,
        distinct_ids(s) ==> forall|i: int|
            0 <= i < s.len() && s[i].id == id ==> lookup(s, id) == Some(s[i]),
    decreases s.len(),
{
    if s.len() > 0 {
        let t = s.subrange(1, s.len() as int);
        lemma_lookup(t, id);
        assert forall|i: int| 1 <= i < s.len() implies s[i] == t[i - 1] by {}
        if s[0].id != id {
            if lookup(s, id) is Some {
                let k = choose|k: int| 0 <= k < t.len() && t[k] == lookup(s, id)->0;
                assert(s[k + 1] == t[k]);
            }
            if distinct_ids(s) {
                assert(distinct_ids(t)) by {
                    assert forall|a: int, b: int|
                        0 <= a < t.len() && 0 <= b < t.len() && a != b implies t[a].id != t[b].id by {
                        assert(s[a + 1] == t[a] && s[b + 1] == t[b]);
                    }
                }
            }
        } else {
            assert(s.contains(s[0]));
        }
    }
}


/// The running routes that are still wanted, in their order.
pub open spec fn keep(s: Seq<RouteView>, want: Seq<RouteView>) -> Seq<RouteView>
    decreases s.len(),
{
    if s.len() == 0 {
        s
    } else if no_id(want, s.last().id) {
        keep(s.drop_last(), want)
    } else {
        keep(s.drop_last(), want).push(s.last())
    }
}

proof fn lemma_keep(s: Seq<RouteView>, want: Seq<RouteView>)
    ensures
        forall|x: RouteView| #[trigger] keep(s, want).contains(x) <==> s.contains(x) && !no_id(want, x.id),
        distinct_ids(s) ==> distinct_ids(keep(s, want)),
    decreases s.len(),
{
    if s.len() > 0 {
        let d = s.drop_last();
        let x = s.last();
        lemma_keep(d, want);
        assert(s =~= d.push(x));
        lemma_seq_push_contains(d, x);
        let k = keep(d, want);
        lemma_seq_push_contains(k, x);
        assert forall|y: RouteView| keep(s, want).contains(y) <==> s.contains(y) && !no_id(want, y.id) by {
            assert(k.contains(y) <==> d.contains(y) && !no_id(want, y.id));
            assert(s.contains(y) <==> d.contains(y) || y == x);
            assert(k.push(x).contains(y) <==> k.contains(y) || y == x);
            if no_id(want, x.id) {
                assert(keep(s, want) == k);
            } else {
                assert(keep(s, want) == k.push(x));
            }
        }
        if distinct_ids(s) {
            assert(distinct_ids(d));
            assert forall|i: int| 0 <= i < k.len() implies k[i].id != x.id by {
                assert(k.contains(k[i]));
                assert(d.contains(k[i]));
                let j = choose|j: int| 0 <= j < d.len() && d[j] == k[i];
                assert(s[j] == d[j]);
                assert(s[s.len() - 1] == x);
            }
        }
    }
}

proof fn lemma_apply_plan_concat(s: Seq<RouteView>, p1: Seq<ActionView>, p2: Seq<ActionView>)
    ensures
        apply_plan(s, p1 + p2) == apply_plan(apply_plan(s, p1), p2),
    decreases p2.len(),
{
    if p2.len() == 0 {
        assert(p1 + p2 =~= p1);
    } else {
        assert((p1 + p2).drop_last() =~= p1 + p2.drop_last());
        assert((p1 + p2).last() == p2.last());
        lemma_apply_plan_concat(s, p1, p2.drop_last());
    }
}

/// Whether every action of `p` stops a route whose id is not `id`.
pub open spec fn only_other_stops(p: Seq<ActionView>, id: i64) -> bool {
    forall|i: int| 0 <= i < p.len() ==> (#[trigger] p[i] matches ActionView::Stop(k) && k != id)
}

proof fn lemma_stops_keep_pushed(s: Seq<RouteView>, x: RouteView, p: Seq<ActionView>)
    requires
        only_other_stops(p, x.id),
    ensures
        apply_plan(s.push(x), p) == apply_plan(s, p).push(x),
    decreases p.len(),
{
    if p.len() > 0 {
        let d = p.drop_last();
        assert(only_other_stops(d, x.id)) by {
            assert forall|i: int| 0 <= i < d.len() implies (#[trigger] d[i] matches ActionView::Stop(k) && k != x.id) by {
                assert(d[i] == p[i]);
            }
        }
        lemma_stops_keep_pushed(s, x, d);
        assert(p.last() == p[p.len() - 1]);
        let t = apply_plan(s, d);
        assert(t.push(x).drop_last() =~= t);
        assert(apply_plan(s.push(x), d) == t.push(x));
    }
}

proof fn lemma_stop_actions_ids(running: Seq<RouteView>, want: Seq<RouteView>, id: i64)
    requires
        no_id(running, id),
    ensures
        only_other_stops(stop_actions(running, want), id),
    decreases running.len(),
{
    if running.len() > 0 {
        let d = running.drop_last();
        assert(no_id(d, id)) by {
            assert forall|j: int| 0 <= j < d.len() implies d[j].id != id by {
                assert(d[j] == running[j]);
            }
        }
        lemma_stop_actions_ids(d, want, id);
        assert(running[running.len() - 1] == running.last());
    }
}

/// Applying the stops leaves exactly the running routes that are still wanted.
proof fn lemma_apply_stops(running: Seq<RouteView>, want: Seq<RouteView>)
    requires
        distinct_ids(running),
    ensures
        apply_plan(running, stop_actions(running, want)) == keep(running, want),
    decreases running.len(),
{
    if running.len() > 0 {
        let d = running.drop_last();
        let x = running.last();
        assert(running =~= d.push(x));
        assert(distinct_ids(d));
        assert(no_id(d, x.id)) by {
            assert forall|j: int| 0 <= j < d.len() implies d[j].id != x.id by {
                assert(d[j] == running[j]);
                assert(running[running.len() - 1] == x);
            }
        }
        lemma_apply_stops(d, want);
        lemma_stop_actions_ids(d, want, x.id);
        lemma_stops_keep_pushed(d, x, stop_actions(d, want));
        if no_id(want, x.id) {
            let k = keep(d, want);
            lemma_keep(d, want);
            assert(no_id(k, x.id)) by {
                assert forall|j: int| 0 <= j < k.len() implies k[j].id != x.id by {
                    assert(k.contains(k[j]));
                    assert(d.contains(k[j]));
                    let i = choose|i: int| 0 <= i < d.len() && d[i] == k[j];
                    assert(running[i] == d[i]);
                    assert(running[running.len() - 1] == x);
                }
            }
            law_remove_route(k, x.id);
            lemma_seq_push_contains(k, x);
            let sa = stop_actions(d, want);
            assert(stop_actions(running, want) == sa.push(ActionView::Stop(x.id)));
            assert(sa.push(ActionView::Stop(x.id)).drop_last() =~= sa);
            assert(k.push(x).drop_last() =~= k);
            assert(without_id(k.push(x), x.id) == without_id(k, x.id));
        }
    }
}


/// Whether some route of `s` has id `id`.
pub open spec fn has_id(s: Seq<RouteView>, id: i64) -> bool {
    exists|i: int| 0 <= i < s.len() && (#[trigger] s[i]).id == id
}

/// Whether some route of `s` is the route `d`.
pub open spec fn has_match(s: Seq<RouteView>, d: RouteView) -> bool {
    exists|i: int| 0 <= i < s.len() && (#[trigger] s[i]).id == d.id && same_route(s[i], d)
}

/// The running configurations after handling the wanted route `d`.
pub open spec fn after_want(running: Seq<RouteView>, s: Seq<RouteView>, d: RouteView) -> Seq<RouteView> {
    match lookup(running, d.id) {
        None => s.push(d),
        Some(o) => match change_for(o, d) {
            Some(a) => apply_action(s, a),
            None => s,
        },
    }
}

/// What holds once the first `k` wanted routes have been handled.
pub open spec fn want_inv(running: Seq<RouteView>, want: Seq<RouteView>, s: Seq<RouteView>, k: int) -> bool {
    &&& distinct_ids(s)
    &&& forall|i: int| 0 <= i < s.len() ==> has_id(want, (#[trigger] s[i]).id)
    &&& forall|j: int| 0 <= j < k ==> has_match(s, #[trigger] want[j])
    &&& forall|j: int, i: int|
        k <= j < want.len() && 0 <= i < s.len() && (#[trigger] s[i]).id == (#[trigger] want[j]).id
            ==> lookup(running, want[j].id) == Some(s[i])
    &&& forall|j: int|
        k <= j < want.len() ==> (lookup(running, (#[trigger] want[j]).id) is Some <==> has_id(
            s,
            want[j].id,
        ))
}

proof fn lemma_want_actions_step(running: Seq<RouteView>, base: Seq<RouteView>, want: Seq<RouteView>, k: int)
    requires
        0 <= k < want.len(),
    ensures
        apply_plan(base, want_actions(running, want.subrange(0, k + 1))) == after_want(
            running,
            apply_plan(base, want_actions(running, want.subrange(0, k))),
            want[k],
        ),
{
    let w1 = want.subrange(0, k + 1);
    assert(w1.drop_last() =~= want.subrange(0, k));
    assert(w1.last() == want[k]);
    let rest = want_actions(running, want.subrange(0, k));
    let d = want[k];
    match lookup(running, d.id) {
        None => {
            assert(rest.push(ActionView::Start(d)).drop_last() =~= rest);
        },
        Some(o) => match change_for(o, d) {
            Some(a) => {
                assert(rest.push(a).drop_last() =~= rest);
            },
            None => {},
        },
    }
}

proof fn lemma_want_inv_base(running: Seq<RouteView>, want: Seq<RouteView>)
    requires
        distinct_ids(running),
    ensures
        want_inv(running, want, keep(running, want), 0),
{
    let kp = keep(running, want);
    lemma_keep(running, want);
    assert forall|i: int| 0 <= i < kp.len() implies has_id(want, (#[trigger] kp[i]).id) by {
        assert(kp.contains(kp[i]));
        assert(!no_id(want, kp[i].id));
        let j = choose|j: int| 0 <= j < want.len() && want[j].id == kp[i].id;
        assert(want[j].id == kp[i].id);
    }
    assert forall|j: int, i: int|
        0 <= j < want.len() && 0 <= i < kp.len() && (#[trigger] kp[i]).id == (#[trigger] want[j]).id
        implies lookup(running, want[j].id) == Some(kp[i]) by {
        assert(kp.contains(kp[i]));
        assert(running.contains(kp[i]));
        let r = choose|r: int| 0 <= r < running.len() && running[r] == kp[i];
        lemma_lookup(running, want[j].id);
    }
    assert forall|j: int|
        0 <= j < want.len() implies (lookup(running, (#[trigger] want[j]).id) is Some <==> has_id(
            kp,
            want[j].id,
        )) by {
        let id = want[j].id;
        lemma_lookup(running, id);
        if lookup(running, id) is Some {
            let o = lookup(running, id)->0;
            assert(!no_id(want, o.id));
            assert(kp.contains(o));
            let i = choose|i: int| 0 <= i < kp.len() && kp[i] == o;
            assert(kp[i].id == id);
        }
        if has_id(kp, id) {
            let i = choose|i: int| 0 <= i < kp.len() && (#[trigger] kp[i]).id == id;
            assert(kp.contains(kp[i]));
            let r = choose|r: int| 0 <= r < running.len() && running[r] == kp[i];
        }
    }
}

proof fn lemma_want_inv_step(running: Seq<RouteView>, want: Seq<RouteView>, s: Seq<RouteView>, k: int)
    requires
        distinct_ids(running),
        distinct_ids(want),
        0 <= k < want.len(),
        want_inv(running, want, s, k),
    ensures
        want_inv(running, want, after_want(running, s, want[k]), k + 1),
{
    let d = want[k];
    let t = after_want(running, s, d);
    assert(has_id(want, d.id)) by {
        assert(want[k].id == d.id);
    }
    match lookup(running, d.id) {
        None => {
            assert(!has_id(s, d.id));
            assert(t == s.push(d));
            assert forall|i: int| 0 <= i < s.len() implies t[i] == s[i] by {}
            assert(t[s.len() as int] == d);
            assert forall|i: int| 0 <= i < t.len() implies has_id(want, (#[trigger] t[i]).id) by {
                if i < s.len() {
                    assert(has_id(want, s[i].id));
                }
            }
            assert forall|j: int| 0 <= j < k + 1 implies has_match(t, #[trigger] want[j]) by {
                if j < k {
                    assert(has_match(s, want[j]));
                    let i = choose|i: int| 0 <= i < s.len() && (#[trigger] s[i]).id == want[j].id && same_route(s[i], want[j]);
                    assert(t[i] == s[i]);
                } else {
                    assert(t[s.len() as int] == want[j]);
                }
            }
            assert forall|j: int, i: int|
                k + 1 <= j < want.len() && 0 <= i < t.len() && (#[trigger] t[i]).id == (#[trigger] want[j]).id
                implies lookup(running, want[j].id) == Some(t[i]) by {
                if i == s.len() {
                    assert(want[k].id != want[j].id);
                } else {
                    assert(t[i] == s[i]);
                    assert(s[i].id == want[j].id);
                }
            }
            assert forall|j: int|
                k + 1 <= j < want.len() implies (lookup(running, (#[trigger] want[j]).id) is Some
                    <==> has_id(t, want[j].id)) by {
                assert(want[k].id != want[j].id);
                if has_id(t, want[j].id) {
                    let i = choose|i: int| 0 <= i < t.len() && (#[trigger] t[i]).id == want[j].id;
                    if i < s.len() {
                        assert(s[i].id == want[j].id);
                    }
                }
                if has_id(s, want[j].id) {
                    let i = choose|i: int| 0 <= i < s.len() && (#[trigger] s[i]).id == want[j].id;
                    assert(t[i] == s[i]);
                }
            }
        },
        Some(o) => {
            assert(has_id(s, d.id));
            let i0 = choose|i: int| 0 <= i < s.len() && (#[trigger] s[i]).id == d.id;
            assert(s[i0].id == want[k].id);
            assert(lookup(running, want[k].id) == Some(s[i0]));
            assert(s[i0] == o);
            // the new state keeps every id and position; only position i0 may change
            assert(t.len() == s.len());
            assert forall|i: int| 0 <= i < s.len() implies (#[trigger] t[i]).id == s[i].id && (i
                != i0 ==> t[i] == s[i]) by {
                if i != i0 {
                    assert(s[i].id != s[i0].id);
                }
            }
            assert(has_match(t, d)) by {
                match change_for(o, d) {
                    Some(a) => {
                        if let ActionView::Change { id, config, restart_worker, restart_router, update_config } = a {
                            if restart_worker || update_config {
                                assert(t[i0] == d);
                            } else {
                                assert(t[i0] == o);
                            }
                        }
                    },
                    None => {
                        assert(t[i0] == o);
                    },
                }
            }
            assert(distinct_ids(t));
            assert forall|i: int| 0 <= i < t.len() implies has_id(want, (#[trigger] t[i]).id) by {
                assert(has_id(want, s[i].id));
            }
            assert forall|j: int| 0 <= j < k + 1 implies has_match(t, #[trigger] want[j]) by {
                if j < k {
                    assert(has_match(s, want[j]));
                    let i = choose|i: int| 0 <= i < s.len() && (#[trigger] s[i]).id == want[j].id && same_route(s[i], want[j]);
                    assert(want[k].id != want[j].id);
                    assert(t[i] == s[i]);
                }
            }
            assert forall|j: int, i: int|
                k + 1 <= j < want.len() && 0 <= i < t.len() && (#[trigger] t[i]).id == (#[trigger] want[j]).id
                implies lookup(running, want[j].id) == Some(t[i]) by {
                assert(want[k].id != want[j].id);
                assert(t[i] == s[i]);
            }
            assert forall|j: int|
                k + 1 <= j < want.len() implies (lookup(running, (#[trigger] want[j]).id) is Some
                    <==> has_id(t, want[j].id)) by {
                if has_id(t, want[j].id) {
                    let i = choose|i: int| 0 <= i < t.len() && (#[trigger] t[i]).id == want[j].id;
                    assert(s[i].id == want[j].id);
                }
                if has_id(s, want[j].id) {
                    let i = choose|i: int| 0 <= i < s.len() && (#[trigger] s[i]).id == want[j].id;
                    assert(t[i].id == want[j].id);
                }
            }
        },
    }
}


proof fn lemma_want_loop(running: Seq<RouteView>, want: Seq<RouteView>, k: int)
    requires
        distinct_ids(running),
        distinct_ids(want),
        0 <= k <= want.len(),
    ensures
        want_inv(
            running,
            want,
            apply_plan(keep(running, want), want_actions(running, want.subrange(0, k))),
            k,
        ),
    decreases k,
{
    if k == 0 {
        assert(want.subrange(0, 0) =~= Seq::<RouteView>::empty());
        lemma_want_inv_base(running, want);
    } else {
        lemma_want_loop(running, want, k - 1);
        lemma_want_actions_step(running, keep(running, want), want, k - 1);
        lemma_want_inv_step(
            running,
            want,
            apply_plan(keep(running, want), want_actions(running, want.subrange(0, k - 1))),
            k - 1,
        );
    }
}

/// After a reload, the routes run exactly as the database says: whatever
/// ran before (one configuration per id), carrying out the reload plan
/// leaves one running route per id among the loaded rows, each equal to
/// the normalized last row with that id, and nothing else running.
pub proof fn law_reload_runs_desired(running: Seq<RouteView>, loaded: Seq<RouteView>)
    requires
        distinct_ids(running),
    ensures
        runs_as(apply_plan(running, reload_plan(running, loaded)), desired(loaded)),
{
    let want = desired(loaded);
    lemma_desired_distinct(loaded);
    lemma_apply_plan_concat(running, stop_actions(running, want), want_actions(running, want));
    lemma_apply_stops(running, want);
    lemma_want_loop(running, want, want.len() as int);
    assert(want.subrange(0, want.len() as int) =~= want);
    let t = apply_plan(running, reload_plan(running, loaded));
    assert forall|j: int| 0 <= j < want.len() implies exists|i: int|
        0 <= i < t.len() && t[i].id == (#[trigger] want[j]).id && same_route(t[i], want[j]) by {
        assert(has_match(t, want[j]));
    }
    assert forall|i: int| 0 <= i < t.len() implies exists|j: int|
        0 <= j < want.len() && want[j].id == (#[trigger] t[i]).id by {
        assert(has_id(want, t[i].id));
    }
}

proof fn lemma_no_stops(running: Seq<RouteView>, want: Seq<RouteView>)
    requires
        forall|i: int| 0 <= i < running.len() ==> has_id(want, (#[trigger] running[i]).id),
    ensures
        stop_actions(running, want) == Seq::<ActionView>::empty(),
    decreases running.len(),
{
    if running.len() > 0 {
        let d = running.drop_last();
        assert forall|i: int| 0 <= i < d.len() implies has_id(want, (#[trigger] d[i]).id) by {
            assert(d[i] == running[i]);
        }
        lemma_no_stops(d, want);
        assert(has_id(want, running[running.len() - 1].id));
        let j = choose|j: int| 0 <= j < want.len() && (#[trigger] want[j]).id == running.last().id;
    }
}

proof fn lemma_no_changes(running: Seq<RouteView>, want: Seq<RouteView>, k: int)
    requires
        runs_as(running, want),
        0 <= k <= want.len(),
    ensures
        want_actions(running, want.subrange(0, k)) == Seq::<ActionView>::empty(),
    decreases k,
{
    if k > 0 {
        lemma_no_changes(running, want, k - 1);
        let w1 = want.subrange(0, k);
        assert(w1.drop_last() =~= want.subrange(0, k - 1));
        assert(w1.last() == want[k - 1]);
        let d = want[k - 1];
        let i = choose|i: int|
            0 <= i < running.len() && running[i].id == (#[trigger] want[k - 1]).id && same_route(
                running[i],
                want[k - 1],
            );
        lemma_lookup(running, d.id);
        assert(lookup(running, d.id) == Some(running[i]));
    }
}

/// Nothing is done when nothing changed: when the routes already run as
/// the database says, the reload plan is empty.
pub proof fn law_reload_settled(running: Seq<RouteView>, loaded: Seq<RouteView>)
    requires
        runs_as(running, desired(loaded)),
    ensures
        reload_plan(running, loaded) == Seq::<ActionView>::empty(),
{
    let want = desired(loaded);
    assert forall|i: int| 0 <= i < running.len() implies has_id(want, (#[trigger] running[i]).id) by {
        let j = choose|j: int| 0 <= j < want.len() && want[j].id == running[i].id;
        assert(want[j].id == running[i].id);
    }
    lemma_no_stops(running, want);
    lemma_no_changes(running, want, want.len() as int);
    assert(want.subrange(0, want.len() as int) =~= want);
    assert(Seq::<ActionView>::empty() + Seq::<ActionView>::empty() =~= Seq::<ActionView>::empty());
}

/// Whether the step restarts the worker of the route with id `id`, giving
/// it the configuration `c`.
pub open spec fn worker_restart(a: ActionView, id: i64, c: RouteView) -> bool {
    match a {
        ActionView::Change { id: i, config, restart_worker, .. } => i == id && config == c
            && restart_worker,
        _ => false,
    }
}

/// Whether the plan restarts the worker of the route with id `id`, giving
/// it the configuration `c`.
pub open spec fn restarts_worker(p: Seq<ActionView>, id: i64, c: RouteView) -> bool {
    exists|k: int| 0 <= k < p.len() && worker_restart(#[trigger] p[k], id, c)
}

proof fn lemma_want_restarts(running: Seq<RouteView>, want: Seq<RouteView>, j: int, m: int)
    requires
        0 <= j < m <= want.len(),
        lookup(running, want[j].id) matches Some(o) && (o.restart_trigger != want[j].restart_trigger
            || o.country_code != want[j].country_code),
    ensures
        restarts_worker(want_actions(running, want.subrange(0, m)), want[j].id, want[j]),
    decreases m,
{
    let w = want.subrange(0, m);
    assert(w.drop_last() =~= want.subrange(0, m - 1));
    assert(w.last() == want[m - 1]);
    let rest = want_actions(running, want.subrange(0, m - 1));
    let all = want_actions(running, w);
    if m - 1 == j {
        let o = lookup(running, want[j].id)->0;
        let a = change_for(o, want[j])->0;
        assert(all == rest.push(a));
        assert(all[rest.len() as int] == a);
    } else {
        lemma_want_restarts(running, want, j, m - 1);
        let k = choose|k: int| 0 <= k < rest.len() && worker_restart(#[trigger] rest[k], want[j].id, want[j]);
        assert(all.len() >= rest.len());
        assert(all[k] == rest[k]);
    }
}

/// A restart request is carried out: when a route the database wants runs
/// with another restart marker, or another exit country, the reload
/// restarts its worker with the wanted configuration.
pub proof fn law_marker_restarts_worker(running: Seq<RouteView>, loaded: Seq<RouteView>, j: int)
    requires
        0 <= j < desired(loaded).len(),
        lookup(running, desired(loaded)[j].id) matches Some(o) && (o.restart_trigger
            != desired(loaded)[j].restart_trigger || o.country_code
            != desired(loaded)[j].country_code),
    ensures
        restarts_worker(reload_plan(running, loaded), desired(loaded)[j].id, desired(loaded)[j]),
{
    let want = desired(loaded);
    lemma_want_restarts(running, want, j, want.len() as int);
    assert(want.subrange(0, want.len() as int) =~= want);
    let stops = stop_actions(running, want);
    let acts = want_actions(running, want);
    let k = choose|k: int| 0 <= k < acts.len() && worker_restart(#[trigger] acts[k], want[j].id, want[j]);
    assert((stops + acts)[stops.len() + k] == acts[k]);
}

/// Whether the step restarts the listener of the route with id `id`.
pub open spec fn listener_restart(a: ActionView, id: i64) -> bool {
    match a {
        ActionView::Change { id: i, restart_router, .. } => i == id && restart_router,
        _ => false,
    }
}

/// Whether the plan restarts the listener of the route with id `id`.
pub open spec fn restarts_listener(p: Seq<ActionView>, id: i64) -> bool {
    exists|k: int| 0 <= k < p.len() && listener_restart(#[trigger] p[k], id)
}

/// Whether a route running as `o` listens elsewhere than `d` asks.
pub open spec fn address_moved(o: RouteView, d: RouteView) -> bool {
    o.bind_address != d.bind_address || o.input_port != d.input_port
}

proof fn lemma_stops_only_stop(running: Seq<RouteView>, want: Seq<RouteView>, k: int)
    requires
        0 <= k < stop_actions(running, want).len(),
    ensures
        stop_actions(running, want)[k] is Stop,
    decreases running.len(),
{
    let rest = stop_actions(running.drop_last(), want);
    if k < rest.len() {
        lemma_stops_only_stop(running.drop_last(), want, k);
        if no_id(want, running.last().id) {
            assert(stop_actions(running, want)[k] == rest[k]);
        }
    }
}

proof fn lemma_listener_origin(running: Seq<RouteView>, want: Seq<RouteView>, m: int, k: int, id: i64)
    requires
        0 <= m <= want.len(),
        0 <= k < want_actions(running, want.subrange(0, m)).len(),
        listener_restart(want_actions(running, want.subrange(0, m))[k], id),
    ensures
        exists|i: int|
            0 <= i < m && #[trigger] want[i].id == id && lookup(running, id) is Some
                && address_moved(lookup(running, id)->0, want[i]),
    decreases m,
{
    let w = want.subrange(0, m);
    assert(w.drop_last() =~= want.subrange(0, m - 1));
    assert(w.last() == want[m - 1]);
    let rest = want_actions(running, want.subrange(0, m - 1));
    let acts = want_actions(running, w);
    if k < rest.len() {
        assert(acts[k] == rest[k]);
        lemma_listener_origin(running, want, m - 1, k, id);
        let i = choose|i: int|
            0 <= i < m - 1 && #[trigger] want[i].id == id && lookup(running, id) is Some
                && address_moved(lookup(running, id)->0, want[i]);
        assert(want[i].id == id);
    } else {
        let d = want[m - 1];
        assert(d.id == id);
    }
}

proof fn lemma_listener_present(running: Seq<RouteView>, want: Seq<RouteView>, j: int, m: int)
    requires
        0 <= j < m <= want.len(),
        lookup(running, want[j].id) is Some,
        address_moved(lookup(running, want[j].id)->0, want[j]),
    ensures
        restarts_listener(want_actions(running, want.subrange(0, m)), want[j].id),
    decreases m,
{
    let w = want.subrange(0, m);
    assert(w.drop_last() =~= want.subrange(0, m - 1));
    assert(w.last() == want[m - 1]);
    let rest = want_actions(running, want.subrange(0, m - 1));
    let all = want_actions(running, w);
    if m - 1 == j {
        let o = lookup(running, want[j].id)->0;
        let a = change_for(o, want[j])->0;
        assert(all == rest.push(a));
        assert(all[rest.len() as int] == a);
    } else {
        lemma_listener_present(running, want, j, m - 1);
        let k = choose|k: int| 0 <= k < rest.len() && listener_restart(#[trigger] rest[k], want[j].id);
        assert(all[k] == rest[k]);
    }
}

/// A wanted route that already runs has its listener restarted by the
/// reload exactly when it is to listen on another bind address or port:
/// then the plan restarts its listener, and otherwise no step of the plan
/// does.
pub proof fn law_listener_restarts(running: Seq<RouteView>, loaded: Seq<RouteView>, j: int)
    requires
        0 <= j < desired(loaded).len(),
        lookup(running, desired(loaded)[j].id) is Some,
    ensures
        restarts_listener(reload_plan(running, loaded), desired(loaded)[j].id) <==> (lookup(
            running,
            desired(loaded)[j].id,
        )->0.bind_address != desired(loaded)[j].bind_address || lookup(
            running,
            desired(loaded)[j].id,
        )->0.input_port != desired(loaded)[j].input_port),
{
    let want = desired(loaded);
    let id = want[j].id;
    let o = lookup(running, id)->0;
    let stops = stop_actions(running, want);
    let acts = want_actions(running, want);
    let plan = reload_plan(running, loaded);
    assert(want.subrange(0, want.len() as int) =~= want);
    if address_moved(o, want[j]) {
        lemma_listener_present(running, want, j, want.len() as int);
        let k = choose|k: int| 0 <= k < acts.len() && listener_restart(#[trigger] acts[k], id);
        assert(plan[stops.len() + k] == acts[k]);
    }
    if restarts_listener(plan, id) {
        let k = choose|k: int| 0 <= k < plan.len() && listener_restart(#[trigger] plan[k], id);
        if k < stops.len() {
            lemma_stops_only_stop(running, want, k);
            assert(plan[k] == stops[k]);
        } else {
            assert(plan[k] == acts[k - stops.len()]);
            lemma_listener_origin(running, want, want.len() as int, k - stops.len(), id);
            lemma_desired_distinct(loaded);
            let i = choose|i: int|
                0 <= i < want.len() && #[trigger] want[i].id == id && lookup(running, id) is Some
                    && address_moved(lookup(running, id)->0, want[i]);
            assert(i == j);
        }
    }
}

/// The id of the route a step is about.
pub open spec fn step_id(a: ActionView) -> i64 {
    match a {
        ActionView::Stop(i) => i,
        ActionView::Start(c) => c.id,
        ActionView::Change { id, .. } => id,
    }
}

proof fn lemma_stop_unwanted(running: Seq<RouteView>, want: Seq<RouteView>, k: int)
    requires
        0 <= k < stop_actions(running, want).len(),
    ensures
        stop_actions(running, want)[k] is Stop,
        no_id(want, step_id(stop_actions(running, want)[k])),
    decreases running.len(),
{
    let rest = stop_actions(running.drop_last(), want);
    if k < rest.len() {
        lemma_stop_unwanted(running.drop_last(), want, k);
        if no_id(want, running.last().id) {
            assert(stop_actions(running, want)[k] == rest[k]);
        }
    }
}

proof fn lemma_want_origin(running: Seq<RouteView>, want: Seq<RouteView>, m: int, k: int)
    requires
        0 <= m <= want.len(),
        0 <= k < want_actions(running, want.subrange(0, m)).len(),
    ensures
        exists|i: int|
            0 <= i < m && #[trigger] want[i].id == step_id(
                want_actions(running, want.subrange(0, m))[k],
            ) && match lookup(running, want[i].id) {
                None => want_actions(running, want.subrange(0, m))[k] == ActionView::Start(
                    want[i],
                ),
                Some(o) => change_for(o, want[i]) == Some(
                    want_actions(running, want.subrange(0, m))[k],
                ),
            },
    decreases m,
{
    let w = want.subrange(0, m);
    assert(w.drop_last() =~= want.subrange(0, m - 1));
    assert(w.last() == want[m - 1]);
    let rest = want_actions(running, want.subrange(0, m - 1));
    let acts = want_actions(running, w);
    if k < rest.len() {
        assert(acts[k] == rest[k]);
        lemma_want_origin(running, want, m - 1, k);
        let i = choose|i: int|
            0 <= i < m - 1 && #[trigger] want[i].id == step_id(rest[k]) && match lookup(
                running,
                want[i].id,
            ) {
                None => rest[k] == ActionView::Start(want[i]),
                Some(o) => change_for(o, want[i]) == Some(rest[k]),
            };
        assert(want[i].id == step_id(acts[k]));
    } else {
        let d = want[m - 1];
        assert(d.id == step_id(acts[k]));
    }
}

proof fn lemma_change_present(running: Seq<RouteView>, want: Seq<RouteView>, j: int, m: int)
    requires
        0 <= j < m <= want.len(),
        lookup(running, want[j].id) is Some,
        change_for(lookup(running, want[j].id)->0, want[j]) is Some,
    ensures
        exists|k: int|
            0 <= k < want_actions(running, want.subrange(0, m)).len() && #[trigger] want_actions(
                running,
                want.subrange(0, m),
            )[k] == change_for(lookup(running, want[j].id)->0, want[j])->0,
    decreases m,
{
    let w = want.subrange(0, m);
    assert(w.drop_last() =~= want.subrange(0, m - 1));
    assert(w.last() == want[m - 1]);
    let rest = want_actions(running, want.subrange(0, m - 1));
    let all = want_actions(running, w);
    let a = change_for(lookup(running, want[j].id)->0, want[j])->0;
    if m - 1 == j {
        assert(all == rest.push(a));
        assert(all[rest.len() as int] == a);
    } else {
        lemma_change_present(running, want, j, m - 1);
        let k = choose|k: int| 0 <= k < rest.len() && #[trigger] rest[k] == a;
        assert(all[k] == rest[k]);
    }
}

/// What a reload does with a wanted route that already runs: it is neither
/// stopped nor started again; when its exit country, restart marker, bind
/// address, port or any other setting changed, the plan holds one change
/// for it, with the wanted configuration, that restarts its worker exactly
/// when the country or the marker changed, restarts its listener exactly
/// when the bind address or the port changed, and otherwise replaces its
/// configuration in place; when nothing changed, no step is about it.
pub proof fn law_running_route_steps(running: Seq<RouteView>, loaded: Seq<RouteView>, j: int)
    requires
        0 <= j < desired(loaded).len(),
        lookup(running, desired(loaded)[j].id) is Some,
    ensures
        ({
            let d = desired(loaded)[j];
            let o = lookup(running, d.id)->0;
            let p = reload_plan(running, loaded);
            let worker = o.country_code != d.country_code || o.restart_trigger != d.restart_trigger;
            let listener = o.bind_address != d.bind_address || o.input_port != d.input_port;
            &&& forall|k: int|
                0 <= k < p.len() && step_id(#[trigger] p[k]) == d.id ==> p[k] == ActionView::Change {
                    id: d.id,
                    config: d,
                    restart_worker: worker,
                    restart_router: listener,
                    update_config: !worker && !same_route(o, d),
                }
            &&& (worker || listener || !same_route(o, d)) <==> exists|k: int|
                0 <= k < p.len() && step_id(#[trigger] p[k]) == d.id
        }),
{
    let want = desired(loaded);
    let d = want[j];
    let o = lookup(running, d.id)->0;
    let stops = stop_actions(running, want);
    let acts = want_actions(running, want);
    let p = reload_plan(running, loaded);
    lemma_desired_distinct(loaded);
    assert(want.subrange(0, want.len() as int) =~= want);
    assert forall|k: int| 0 <= k < p.len() && step_id(#[trigger] p[k]) == d.id implies p[k]
        == change_for(o, d)->0 && change_for(o, d) is Some by {
        if k < stops.len() {
            lemma_stop_unwanted(running, want, k);
            assert(p[k] == stops[k]);
            assert(want[j].id != step_id(stops[k]));
        } else {
            assert(p[k] == acts[k - stops.len()]);
            lemma_want_origin(running, want, want.len() as int, k - stops.len());
            let i = choose|i: int|
                0 <= i < want.len() && #[trigger] want[i].id == step_id(acts[k - stops.len()])
                    && match lookup(running, want[i].id) {
                    None => acts[k - stops.len()] == ActionView::Start(want[i]),
                    Some(o2) => change_for(o2, want[i]) == Some(acts[k - stops.len()]),
                };
            assert(i == j);
        }
    }
    if change_for(o, d) is Some {
        lemma_change_present(running, want, j, want.len() as int);
        let k = choose|k: int| 0 <= k < acts.len() && #[trigger] acts[k] == change_for(o, d)->0;
        assert(p[stops.len() + k] == acts[k]);
        assert(step_id(p[stops.len() + k]) == d.id);
    }
}

} // verus!
