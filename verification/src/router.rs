//! The backend a route's listener forwards clients to.

use vstd::prelude::*;
use crate::config::RouteConfig;
use crate::text::{opt_view, string_of};

verus! {

/// A Tor instance, by the address of its SOCKS port.
pub struct Backend {
    pub socks: String,
}

impl Backend {
    /// A copy of this backend.
    pub fn copy(&self) -> (r: Backend)
        ensures
            r.socks@ == self.socks@,
    {
        Backend { socks: self.socks.clone() }
    }
}

impl Clone for Backend {
    fn clone(&self) -> (r: Self)
        ensures
            r.socks@ == self.socks@,
    {
        self.copy()
    }
}

/// The view of an optional backend: its address.
pub open spec fn backend_view(b: Option<Backend>) -> Option<Seq<char>> {
    match b {
        Some(x) => Some(x.socks@),
        None => None,
    }
}

/// The instance new clients go to, and the one being retired.
pub struct Slot {
    pub active: Option<Backend>,
    pub draining: Option<Backend>,
}

impl Slot {
    /// A slot with no instance.
    pub fn empty() -> (s: Slot)
        ensures
            s.active is None,
            s.draining is None,
    {
        Slot { active: None, draining: None }
    }

    /// Sends new clients to the instance at `socks`; the one they went to
    /// before is retired.
    pub fn promote(&mut self, socks: String)
        ensures
            backend_view(final(self).active) == Some(socks@),
            backend_view(final(self).draining) == backend_view(old(self).active),
    {
        let prev = match &self.active {
            Some(b) => Some(b.copy()),
            None => None,
        };
        self.draining = prev;
        self.active = Some(Backend { socks });
    }

    /// Forgets both instances, as when a route's worker restarts.
    pub fn clear(&mut self)
        ensures
            final(self).active is None,
            final(self).draining is None,
    {
        self.active = None;
        self.draining = None;
    }

    /// The instance new clients go to.
    pub fn active_backend(&self) -> (r: Option<Backend>)
        ensures
            backend_view(r) == backend_view(self.active),
    {
        match &self.active {
            Some(b) => Some(b.copy()),
            None => None,
        }
    }
}

/// The credentials a route's listener requires: empty when not set.
pub fn listener_credentials(r: &RouteConfig) -> (c: (String, String))
    ensures
        c.0@ == match opt_view(r.username) {
            Some(u) => u,
            None => Seq::empty(),
        },
        c.1@ == match opt_view(r.password) {
            Some(p) => p,
            None => Seq::empty(),
        },
{
    proof {
        reveal_strlit("");
    }
    let u = match &r.username {
        Some(u) => u.clone(),
        None => string_of(""),
    };
    let p = match &r.password {
        Some(p) => p.clone(),
        None => string_of(""),
    };
    (u, p)
}

} // verus!
