//! The SOCKS5 greeting and username/password exchange (RFC 1928 and
//! RFC 1929) that a route's listener performs with each client, and the
//! greeting it sends to its Tor instance.
//!
//! The exchange is a state machine: each step takes the bytes that the
//! previous step asked for, and says what to reply and what to read next.

use vstd::prelude::*;
use crate::text::{from_utf8_lossy, lossy_utf8, str_eq, string_of};

verus! {

/// Where the server is in the exchange, with what it has read so far.
pub enum Socks5State {
    /// Waiting for the version and the number of methods.
    Greeting,
    /// Waiting for the `count` method bytes.
    Methods { count: u8 },
    /// Waiting for the sub-negotiation version and the username length.
    AuthHeader,
    /// Waiting for the `len` username bytes.
    Username { len: u8 },
    /// Waiting for the password length.
    PasswordLength { username: Vec<u8> },
    /// Waiting for the `len` password bytes.
    Password { username: Vec<u8>, len: u8 },
    /// The exchange is over.
    Done,
}

/// The exchange state as a value.
pub enum Socks5StateView {
    Greeting,
    Methods { count: u8 },
    AuthHeader,
    Username { len: u8 },
    PasswordLength { username: Seq<u8> },
    Password { username: Seq<u8>, len: u8 },
    Done,
}

impl View for Socks5State {
    type V = Socks5StateView;

    open spec fn view(&self) -> Socks5StateView {
        match self {
            Socks5State::Greeting => Socks5StateView::Greeting,
            Socks5State::Methods { count } => Socks5StateView::Methods { count: *count },
            Socks5State::AuthHeader => Socks5StateView::AuthHeader,
            Socks5State::Username { len } => Socks5StateView::Username { len: *len },
            Socks5State::PasswordLength { username } => Socks5StateView::PasswordLength {
                username: username@,
            },
            Socks5State::Password { username, len } => Socks5StateView::Password {
                username: username@,
                len: *len,
            },
            Socks5State::Done => Socks5StateView::Done,
        }
    }
}

/// What to do after a reply has been sent.
#[derive(PartialEq, Eq, Structural)]
pub enum Next {
    /// Read exactly this many bytes and hand them to the next step; a
    /// failed read ends the exchange unsuccessfully.
    Read(usize),
    /// End the exchange: `true` when the client is let through.
    Finish(bool),
}

/// One step of the exchange: the new state, the bytes to send back (none
/// when empty; a failed send ends the exchange unsuccessfully) and what
/// comes next.
pub struct Socks5Step {
    pub state: Socks5State,
    pub reply: Vec<u8>,
    pub next: Next,
}

/// The credentials a route requires; both empty means none are required.
pub struct Socks5Auth {
    pub expected_user: String,
    pub expected_pass: String,
}

/// Whether credentials are required.
pub open spec fn requires_auth(user: Seq<char>, pass: Seq<char>) -> bool {
    user.len() > 0 || pass.len() > 0
}

/// The number of bytes a state waits for.
pub open spec fn wanted(st: Socks5StateView) -> nat {
    match st {
        Socks5StateView::Greeting => 2,
        Socks5StateView::Methods { count } => count as nat,
        Socks5StateView::AuthHeader => 2,
        Socks5StateView::Username { len } => len as nat,
        Socks5StateView::PasswordLength { .. } => 1,
        Socks5StateView::Password { len, .. } => len as nat,
        Socks5StateView::Done => 0,
    }
}

/// One step of the exchange, as a value: from the state `st` and the bytes
/// `input` it asked for, the next state, the reply and what comes next.
///
/// A greeting must name version 5. Without required credentials the
/// client must offer method 0 (no authentication) and is let through;
/// with them it must offer method 2 (username/password), then send
/// sub-negotiation version 1, the username and the password, and is let
/// through when both, read as UTF-8 with invalid bytes replaced, equal the
/// required ones. An offer without the needed method is answered `05 FF`.
pub open spec fn step_spec(user: Seq<char>, pass: Seq<char>, st: Socks5StateView, input: Seq<u8>) -> (
    Socks5StateView,
    Seq<u8>,
    Next,
) {
    match st {
        Socks5StateView::Greeting => if input[0] != 5 {
            (Socks5StateView::Done, Seq::empty(), Next::Finish(false))
        } else {
            (Socks5StateView::Methods { count: input[1] }, Seq::empty(), Next::Read(input[1] as usize))
        },
        Socks5StateView::Methods { .. } => if requires_auth(user, pass) {
            if !input.contains(2) {
                (Socks5StateView::Done, seq![5u8, 0xFFu8], Next::Finish(false))
            } else {
                (Socks5StateView::AuthHeader, seq![5u8, 2u8], Next::Read(2))
            }
        } else {
            if !input.contains(0) {
                (Socks5StateView::Done, seq![5u8, 0xFFu8], Next::Finish(false))
            } else {
                (Socks5StateView::Done, seq![5u8, 0u8], Next::Finish(true))
            }
        },
        Socks5StateView::AuthHeader => if input[0] != 1 {
            (Socks5StateView::Done, Seq::empty(), Next::Finish(false))
        } else {
            (Socks5StateView::Username { len: input[1] }, Seq::empty(), Next::Read(input[1] as usize))
        },
        Socks5StateView::Username { .. } => (
            Socks5StateView::PasswordLength { username: input },
            Seq::empty(),
            Next::Read(1),
        ),
        Socks5StateView::PasswordLength { username } => (
            Socks5StateView::Password { username: username, len: input[0] },
            Seq::empty(),
            Next::Read(input[0] as usize),
        ),
        Socks5StateView::Password { username, .. } => if lossy_utf8(username) == user && lossy_utf8(
            input,
        ) == pass {
            (Socks5StateView::Done, seq![1u8, 0u8], Next::Finish(true))
        } else {
            (Socks5StateView::Done, seq![1u8, 1u8], Next::Finish(false))
        },
        Socks5StateView::Done => (Socks5StateView::Done, Seq::empty(), Next::Finish(false)),
    }
}

fn contains_byte(v: &[u8], b: u8) -> (r: bool)
    ensures
        r == v@.contains(b),
{
    let mut i: usize = 0;
    while i < v.len()
        invariant
            i <= v.len(),
            forall|k: int| 0 <= k < i ==> v@[k] != b,
        decreases v.len() - i,
    {
        if v[i] == b {
            assert(v@[i as int] == b);
            return true;
        }
        i = i + 1;
    }
    false
}

fn copy_bytes(v: &[u8]) -> (r: Vec<u8>)
    ensures
        r@ == v@,
{
    let mut r: Vec<u8> = Vec::new();
    let mut i: usize = 0;
    while i < v.len()
        invariant
            i <= v.len(),
            r@ == v@.subrange(0, i as int),
        decreases v.len() - i,
    {
        r.push(v[i]);
        proof {
            assert(v@.subrange(0, i + 1) =~= v@.subrange(0, i as int).push(v@[i as int]));
        }
        i = i + 1;
    }
    proof {
        assert(v@.subrange(0, v.len() as int) =~= v@);
    }
    r
}

fn pair(a: u8, b: u8) -> (r: Vec<u8>)
    ensures
        r@ == seq![a, b],
{
    let mut r: Vec<u8> = Vec::new();
    r.push(a);
    r.push(b);
    proof {
        assert(r@ =~= seq![a, b]);
    }
    r
}

impl Socks5Auth {
    /// The exchange for a route with these credentials.
    pub fn new(user: &str, pass: &str) -> (r: Socks5Auth)
        ensures
            r.expected_user@ == user@,
            r.expected_pass@ == pass@,
    {
        Socks5Auth { expected_user: string_of(user), expected_pass: string_of(pass) }
    }

    /// Whether this route requires credentials.
    pub fn require_auth(&self) -> (r: bool)
        ensures
            r == requires_auth(self.expected_user@, self.expected_pass@),
    {
        let u = crate::text::chars_of(self.expected_user.as_str());
        let p = crate::text::chars_of(self.expected_pass.as_str());
        u.len() > 0 || p.len() > 0
    }

    /// Where every exchange starts: waiting for the two greeting bytes.
    pub fn start() -> (r: (Socks5State, Next))
        ensures
            r.0@ == Socks5StateView::Greeting,
            r.1 == Next::Read(2),
    {
        (Socks5State::Greeting, Next::Read(2))
    }

    /// One step of the exchange, given the bytes the state waits for.
    pub fn step(&self, st: Socks5State, input: &[u8]) -> (r: Socks5Step)
        requires
            input@.len() == wanted(st@),
        ensures
            r.state@ == step_spec(self.expected_user@, self.expected_pass@, st@, input@).0,
            r.reply@ == step_spec(self.expected_user@, self.expected_pass@, st@, input@).1,
            r.next == step_spec(self.expected_user@, self.expected_pass@, st@, input@).2,
            r.next matches Next::Read(n) ==> n == wanted(r.state@),
    {
        match st {
            Socks5State::Greeting => {
                if input[0] != 5 {
                    Socks5Step { state: Socks5State::Done, reply: Vec::new(), next: Next::Finish(false) }
                } else {
                    Socks5Step {
                        state: Socks5State::Methods { count: input[1] },
                        reply: Vec::new(),
                        next: Next::Read(input[1] as usize),
                    }
                }
            },
            Socks5State::Methods { .. } => {
                if self.require_auth() {
                    if !contains_byte(input, 2) {
                        Socks5Step {
                            state: Socks5State::Done,
                            reply: pair(5u8, 0xFFu8),
                            next: Next::Finish(false),
                        }
                    } else {
                        Socks5Step {
                            state: Socks5State::AuthHeader,
                            reply: pair(5u8, 2u8),
                            next: Next::Read(2),
                        }
                    }
                } else {
                    if !contains_byte(input, 0) {
                        Socks5Step {
                            state: Socks5State::Done,
                            reply: pair(5u8, 0xFFu8),
                            next: Next::Finish(false),
                        }
                    } else {
                        Socks5Step {
                            state: Socks5State::Done,
                            reply: pair(5u8, 0u8),
                            next: Next::Finish(true),
                        }
                    }
                }
            },
            Socks5State::AuthHeader => {
                if input[0] != 1 {
                    Socks5Step { state: Socks5State::Done, reply: Vec::new(), next: Next::Finish(false) }
                } else {
                    Socks5Step {
                        state: Socks5State::Username { len: input[1] },
                        reply: Vec::new(),
                        next: Next::Read(input[1] as usize),
                    }
                }
            },
            Socks5State::Username { .. } => {
                let name = copy_bytes(input);
                Socks5Step {
                    state: Socks5State::PasswordLength { username: name },
                    reply: Vec::new(),
                    next: Next::Read(1),
                }
            },
            Socks5State::PasswordLength { username } => {
                Socks5Step {
                    state: Socks5State::Password { username, len: input[0] },
                    reply: Vec::new(),
                    next: Next::Read(input[0] as usize),
                }
            },
            Socks5State::Password { username, .. } => {
                let uname = from_utf8_lossy(username.as_slice());
                let pass = from_utf8_lossy(input);
                if str_eq(uname.as_str(), self.expected_user.as_str()) && str_eq(
                    pass.as_str(),
                    self.expected_pass.as_str(),
                ) {
                    Socks5Step {
                        state: Socks5State::Done,
                        reply: pair(1u8, 0u8),
                        next: Next::Finish(true),
                    }
                } else {
                    Socks5Step {
                        state: Socks5State::Done,
                        reply: pair(1u8, 1u8),
                        next: Next::Finish(false),
                    }
                }
            },
            Socks5State::Done => {
                Socks5Step { state: Socks5State::Done, reply: Vec::new(), next: Next::Finish(false) }
            },
        }
    }
}

/// The greeting sent to a Tor instance: version 5, one method, no
/// authentication.
pub fn tor_greeting() -> (r: Vec<u8>)
    ensures
        r@ == seq![5u8, 1u8, 0u8],
{
    let r = vec![5u8, 1u8, 0u8];
    proof {
        assert(r@ =~= seq![5u8, 1u8, 0u8]);
    }
    r
}

/// Whether a Tor instance's two-byte answer to the greeting accepts it.
pub fn tor_reply_accepted(reply: &[u8]) -> (r: bool)
    requires
        reply@.len() == 2,
    ensures
        r == (reply@[0] == 5 && reply@[1] == 0),
{
    reply[0] == 5 && reply[1] == 0
}


/// How many steps a state is from the end of the exchange.
pub open spec fn rank(st: Socks5StateView) -> nat {
    match st {
        Socks5StateView::Greeting => 6,
        Socks5StateView::Methods { .. } => 5,
        Socks5StateView::AuthHeader => 4,
        Socks5StateView::Username { .. } => 3,
        Socks5StateView::PasswordLength { .. } => 2,
        Socks5StateView::Password { .. } => 1,
        Socks5StateView::Done => 0,
    }
}

/// Running the exchange from `st` on a client that sends `stream` and
/// accepts every reply: whether the client is let through, and all the
/// bytes sent back to it.
pub open spec fn run(user: Seq<char>, pass: Seq<char>, st: Socks5StateView, next: Next, stream: Seq<u8>) -> (
    bool,
    Seq<u8>,
)
    decreases rank(st),
{
    match next {
        Next::Finish(b) => (b, Seq::empty()),
        Next::Read(n) => if stream.len() < n || st is Done {
            (false, Seq::empty())
        } else {
            let (st2, reply, next2) = step_spec(user, pass, st, stream.take(n as int));
            if rank(st2) < rank(st) {
                let (b, out) = run(user, pass, st2, next2, stream.skip(n as int));
                (b, reply + out)
            } else {
                (false, reply)
            }
        },
    }
}

/// The username/password sub-negotiation on the bytes `r` that follow the
/// greeting, as one function of those bytes: `05 02` has been sent already.
pub open spec fn auth_outcome(user: Seq<char>, pass: Seq<char>, r: Seq<u8>) -> (bool, Seq<u8>) {
    let chosen = seq![5u8, 2u8];
    if r.len() < 2 || r[0] != 1 {
        (false, chosen)
    } else {
        let ul = r[1] as int;
        if r.len() < 3 + ul {
            (false, chosen)
        } else {
            let pl = r[2 + ul] as int;
            if r.len() < 3 + ul + pl {
                (false, chosen)
            } else {
                let u = r.subrange(2, 2 + ul);
                let p = r.subrange(3 + ul, 3 + ul + pl);
                if lossy_utf8(u) == user && lossy_utf8(p) == pass {
                    (true, chosen + seq![1u8, 0u8])
                } else {
                    (false, chosen + seq![1u8, 1u8])
                }
            }
        }
    }
}

/// The whole server side of the exchange as one function of what the client
/// sends: whether it is let through, and what it is sent back.
pub open spec fn handshake_outcome(user: Seq<char>, pass: Seq<char>, s: Seq<u8>) -> (bool, Seq<u8>) {
    if s.len() < 2 || s[0] != 5 {
        (false, Seq::empty())
    } else {
        let n = s[1] as int;
        if s.len() < 2 + n {
            (false, Seq::empty())
        } else {
            let m = s.subrange(2, 2 + n);
            if !requires_auth(user, pass) {
                if m.contains(0) {
                    (true, seq![5u8, 0u8])
                } else {
                    (false, seq![5u8, 0xFFu8])
                }
            } else if !m.contains(2) {
                (false, seq![5u8, 0xFFu8])
            } else {
                auth_outcome(user, pass, s.skip(2 + n))
            }
        }
    }
}

/// The step machine is the protocol: started at the greeting and fed the
/// client's bytes read by read, it lets the client through exactly when
/// the whole-exchange description does, after sending the same replies.
/// In particular, when credentials are required, no client is let through
/// without sending both of them.
pub proof fn law_handshake_steps(user: Seq<char>, pass: Seq<char>, s: Seq<u8>)
    ensures
        run(user, pass, Socks5StateView::Greeting, Next::Read(2), s) == handshake_outcome(user, pass, s),
{
    reveal_with_fuel(run, 8);
    if s.len() >= 2 && s[0] == 5 {
        let n = s[1] as int;
        let s1 = s.skip(2);
        assert(s.take(2)[0] == s[0] && s.take(2)[1] == s[1]);
        if s1.len() >= n {
            assert(s1.take(n) =~= s.subrange(2, 2 + n));
            let s2 = s1.skip(n);
            assert(s2 =~= s.skip(2 + n));
            if requires_auth(user, pass) && s.subrange(2, 2 + n).contains(2) {
                let r = s2;
                if r.len() >= 2 && r[0] == 1 {
                    assert(r.take(2)[0] == r[0] && r.take(2)[1] == r[1]);
                    let ul = r[1] as int;
                    let r1 = r.skip(2);
                    if r1.len() >= ul {
                        assert(r1.take(ul) =~= r.subrange(2, 2 + ul));
                        let r2 = r1.skip(ul);
                        if r2.len() >= 1 {
                            assert(r2.take(1)[0] == r[2 + ul]);
                            let pl = r[2 + ul] as int;
                            let r3 = r2.skip(1);
                            if r3.len() >= pl {
                                assert(r3.take(pl) =~= r.subrange(3 + ul, 3 + ul + pl));
                                assert(seq![5u8, 2u8] + (seq![1u8, 0u8] + Seq::<u8>::empty()) =~= seq![5u8, 2u8] + seq![1u8, 0u8]);
                                assert(seq![5u8, 2u8] + (seq![1u8, 1u8] + Seq::<u8>::empty()) =~= seq![5u8, 2u8] + seq![1u8, 1u8]);
                            }
                        }
                    }
                }
                assert(Seq::<u8>::empty() + (Seq::<u8>::empty() + (Seq::<u8>::empty() + Seq::<u8>::empty())) =~= Seq::<u8>::empty());
                assert(seq![5u8, 2u8] + Seq::<u8>::empty() =~= seq![5u8, 2u8]);
            }
            assert(seq![5u8, 0u8] + Seq::<u8>::empty() =~= seq![5u8, 0u8]);
            assert(seq![5u8, 0xFFu8] + Seq::<u8>::empty() =~= seq![5u8, 0xFFu8]);
        }
    }
    assert(Seq::<u8>::empty() + Seq::<u8>::empty() =~= Seq::<u8>::empty());
}

} // verus!
