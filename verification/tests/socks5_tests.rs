use tor_router::socks5::{tor_greeting, tor_reply_accepted, Next, Socks5Auth};

/// Runs the exchange over a client byte stream; returns the verdict and
/// everything sent back.
fn run(auth: &Socks5Auth, stream: &[u8]) -> (bool, Vec<u8>) {
    let (mut st, mut next) = Socks5Auth::start();
    let mut pos = 0usize;
    let mut out = Vec::new();
    loop {
        match next {
            Next::Finish(b) => return (b, out),
            Next::Read(n) => {
                if stream.len() - pos < n {
                    return (false, out);
                }
                let step = auth.step(st, &stream[pos..pos + n]);
                pos += n;
                out.extend_from_slice(&step.reply);
                st = step.state;
                next = step.next;
            }
        }
    }
}

#[test]
fn no_auth_client_is_let_through() {
    let a = Socks5Auth::new("", "");
    assert!(!a.require_auth());
    assert_eq!(run(&a, &[5, 1, 0]), (true, vec![5, 0]));
}

#[test]
fn no_auth_route_rejects_clients_without_method_zero() {
    let a = Socks5Auth::new("", "");
    assert_eq!(run(&a, &[5, 1, 2]), (false, vec![5, 0xff]));
}

#[test]
fn wrong_version_is_rejected_silently() {
    let a = Socks5Auth::new("", "");
    assert_eq!(run(&a, &[4, 1, 0]), (false, vec![]));
}

#[test]
fn short_stream_fails() {
    let a = Socks5Auth::new("u", "p");
    assert_eq!(run(&a, &[5]), (false, vec![]));
    assert_eq!(run(&a, &[5, 2, 0]), (false, vec![]));
}

#[test]
fn password_auth_succeeds_with_right_credentials() {
    let a = Socks5Auth::new("alice", "pw");
    assert!(a.require_auth());
    let mut s = vec![5, 2, 0, 2, 1, 5];
    s.extend_from_slice(b"alice");
    s.push(2);
    s.extend_from_slice(b"pw");
    assert_eq!(run(&a, &s), (true, vec![5, 2, 1, 0]));
}

#[test]
fn password_auth_fails_with_wrong_password() {
    let a = Socks5Auth::new("alice", "pw");
    let mut s = vec![5, 1, 2, 1, 5];
    s.extend_from_slice(b"alice");
    s.push(2);
    s.extend_from_slice(b"no");
    assert_eq!(run(&a, &s), (false, vec![5, 2, 1, 1]));
}

#[test]
fn auth_route_rejects_clients_without_method_two() {
    let a = Socks5Auth::new("alice", "");
    assert_eq!(run(&a, &[5, 1, 0]), (false, vec![5, 0xff]));
}

#[test]
fn bad_subnegotiation_version_fails() {
    let a = Socks5Auth::new("alice", "pw");
    assert_eq!(run(&a, &[5, 1, 2, 5, 0]), (false, vec![5, 2]));
}

#[test]
fn invalid_utf8_username_is_compared_lossily() {
    let a = Socks5Auth::new("\u{fffd}", "");
    let s = vec![5, 1, 2, 1, 1, 0xff, 0];
    assert_eq!(run(&a, &s), (true, vec![5, 2, 1, 0]));
}

#[test]
fn tor_greeting_and_reply() {
    assert_eq!(tor_greeting(), vec![5, 1, 0]);
    assert!(tor_reply_accepted(&[5, 0]));
    assert!(!tor_reply_accepted(&[5, 1]));
    assert!(!tor_reply_accepted(&[4, 0]));
}
