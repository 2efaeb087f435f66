//! Connection establishment policy: the TCP phase is attempted up to a fixed
//! bound with a fixed pause between attempts; the later phases (handshake,
//! authentication, subsystem open) are never retried.
use vstd::prelude::*;

verus! {

/// How many TCP connection attempts one operation may make in total.
pub const MAX_ATTEMPTS: u64 = 3;

/// The fixed pause, in seconds, between two TCP connection attempts.
pub const RETRY_DELAY_SECS: u64 = 2;

/// The retry state of one operation's connection phase: how many TCP attempts
/// have been made so far.
pub struct Retry {
    pub attempts_made: u64,
}

impl Retry {
    /// A fresh connection phase: no attempt made yet.
    pub fn new() -> (r: Retry)
        ensures
            r.attempts_made == 0,
    {
        Retry { attempts_made: 0 }
    }

    /// Records one failed TCP attempt and decides what follows: pause for the
    /// fixed delay and try again while attempts remain, otherwise give up.
    pub fn on_failure(&mut self) -> (r: Option<u64>)
        requires
            old(self).attempts_made < MAX_ATTEMPTS,
        ensures
            final(self).attempts_made == old(self).attempts_made + 1,
            r matches Some(d) ==> d == RETRY_DELAY_SECS && final(self).attempts_made
                < MAX_ATTEMPTS,
            r is None <==> final(self).attempts_made == MAX_ATTEMPTS,
    {
        self.attempts_made = self.attempts_made + 1;
        if self.attempts_made < MAX_ATTEMPTS {
            Some(RETRY_DELAY_SECS)
        } else {
            None
        }
    }
}

/// What one operation's connection phase amounted to: whether TCP connected,
/// how many attempts were made, and the pauses taken between them.
pub struct ConnectTrace {
    pub connected: bool,
    pub attempts: u64,
    pub delays: Vec<u64>,
}

/// Replays the retry policy against a given sequence of TCP attempt outcomes
/// (`true` = that attempt connected). The policy connects exactly when one of
/// the first `MAX_ATTEMPTS` outcomes succeeds; it stops at the first success,
/// and every failed attempt but the last is followed by one fixed pause.
pub fn run_connect(outcomes: &Vec<bool>) -> (r: ConnectTrace)
    requires
        outcomes@.len() >= MAX_ATTEMPTS,
    ensures
        r.connected <==> exists|i: int| 0 <= i < MAX_ATTEMPTS && outcomes@[i],
        r.connected ==> 1 <= r.attempts <= MAX_ATTEMPTS && outcomes@[r.attempts - 1],
        !r.connected ==> r.attempts == MAX_ATTEMPTS,
        forall|i: int| 0 <= i < r.attempts - 1 ==> !outcomes@[i],
        r.delays@ =~= Seq::new((r.attempts - 1) as nat, |j: int| RETRY_DELAY_SECS),
{
    let mut retry = Retry::new();
    let mut delays: Vec<u64> = Vec::new();
    loop
        invariant
            outcomes@.len() >= MAX_ATTEMPTS,
            retry.attempts_made < MAX_ATTEMPTS,
            forall|i: int| 0 <= i < retry.attempts_made ==> !outcomes@[i],
            delays@ =~= Seq::new(retry.attempts_made as nat, |j: int| RETRY_DELAY_SECS),
        decreases MAX_ATTEMPTS - retry.attempts_made,
    {
        let i = retry.attempts_made as usize;
        if outcomes[i] {
            return ConnectTrace { connected: true, attempts: retry.attempts_made + 1, delays };
        }
        match retry.on_failure() {
            Some(d) => {
                delays.push(d);
                proof {
                    assert(delays@ =~= Seq::new(
                        retry.attempts_made as nat,
                        |j: int| RETRY_DELAY_SECS,
                    ));
                }
            },
            None => {
                return ConnectTrace { connected: false, attempts: MAX_ATTEMPTS, delays };
            },
        }
    }
}

/// Normalizes a host for the TCP phase: the default port 22 is appended only
/// when the host names no port of its own (no `:` anywhere in it).
pub fn host_with_port(host: &Vec<char>) -> (r: Vec<char>)
    ensures
        host@.contains(':') ==> r@ == host@,
        !host@.contains(':') ==> r@ == host@ + seq![':', '2', '2'],
{
    let n = host.len();
    let mut has_port = false;
    let mut i: usize = 0;
    while i < n
        invariant
            n == host.len(),
            0 <= i <= n,
            has_port <==> exists|j: int| 0 <= j < i && host@[j] == ':',
        decreases n - i,
    {
        if host[i] == ':' {
            has_port = true;
        }
        i += 1;
    }
    let mut r = host.clone();
    proof {
        assert(r@ =~= host@);
    }
    if has_port {
        r
    } else {
        r.push(':');
        r.push('2');
        r.push('2');
        proof {
            assert(r@ =~= host@ + seq![':', '2', '2']);
        }
        r
    }
}

} // verus!
