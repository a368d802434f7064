//! A server's start and stop decisions: whether a start launches the serving
//! thread, whether serving goes on, and the state that each event leaves.

use vstd::prelude::*;

use crate::text::{decimal, decimal_digits};

verus! {

broadcast use vstd::string::group_string_axioms;

/// `host:port`, the text a socket address is read from.
pub open spec fn address_text(host: Seq<char>, port: u16) -> Seq<char> {
    host.push(':') + decimal(port as nat)
}

/// Writes `host:port`.
pub fn address(host: &str, port: u16) -> (a: String)
    ensures
        a@ == address_text(host@, port),
{
    let mut a = host.to_owned();
    a.push(':');
    let digits = decimal_digits(port as u64);
    let mut i: usize = 0;
    while i < digits.len()
        invariant
            i <= digits.len(),
            digits@ == decimal(port as nat),
            a@ == host@.push(':') + digits@.take(i as int),
        decreases digits.len() - i,
    {
        a.push(digits[i]);
        assert(digits@.take(i + 1) =~= digits@.take(i as int).push(digits@[i as int]));
        i = i + 1;
    }
    assert(digits@.take(digits.len() as int) =~= digits@);
    a
}

/// Where a server stands: whether its serving thread runs, and whether it was
/// asked to stop.
pub struct ServerState {
    pub running: bool,
    pub stop_requested: bool,
}

/// What a request to start leads to.
pub enum StartDecision {
    /// The address could not be read; nothing starts.
    InvalidAddress,
    /// A serving thread runs already; nothing starts.
    AlreadyRunning,
    /// Launch the serving thread.
    Launch,
}

/// The state after a request to start, and what it leads to.
pub open spec fn start_spec(s: ServerState, address_ok: bool) -> (ServerState, StartDecision) {
    if !address_ok {
        (s, StartDecision::InvalidAddress)
    } else if s.running {
        (s, StartDecision::AlreadyRunning)
    } else {
        (ServerState { running: true, stop_requested: false }, StartDecision::Launch)
    }
}

impl ServerState {
    /// A server that has not started.
    pub fn new() -> (s: ServerState)
        ensures
            !s.running,
            !s.stop_requested,
    {
        ServerState { running: false, stop_requested: false }
    }

    /// A request to start, with whether the address could be read.
    pub fn start(&mut self, address_ok: bool) -> (d: StartDecision)
        ensures
            (*final(self), d) == start_spec(*old(self), address_ok),
    {
        if !address_ok {
            StartDecision::InvalidAddress
        } else if self.running {
            StartDecision::AlreadyRunning
        } else {
            self.running = true;
            self.stop_requested = false;
            StartDecision::Launch
        }
    }

    /// A request to stop: the serving loop sees it at its next check.
    pub fn request_stop(&mut self)
        ensures
            final(self).running == old(self).running,
            final(self).stop_requested,
    {
        self.stop_requested = true;
    }

    /// Whether the serving loop goes on at a check; when it does not, the store is
    /// cleared and the loop ends.
    pub fn keep_serving(&self) -> (go: bool)
        ensures
            go == !self.stop_requested,
    {
        !self.stop_requested
    }

    /// The serving thread has ended.
    pub fn finish(&mut self)
        ensures
            !final(self).running,
            !final(self).stop_requested,
    {
        self.running = false;
        self.stop_requested = false;
    }
}

} // verus!
