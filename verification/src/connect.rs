//! Trying addresses one after the other, and telling a pending connection from a failed one.

use crate::addr::{IpAddr, SocketAddr};
use crate::dns::DnsError;
use vstd::prelude::*;

verus! {

/// The port of the servers that hostnames resolve to.
pub const TARGET_PORT: u16 = 443;

/// Addresses to try in order, until one works.
#[verifier::reject_recursive_types(E)]
pub struct Attempts<E> {
    targets: Vec<SocketAddr>,
    tried: usize,
    last_error: Option<E>,
}

/// The candidates, each with the port of the servers.
pub open spec fn candidate_targets(candidates: Seq<IpAddr>) -> Seq<SocketAddr> {
    candidates.map_values(|ip: IpAddr| SocketAddr::of(ip, TARGET_PORT))
}

impl<E> Attempts<E> {
    /// The addresses to try.
    pub closed spec fn targets(self) -> Seq<SocketAddr> {
        self.targets@
    }

    /// How many have failed.
    pub closed spec fn tried(self) -> nat {
        self.tried as nat
    }

    /// The error of the last one that failed.
    pub closed spec fn last_error(self) -> Option<E> {
        self.last_error
    }

    /// No more have failed than there are, and an error is held as soon as one has.
    #[verifier::type_invariant]
    closed spec fn inv(self) -> bool {
        &&& self.tried <= self.targets@.len()
        &&& self.last_error is Some <==> self.tried > 0
    }

    /// Attempts at the given addresses.
    pub fn new(targets: Vec<SocketAddr>) -> (r: Attempts<E>)
        ensures
            r.targets() == targets@,
            r.tried() == 0,
            r.last_error() is None,
    {
        Attempts { targets, tried: 0, last_error: None }
    }

    /// Attempts at the addresses that a hostname resolved to.
    pub fn at_candidates(candidates: &[IpAddr]) -> (r: Attempts<E>)
        ensures
            r.targets() == candidate_targets(candidates@),
            r.tried() == 0,
            r.last_error() is None,
    {
        let mut targets: Vec<SocketAddr> = Vec::new();
        let mut i: usize = 0;
        while i < candidates.len()
            invariant
                i <= candidates@.len(),
                targets@ == candidate_targets(candidates@.take(i as int)),
            decreases candidates@.len() - i,
        {
            targets.push(SocketAddr::new(candidates[i], TARGET_PORT));
            i += 1;
            assert(targets@ == candidate_targets(candidates@.take(i as int)));
        }
        assert(candidates@.take(i as int) == candidates@);
        Attempts::new(targets)
    }

    /// Attempts at the addresses of a resolver, which must have one.
    pub fn at_resolver(addrs: Vec<SocketAddr>) -> (r: Result<Attempts<E>, DnsError>)
        ensures
            match r {
                Ok(attempts) => addrs@.len() > 0 && attempts.targets() == addrs@ && attempts.tried()
                    == 0 && attempts.last_error() is None,
                Err(e) => addrs@.len() == 0 && e == DnsError::NoResolverAddress,
            },
    {
        if addrs.len() == 0 {
            return Err(DnsError::NoResolverAddress);
        }
        Ok(Attempts::new(addrs))
    }

    /// The address to try now: the first that has not failed.
    pub fn next_target(&self) -> (r: Option<SocketAddr>)
        ensures
            r == if self.tried() < self.targets().len() {
                Some(self.targets()[self.tried() as int])
            } else {
                None
            },
    {
        if self.tried < self.targets.len() {
            Some(self.targets[self.tried])
        } else {
            None
        }
    }

    /// Notes that the address tried has failed.
    pub fn failed(self, error: E) -> (r: Attempts<E>)
        requires
            self.tried() < self.targets().len(),
        ensures
            r.targets() == self.targets(),
            r.tried() == self.tried() + 1,
            r.last_error() == Some(error),
    {
        let count: usize = self.targets.len();
        assert(self.tried < count);
        Attempts { targets: self.targets, tried: self.tried + 1, last_error: Some(error) }
    }

    /// The error to report when no address is left: that of the last one, if there was any.
    pub fn into_error(self) -> (r: Option<E>)
        ensures
            r == self.last_error(),
            self.tried() > 0 ==> r is Some,
    {
        proof {
            use_type_invariant(&self);
        }
        self.last_error
    }
}

/// Attempts that fail one after the other are at the addresses in order, each once, until none is left;
/// the error held is always that of the last one.
pub proof fn law_tried_in_order<E>(states: Seq<Attempts<E>>, errors: Seq<E>, i: int)
    requires
        states.len() == errors.len() + 1,
        states[0].tried() == 0,
        forall|k: int|
            #![trigger states[k]]
            0 < k < states.len() ==> states[k].targets() == states[k - 1].targets()
                && states[k].tried() == states[k - 1].tried() + 1 && states[k].last_error() == Some(
                errors[k - 1],
            ),
        0 <= i < states.len(),
    ensures
        states[i].targets() == states[0].targets(),
        states[i].tried() == i,
        i > 0 ==> states[i].last_error() == Some(errors[i - 1]),
    decreases i,
{
    if i > 0 {
        law_tried_in_order(states, errors, i - 1);
    }
}

/// Kinds of input and output errors that are told apart.
#[derive(Clone, Copy, Debug, PartialEq, Eq, Structural)]
pub enum IoFailure {
    WouldBlock,
    Interrupted,
    UnexpectedEof,
    BrokenPipe,
    ConnectionReset,
    Other,
}

/// Whether an error from starting a connection only says that it is under way: the kind, or the
/// system's error number for an operation in progress.
pub fn connect_pending(failure: IoFailure, os_error: Option<i32>, in_progress: i32) -> (r: bool)
    ensures
        r <==> failure == IoFailure::WouldBlock || failure == IoFailure::Interrupted || os_error
            == Some(in_progress),
{
    let started = match os_error {
        Some(code) => code == in_progress,
        None => false,
    };
    match failure {
        IoFailure::WouldBlock => true,
        IoFailure::Interrupted => true,
        _ => started,
    }
}

/// What asking a socket for its pending error came to.
#[derive(Clone, Copy, Debug, PartialEq, Eq, Structural)]
pub enum SocketState {
    Connected,
    /// The connection failed with this error number.
    Failed(i32),
    /// The question itself failed.
    Unknown,
}

/// The state of a socket, from what asking for its pending error returned and stored.
pub fn check_connect_error(returned: i32, error: i32) -> (r: SocketState)
    ensures
        r == if returned != 0 {
            SocketState::Unknown
        } else if error == 0 {
            SocketState::Connected
        } else {
            SocketState::Failed(error)
        },
{
    if returned != 0 {
        SocketState::Unknown
    } else if error == 0 {
        SocketState::Connected
    } else {
        SocketState::Failed(error)
    }
}

/// The targets are the candidates, in order, each on the port of the servers.
pub proof fn law_candidates_targeted(candidates: Seq<IpAddr>)
    ensures
        candidate_targets(candidates).len() == candidates.len(),
        forall|i: int|
            0 <= i < candidates.len() ==> {
                &&& (#[trigger] candidate_targets(candidates)[i]).ip() == candidates[i]
                &&& candidate_targets(candidates)[i].port() == 443
                &&& candidate_targets(candidates)[i] == SocketAddr::of(candidates[i], 443)
            },
{
}

}
