//! Probe outcomes and the folding of resolver and prober results into them.

use std::time::Duration;
use vstd::prelude::*;

verus! {

/// The outcome of one reachability probe.
#[derive(Clone, Copy, Debug)]
pub enum Pong {
    /// A reply arrived after the given round-trip latency.
    Success(Duration),
    /// No reply: the host did not resolve, did not answer, or the transport failed.
    Failure,
}

/// Why a single probe produced no latency.
#[derive(Clone, Copy, Debug, PartialEq, Eq, Structural)]
pub enum ProbeError {
    /// The address specification resolved to no address.
    ResolutionFailure,
    /// No reply arrived within the bounded wait, or the transport failed.
    ProbeFailure,
}

impl Pong {
    pub open spec fn spec_is_success(&self) -> bool {
        self is Success
    }

    /// Whether the probe was answered.
    #[verifier::when_used_as_spec(spec_is_success)]
    pub fn is_success(&self) -> (answered: bool)
        ensures
            answered == (self is Success),
    {
        match self {
            Pong::Success(_) => true,
            Pong::Failure => false,
        }
    }

    /// The round-trip latency of an answered probe.
    pub fn latency(&self) -> (latency: Option<Duration>)
        ensures
            latency == match *self {
                Pong::Success(d) => Some(d),
                Pong::Failure => None::<Duration>,
            },
    {
        match self {
            Pong::Success(d) => Some(*d),
            Pong::Failure => None,
        }
    }

    /// Folds a probe's result into an outcome: both kinds of error become
    /// the one `Failure` value.
    pub fn from_result(reply: Result<Duration, ProbeError>) -> (pong: Pong)
        ensures
            pong == match reply {
                Ok(d) => Pong::Success(d),
                Err(_) => Pong::Failure,
            },
    {
        match reply {
            Ok(d) => Pong::Success(d),
            Err(_) => Pong::Failure,
        }
    }
}

/// Picks the address to probe from what a lookup returned: the first one,
/// in the order the lookup gave them. A lookup that failed (`None`) or
/// that returned no address is a resolution failure.
pub fn first_address<A>(lookup: Option<Vec<A>>) -> (chosen: Result<A, ProbeError>)
    ensures
        chosen == match lookup {
            Some(found) => if found@.len() > 0 {
                Ok::<A, ProbeError>(found@[0])
            } else {
                Err::<A, ProbeError>(ProbeError::ResolutionFailure)
            },
            None => Err::<A, ProbeError>(ProbeError::ResolutionFailure),
        },
{
    match lookup {
        Some(found) => {
            let mut found = found;
            if found.len() > 0 {
                Ok(found.swap_remove(0))
            } else {
                Err(ProbeError::ResolutionFailure)
            }
        },
        None => Err(ProbeError::ResolutionFailure),
    }
}

} // verus!
