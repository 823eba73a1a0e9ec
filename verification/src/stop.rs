//! A stop asked for from outside the compilation, so that the long analyses can give up once their
//! result has stopped being of use to anyone. The first reason given is the one kept.
use vstd::prelude::*;

verus! {

/// Whether a stop has been asked for, and why.
pub struct StopRequest {
    reason: Option<String>,
}

impl StopRequest {
    /// The reason the stop was asked for, if it was.
    pub closed spec fn reason(&self) -> Option<Seq<char>> {
        match self.reason {
            Some(r) => Some(r@),
            None => None,
        }
    }

    /// No stop asked for yet.
    pub fn new() -> (r: Self)
        ensures
            r.reason().is_none(),
    {
        StopRequest { reason: None }
    }
}

/// The reason a stop is asked for once a stop is asked for with `reason`: the first one given.
pub open spec fn reason_after_request(before: Option<Seq<char>>, reason: Seq<char>) -> Option<Seq<char>> {
    match before {
        Some(first) => Some(first),
        None => Some(reason),
    }
}

/// Asks for a stop, for this reason; a stop already asked for keeps the reason it was asked for.
pub fn request(stop: &mut StopRequest, reason: String)
    ensures
        final(stop).reason() == reason_after_request(old(stop).reason(), reason@),
{
    if stop.reason.is_none() {
        stop.reason = Some(reason);
    }
}

/// The reason a stop was asked for, if it was.
pub fn requested(stop: &StopRequest) -> (r: Option<&str>)
    ensures
        match r {
            Some(s) => stop.reason() == Some(s@),
            None => stop.reason().is_none(),
        },
{
    match &stop.reason {
        Some(r) => Some(r.as_str()),
        None => None,
    }
}

/// Once a stop is asked for, it stays asked for with its first reason, whatever is asked after.
pub proof fn lemma_first_reason_kept(before: Option<Seq<char>>, first: Seq<char>, later: Seq<char>)
    ensures
        reason_after_request(reason_after_request(before, first), later) == reason_after_request(
            before,
            first,
        ),
        before.is_none() ==> reason_after_request(before, first) == Some(first),
{
}

} // verus!
