use crate::errors::ErrorType;
use crate::strutil::str_eq;
use vstd::prelude::*;
use vstd::string::StringSliceAdditionalSpecFns;

verus! {

/// The route table of the demonstration server: the request line that a
/// named page answers to.  Unknown names fall back to the home page.
pub fn get_route(route: &str) -> (r: &'static [u8])
    ensures
        route@ == "hayley"@ ==> r@ == "GET /hayley HTTP/1.1".spec_bytes(),
        route@ != "hayley"@ ==> r@ == "GET / HTTP/1.1".spec_bytes(),
{
    proof {
        reveal_strlit("Home");
        reveal_strlit("hayley");
        assert("Home"@.len() != "hayley"@.len());
    }
    if str_eq(route, "Home") {
        "GET / HTTP/1.1".as_bytes()
    } else if str_eq(route, "hayley") {
        "GET /hayley HTTP/1.1".as_bytes()
    } else {
        "GET / HTTP/1.1".as_bytes()
    }
}

/// Accepts every request: a placeholder where real validation would go.
pub fn validate_request(req: &[u8]) -> (r: Result<(), ErrorType>)
    ensures
        r is Ok,
{
    Ok(())
}

/// What the connection-accepting loop does after a failed accept.
#[derive(PartialEq, Eq, Structural)]
pub enum AcceptRetry {
    /// Too many failures: report the connection as lost.
    GiveUp,
    /// Sleep for the current backoff, then try again with the doubled
    /// backoff carried here.
    RetryAfter(usize),
}

/// The retry decision after a failed accept at the given backoff, in
/// milliseconds: once the backoff has grown past six seconds the loop
/// gives up, otherwise it backs off and doubles, reducing contention
/// exponentially.
pub fn accept_retry_step(backoff: usize) -> (r: AcceptRetry)
    ensures
        backoff > 6000 ==> r == AcceptRetry::GiveUp,
        backoff <= 6000 ==> r == AcceptRetry::RetryAfter((backoff * 2) as usize),
{
    if backoff > 6000 {
        AcceptRetry::GiveUp
    } else {
        AcceptRetry::RetryAfter(backoff * 2)
    }
}

} // verus!
