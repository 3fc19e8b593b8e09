use vstd::prelude::*;
use vstd::string::*;

verus! {

/// What the listener does with an inbound request line.
pub enum RouteDecision {
    /// POST on the chat-completions path: hand the request to the forwarder.
    Forward,
    /// Any other path: 404.
    NotFound,
    /// The chat-completions path with any other method: 405.
    MethodNotAllowed,
}

/// The one served route.
pub open spec fn spec_chat_path() -> Seq<char> {
    "/v1/chat/completions"@
}

/// Compares a sequence of characters with a literal.
fn chars_eq_lit(v: &Vec<char>, s: &str) -> (r: bool)
    ensures
        r == (v@ == s@),
{
    let n = s.unicode_len();
    if v.len() != n {
        return false;
    }
    let mut i: usize = 0;
    while i < n
        invariant
            n == s@.len(),
            v@.len() == n,
            i <= n,
            forall|k: int| 0 <= k < i ==> v@[k] == s@[k],
        decreases n - i,
    {
        if v[i] != s.get_char(i) {
            return false;
        }
        i += 1;
    }
    proof {
        assert(v@ =~= s@);
    }
    true
}

/// Decides the route for one request: only POST on
/// `/v1/chat/completions` reaches the forwarder; any other path is not
/// found, and any other method on that path is not allowed.
pub fn route_decision(method: &Vec<char>, path: &Vec<char>) -> (r: RouteDecision)
    ensures
        r is Forward <==> (method@ == "POST"@ && path@ == spec_chat_path()),
        r is NotFound <==> path@ != spec_chat_path(),
        r is MethodNotAllowed <==> (method@ != "POST"@ && path@ == spec_chat_path()),
{
    if !chars_eq_lit(path, "/v1/chat/completions") {
        RouteDecision::NotFound
    } else if chars_eq_lit(method, "POST") {
        RouteDecision::Forward
    } else {
        RouteDecision::MethodNotAllowed
    }
}

} // verus!
