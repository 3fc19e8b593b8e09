use vstd::prelude::*;

use crate::json::is_json_text;
use crate::json::spec_is_json_text;

verus! {

/// The reply owed to the inbound caller: an HTTP status and a body.
pub struct HttpReply {
    pub status: u16,
    pub body: Vec<char>,
}

/// The outcome of the upstream call, as the surrounding process hands
/// it in: `NoReply` when no reply body could be obtained at all (the
/// connection failed, timed out, or the bytes were not text), and
/// `Reply` with the reply body's characters otherwise.
pub enum UpstreamOutcome {
    NoReply,
    Reply(Vec<char>),
}

/// Decides the reply for one forwarded request, given the upstream
/// outcome: a failed call yields 500 with an empty body; a reply whose
/// body is well-formed JSON is relayed verbatim with 200; a reply whose
/// body is not JSON yields 500 with an empty body. The upstream HTTP
/// status is never consulted: any reply with a JSON body passes as 200.
pub fn forward_reply(outcome: UpstreamOutcome) -> (r: HttpReply)
    ensures
        outcome is NoReply ==> r.status == 500 && r.body@ == Seq::<char>::empty(),
        outcome matches UpstreamOutcome::Reply(b) ==> (spec_is_json_text(b@) ==> r.status == 200
            && r.body@ == b@) && (!spec_is_json_text(b@) ==> r.status == 500 && r.body@
            == Seq::<char>::empty()),
{
    match outcome {
        UpstreamOutcome::NoReply => HttpReply { status: 500, body: Vec::new() },
        UpstreamOutcome::Reply(b) => {
            if is_json_text(&b) {
                HttpReply { status: 200, body: b }
            } else {
                HttpReply { status: 500, body: Vec::new() }
            }
        },
    }
}

} // verus!
