use vstd::prelude::*;

verus! {

/// One conversation turn: a role (for example "user") and its text.
/// Roles are opaque to this system and are not validated.
pub struct Message {
    pub role: String,
    pub content: String,
}

/// The inbound request: an ordered conversation. Any further fields of
/// the inbound JSON object are ignored before a value of this type is
/// formed, so the forwarding logic depends on the messages alone.
pub struct ChatRequest {
    pub messages: Vec<Message>,
}

} // verus!
