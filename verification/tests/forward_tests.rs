use chat_relay::forward::forward_reply;
use chat_relay::forward::UpstreamOutcome;

fn chars(s: &str) -> Vec<char> {
    s.chars().collect()
}

#[test]
fn no_reply_gives_500_empty() {
    let r = forward_reply(UpstreamOutcome::NoReply);
    assert_eq!(r.status, 500);
    assert!(r.body.is_empty());
}

#[test]
fn non_json_reply_gives_500_empty() {
    let r = forward_reply(UpstreamOutcome::Reply(chars("hello")));
    assert_eq!(r.status, 500);
    assert!(r.body.is_empty());
}

#[test]
fn json_reply_relayed_verbatim() {
    let upstream = "{\"id\":\"x\",\"choices\":[{\"message\":{\"role\":\"assistant\",\"content\":\"hello\"}}]}";
    let r = forward_reply(UpstreamOutcome::Reply(chars(upstream)));
    assert_eq!(r.status, 200);
    assert_eq!(r.body, chars(upstream));
}

#[test]
fn json_reply_whitespace_kept() {
    let upstream = " {\n  \"ok\": true\n} ";
    let r = forward_reply(UpstreamOutcome::Reply(chars(upstream)));
    assert_eq!(r.status, 200);
    assert_eq!(r.body, chars(upstream));
}

#[test]
fn upstream_error_json_still_relayed_as_200() {
    let upstream = "{\"error\":{\"message\":\"overloaded\"}}";
    let r = forward_reply(UpstreamOutcome::Reply(chars(upstream)));
    assert_eq!(r.status, 200);
    assert_eq!(r.body, chars(upstream));
}

#[test]
fn truncated_json_reply_gives_500() {
    let r = forward_reply(UpstreamOutcome::Reply(chars("{\"id\":\"x\"")));
    assert_eq!(r.status, 500);
    assert!(r.body.is_empty());
}
