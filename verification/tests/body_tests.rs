use chat_relay::chat::ChatRequest;
use chat_relay::chat::Message;
use chat_relay::encode::upstream_body_chars;

fn msg(role: &str, content: &str) -> Message {
    Message { role: role.to_string(), content: content.to_string() }
}

fn body_of(messages: Vec<Message>) -> String {
    let req = ChatRequest { messages };
    upstream_body_chars(&req).into_iter().collect()
}

#[test]
fn single_message_body_is_exact() {
    assert_eq!(
        body_of(vec![msg("user", "hi")]),
        "{\"messages\":[{\"role\":\"user\",\"content\":\"hi\"}],\"temperature\":0.7,\"max_tokens\":1000}"
    );
}

#[test]
fn empty_messages_body_is_exact() {
    assert_eq!(
        body_of(vec![]),
        "{\"messages\":[],\"temperature\":0.7,\"max_tokens\":1000}"
    );
}

#[test]
fn messages_kept_in_order() {
    let b = body_of(vec![msg("system", "be terse"), msg("user", "hello"), msg("assistant", "ok")]);
    assert_eq!(
        b,
        "{\"messages\":[{\"role\":\"system\",\"content\":\"be terse\"},{\"role\":\"user\",\"content\":\"hello\"},{\"role\":\"assistant\",\"content\":\"ok\"}],\"temperature\":0.7,\"max_tokens\":1000}"
    );
}

#[test]
fn parameters_always_injected() {
    for b in [
        body_of(vec![]),
        body_of(vec![msg("user", "temperature")]),
        body_of(vec![msg("u", ""), msg("v", "x")]),
    ] {
        assert!(b.ends_with(",\"temperature\":0.7,\"max_tokens\":1000}"));
        assert!(b.starts_with("{\"messages\":["));
    }
}

#[test]
fn quotes_and_backslashes_escaped() {
    let b = body_of(vec![msg("user", "say \"hi\" \\ done")]);
    assert_eq!(
        b,
        "{\"messages\":[{\"role\":\"user\",\"content\":\"say \\\"hi\\\" \\\\ done\"}],\"temperature\":0.7,\"max_tokens\":1000}"
    );
}

#[test]
fn named_control_escapes() {
    let b = body_of(vec![msg("user", "a\nb\tc\rd\u{8}e\u{c}f")]);
    assert_eq!(
        b,
        "{\"messages\":[{\"role\":\"user\",\"content\":\"a\\nb\\tc\\rd\\be\\ff\"}],\"temperature\":0.7,\"max_tokens\":1000}"
    );
}

#[test]
fn other_controls_get_hex_escapes() {
    let b = body_of(vec![msg("user", "\u{1}\u{1f}")]);
    assert_eq!(
        b,
        "{\"messages\":[{\"role\":\"user\",\"content\":\"\\u0001\\u001f\"}],\"temperature\":0.7,\"max_tokens\":1000}"
    );
}

#[test]
fn non_ascii_passes_through() {
    let b = body_of(vec![msg("user", "héllo ☃")]);
    assert_eq!(
        b,
        "{\"messages\":[{\"role\":\"user\",\"content\":\"héllo ☃\"}],\"temperature\":0.7,\"max_tokens\":1000}"
    );
}

#[test]
fn inbound_temperature_override_ignored() {
    let input = "{\"messages\":[],\"temperature\":99}";
    let v: serde_json::Value = serde_json::from_str(input).unwrap();
    let msgs = v["messages"].as_array().unwrap();
    assert!(msgs.is_empty());
    let body = body_of(vec![]);
    assert_eq!(body, "{\"messages\":[],\"temperature\":0.7,\"max_tokens\":1000}");
    assert!(!body.contains("99"));
}

#[test]
fn body_parses_back_with_messages_and_parameters() {
    let b = body_of(vec![msg("user", "a \"quoted\" \\ line\nnext")]);
    let v: serde_json::Value = serde_json::from_str(&b).expect("body must be valid JSON");
    assert_eq!(v["temperature"].as_f64(), Some(0.7));
    assert_eq!(v["max_tokens"].as_i64(), Some(1000));
    let msgs = v["messages"].as_array().expect("messages array");
    assert_eq!(msgs.len(), 1);
    assert_eq!(msgs[0]["role"].as_str(), Some("user"));
    assert_eq!(msgs[0]["content"].as_str(), Some("a \"quoted\" \\ line\nnext"));
}
