use chat_relay::route::route_decision;
use chat_relay::route::RouteDecision;

fn decide(method: &str, path: &str) -> RouteDecision {
    let m: Vec<char> = method.chars().collect();
    let p: Vec<char> = path.chars().collect();
    route_decision(&m, &p)
}

#[test]
fn post_on_chat_path_forwards() {
    assert!(matches!(decide("POST", "/v1/chat/completions"), RouteDecision::Forward));
}

#[test]
fn other_methods_on_chat_path_not_allowed() {
    for m in ["GET", "PUT", "DELETE", "PATCH", "HEAD", "post"] {
        assert!(matches!(decide(m, "/v1/chat/completions"), RouteDecision::MethodNotAllowed));
    }
}

#[test]
fn other_paths_not_found() {
    for p in ["/", "/v1/chat", "/v1/chat/completions/", "/v2/chat/completions", ""] {
        assert!(matches!(decide("POST", p), RouteDecision::NotFound));
        assert!(matches!(decide("GET", p), RouteDecision::NotFound));
    }
}
