use guardrail::{
    forward_request_header, guarded_route, is_hop_by_hop, judged_status, normalize_backend, proxy_target,
    relay_response_header,
};

#[test]
fn hop_by_hop_headers_are_recognised_case_insensitively() {
    for h in ["connection", "Keep-Alive", "PROXY-AUTHENTICATE", "proxy-authorization", "te", "Trailer", "transfer-encoding", "upgrade", "Host"] {
        assert!(is_hop_by_hop(h), "{h}");
    }
    for h in ["content-type", "x-backend-marker", "t", "hosts", "content-length"] {
        assert!(!is_hop_by_hop(h), "{h}");
    }
}

#[test]
fn request_and_response_header_filters() {
    assert!(forward_request_header("content-type"));
    assert!(forward_request_header("content-length"));
    assert!(!forward_request_header("host"));
    assert!(relay_response_header("x-backend-marker"));
    assert!(!relay_response_header("Content-Length"));
    assert!(!relay_response_header("transfer-encoding"));
}

#[test]
fn backend_trailing_slashes_are_removed() {
    assert_eq!(normalize_backend("http://127.0.0.1:1234/"), "http://127.0.0.1:1234");
    assert_eq!(normalize_backend("http://h//"), "http://h");
    assert_eq!(normalize_backend("http://h"), "http://h");
    assert_eq!(normalize_backend("///"), "");
}

#[test]
fn target_joins_backend_and_path() {
    assert_eq!(proxy_target("http://h", Some("/v1/models?x=1")), "http://h/v1/models?x=1");
    assert_eq!(proxy_target("http://h", None), "http://h/");
}


#[test]
fn only_chat_completions_posts_are_guarded() {
    assert!(guarded_route(true, "/v1/chat/completions"));
    assert!(!guarded_route(false, "/v1/chat/completions"));
    assert!(!guarded_route(true, "/v1/models"));
    assert!(!guarded_route(true, "/v1/chat/completions/extra"));
    assert!(!guarded_route(true, "/v1/chat"));
}

#[test]
fn only_success_replies_are_judged() {
    assert!(judged_status(200));
    assert!(judged_status(201));
    assert!(judged_status(299));
    assert!(!judged_status(199));
    assert!(!judged_status(300));
    assert!(!judged_status(404));
    assert!(!judged_status(500));
}
