use jan_gateway::proxy::{
    build_upstream_url, forward_headers, get_destination_path, is_valid_host, relay_response,
    remove_prefix, route_request, ClientResponse, ProxyConfig, ResponseBody, RouteDecision,
    UpstreamOutcome,
};

fn config(api_key: &str, trusted: Vec<&str>) -> ProxyConfig {
    ProxyConfig {
        upstream: "http://127.0.0.1:39291".to_string(),
        prefix: "/v1/app".to_string(),
        auth_token: "apptoken123".to_string(),
        trusted_hosts: trusted.into_iter().map(|s| s.to_string()).collect(),
        api_key: api_key.to_string(),
    }
}

#[test]
fn test_remove_prefix_cases() {
    assert_eq!(remove_prefix("/v1/app/chat/completions", "/v1/app"), "/chat/completions");
    assert_eq!(remove_prefix("/v1/app", "/v1/app"), "/");
    assert_eq!(remove_prefix("/other/path", "/v1/app"), "/other/path");
    assert_eq!(remove_prefix("/anything", ""), "/anything");
}

#[test]
fn test_destination_rewrites_under_v1() {
    // prefix stripped, fixed API segment prepended
    assert_eq!(
        get_destination_path("/v1/app/chat/completions", "/v1/app"),
        "/v1/chat/completions"
    );
}

#[test]
fn test_destination_health_check_exempt() {
    // exempt path: forwarded unchanged, with the prefix still on it
    assert_eq!(get_destination_path("/v1/app/healthz", "/v1/app"), "/v1/app/healthz");
}

#[test]
fn test_destination_process_exempt() {
    assert_eq!(
        get_destination_path("/v1/app/processManager/destroy", "/v1/app"),
        "/v1/app/processManager/destroy"
    );
}

#[test]
fn test_destination_without_prefix() {
    // a bare health-check path is still exempt
    assert_eq!(get_destination_path("/healthz", "/v1/app"), "/healthz");
    // any other path is rewritten even when it does not carry the prefix
    assert_eq!(get_destination_path("/other/path", "/v1/app"), "/v1/other/path");
}

#[test]
fn test_build_upstream_url_joins_one_slash() {
    assert_eq!(
        build_upstream_url("http://127.0.0.1:39291/", "/v1/chat"),
        "http://127.0.0.1:39291/v1/chat"
    );
    assert_eq!(build_upstream_url("http://127.0.0.1:39291", "v1/chat"), "http://127.0.0.1:39291/v1/chat");
}

#[test]
fn test_is_valid_host_defaults() {
    let none: Vec<String> = Vec::new();
    assert!(is_valid_host("localhost", &none));
    assert!(is_valid_host("LOCALHOST:8080", &none));
    assert!(is_valid_host("127.0.0.1:1337", &none));
    assert!(!is_valid_host("evil.example.com", &none));
    assert!(!is_valid_host("", &none));
    assert!(!is_valid_host("[::1]:8080", &none));
}

#[test]
fn test_is_valid_host_trusted_case_insensitive() {
    let trusted = vec!["My-Host.Example".to_string(), "::1".to_string()];
    assert!(is_valid_host("my-host.example:443", &trusted));
    assert!(is_valid_host("[::1]:8080", &trusted));
    assert!(!is_valid_host("other.example", &trusted));
}

#[test]
fn test_route_missing_host_is_400() {
    let cfg = config("", vec![]);
    let d = route_request(&cfg, "/v1/app/chat", &None, &None);
    match d {
        RouteDecision::Reject { status, body } => {
            assert_eq!(status, 400);
            assert_eq!(body, "Missing host header");
        }
        _ => panic!("expected a rejection"),
    }
}

#[test]
fn test_route_invalid_host_is_403() {
    // an untrusted Host header is refused before anything reaches upstream
    let cfg = config("", vec![]);
    let d = route_request(
        &cfg,
        "/v1/app/chat/completions",
        &Some("evil.example.com".to_string()),
        &None,
    );
    match d {
        RouteDecision::Reject { status, body } => {
            assert_eq!(status, 403);
            assert_eq!(body, "Invalid host header");
        }
        RouteDecision::Forward { .. } => panic!("must not be forwarded"),
    }
}

#[test]
fn test_route_auth_required() {
    let cfg = config("secretkey", vec![]);
    let host = Some("localhost".to_string());

    let missing = route_request(&cfg, "/v1/app/chat", &host, &None);
    match missing {
        RouteDecision::Reject { status, body } => {
            assert_eq!(status, 401);
            assert_eq!(body, "Missing authorization header");
        }
        _ => panic!("expected a rejection"),
    }

    let wrong = route_request(&cfg, "/v1/app/chat", &host, &Some("Bearer nope".to_string()));
    match wrong {
        RouteDecision::Reject { status, body } => {
            assert_eq!(status, 401);
            assert_eq!(body, "Invalid or missing authorization token");
        }
        _ => panic!("expected a rejection"),
    }

    let not_bearer = route_request(&cfg, "/v1/app/chat", &host, &Some("secretkey".to_string()));
    match not_bearer {
        RouteDecision::Reject { status, .. } => assert_eq!(status, 401),
        _ => panic!("expected a rejection"),
    }

    let right = route_request(&cfg, "/v1/app/chat", &host, &Some("Bearer secretkey".to_string()));
    match right {
        RouteDecision::Forward { upstream_url } => {
            assert_eq!(upstream_url, "http://127.0.0.1:39291/v1/chat");
        }
        _ => panic!("expected forwarding"),
    }
}

#[test]
fn test_route_denylisted_path_is_404() {
    // even a valid host with the right credential cannot reach /configs
    let cfg = config("secretkey", vec![]);
    let d = route_request(
        &cfg,
        "/v1/app/configs/raw",
        &Some("localhost".to_string()),
        &Some("Bearer secretkey".to_string()),
    );
    match d {
        RouteDecision::Reject { status, body } => {
            assert_eq!(status, 404);
            assert_eq!(body, "Not Found");
        }
        _ => panic!("expected a rejection"),
    }
}

#[test]
fn test_route_forward_chat_completions() {
    // no API key configured: host check alone gates forwarding
    let cfg = config("", vec![]);
    let d = route_request(&cfg, "/v1/app/chat/completions", &Some("localhost".to_string()), &None);
    match d {
        RouteDecision::Forward { upstream_url } => {
            assert_eq!(upstream_url, "http://127.0.0.1:39291/v1/chat/completions");
        }
        _ => panic!("expected forwarding"),
    }
}

#[test]
fn test_forward_headers_strips_and_injects() {
    let headers = vec![
        ("Host".to_string(), "localhost".to_string()),
        ("Authorization".to_string(), "Bearer caller-secret".to_string()),
        ("Content-Type".to_string(), "application/json".to_string()),
        ("authorization".to_string(), "Basic xyz".to_string()),
    ];
    let out = forward_headers(&headers, &"apptoken123".to_string());
    assert_eq!(
        out,
        vec![
            ("Content-Type".to_string(), "application/json".to_string()),
            ("Authorization".to_string(), "Bearer apptoken123".to_string()),
        ]
    );
}

#[test]
fn test_relay_ok_is_verbatim() {
    let r: ClientResponse = relay_response(UpstreamOutcome::Response {
        status: 418,
        headers: vec![("X-A".to_string(), "b".to_string())],
        body: Ok(vec![1, 2, 3]),
    });
    assert_eq!(r.status, 418);
    assert_eq!(r.headers, vec![("X-A".to_string(), "b".to_string())]);
    match r.body {
        ResponseBody::Bytes(b) => assert_eq!(b, vec![1, 2, 3]),
        _ => panic!("expected the upstream bytes"),
    }
}

#[test]
fn test_relay_body_failure_is_500() {
    let r = relay_response(UpstreamOutcome::Response {
        status: 200,
        headers: vec![("X-A".to_string(), "b".to_string())],
        body: Err("stream cut".to_string()),
    });
    assert_eq!(r.status, 500);
    assert!(r.headers.is_empty());
    match r.body {
        ResponseBody::Text(t) => assert_eq!(t, "Error reading upstream response"),
        _ => panic!("expected an error text"),
    }
}

#[test]
fn test_relay_transport_failure_is_502() {
    let r = relay_response(UpstreamOutcome::TransportError {
        message: "connection refused".to_string(),
    });
    assert_eq!(r.status, 502);
    match r.body {
        ResponseBody::Text(t) => assert_eq!(t, "Upstream error: connection refused"),
        _ => panic!("expected an error text"),
    }
}
