use ai_gw_lite::config::{
    AppConfig, ConcurrencyConfig, CorsConfig, GatewayAuthConfig, HeaderInjection, RateLimitConfig,
    RouteConfig, TokenSourceConfig, UpstreamConfig,
};
use ai_gw_lite::cors::{build_preflight_response, resolve_allow_origin, PreflightPlan};
use ai_gw_lite::headers::HeaderTable;
use ai_gw_lite::proxy::{error_body, is_sse_response, response_body_deadline};
use ai_gw_lite::runtime::{
    classify_upstream_failure, decision_error_code, decision_outcome, decision_status,
    upstream_host_label, RequestDecision, RuntimeState,
};

fn gateway_config(inject: Vec<HeaderInjection>) -> AppConfig {
    AppConfig {
        listen: "127.0.0.1:8080".to_string(),
        gateway_auth: GatewayAuthConfig {
            tokens: vec!["gw_token".to_string()],
            token_sources: vec![TokenSourceConfig::AuthorizationBearer],
        },
        routes: vec![RouteConfig {
            id: "openai".to_string(),
            prefix: "/openai".to_string(),
            upstream: UpstreamConfig {
                base_url: "https://api.openai.com".to_string(),
                strip_prefix: true,
                connect_timeout_ms: 10_000,
                request_timeout_ms: 60_000,
                inject_headers: inject,
                remove_headers: vec!["authorization".to_string()],
                forward_xff: false,
                proxy: None,
                upstream_key_max_inflight: None,
            },
        }],
        inbound_tls: None,
        cors: None,
        rate_limit: None,
        concurrency: None,
        observability: None,
    }
}

fn authed_headers() -> HeaderTable {
    let mut headers = HeaderTable::new();
    headers.add("authorization", "Bearer gw_token");
    headers
}

#[test]
fn injection_overrides_caller_authorization() {
    let config = gateway_config(vec![HeaderInjection {
        name: "authorization".to_string(),
        value: "Bearer INJ".to_string(),
    }]);
    let mut state = RuntimeState::build_runtime_state(config).expect("config is valid");

    let mut headers = authed_headers();
    headers.add("x-forwarded-for", "1.2.3.4");

    let decision = state.handle_request(
        "POST",
        "/openai/v1/echo",
        Some("mode=test"),
        &headers,
        1_700_000_000,
    );
    match decision {
        RequestDecision::Forward(plan) => {
            assert_eq!(plan.upstream_url, "https://api.openai.com/v1/echo?mode=test");
            assert_eq!(
                plan.outbound_headers.get("authorization").map(|v| v.as_str()),
                Some("Bearer INJ")
            );
            assert!(plan.outbound_headers.get("x-forwarded-for").is_none());
            assert!(!plan.downstream_permit);
            assert!(plan.upstream_permit.is_none());
        }
        _ => panic!("request should be forwarded"),
    }
}

#[test]
fn unknown_route_is_refused_with_not_found() {
    let mut state =
        RuntimeState::build_runtime_state(gateway_config(Vec::new())).expect("config is valid");
    let decision = state.handle_request("GET", "/unknown", None, &authed_headers(), 0);
    assert!(matches!(decision, RequestDecision::NotFound));
    assert_eq!(decision_status(&decision), 404);
    assert_eq!(decision_error_code(&decision).as_deref(), Some("route_not_found"));
    assert_eq!(decision_outcome(&decision), "route_not_found");
}

#[test]
fn missing_token_is_unauthorized() {
    let mut state =
        RuntimeState::build_runtime_state(gateway_config(Vec::new())).expect("config is valid");
    let headers = HeaderTable::new();
    let decision = state.handle_request("GET", "/openai/v1/models", None, &headers, 0);
    assert!(matches!(decision, RequestDecision::Unauthorized));
    assert_eq!(decision_status(&decision), 401);
    assert_eq!(decision_error_code(&decision).as_deref(), Some("unauthorized"));
}

#[test]
fn rate_limit_rejects_second_request_with_retry_after() {
    let mut config = gateway_config(Vec::new());
    config.rate_limit = Some(RateLimitConfig { per_minute: 1 });
    let mut state = RuntimeState::build_runtime_state(config).expect("config is valid");

    let now = 1_700_000_040;
    let first = state.handle_request("POST", "/openai/v1/echo", None, &authed_headers(), now);
    assert!(matches!(first, RequestDecision::Forward(_)));

    let second = state.handle_request("POST", "/openai/v1/echo", None, &authed_headers(), now);
    match second {
        RequestDecision::RateLimited { retry_after_secs } => {
            assert!((1..=60).contains(&retry_after_secs));
            assert_eq!(retry_after_secs, 60 - now % 60);
        }
        _ => panic!("second request should be rate limited"),
    }
    assert_eq!(error_body("rate_limited"), "{\"error\":\"rate_limited\"}");
}

#[test]
fn per_key_upstream_gate_is_scoped_by_key() {
    let mut config = gateway_config(vec![HeaderInjection {
        name: "x-api-key".to_string(),
        value: "key-a".to_string(),
    }]);
    config.routes.push(RouteConfig {
        id: "anthropic".to_string(),
        prefix: "/mistral".to_string(),
        upstream: UpstreamConfig {
            base_url: "https://api.anthropic.com".to_string(),
            strip_prefix: true,
            connect_timeout_ms: 10_000,
            request_timeout_ms: 60_000,
            inject_headers: vec![HeaderInjection {
                name: "x-api-key".to_string(),
                value: "key-b".to_string(),
            }],
            remove_headers: Vec::new(),
            forward_xff: false,
            proxy: None,
            upstream_key_max_inflight: None,
        },
    });
    config.concurrency = Some(ConcurrencyConfig {
        downstream_max_inflight: None,
        upstream_per_key_max_inflight: Some(1),
    });
    let mut state = RuntimeState::build_runtime_state(config).expect("config is valid");

    let first = state.handle_request("POST", "/openai/v1/echo", None, &authed_headers(), 0);
    let held = match first {
        RequestDecision::Forward(plan) => plan,
        _ => panic!("first key-a request should forward"),
    };

    let second = state.handle_request("POST", "/openai/v1/echo", None, &authed_headers(), 0);
    assert!(matches!(second, RequestDecision::UpstreamBusy));
    assert_eq!(decision_error_code(&second).as_deref(), Some("upstream_concurrency_exceeded"));

    let other = state.handle_request("POST", "/mistral/v1/echo", None, &authed_headers(), 0);
    assert!(matches!(other, RequestDecision::Forward(_)));

    state.release_permits(held.downstream_permit, held.upstream_permit);
    let after_release = state.handle_request("POST", "/openai/v1/echo", None, &authed_headers(), 0);
    assert!(matches!(after_release, RequestDecision::Forward(_)));
}

#[test]
fn downstream_gate_limits_total_inflight() {
    let mut config = gateway_config(vec![HeaderInjection {
        name: "x-api-key".to_string(),
        value: "key-a".to_string(),
    }]);
    config.concurrency = Some(ConcurrencyConfig {
        downstream_max_inflight: Some(1),
        upstream_per_key_max_inflight: None,
    });
    let mut state = RuntimeState::build_runtime_state(config).expect("config is valid");

    let first = state.handle_request("POST", "/openai/v1/echo", None, &authed_headers(), 0);
    assert!(matches!(first, RequestDecision::Forward(_)));
    let second = state.handle_request("POST", "/openai/v1/echo", None, &authed_headers(), 0);
    assert!(matches!(second, RequestDecision::DownstreamBusy));
    assert_eq!(decision_error_code(&second).as_deref(), Some("downstream_concurrency_exceeded"));
}

#[test]
fn hot_swap_builds_new_state_without_touching_old() {
    let old_config = gateway_config(vec![HeaderInjection {
        name: "authorization".to_string(),
        value: "Bearer OLD".to_string(),
    }]);
    let new_config = gateway_config(vec![HeaderInjection {
        name: "authorization".to_string(),
        value: "Bearer NEW".to_string(),
    }]);

    let mut old_state = RuntimeState::build_runtime_state(old_config).expect("config is valid");
    let mut new_state = RuntimeState::build_runtime_state(new_config).expect("config is valid");

    let old_decision =
        old_state.handle_request("POST", "/openai/v1/echo", None, &authed_headers(), 0);
    let new_decision =
        new_state.handle_request("POST", "/openai/v1/echo", None, &authed_headers(), 0);
    match (old_decision, new_decision) {
        (RequestDecision::Forward(old_plan), RequestDecision::Forward(new_plan)) => {
            assert_eq!(
                old_plan.outbound_headers.get("authorization").map(|v| v.as_str()),
                Some("Bearer OLD")
            );
            assert_eq!(
                new_plan.outbound_headers.get("authorization").map(|v| v.as_str()),
                Some("Bearer NEW")
            );
        }
        _ => panic!("both requests should forward"),
    }
}

#[test]
fn preflight_short_circuits_before_auth() {
    let mut config = gateway_config(Vec::new());
    config.cors = Some(CorsConfig {
        enabled: true,
        allow_origins: vec!["https://app.example.com".to_string()],
        allow_headers: vec!["content-type".to_string()],
        allow_methods: vec!["GET".to_string()],
        expose_headers: Vec::new(),
    });
    let mut state = RuntimeState::build_runtime_state(config).expect("config is valid");

    let mut headers = HeaderTable::new();
    headers.add("origin", "https://app.example.com");
    headers.add("access-control-request-method", "POST");
    headers.add("access-control-request-headers", "X-Custom, content-type");

    let decision = state.handle_request("OPTIONS", "/openai/v1/echo", None, &headers, 0);
    match decision {
        RequestDecision::Preflight(PreflightPlan::Allowed {
            allow_origin,
            allow_methods,
            allow_headers,
        }) => {
            assert_eq!(allow_origin, "https://app.example.com");
            assert_eq!(allow_methods, "GET, POST");
            assert_eq!(allow_headers, "content-type, x-custom");
        }
        _ => panic!("preflight should be answered without auth"),
    }
}

#[test]
fn preflight_from_unknown_origin_is_forbidden() {
    let mut config = gateway_config(Vec::new());
    config.cors = Some(CorsConfig {
        enabled: true,
        allow_origins: vec!["https://app.example.com".to_string()],
        allow_headers: Vec::new(),
        allow_methods: Vec::new(),
        expose_headers: Vec::new(),
    });
    let mut state = RuntimeState::build_runtime_state(config).expect("config is valid");

    let mut headers = HeaderTable::new();
    headers.add("origin", "https://evil.example.com");
    headers.add("access-control-request-method", "POST");

    let decision = state.handle_request("OPTIONS", "/openai/v1/echo", None, &headers, 0);
    match &decision {
        RequestDecision::Preflight(PreflightPlan::Forbidden) => {}
        _ => panic!("unknown origin should be forbidden"),
    }
    assert_eq!(decision_status(&decision), 403);
    assert_eq!(decision_error_code(&decision).as_deref(), Some("cors_origin_not_allowed"));
}

#[test]
fn origin_resolution_accepts_star_and_host_patterns() {
    let cors = CorsConfig {
        enabled: true,
        allow_origins: vec!["app.example.com".to_string()],
        allow_headers: Vec::new(),
        allow_methods: Vec::new(),
        expose_headers: Vec::new(),
    };
    assert_eq!(
        resolve_allow_origin(&cors, Some("https://App.Example.com")).as_deref(),
        Some("https://App.Example.com")
    );
    assert!(resolve_allow_origin(&cors, Some("https://other.example.com")).is_none());
    assert!(resolve_allow_origin(&cors, None).is_none());

    let star = CorsConfig {
        enabled: true,
        allow_origins: vec!["*".to_string()],
        allow_headers: Vec::new(),
        allow_methods: Vec::new(),
        expose_headers: Vec::new(),
    };
    assert_eq!(resolve_allow_origin(&star, Some("https://anything.test")).as_deref(), Some("*"));
}

#[test]
fn preflight_plan_fields_match_spec_lists() {
    let cors = CorsConfig {
        enabled: true,
        allow_origins: vec!["*".to_string()],
        allow_headers: vec![" Content-Type ".to_string(), String::new()],
        allow_methods: vec!["get".to_string(), "POST".to_string()],
        expose_headers: Vec::new(),
    };
    let mut headers = HeaderTable::new();
    headers.add("origin", "https://a.test");
    headers.add("access-control-request-method", "delete");
    match build_preflight_response(&cors, Some("https://a.test"), &headers) {
        PreflightPlan::Allowed { allow_origin, allow_methods, allow_headers } => {
            assert_eq!(allow_origin, "*");
            assert_eq!(allow_methods, "GET, POST, DELETE");
            assert_eq!(allow_headers, "content-type");
        }
        PreflightPlan::Forbidden => panic!("star origin should be allowed"),
    }
}

#[test]
fn sse_detection_reads_media_type_only() {
    let mut sse = HeaderTable::new();
    sse.add("content-type", "Text/Event-Stream; charset=utf-8");
    assert!(is_sse_response(&sse));

    let mut plain = HeaderTable::new();
    plain.add("content-type", "application/octet-stream");
    assert!(!is_sse_response(&plain));

    let none = HeaderTable::new();
    assert!(!is_sse_response(&none));
}

#[test]
fn body_deadline_applies_only_to_non_sse() {
    assert_eq!(response_body_deadline(true, 80), None);
    assert_eq!(response_body_deadline(false, 80), Some(80));
}

#[test]
fn upstream_failures_map_to_the_outcome_table() {
    let (status, code, result) = classify_upstream_failure(true, false, false);
    assert_eq!((status, code.as_str(), result.as_str()), (504, "upstream_timeout", "timeout"));
    let (status, code, result) = classify_upstream_failure(false, true, false);
    assert_eq!((status, code.as_str(), result.as_str()), (504, "upstream_timeout", "timeout"));
    let (status, code, result) = classify_upstream_failure(false, false, true);
    assert_eq!(
        (status, code.as_str(), result.as_str()),
        (502, "upstream_connect_error", "connect_error")
    );
    let (status, code, result) = classify_upstream_failure(false, false, false);
    assert_eq!(
        (status, code.as_str(), result.as_str()),
        (502, "upstream_request_failed", "request_error")
    );
}

#[test]
fn upstream_host_label_falls_back_to_unknown() {
    assert_eq!(upstream_host_label("https://api.openai.com/v1/echo"), "api.openai.com");
    assert_eq!(upstream_host_label("not a url"), "unknown");
}

#[test]
fn error_bodies_use_the_fixed_shape() {
    assert_eq!(error_body("unauthorized"), "{\"error\":\"unauthorized\"}");
    assert_eq!(error_body("upstream_timeout"), "{\"error\":\"upstream_timeout\"}");
}

#[test]
fn observation_keeps_runtime_state_well_formed() {
    let mut config = gateway_config(Vec::new());
    config.observability = Some(ai_gw_lite::config::ObservabilityConfig {
        logging: ai_gw_lite::config::LoggingConfig {
            level: "info".to_string(),
            format: ai_gw_lite::config::LogFormat::Json,
            to_stdout: true,
            file: None,
        },
        metrics: ai_gw_lite::config::MetricsConfig {
            enabled: true,
            path: "/metrics".to_string(),
            token: "metrics_token".to_string(),
        },
        tracing: ai_gw_lite::config::TracingConfig {
            enabled: false,
            sample_ratio_millionths: 50_000,
            otlp: None,
        },
    });
    let mut state = RuntimeState::build_runtime_state(config).expect("config is valid");

    let minute = ai_gw_lite::observability::epoch_minute_now();
    state.begin_stream("openai", true, minute);
    state.observe_upstream("openai", "api.openai.com", "ok", 12);
    state.observe_completion(
        "openai",
        Some("gw_***en#43597d91"),
        "POST",
        "success",
        200,
        15,
        minute,
    );
    state.end_stream("openai", true, minute);

    let text = state.encode_metrics().expect("metrics enabled");
    assert!(text.contains("gateway_sse_streams_inflight{route_id=\"openai\"} 0\n"));
    let summary = state.snapshot_summary().expect("metrics enabled");
    assert_eq!(summary.routes.len(), 1);
    assert_eq!(summary.routes[0].requests_1h, 1);
}
