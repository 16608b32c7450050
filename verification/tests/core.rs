use ai_gw_lite::auth::{extract_authorized_token, extract_token, is_authorized, parse_bearer_token};
use ai_gw_lite::concurrency::{ConcurrencyController, ConcurrencyError};
use ai_gw_lite::config::{
    AppConfig, ConcurrencyConfig, GatewayAuthConfig, HeaderInjection, RouteConfig,
    TokenSourceConfig, UpstreamConfig,
};
use ai_gw_lite::headers::HeaderTable;
use ai_gw_lite::proxy::{
    build_upstream_url, build_upstream_url_for_route, match_route, path_matches_prefix,
    prepare_upstream_headers, rewrite_path, sanitize_response_headers,
};
use ai_gw_lite::ratelimit::{RateLimitDecision, RateLimiter};

fn minimal_upstream() -> UpstreamConfig {
    UpstreamConfig {
        base_url: "https://api.openai.com".to_string(),
        strip_prefix: true,
        connect_timeout_ms: 10_000,
        request_timeout_ms: 60_000,
        inject_headers: Vec::new(),
        remove_headers: Vec::new(),
        forward_xff: false,
        proxy: None,
        upstream_key_max_inflight: None,
    }
}

fn route(id: &str, prefix: &str, upstream: UpstreamConfig) -> RouteConfig {
    RouteConfig { id: id.to_string(), prefix: prefix.to_string(), upstream }
}

#[test]
fn match_longest_prefix() {
    let routes = vec![
        route("root", "/openai", minimal_upstream()),
        route("nested", "/openai/v1", minimal_upstream()),
    ];

    let matched = match_route("/openai/v1/models", &routes).expect("route should match");
    assert_eq!(matched.id, "nested");
}

#[test]
fn prevent_prefix_boundary_false_match() {
    let r = route("openai", "/openai", minimal_upstream());

    assert!(build_upstream_url_for_route(&r, "/openai/v1/models", None).is_some());
    assert!(build_upstream_url_for_route(&r, "/openai2/v1/models", None).is_none());
}

#[test]
fn rewrite_path_root_when_exact_prefix() {
    let path = rewrite_path("/openai", "/openai", true);
    assert_eq!(path, "/");
}

#[test]
fn path_predicate_requires_boundary() {
    assert!(path_matches_prefix("/openai/v1", "/openai"));
    assert!(path_matches_prefix("/openai", "/openai"));
    assert!(!path_matches_prefix("/openai2", "/openai"));
    assert!(path_matches_prefix("/anything", "/"));
    assert!(!path_matches_prefix("relative", "/"));
}

#[test]
fn rewrite_path_round_trips_prefix_and_rest() {
    assert_eq!(rewrite_path("/openai/x", "/openai", true), "/x");
    assert_eq!(rewrite_path("/openai/x", "/openai", false), "/openai/x");
    assert_eq!(rewrite_path("/other/x", "/openai", true), "/other/x");
}

#[test]
fn upstream_url_trims_base_and_appends_query() {
    assert_eq!(
        build_upstream_url("https://api.openai.com/", "/v1/echo", Some("mode=test")),
        "https://api.openai.com/v1/echo?mode=test"
    );
    assert_eq!(build_upstream_url("https://api.openai.com", "/", None), "https://api.openai.com/");
    assert_eq!(build_upstream_url("https://api.openai.com", "/x", Some("")), "https://api.openai.com/x");
}

#[test]
fn remove_hop_and_override_injected_headers() {
    let mut inbound = HeaderTable::new();
    inbound.add("connection", "keep-alive");
    inbound.add("authorization", "Bearer from-client");
    inbound.add("x-forwarded-for", "1.2.3.4");

    let upstream = UpstreamConfig {
        base_url: "https://api.openai.com".to_string(),
        strip_prefix: true,
        connect_timeout_ms: 10_000,
        request_timeout_ms: 60_000,
        inject_headers: vec![HeaderInjection {
            name: "authorization".to_string(),
            value: "Bearer injected".to_string(),
        }],
        remove_headers: vec!["authorization".to_string()],
        forward_xff: false,
        proxy: None,
        upstream_key_max_inflight: None,
    };

    let outbound = prepare_upstream_headers(&inbound, &upstream).expect("headers are valid");
    assert!(outbound.get("connection").is_none());
    assert!(outbound.get("x-forwarded-for").is_none());
    assert_eq!(outbound.get("authorization").map(|v| v.as_str()), Some("Bearer injected"));
}

#[test]
fn reject_invalid_injected_header_name() {
    let inbound = HeaderTable::new();
    let mut upstream = minimal_upstream();
    upstream.inject_headers = vec![HeaderInjection {
        name: "bad header".to_string(),
        value: "x".to_string(),
    }];
    assert!(prepare_upstream_headers(&inbound, &upstream).is_err());
}

#[test]
fn reject_invalid_injected_header_value() {
    let inbound = HeaderTable::new();
    let mut upstream = minimal_upstream();
    upstream.inject_headers = vec![HeaderInjection {
        name: "x-marker".to_string(),
        value: "bad\u{7f}value".to_string(),
    }];
    assert!(prepare_upstream_headers(&inbound, &upstream).is_err());
}

#[test]
fn remove_hop_by_hop_from_response_headers() {
    let mut upstream_headers = HeaderTable::new();
    upstream_headers.add("connection", "keep-alive");
    upstream_headers.add("upgrade", "websocket");
    upstream_headers.add("x-upstream-ok", "1");

    let sanitized = sanitize_response_headers(&upstream_headers);
    assert!(sanitized.get("connection").is_none());
    assert!(sanitized.get("upgrade").is_none());
    assert_eq!(sanitized.get("x-upstream-ok").map(|v| v.as_str()), Some("1"));
}

#[test]
fn extract_bearer_token() {
    let mut headers = HeaderTable::new();
    headers.add("authorization", "Bearer gw_token");

    let sources = vec![TokenSourceConfig::AuthorizationBearer];
    let token = extract_token(&headers, &sources);
    assert_eq!(token.as_deref(), Some("gw_token"));
}

#[test]
fn fallback_to_custom_header() {
    let mut headers = HeaderTable::new();
    headers.add("x-gw-token", "fallback_token");

    let sources = vec![
        TokenSourceConfig::AuthorizationBearer,
        TokenSourceConfig::Header { name: "x-gw-token".to_string() },
    ];
    let token = extract_token(&headers, &sources);

    assert_eq!(token.as_deref(), Some("fallback_token"));
}

#[test]
fn authorize_with_allowlist_token() {
    let mut headers = HeaderTable::new();
    headers.add("authorization", "Bearer gw_token");

    let auth = GatewayAuthConfig {
        tokens: vec!["gw_token".to_string()],
        token_sources: vec![TokenSourceConfig::AuthorizationBearer],
    };

    assert!(is_authorized(&headers, &auth));
    assert_eq!(extract_authorized_token(&headers, &auth).as_deref(), Some("gw_token"));
}

#[test]
fn bearer_scheme_case_and_whitespace_are_tolerated() {
    assert_eq!(parse_bearer_token("Bearer gw").as_deref(), Some("gw"));
    assert_eq!(parse_bearer_token("bEaReR gw").as_deref(), Some("gw"));
    assert_eq!(parse_bearer_token("  Bearer   gw  ").as_deref(), Some("gw"));
    assert!(parse_bearer_token("Basic gw").is_none());
    assert!(parse_bearer_token("Bearer  ").is_none());

    let mut headers = HeaderTable::new();
    headers.add("authorization", "Bearer GW");
    let auth = GatewayAuthConfig {
        tokens: vec!["gw".to_string()],
        token_sources: vec![TokenSourceConfig::AuthorizationBearer],
    };
    assert!(!is_authorized(&headers, &auth), "token comparison is case-sensitive");
}

#[test]
fn allows_until_limit_then_rejects() {
    let mut limiter = RateLimiter::new(2);
    let now = 1_700_000_040;

    assert!(matches!(
        limiter.check_at_epoch_seconds("gw_token", "openai", now),
        RateLimitDecision::Allowed
    ));
    assert!(matches!(
        limiter.check_at_epoch_seconds("gw_token", "openai", now),
        RateLimitDecision::Allowed
    ));

    match limiter.check_at_epoch_seconds("gw_token", "openai", now) {
        RateLimitDecision::Rejected { retry_after_secs } => {
            assert!((1..=60).contains(&retry_after_secs));
        }
        RateLimitDecision::Allowed => panic!("third request should be rejected"),
    }
}

#[test]
fn separates_counters_by_route_and_token() {
    let mut limiter = RateLimiter::new(1);
    let now = 1_700_000_040;

    assert!(matches!(
        limiter.check_at_epoch_seconds("gw_token_a", "openai", now),
        RateLimitDecision::Allowed
    ));
    assert!(matches!(
        limiter.check_at_epoch_seconds("gw_token_b", "openai", now),
        RateLimitDecision::Allowed
    ));
    assert!(matches!(
        limiter.check_at_epoch_seconds("gw_token_a", "mistral", now),
        RateLimitDecision::Allowed
    ));
}

#[test]
fn rotates_window_every_minute() {
    let mut limiter = RateLimiter::new(1);
    let t1 = 1_700_000_040;
    let t2 = t1 + 61;

    assert!(matches!(
        limiter.check_at_epoch_seconds("gw_token", "openai", t1),
        RateLimitDecision::Allowed
    ));
    assert!(matches!(
        limiter.check_at_epoch_seconds("gw_token", "openai", t2),
        RateLimitDecision::Allowed
    ));
}

#[test]
fn retry_after_is_seconds_until_next_minute() {
    assert_eq!(ai_gw_lite::ratelimit::retry_after_seconds(1_700_000_047), 53);
    assert_eq!(ai_gw_lite::ratelimit::retry_after_seconds(1_700_000_040), 60);
}

fn config_with_limits(
    downstream_limit: Option<usize>,
    upstream_limit: Option<usize>,
    route_upstream_limit: Option<usize>,
    inject_headers: Vec<HeaderInjection>,
) -> AppConfig {
    AppConfig {
        listen: "127.0.0.1:8080".to_string(),
        gateway_auth: GatewayAuthConfig {
            tokens: vec!["gw_token".to_string()],
            token_sources: vec![TokenSourceConfig::AuthorizationBearer],
        },
        routes: vec![RouteConfig {
            id: "openai".to_string(),
            prefix: "/openai".to_string(),
            upstream: UpstreamConfig {
                base_url: "https://api.openai.com".to_string(),
                strip_prefix: true,
                connect_timeout_ms: 10_000,
                request_timeout_ms: 60_000,
                inject_headers,
                remove_headers: Vec::new(),
                forward_xff: false,
                proxy: None,
                upstream_key_max_inflight: route_upstream_limit,
            },
        }],
        inbound_tls: None,
        cors: None,
        rate_limit: None,
        concurrency: Some(ConcurrencyConfig {
            downstream_max_inflight: downstream_limit,
            upstream_per_key_max_inflight: upstream_limit,
        }),
        observability: None,
    }
}

#[test]
fn downstream_limit_rejects_when_full() {
    let config = config_with_limits(
        Some(1),
        Some(1),
        None,
        vec![HeaderInjection { name: "x-api-key".to_string(), value: "key-a".to_string() }],
    );
    let mut controller = ConcurrencyController::new(&config).expect("controller should exist");

    let first = controller
        .acquire_downstream()
        .expect("first downstream permit should succeed");
    assert!(first, "permit should exist");
    let second = controller.acquire_downstream();

    assert!(matches!(second, Err(ConcurrencyError::DownstreamLimitExceeded)));
    controller.release_downstream();
}

#[test]
fn upstream_limit_is_per_key() {
    let mut config = config_with_limits(
        None,
        Some(1),
        None,
        vec![HeaderInjection { name: "x-api-key".to_string(), value: "key-a".to_string() }],
    );
    config.routes.push(RouteConfig {
        id: "anthropic".to_string(),
        prefix: "/mistral".to_string(),
        upstream: UpstreamConfig {
            base_url: "https://api.anthropic.com".to_string(),
            strip_prefix: true,
            connect_timeout_ms: 10_000,
            request_timeout_ms: 60_000,
            inject_headers: vec![HeaderInjection {
                name: "x-api-key".to_string(),
                value: "key-b".to_string(),
            }],
            remove_headers: Vec::new(),
            forward_xff: false,
            proxy: None,
            upstream_key_max_inflight: None,
        },
    });
    let mut controller = ConcurrencyController::new(&config).expect("controller should exist");
    let route_a = config.routes.remove(0);
    let route_b = config.routes.remove(0);

    let first = controller
        .acquire_upstream(&route_a)
        .expect("first key-a permit should succeed")
        .expect("permit should exist");

    let second_same_key = controller.acquire_upstream(&route_a);
    assert!(matches!(second_same_key, Err(ConcurrencyError::UpstreamLimitExceeded)));

    let second_different_key = controller
        .acquire_upstream(&route_b)
        .expect("key-b permit should succeed")
        .expect("permit should exist");

    controller.release_upstream(first);
    controller.release_upstream(second_different_key);
}

#[test]
fn route_override_limit_works_without_global_upstream_limit() {
    let mut config = config_with_limits(
        None,
        None,
        Some(1),
        vec![HeaderInjection { name: "x-api-key".to_string(), value: "route-key".to_string() }],
    );
    let mut controller = ConcurrencyController::new(&config).expect("controller should exist");
    let route_only = config.routes.remove(0);

    let first = controller
        .acquire_upstream(&route_only)
        .expect("first permit should succeed")
        .expect("permit should exist");
    let second = controller.acquire_upstream(&route_only);
    assert!(matches!(second, Err(ConcurrencyError::UpstreamLimitExceeded)));
    controller.release_upstream(first);
}

#[test]
fn permits_released_restore_capacity() {
    let config = config_with_limits(
        Some(1),
        Some(1),
        None,
        vec![HeaderInjection { name: "x-api-key".to_string(), value: "key-a".to_string() }],
    );
    let mut controller = ConcurrencyController::new(&config).expect("controller should exist");
    let route_only = &config.routes[0];

    for _ in 0..3 {
        assert!(controller.acquire_downstream().expect("downstream permit"));
        let idx = controller
            .acquire_upstream(route_only)
            .expect("upstream permit")
            .expect("permit should exist");
        controller.release_upstream(idx);
        controller.release_downstream();
    }
}

#[test]
fn later_route_wins_prefix_ties() {
    let routes = vec![
        route("first", "/api", minimal_upstream()),
        route("second", "/api", minimal_upstream()),
    ];
    let matched = match_route("/api/x", &routes).expect("route should match");
    assert_eq!(matched.id, "second");
}

#[test]
fn upstream_key_prefers_injected_authorization() {
    let mut r = route("openai", "/openai", minimal_upstream());
    r.upstream.inject_headers = vec![
        HeaderInjection { name: "x-api-key".to_string(), value: "key-a".to_string() },
        HeaderInjection { name: "Authorization".to_string(), value: "Bearer INJ".to_string() },
    ];
    let key = ai_gw_lite::concurrency::extract_upstream_key_from_injected_headers(&r);
    assert_eq!(key.as_deref(), Some("authorization:INJ"));

    r.upstream.inject_headers = vec![HeaderInjection {
        name: "authorization".to_string(),
        value: "raw-token".to_string(),
    }];
    let key = ai_gw_lite::concurrency::extract_upstream_key_from_injected_headers(&r);
    assert_eq!(key.as_deref(), Some("authorization:raw-token"));

    r.upstream.inject_headers = vec![
        HeaderInjection { name: "x-api-key".to_string(), value: "key-a".to_string() },
        HeaderInjection { name: "x-api-key".to_string(), value: "key-b".to_string() },
    ];
    let key = ai_gw_lite::concurrency::extract_upstream_key_from_injected_headers(&r);
    assert_eq!(key.as_deref(), Some("x-api-key:key-b"), "the last injection wins");

    r.upstream.inject_headers = Vec::new();
    assert!(ai_gw_lite::concurrency::extract_upstream_key_from_injected_headers(&r).is_none());
}

#[test]
fn fingerprint_is_stable_per_input() {
    let a = ai_gw_lite::concurrency::fingerprint("authorization:INJ");
    let b = ai_gw_lite::concurrency::fingerprint("authorization:INJ");
    let c = ai_gw_lite::concurrency::fingerprint("x-api-key:key-a");
    assert_eq!(a, b);
    assert_ne!(a, c);
}
