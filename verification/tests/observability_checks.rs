use ai_gw_lite::headers::HeaderTable;
use ai_gw_lite::metrics::GatewayMetrics;
use ai_gw_lite::observability::{
    extract_or_generate_request_id, insert_request_id_header, is_sensitive_header_name,
    is_valid_request_id, metrics_sub_path, normalize_metrics_path, token_label,
    ObservabilityRuntime, SummaryState,
};

#[test]
fn keep_valid_request_id() {
    let mut headers = HeaderTable::new();
    headers.add("x-request-id", "trace-123_abc");

    let request_id = extract_or_generate_request_id(&headers);
    assert_eq!(request_id, "trace-123_abc");
}

#[test]
fn generate_request_id_for_invalid_value() {
    let mut headers = HeaderTable::new();
    headers.add("x-request-id", "bad request id");

    let request_id = extract_or_generate_request_id(&headers);
    assert!(!request_id.is_empty());
    assert_ne!(request_id, "bad request id");
}

#[test]
fn generated_request_id_is_itself_valid() {
    let headers = HeaderTable::new();
    let request_id = extract_or_generate_request_id(&headers);
    assert!(is_valid_request_id(&request_id));
    assert_eq!(request_id.chars().count(), 36);
}

#[test]
fn response_headers_carry_the_chosen_id() {
    let mut inbound = HeaderTable::new();
    inbound.add("x-request-id", "  trace-9  ");
    let chosen = extract_or_generate_request_id(&inbound);
    assert_eq!(chosen, "trace-9");

    let mut response = HeaderTable::new();
    insert_request_id_header(&mut response, &chosen);
    assert_eq!(response.get("x-request-id").map(|v| v.as_str()), Some("trace-9"));
}

#[test]
fn request_id_length_limit_is_128() {
    assert!(is_valid_request_id(&"a".repeat(128)));
    assert!(!is_valid_request_id(&"a".repeat(129)));
    assert!(!is_valid_request_id(""));
    assert!(!is_valid_request_id("with space"));
}

#[test]
fn sensitive_header_detection_works() {
    assert!(is_sensitive_header_name("authorization"));
    assert!(is_sensitive_header_name("X-API-Key"));
    assert!(is_sensitive_header_name("proxy-authorization"));
    assert!(!is_sensitive_header_name("content-type"));
}

#[test]
fn token_label_shapes_follow_token_length() {
    assert_eq!(token_label("gw_token"), "gw_***en#43597d91");
    assert_eq!(token_label("secret-token-123"), "sec***23#164456ac");
    assert_eq!(token_label("gw"), "gw***#b53f74a3");
    assert_eq!(token_label(""), "***#84222325");
}

#[test]
fn token_label_never_contains_the_token() {
    for token in ["secret-token-123", "gw_token_long", "sk-abcdef0123456789"] {
        let label = token_label(token);
        assert!(!label.contains(token), "label {label} leaks token {token}");
    }
}

#[test]
fn metrics_paths_are_normalized_and_extended() {
    assert_eq!(normalize_metrics_path(" /metrics/ "), "/metrics");
    assert_eq!(normalize_metrics_path("/"), "/");
    assert_eq!(metrics_sub_path("/metrics", "summary"), "/metrics/summary");
    assert_eq!(metrics_sub_path("/", "ui"), "/ui");
}

#[test]
fn metrics_endpoint_auth_requires_exact_bearer() {
    let runtime = ObservabilityRuntime {
        metrics_enabled: true,
        metrics_path: Some("/metrics".to_string()),
        metrics_ui_path: Some("/metrics/ui".to_string()),
        metrics_summary_path: Some("/metrics/summary".to_string()),
        metrics_token: Some("metrics_token".to_string()),
    };

    let mut good = HeaderTable::new();
    good.add("authorization", "Bearer metrics_token");
    assert!(runtime.is_metrics_request_authorized(&good));

    let mut wrong = HeaderTable::new();
    wrong.add("authorization", "Bearer other");
    assert!(!runtime.is_metrics_request_authorized(&wrong));

    let empty = HeaderTable::new();
    assert!(!runtime.is_metrics_request_authorized(&empty));
}

#[test]
fn summary_counts_requests_per_route_and_token() {
    let mut summary = SummaryState::new();
    let minute = 1_000_000;
    summary.observe_request("openai", Some("lab***el#00000000"), minute);
    summary.observe_request("openai", Some("lab***el#00000000"), minute);
    summary.observe_request("mistral", None, minute);

    let snapshot = summary.snapshot_at(minute, 42);
    assert_eq!(snapshot.generated_at_unix_ms, 42);
    assert_eq!(snapshot.total_requests_1h, 3);
    assert_eq!(snapshot.total_requests_24h, 3);
    assert_eq!(snapshot.routes.len(), 2);
    assert_eq!(snapshot.routes[0].route_id, "openai");
    assert_eq!(snapshot.routes[0].requests_24h, 2);
    assert_eq!(snapshot.routes[1].route_id, "mistral");
    assert_eq!(snapshot.tokens.len(), 1);
    assert_eq!(snapshot.tokens[0].requests_1h, 2);
}

#[test]
fn summary_prunes_buckets_older_than_a_day() {
    let mut summary = SummaryState::new();
    let early = 1_000_000;
    summary.observe_request("openai", None, early);
    let late = early + 2_000;
    summary.observe_request("mistral", None, late);

    let snapshot = summary.snapshot_at(late, 0);
    assert_eq!(snapshot.routes.len(), 1);
    assert_eq!(snapshot.routes[0].route_id, "mistral");
    assert_eq!(snapshot.total_requests_24h, 1);
}

#[test]
fn summary_orders_routes_by_requests_then_id() {
    let mut summary = SummaryState::new();
    let minute = 2_000_000;
    summary.observe_request("b-route", None, minute);
    summary.observe_request("b-route", None, minute);
    summary.observe_request("a-route", None, minute);
    summary.observe_request("c-route", None, minute);

    let snapshot = summary.snapshot_at(minute, 0);
    let ids: Vec<&str> = snapshot.routes.iter().map(|r| r.route_id.as_str()).collect();
    assert_eq!(ids, vec!["b-route", "a-route", "c-route"]);
}

#[test]
fn summary_tracks_inflight_peaks() {
    let mut summary = SummaryState::new();
    let minute = 3_000_000;
    summary.adjust_inflight("openai", 1, minute);
    summary.adjust_inflight("openai", 1, minute);
    summary.observe_request("openai", None, minute);
    summary.adjust_inflight("openai", -1, minute);

    let snapshot = summary.snapshot_at(minute, 0);
    assert_eq!(snapshot.routes[0].inflight_current, 1);
    assert_eq!(snapshot.routes[0].inflight_peak_1h, 2);
}

#[test]
fn empty_registry_encodes_headers_and_end_marker() {
    let metrics = GatewayMetrics::new();
    let text = metrics.encode();
    let expected = "# HELP gateway_requests_total Total number of handled gateway requests.\n# TYPE gateway_requests_total counter\n# HELP gateway_request_duration_seconds Gateway request duration in seconds.\n# TYPE gateway_request_duration_seconds histogram\n# HELP gateway_upstream_duration_seconds Upstream request duration in seconds.\n# TYPE gateway_upstream_duration_seconds histogram\n# HELP gateway_inflight_requests Current number of in-flight gateway requests.\n# TYPE gateway_inflight_requests gauge\n# HELP gateway_sse_streams_inflight Current number of in-flight SSE streams.\n# TYPE gateway_sse_streams_inflight gauge\n# EOF\n";
    assert_eq!(text, expected);
}

#[test]
fn registry_counts_requests_and_gauges() {
    let mut metrics = GatewayMetrics::new();
    metrics.observe_request("openai", "POST", "success", 200, 3);
    metrics.observe_request("openai", "POST", "success", 200, 7);
    metrics.inc_inflight("openai");

    let text = metrics.encode();
    assert!(text.contains(
        "gateway_requests_total{route_id=\"openai\",method=\"POST\",outcome=\"success\",status_class=\"2xx\"} 2\n"
    ));
    assert!(text.contains(
        "gateway_request_duration_seconds_count{route_id=\"openai\",method=\"POST\",outcome=\"success\"} 2\n"
    ));
    assert!(text.contains(
        "gateway_request_duration_seconds_sum{route_id=\"openai\",method=\"POST\",outcome=\"success\"} 0.010\n"
    ));
    assert!(text.contains("gateway_inflight_requests{route_id=\"openai\"} 1\n"));

    metrics.dec_inflight("openai");
    let text = metrics.encode();
    assert!(text.contains("gateway_inflight_requests{route_id=\"openai\"} 0\n"));
}

#[test]
fn upstream_durations_label_host_and_result() {
    let mut metrics = GatewayMetrics::new();
    metrics.observe_upstream_duration("openai", "api.openai.com", "ok", 40);
    let text = metrics.encode();
    assert!(text.contains(
        "gateway_upstream_duration_seconds_count{route_id=\"openai\",upstream_host=\"api.openai.com\",result=\"ok\"} 1\n"
    ));
}
