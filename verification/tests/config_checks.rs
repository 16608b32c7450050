use ai_gw_lite::cli::{parse_command, CliCommand};
use ai_gw_lite::config::{
    interpolate_env_vars, AppConfig, ConcurrencyConfig, ConfigError, GatewayAuthConfig,
    HeaderInjection, InboundTlsConfig, LogFormat, LoggingConfig, MetricsConfig,
    ObservabilityConfig, RateLimitConfig, RouteConfig, TokenSourceConfig, TracingConfig,
    UpstreamConfig, UpstreamProxyConfig,
};
use ai_gw_lite::install::{quote_systemd_arg, render_service_content};
use ai_gw_lite::runtime::RuntimeState;
use ai_gw_lite::tls::{plan_tls_material, TlsMaterialSource};

fn minimal_config() -> AppConfig {
    AppConfig {
        listen: "127.0.0.1:8080".to_string(),
        gateway_auth: GatewayAuthConfig {
            tokens: vec!["gw_token".to_string()],
            token_sources: vec![TokenSourceConfig::AuthorizationBearer],
        },
        routes: vec![RouteConfig {
            id: "openai".to_string(),
            prefix: "/openai".to_string(),
            upstream: UpstreamConfig {
                base_url: "https://api.openai.com".to_string(),
                strip_prefix: true,
                connect_timeout_ms: 10_000,
                request_timeout_ms: 60_000,
                inject_headers: Vec::new(),
                remove_headers: Vec::new(),
                forward_xff: false,
                proxy: None,
                upstream_key_max_inflight: None,
            },
        }],
        inbound_tls: None,
        cors: None,
        rate_limit: None,
        concurrency: None,
        observability: None,
    }
}

#[test]
fn minimal_config_validates() {
    assert!(minimal_config().validate().is_ok());
}

#[test]
fn reject_duplicate_route_ids_and_prefixes() {
    let mut config = minimal_config();
    config.routes.push(config.routes[0].clone());
    let error = config.validate().expect_err("duplicate routes should fail");
    assert!(matches!(error, ConfigError::Validation(_)));

    let mut config = minimal_config();
    let mut second = config.routes[0].clone();
    second.prefix = "/mistral".to_string();
    config.routes.push(second);
    let error = config.validate().expect_err("duplicate ids should fail");
    assert!(error.message().contains("duplicate route id"));
}

#[test]
fn reject_zero_timeouts_and_rate_limit() {
    let mut config = minimal_config();
    config.routes[0].upstream.connect_timeout_ms = 0;
    assert!(config.validate().is_err());

    let mut config = minimal_config();
    config.rate_limit = Some(RateLimitConfig { per_minute: 0 });
    let error = config.validate().expect_err("zero rate limit should fail");
    assert!(error.message().contains("`rate_limit.per_minute` must be > 0"));
}

#[test]
fn reject_proxy_partial_auth() {
    let mut config = minimal_config();
    config.routes[0].upstream.proxy = Some(UpstreamProxyConfig {
        protocol: ai_gw_lite::config::ProxyProtocol::Http,
        address: "127.0.0.1:8080".to_string(),
        username: Some("proxy-user".to_string()),
        password: None,
    });
    let error = config.validate().expect_err("partial proxy auth should fail");
    assert!(error
        .message()
        .contains("upstream.proxy.username and upstream.proxy.password must be set together"));
}

#[test]
fn reject_upstream_concurrency_without_key_injection() {
    let mut config = minimal_config();
    config.concurrency = Some(ConcurrencyConfig {
        downstream_max_inflight: None,
        upstream_per_key_max_inflight: Some(8),
    });
    let error = config.validate().expect_err("missing key injection should fail");
    assert!(error.message().contains("must configure `upstream.inject_headers` with one of"));
    assert_eq!(
        error.message(),
        "config validation error: route `openai` must configure `upstream.inject_headers` \
         with one of [\"authorization\", \"x-api-key\"] when upstream key concurrency is enabled"
    );

    config.routes[0].upstream.inject_headers = vec![HeaderInjection {
        name: "x-api-key".to_string(),
        value: "key-a".to_string(),
    }];
    assert!(config.validate().is_ok());
}

#[test]
fn reject_tls_partial_cert_key() {
    let mut config = minimal_config();
    config.inbound_tls = Some(InboundTlsConfig {
        cert_path: Some("./tls/server.crt".to_string()),
        key_path: None,
        self_signed_cert_path: "certs/gateway-selfsigned.crt".to_string(),
        self_signed_key_path: "certs/gateway-selfsigned.key".to_string(),
    });
    let error = config.validate().expect_err("partial tls should fail");
    assert!(error
        .message()
        .contains("`inbound_tls.cert_path` and `inbound_tls.key_path` must be set together"));
}

fn observability(metrics_enabled: bool, token: &str, sample_ratio_millionths: u64) -> ObservabilityConfig {
    ObservabilityConfig {
        logging: LoggingConfig {
            level: "info".to_string(),
            format: LogFormat::Json,
            to_stdout: true,
            file: None,
        },
        metrics: MetricsConfig {
            enabled: metrics_enabled,
            path: "/metrics".to_string(),
            token: token.to_string(),
        },
        tracing: TracingConfig { enabled: false, sample_ratio_millionths, otlp: None },
    }
}

#[test]
fn reject_enabled_metrics_without_token_value() {
    let mut config = minimal_config();
    config.observability = Some(observability(true, "", 50_000));
    let error = config.validate().expect_err("metrics without token should fail");
    assert!(error.message().contains("`observability.metrics.token` must not be empty"));
}

#[test]
fn reject_out_of_range_sample_ratio() {
    let mut config = minimal_config();
    config.observability = Some(observability(false, "", 1_200_000));
    let error = config.validate().expect_err("ratio above one should fail");
    assert!(error.message().contains("sample_ratio"));
}

#[test]
fn reject_metrics_path_conflicting_with_health() {
    let mut config = minimal_config();
    let mut obs = observability(false, "", 50_000);
    obs.metrics.path = "/healthz".to_string();
    config.observability = Some(obs);
    assert!(config.validate().is_err());
}

#[test]
fn build_runtime_state_succeeds_iff_validate_does() {
    let good = minimal_config();
    assert!(good.validate().is_ok());
    assert!(RuntimeState::build_runtime_state(good).is_ok());

    let mut bad = minimal_config();
    bad.gateway_auth.tokens.clear();
    assert!(bad.validate().is_err());
    assert!(RuntimeState::build_runtime_state(bad).is_err());
}

#[test]
fn interpolation_replaces_bound_names() {
    let env = vec![("NAME".to_string(), "value".to_string())];
    let out = interpolate_env_vars("a ${NAME} b", &env).expect("interpolation should succeed");
    assert_eq!(out, "a value b");

    let out = interpolate_env_vars("plain $dollar", &env).expect("literal dollar is kept");
    assert_eq!(out, "plain $dollar");
}

#[test]
fn interpolation_rejects_unterminated_and_missing() {
    let env = vec![("NAME".to_string(), "value".to_string())];
    let error = interpolate_env_vars("a ${NAME", &env).expect_err("unterminated should fail");
    assert!(error.message().contains("unterminated"));

    let error = interpolate_env_vars("a ${OTHER}", &env).expect_err("missing name should fail");
    assert!(error.message().contains("missing environment variable `OTHER`"));

    let error = interpolate_env_vars("a ${}", &env).expect_err("empty name should fail");
    assert!(error.message().contains("empty environment variable name"));
}

#[test]
fn parse_run_command() {
    let args = vec!["--config".to_string(), "/tmp/conf.yaml".to_string()];
    assert_eq!(
        parse_command(&args).expect("command should parse"),
        CliCommand::Run { config_path: "/tmp/conf.yaml".to_string() }
    );
}

#[test]
fn parse_install_command() {
    let args = vec!["--install".to_string()];
    assert_eq!(parse_command(&args).expect("command should parse"), CliCommand::Install);
}

#[test]
fn reject_mixed_command() {
    let args = vec![
        "--install".to_string(),
        "--config".to_string(),
        "/tmp/conf.yaml".to_string(),
    ];
    let err = parse_command(&args).expect_err("command should be rejected");
    assert!(err.contains("invalid arguments"));
}

#[test]
fn service_content_points_to_fixed_config_path() {
    let rendered = render_service_content("/opt/ai-gw-lite/ai-gw-lite");
    assert!(rendered
        .contains("ExecStart=/opt/ai-gw-lite/ai-gw-lite --config /etc/ai_gw_lite/conf.yaml"));
    assert!(rendered.contains("WorkingDirectory=/etc/ai_gw_lite"));
}

#[test]
fn service_content_quotes_paths_with_space() {
    let rendered = render_service_content("/opt/my gateway/ai-gw-lite");
    assert!(rendered
        .contains("ExecStart=\"/opt/my gateway/ai-gw-lite\" --config /etc/ai_gw_lite/conf.yaml"));
}

#[test]
fn systemd_quoting_escapes_embedded_quotes() {
    assert_eq!(quote_systemd_arg("plain"), "plain");
    assert_eq!(quote_systemd_arg("has space"), "\"has space\"");
    assert_eq!(quote_systemd_arg("a \"b\""), "\"a \\\"b\\\"\"");
}

#[test]
fn tls_plan_prefers_provided_paths() {
    let tls = InboundTlsConfig {
        cert_path: Some("custom/server.crt".to_string()),
        key_path: Some("custom/server.key".to_string()),
        self_signed_cert_path: "certs/self.crt".to_string(),
        self_signed_key_path: "certs/self.key".to_string(),
    };
    let (paths, source) = plan_tls_material(&tls, false, false).expect("paths should resolve");
    assert_eq!(source, TlsMaterialSource::Provided);
    assert_eq!(paths.cert_path, "custom/server.crt");
    assert_eq!(paths.key_path, "custom/server.key");
}

#[test]
fn tls_plan_decides_between_existing_and_generated() {
    let tls = InboundTlsConfig {
        cert_path: None,
        key_path: None,
        self_signed_cert_path: " certs/self.crt ".to_string(),
        self_signed_key_path: "certs/self.key".to_string(),
    };
    let (paths, source) = plan_tls_material(&tls, true, true).expect("existing pair resolves");
    assert_eq!(source, TlsMaterialSource::ExistingSelfSigned);
    assert_eq!(paths.cert_path, "certs/self.crt");

    let (_, source) = plan_tls_material(&tls, false, false).expect("missing pair is generated");
    assert_eq!(source, TlsMaterialSource::GeneratedSelfSigned);

    assert!(plan_tls_material(&tls, true, false).is_err());
}

#[test]
fn otlp_endpoint_must_parse_as_url() {
    let mut config = minimal_config();
    let mut obs = observability(false, "", 50_000);
    obs.tracing.otlp = Some(ai_gw_lite::config::OtlpConfig {
        endpoint: "http://127.0.0.1:4317".to_string(),
        timeout_ms: 5_000,
    });
    config.observability = Some(obs.clone());
    assert!(config.validate().is_ok());

    obs.tracing.otlp = Some(ai_gw_lite::config::OtlpConfig {
        endpoint: "not a url".to_string(),
        timeout_ms: 5_000,
    });
    config.observability = Some(obs);
    let error = config.validate().expect_err("unparseable endpoint should fail");
    assert!(error.message().contains("must be a valid URL"));
}

#[test]
fn systemd_values_double_percent_signs() {
    assert_eq!(ai_gw_lite::install::escape_systemd_value("50%"), "50%%");
    assert_eq!(ai_gw_lite::install::escape_systemd_value("plain"), "plain");
}
