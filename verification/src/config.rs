//! Gateway configuration: the validated data model and its invariants.
//!
//! Parsing the YAML text into these structures is outside work; this
//! module owns the shape of the configuration, the defaults, the
//! `${NAME}` interpolation rule and the `validate` decision, with
//! `validate`'s contract saying exactly which configurations pass.

use crate::text::{is_space, lower_seq, trim_seq};
use vstd::prelude::*;

verus! {

#[derive(Debug, Clone)]
pub struct AppConfig {
    pub listen: String,
    pub gateway_auth: GatewayAuthConfig,
    pub routes: Vec<RouteConfig>,
    pub inbound_tls: Option<InboundTlsConfig>,
    pub cors: Option<CorsConfig>,
    pub rate_limit: Option<RateLimitConfig>,
    pub concurrency: Option<ConcurrencyConfig>,
    pub observability: Option<ObservabilityConfig>,
}

#[derive(Debug, Clone)]
pub struct GatewayAuthConfig {
    pub tokens: Vec<String>,
    pub token_sources: Vec<TokenSourceConfig>,
}

#[derive(Debug, Clone)]
pub enum TokenSourceConfig {
    AuthorizationBearer,
    Header { name: String },
}

#[derive(Debug, Clone)]
pub struct RouteConfig {
    pub id: String,
    pub prefix: String,
    pub upstream: UpstreamConfig,
}

#[derive(Debug, Clone)]
pub struct UpstreamConfig {
    pub base_url: String,
    pub strip_prefix: bool,
    pub connect_timeout_ms: u64,
    pub request_timeout_ms: u64,
    pub inject_headers: Vec<HeaderInjection>,
    pub remove_headers: Vec<String>,
    pub forward_xff: bool,
    pub proxy: Option<UpstreamProxyConfig>,
    pub upstream_key_max_inflight: Option<usize>,
}

#[derive(Debug, Clone)]
pub struct HeaderInjection {
    pub name: String,
    pub value: String,
}

#[derive(Debug, Clone)]
pub struct UpstreamProxyConfig {
    pub protocol: ProxyProtocol,
    pub address: String,
    pub username: Option<String>,
    pub password: Option<String>,
}

#[derive(Debug, Clone, PartialEq, Eq, Structural)]
pub enum ProxyProtocol {
    Http,
    Https,
    Socks,
}

#[derive(Debug, Clone)]
pub struct InboundTlsConfig {
    pub cert_path: Option<String>,
    pub key_path: Option<String>,
    pub self_signed_cert_path: String,
    pub self_signed_key_path: String,
}

#[derive(Debug, Clone)]
pub struct CorsConfig {
    pub enabled: bool,
    pub allow_origins: Vec<String>,
    pub allow_headers: Vec<String>,
    pub allow_methods: Vec<String>,
    pub expose_headers: Vec<String>,
}

#[derive(Debug, Clone)]
pub struct RateLimitConfig {
    pub per_minute: u64,
}

#[derive(Debug, Clone)]
pub struct ConcurrencyConfig {
    pub downstream_max_inflight: Option<usize>,
    pub upstream_per_key_max_inflight: Option<usize>,
}

#[derive(Debug, Clone)]
pub struct ObservabilityConfig {
    pub logging: LoggingConfig,
    pub metrics: MetricsConfig,
    pub tracing: TracingConfig,
}

#[derive(Debug, Clone)]
pub struct LoggingConfig {
    pub level: String,
    pub format: LogFormat,
    pub to_stdout: bool,
    pub file: Option<LogFileConfig>,
}

#[derive(Debug, Clone, PartialEq, Eq, Structural)]
pub enum LogFormat {
    Json,
    Text,
}

#[derive(Debug, Clone)]
pub struct LogFileConfig {
    pub enabled: bool,
    pub dir: String,
    pub prefix: String,
    pub rotation: LogRotation,
    pub max_files: usize,
}

#[derive(Debug, Clone, PartialEq, Eq, Structural)]
pub enum LogRotation {
    Minutely,
    Hourly,
    Daily,
    Never,
}

#[derive(Debug, Clone)]
pub struct MetricsConfig {
    pub enabled: bool,
    pub path: String,
    pub token: String,
}

/// Trace sampling is configured as a ratio in `[0, 1]`; it is held here
/// in millionths, so `1_000_000` stands for sampling everything.
#[derive(Debug, Clone)]
pub struct TracingConfig {
    pub enabled: bool,
    pub sample_ratio_millionths: u64,
    pub otlp: Option<OtlpConfig>,
}

#[derive(Debug, Clone)]
pub struct OtlpConfig {
    pub endpoint: String,
    pub timeout_ms: u64,
}

#[derive(Debug, Clone)]
pub enum ConfigError {
    MissingEnvVar(String),
    Validation(String),
}

pub const SAMPLE_RATIO_ONE: u64 = 1_000_000;

impl ConfigError {
    /// Human-readable description, in the same wording for each variant.
    pub fn message(&self) -> (r: String)
        ensures
            match self {
                ConfigError::MissingEnvVar(name) => r@ == "missing environment variable `"@
                    + name@ + "`"@,
                ConfigError::Validation(msg) => r@ == "config validation error: "@ + msg@,
            },
    {
        match self {
            ConfigError::MissingEnvVar(name) => {
                let mut m = String::from_str("missing environment variable `");
                m.append(name.as_str());
                m.append("`");
                m
            },
            ConfigError::Validation(msg) => {
                let mut m = String::from_str("config validation error: ");
                m.append(msg.as_str());
                m
            },
        }
    }
}

/// Every character is ASCII whitespace; what `trim` reduces to nothing.
pub open spec fn is_blank(s: Seq<char>) -> bool {
    forall|i: int| 0 <= i < s.len() ==> is_space(s[i])
}

/// Whether the string trims to nothing.
pub fn str_is_blank(s: &str) -> (r: bool)
    ensures
        r == is_blank(s@),
{
    let n = s.unicode_len();
    let mut i: usize = 0;
    while i < n
        invariant
            n == s@.len(),
            i <= n,
            forall|j: int| 0 <= j < i ==> is_space(s@[j]),
        decreases n - i,
    {
        let c = s.get_char(i);
        if !(c == ' ' || c == '\t' || c == '\r' || c == '\n') {
            return false;
        }
        i = i + 1;
    }
    true
}

/// Header names whose injected value serves as the upstream key.
pub open spec fn spec_is_upstream_key_header(name: Seq<char>) -> bool {
    lower_seq(trim_seq(name)) == lower_seq("authorization"@) || lower_seq(trim_seq(name))
        == lower_seq("x-api-key"@)
}

/// The route injects a non-blank value under one of the upstream key
/// header names.
pub open spec fn spec_route_has_upstream_key_injection(r: RouteConfig) -> bool {
    exists|i: int|
        0 <= i < r.upstream.inject_headers@.len() && spec_is_upstream_key_header(
            #[trigger] r.upstream.inject_headers@[i].name@,
        ) && !is_blank(r.upstream.inject_headers@[i].value@)
}

/// Whether the route injects upstream key material (`authorization` or
/// `x-api-key` with a non-blank value).
pub fn route_has_upstream_key_injection(route: &RouteConfig) -> (r: bool)
    ensures
        r == spec_route_has_upstream_key_injection(*route),
{
    let n = route.upstream.inject_headers.len();
    let mut i: usize = 0;
    while i < n
        invariant
            n == route.upstream.inject_headers@.len(),
            i <= n,
            forall|j: int|
                0 <= j < i ==> !(spec_is_upstream_key_header(
                    #[trigger] route.upstream.inject_headers@[j].name@,
                ) && !is_blank(route.upstream.inject_headers@[j].value@)),
        decreases n - i,
    {
        let header = &route.upstream.inject_headers[i];
        let trimmed = crate::text::trim(header.name.as_str());
        let is_key_name = crate::text::eq_ignore_case(trimmed.as_str(), "authorization")
            || crate::text::eq_ignore_case(trimmed.as_str(), "x-api-key");
        if is_key_name && !str_is_blank(header.value.as_str()) {
            return true;
        }
        i = i + 1;
    }
    false
}

/// A syntactically valid URL by the HTTP client's parser; used for the
/// OTLP endpoint check.
pub uninterp spec fn url_parseable(s: Seq<char>) -> bool;

/// Relies on `reqwest::Url::parse`: whether the text parses as a URL.
/// The outcome depends on the text alone.
#[verifier::external_body]
fn parses_as_url(s: &str) -> (r: bool)
    ensures
        r == url_parseable(s@),
{
    reqwest::Url::parse(s).is_ok()
}

pub open spec fn spec_proxy_valid(p: UpstreamProxyConfig) -> bool {
    &&& !is_blank(p.address@)
    &&& match (p.username, p.password) {
        (Some(u), Some(w)) => !is_blank(u@) && !is_blank(w@),
        (None, None) => true,
        _ => false,
    }
}

pub open spec fn spec_route_valid(r: RouteConfig) -> bool {
    &&& !is_blank(r.id@)
    &&& r.prefix@.len() > 0 && r.prefix@[0] == '/'
    &&& !(r.prefix@.len() > 1 && r.prefix@[r.prefix@.len() - 1] == '/')
    &&& !is_blank(r.upstream.base_url@)
    &&& r.upstream.connect_timeout_ms > 0
    &&& r.upstream.request_timeout_ms > 0
    &&& (r.upstream.upstream_key_max_inflight matches Some(l) ==> l > 0)
    &&& (r.upstream.proxy matches Some(p) ==> spec_proxy_valid(p))
    &&& forall|i: int|
        0 <= i < r.upstream.inject_headers@.len() ==> !is_blank(
            #[trigger] r.upstream.inject_headers@[i].name@,
        )
}

pub open spec fn spec_routes_unique(routes: Seq<RouteConfig>) -> bool {
    forall|i: int, j: int|
        0 <= i < j < routes.len() ==> #[trigger] routes[i].id@ != #[trigger] routes[j].id@
            && routes[i].prefix@ != routes[j].prefix@
}

/// Global or per-route upstream-key concurrency is configured.
pub open spec fn spec_has_global_upstream_key_limit(c: AppConfig) -> bool {
    c.concurrency matches Some(cc) && cc.upstream_per_key_max_inflight is Some
}

pub open spec fn spec_route_needs_key_injection(c: AppConfig, r: RouteConfig) -> bool {
    spec_has_global_upstream_key_limit(c) || r.upstream.upstream_key_max_inflight is Some
}

pub open spec fn spec_tls_valid(t: InboundTlsConfig) -> bool {
    &&& (t.cert_path matches Some(p) ==> !is_blank(p@))
    &&& (t.key_path matches Some(p) ==> !is_blank(p@))
    &&& !is_blank(t.self_signed_cert_path@)
    &&& !is_blank(t.self_signed_key_path@)
    &&& (t.cert_path is Some <==> t.key_path is Some)
}

pub open spec fn spec_observability_valid(o: ObservabilityConfig) -> bool {
    &&& !is_blank(o.logging.level@)
    &&& (o.logging.to_stdout || (o.logging.file matches Some(f) && f.enabled))
    &&& (match o.logging.file {
        Some(f) => f.enabled ==> !is_blank(f.dir@) && !is_blank(f.prefix@) && f.max_files > 0,
        None => true,
    })
    &&& o.metrics.path@.len() > 0 && o.metrics.path@[0] == '/'
    &&& o.metrics.path@ != "/healthz"@
    &&& (o.metrics.enabled ==> !is_blank(o.metrics.token@))
    &&& o.tracing.sample_ratio_millionths <= SAMPLE_RATIO_ONE
    &&& (match o.tracing.otlp {
        Some(otlp) => !is_blank(otlp.endpoint@) && url_parseable(trim_seq(otlp.endpoint@))
            && otlp.timeout_ms > 0,
        None => true,
    })
}

/// Every route that uses upstream-key concurrency injects key
/// material.
pub open spec fn spec_key_injection_ok(c: AppConfig) -> bool {
    forall|i: int|
        0 <= i < c.routes@.len() && spec_route_needs_key_injection(c, #[trigger] c.routes@[i])
            ==> spec_route_has_upstream_key_injection(c.routes@[i])
}

/// Everything `validate` checks apart from the key-injection rule.
pub open spec fn spec_config_base_valid(c: AppConfig) -> bool {
    &&& !is_blank(c.listen@)
    &&& c.gateway_auth.tokens@.len() > 0
    &&& forall|i: int|
        0 <= i < c.gateway_auth.tokens@.len() ==> !is_blank(#[trigger] c.gateway_auth.tokens@[i]@)
    &&& c.routes@.len() > 0
    &&& forall|i: int| 0 <= i < c.routes@.len() ==> spec_route_valid(#[trigger] c.routes@[i])
    &&& spec_routes_unique(c.routes@)
    &&& (c.rate_limit matches Some(rl) ==> rl.per_minute > 0)
    &&& (c.concurrency matches Some(cc) ==> {
        &&& (cc.downstream_max_inflight matches Some(l) ==> l > 0)
        &&& (cc.upstream_per_key_max_inflight matches Some(l) ==> l > 0)
    })
    &&& (c.inbound_tls matches Some(t) ==> spec_tls_valid(t))
    &&& (c.observability matches Some(o) ==> spec_observability_valid(o))
}

/// The whole validation rule: exactly the configurations `validate`
/// accepts.
pub open spec fn spec_config_valid(c: AppConfig) -> bool {
    spec_config_base_valid(c) && spec_key_injection_ok(c)
}

fn validation_error(msg: &str) -> (r: Result<(), ConfigError>)
    ensures
        r is Err,
        r matches Err(e) && e is Validation,
{
    Err(ConfigError::Validation(String::from_str(msg)))
}

fn route_error(route_id: &str, msg: &str) -> (r: Result<(), ConfigError>)
    ensures
        r is Err,
        r matches Err(e) && (e matches ConfigError::Validation(m) && m@ == "route `"@ + route_id@
            + "` "@ + msg@),
{
    let mut m = String::from_str("route `");
    m.append(route_id);
    m.append("` ");
    m.append(msg);
    Err(ConfigError::Validation(m))
}

fn check_route(route: &RouteConfig) -> (r: Result<(), ConfigError>)
    ensures
        r is Ok <==> spec_route_valid(*route),
        r matches Err(e) ==> e is Validation,
{
    if str_is_blank(route.id.as_str()) {
        return validation_error("route `id` must not be empty");
    }
    let prefix_len = route.prefix.as_str().unicode_len();
    if prefix_len == 0 || route.prefix.as_str().get_char(0) != '/' {
        return route_error(route.id.as_str(), "prefix must start with `/`");
    }
    if prefix_len > 1 && route.prefix.as_str().get_char(prefix_len - 1) == '/' {
        return route_error(route.id.as_str(), "prefix must not end with `/`");
    }
    if str_is_blank(route.upstream.base_url.as_str()) {
        return route_error(route.id.as_str(), "upstream.base_url must not be empty");
    }
    if route.upstream.connect_timeout_ms == 0 {
        return route_error(route.id.as_str(), "upstream.connect_timeout_ms must be > 0");
    }
    if route.upstream.request_timeout_ms == 0 {
        return route_error(route.id.as_str(), "upstream.request_timeout_ms must be > 0");
    }
    if let Some(limit) = route.upstream.upstream_key_max_inflight {
        if limit == 0 {
            return route_error(
                route.id.as_str(),
                "upstream.upstream_key_max_inflight must be > 0 when provided",
            );
        }
    }
    if let Some(proxy) = &route.upstream.proxy {
        if str_is_blank(proxy.address.as_str()) {
            return route_error(route.id.as_str(), "upstream.proxy.address must not be empty");
        }
        match (&proxy.username, &proxy.password) {
            (Some(username), Some(password)) => {
                if str_is_blank(username.as_str()) || str_is_blank(password.as_str()) {
                    return route_error(
                        route.id.as_str(),
                        "upstream.proxy.username/password must not be empty",
                    );
                }
            },
            (None, None) => {},
            _ => {
                return route_error(
                    route.id.as_str(),
                    "upstream.proxy.username and upstream.proxy.password must be set together",
                );
            },
        }
    }
    let n = route.upstream.inject_headers.len();
    let mut i: usize = 0;
    while i < n
        invariant
            n == route.upstream.inject_headers@.len(),
            i <= n,
            forall|j: int|
                0 <= j < i ==> !is_blank(#[trigger] route.upstream.inject_headers@[j].name@),
        decreases n - i,
    {
        if str_is_blank(route.upstream.inject_headers[i].name.as_str()) {
            return route_error(route.id.as_str(), "has empty inject_headers.name");
        }
        i = i + 1;
    }
    Ok(())
}

fn check_observability(o: &ObservabilityConfig) -> (r: Result<(), ConfigError>)
    ensures
        r is Ok <==> spec_observability_valid(*o),
        r matches Err(e) ==> e is Validation,
{
    if str_is_blank(o.logging.level.as_str()) {
        return validation_error("`observability.logging.level` must not be empty");
    }
    let file_sink_enabled = match &o.logging.file {
        Some(file) => file.enabled,
        None => false,
    };
    if !o.logging.to_stdout && !file_sink_enabled {
        return validation_error(
            "`observability.logging` must enable at least one sink (`to_stdout` or `file.enabled`)",
        );
    }
    if let Some(file) = &o.logging.file {
        if file.enabled {
            if str_is_blank(file.dir.as_str()) {
                return validation_error("`observability.logging.file.dir` must not be empty");
            }
            if str_is_blank(file.prefix.as_str()) {
                return validation_error("`observability.logging.file.prefix` must not be empty");
            }
            if file.max_files == 0 {
                return validation_error("`observability.logging.file.max_files` must be > 0");
            }
        }
    }
    let path_len = o.metrics.path.as_str().unicode_len();
    if path_len == 0 || o.metrics.path.as_str().get_char(0) != '/' {
        return validation_error("`observability.metrics.path` must start with `/`");
    }
    if crate::text::str_eq(o.metrics.path.as_str(), "/healthz") {
        return validation_error("`observability.metrics.path` must not conflict with `/healthz`");
    }
    if o.metrics.enabled && str_is_blank(o.metrics.token.as_str()) {
        return validation_error(
            "`observability.metrics.token` must not be empty when metrics are enabled",
        );
    }
    if o.tracing.sample_ratio_millionths > SAMPLE_RATIO_ONE {
        return validation_error(
            "`observability.tracing.sample_ratio` must be within [0.0, 1.0]",
        );
    }
    if let Some(otlp) = &o.tracing.otlp {
        if str_is_blank(otlp.endpoint.as_str()) {
            return validation_error("`observability.tracing.otlp.endpoint` must not be empty");
        }
        let trimmed = crate::text::trim(otlp.endpoint.as_str());
        if !parses_as_url(trimmed.as_str()) {
            return validation_error("`observability.tracing.otlp.endpoint` must be a valid URL");
        }
        if otlp.timeout_ms == 0 {
            return validation_error("`observability.tracing.otlp.timeout_ms` must be > 0");
        }
    }
    Ok(())
}

impl AppConfig {
    /// Decides whether the configuration is well formed; accepts exactly
    /// the configurations of `spec_config_valid`.
    pub fn validate(&self) -> (r: Result<(), ConfigError>)
        ensures
            r is Ok <==> spec_config_valid(*self),
            r matches Err(e) ==> e is Validation,
            spec_config_base_valid(*self) && !spec_key_injection_ok(*self) ==> (r matches Err(e)
                && (e matches ConfigError::Validation(m) && exists|j: int|
                0 <= j < self.routes@.len() && spec_route_needs_key_injection(
                    *self,
                    #[trigger] self.routes@[j],
                ) && !spec_route_has_upstream_key_injection(self.routes@[j]) && m@ == "route `"@
                    + self.routes@[j].id@ + "` "@
                    + "must configure `upstream.inject_headers` with one of [\"authorization\", \"x-api-key\"] when upstream key concurrency is enabled"@)),
    {
        if str_is_blank(self.listen.as_str()) {
            return validation_error("`listen` must not be empty");
        }
        if self.gateway_auth.tokens.len() == 0 {
            return validation_error("`gateway_auth.tokens` must not be empty");
        }
        let ntok = self.gateway_auth.tokens.len();
        let mut i: usize = 0;
        while i < ntok
            invariant
                ntok == self.gateway_auth.tokens@.len(),
                i <= ntok,
                forall|j: int| 0 <= j < i ==> !is_blank(#[trigger] self.gateway_auth.tokens@[j]@),
            decreases ntok - i,
        {
            if str_is_blank(self.gateway_auth.tokens[i].as_str()) {
                return validation_error("`gateway_auth.tokens` must not contain empty values");
            }
            i = i + 1;
        }
        if self.routes.len() == 0 {
            return validation_error("`routes` must contain at least one route");
        }

        let nroutes = self.routes.len();
        let mut i: usize = 0;
        while i < nroutes
            invariant
                nroutes == self.routes@.len(),
                i <= nroutes,
                forall|j: int| 0 <= j < i ==> spec_route_valid(#[trigger] self.routes@[j]),
                forall|j1: int, j2: int|
                    0 <= j1 < j2 < i ==> (#[trigger] self.routes@[j1].id@)
                        != (#[trigger] self.routes@[j2].id@),
                forall|j1: int, j2: int|
                    0 <= j1 < j2 < i ==> (#[trigger] self.routes@[j1].prefix@)
                        != (#[trigger] self.routes@[j2].prefix@),
            decreases nroutes - i,
        {
            let route = &self.routes[i];
            if let Err(e) = check_route(route) {
                return Err(e);
            }
            let mut j: usize = 0;
            while j < i
                invariant
                    nroutes == self.routes@.len(),
                    i < nroutes,
                    j <= i,
                    *route == self.routes@[i as int],
                    forall|k: int|
                        0 <= k < j ==> (#[trigger] self.routes@[k].id@)
                            != self.routes@[i as int].id@,
                    forall|k: int|
                        0 <= k < j ==> (#[trigger] self.routes@[k].prefix@)
                            != self.routes@[i as int].prefix@,
                decreases i - j,
            {
                if crate::text::str_eq(self.routes[j].id.as_str(), route.id.as_str()) {
                    proof {
                        assert(self.routes@[j as int].id@ == self.routes@[i as int].id@);
                        assert(!spec_routes_unique(self.routes@));
                    }
                    let mut m = String::from_str("duplicate route id `");
                    m.append(route.id.as_str());
                    m.append("`");
                    return Err(ConfigError::Validation(m));
                }
                if crate::text::str_eq(self.routes[j].prefix.as_str(), route.prefix.as_str()) {
                    proof {
                        assert(self.routes@[j as int].prefix@ == self.routes@[i as int].prefix@);
                        assert(!spec_routes_unique(self.routes@));
                    }
                    let mut m = String::from_str("duplicate route prefix `");
                    m.append(route.prefix.as_str());
                    m.append("`");
                    return Err(ConfigError::Validation(m));
                }
                proof {
                    assert(self.routes@[j as int].id@ != self.routes@[i as int].id@);
                    assert(self.routes@[j as int].prefix@ != self.routes@[i as int].prefix@);
                }
                j = j + 1;
            }
            i = i + 1;
        }

        if let Some(rate_limit) = &self.rate_limit {
            if rate_limit.per_minute == 0 {
                return validation_error("`rate_limit.per_minute` must be > 0");
            }
        }

        let mut has_global_upstream_key_limit = false;
        if let Some(concurrency) = &self.concurrency {
            if let Some(limit) = concurrency.downstream_max_inflight {
                if limit == 0 {
                    return validation_error(
                        "`concurrency.downstream_max_inflight` must be > 0 when provided",
                    );
                }
            }
            if let Some(limit) = concurrency.upstream_per_key_max_inflight {
                has_global_upstream_key_limit = true;
                if limit == 0 {
                    return validation_error(
                        "`concurrency.upstream_per_key_max_inflight` must be > 0 when provided",
                    );
                }
            }
        }
        assert(has_global_upstream_key_limit == spec_has_global_upstream_key_limit(*self));

        let mut i: usize = 0;
        while i < nroutes
            invariant
                nroutes == self.routes@.len(),
                i <= nroutes,
                has_global_upstream_key_limit == spec_has_global_upstream_key_limit(*self),
                forall|j: int|
                    0 <= j < i && spec_route_needs_key_injection(*self, #[trigger] self.routes@[j])
                        ==> spec_route_has_upstream_key_injection(self.routes@[j]),
            decreases nroutes - i,
        {
            let route = &self.routes[i];
            let needs = has_global_upstream_key_limit
                || route.upstream.upstream_key_max_inflight.is_some();
            if needs && !route_has_upstream_key_injection(route) {
                proof {
                    assert(spec_route_needs_key_injection(*self, self.routes@[i as int]));
                    assert(!spec_route_has_upstream_key_injection(self.routes@[i as int]));
                }
                return route_error(
                    route.id.as_str(),
                    "must configure `upstream.inject_headers` with one of [\"authorization\", \"x-api-key\"] when upstream key concurrency is enabled",
                );
            }
            i = i + 1;
        }

        if let Some(tls) = &self.inbound_tls {
            if let Some(cert_path) = &tls.cert_path {
                if str_is_blank(cert_path.as_str()) {
                    return validation_error(
                        "`inbound_tls.cert_path` must not be empty when provided",
                    );
                }
            }
            if let Some(key_path) = &tls.key_path {
                if str_is_blank(key_path.as_str()) {
                    return validation_error(
                        "`inbound_tls.key_path` must not be empty when provided",
                    );
                }
            }
            if str_is_blank(tls.self_signed_cert_path.as_str()) {
                return validation_error("`inbound_tls.self_signed_cert_path` must not be empty");
            }
            if str_is_blank(tls.self_signed_key_path.as_str()) {
                return validation_error("`inbound_tls.self_signed_key_path` must not be empty");
            }
            match (&tls.cert_path, &tls.key_path) {
                (Some(_), Some(_)) => {},
                (None, None) => {},
                _ => {
                    return validation_error(
                        "`inbound_tls.cert_path` and `inbound_tls.key_path` must be set together",
                    );
                },
            }
        }

        if let Some(observability) = &self.observability {
            if let Err(e) = check_observability(observability) {
                return Err(e);
            }
        }

        Ok(())
    }
}

pub fn default_true() -> (r: bool)
    ensures
        r == true,
{
    true
}

pub fn default_token_sources() -> (r: Vec<TokenSourceConfig>)
    ensures
        r@.len() == 1,
        r@[0] is AuthorizationBearer,
{
    let mut v: Vec<TokenSourceConfig> = Vec::new();
    v.push(TokenSourceConfig::AuthorizationBearer);
    v
}

pub fn default_connect_timeout_ms() -> (r: u64)
    ensures
        r == 10_000,
{
    10_000
}

pub fn default_request_timeout_ms() -> (r: u64)
    ensures
        r == 60_000,
{
    60_000
}

pub fn default_observability_log_level() -> (r: String)
    ensures
        r@ == "info"@,
{
    String::from_str("info")
}

pub fn default_log_format() -> (r: LogFormat)
    ensures
        r == LogFormat::Json,
{
    LogFormat::Json
}

pub fn default_log_file_dir() -> (r: String)
    ensures
        r@ == "logs"@,
{
    String::from_str("logs")
}

pub fn default_log_file_prefix() -> (r: String)
    ensures
        r@ == "ai-gw-lite"@,
{
    String::from_str("ai-gw-lite")
}

pub fn default_log_rotation() -> (r: LogRotation)
    ensures
        r == LogRotation::Daily,
{
    LogRotation::Daily
}

pub fn default_log_file_max_files() -> (r: usize)
    ensures
        r == 7,
{
    7
}

pub fn default_metrics_path() -> (r: String)
    ensures
        r@ == "/metrics"@,
{
    String::from_str("/metrics")
}

pub fn default_trace_sample_ratio_millionths() -> (r: u64)
    ensures
        r == 50_000,
{
    50_000
}

pub fn default_otlp_timeout_ms() -> (r: u64)
    ensures
        r == 3_000,
{
    3_000
}

pub fn default_self_signed_cert_path() -> (r: String)
    ensures
        r@ == "certs/gateway-selfsigned.crt"@,
{
    String::from_str("certs/gateway-selfsigned.crt")
}

pub fn default_self_signed_key_path() -> (r: String)
    ensures
        r@ == "certs/gateway-selfsigned.key"@,
{
    String::from_str("certs/gateway-selfsigned.key")
}

impl Default for LoggingConfig {
    fn default() -> (r: Self)
        ensures
            r.level@ == "info"@,
            r.format == LogFormat::Json,
            r.to_stdout == true,
            r.file is None,
    {
        LoggingConfig {
            level: default_observability_log_level(),
            format: default_log_format(),
            to_stdout: true,
            file: None,
        }
    }
}

impl Default for MetricsConfig {
    fn default() -> (r: Self)
        ensures
            r.enabled == false,
            r.path@ == "/metrics"@,
            r.token@ == Seq::<char>::empty(),
    {
        MetricsConfig { enabled: false, path: default_metrics_path(), token: String::new() }
    }
}

impl Default for TracingConfig {
    fn default() -> (r: Self)
        ensures
            r.enabled == false,
            r.sample_ratio_millionths == 50_000,
            r.otlp is None,
    {
        TracingConfig {
            enabled: false,
            sample_ratio_millionths: default_trace_sample_ratio_millionths(),
            otlp: None,
        }
    }
}

impl Default for ObservabilityConfig {
    fn default() -> (r: Self)
        ensures
            r.logging.level@ == "info"@,
            r.metrics.enabled == false,
            r.tracing.enabled == false,
    {
        ObservabilityConfig {
            logging: Default::default(),
            metrics: Default::default(),
            tracing: Default::default(),
        }
    }
}


/// First index at or after `from` where `${` begins.
pub open spec fn find_open(s: Seq<char>, from: nat) -> Option<nat>
    decreases s.len() - from,
{
    if from + 1 < s.len() {
        if s[from as int] == '$' && s[from as int + 1] == '{' {
            Some(from)
        } else {
            find_open(s, from + 1)
        }
    } else {
        None
    }
}

/// First index at or after `from` holding `}`.
pub open spec fn find_close(s: Seq<char>, from: nat) -> Option<nat>
    decreases s.len() - from,
{
    if from < s.len() {
        if s[from as int] == '}' {
            Some(from)
        } else {
            find_close(s, from + 1)
        }
    } else {
        None
    }
}

proof fn lemma_find_open_props(s: Seq<char>, from: nat)
    ensures
        match find_open(s, from) {
            Some(k) => from <= k && k + 1 < s.len() && s[k as int] == '$' && s[k as int + 1] == '{',
            None => true,
        },
    decreases s.len() - from,
{
    if from + 1 < s.len() {
        if !(s[from as int] == '$' && s[from as int + 1] == '{') {
            lemma_find_open_props(s, from + 1);
        }
    }
}

proof fn lemma_find_close_props(s: Seq<char>, from: nat)
    ensures
        match find_close(s, from) {
            Some(k) => from <= k && k < s.len() && s[k as int] == '}',
            None => true,
        },
    decreases s.len() - from,
{
    if from < s.len() {
        if s[from as int] != '}' {
            lemma_find_close_props(s, from + 1);
        }
    }
}

/// The first binding of `key`, if any; later bindings are shadowed.
pub open spec fn env_lookup(env: Seq<(String, String)>, key: Seq<char>) -> Option<Seq<char>>
    decreases env.len(),
{
    if env.len() == 0 {
        None
    } else if env[0].0@ == key {
        Some(env[0].1@)
    } else {
        env_lookup(env.subrange(1, env.len() as int), key)
    }
}

/// The outcome of `${NAME}` interpolation, stated over character
/// sequences.
pub enum SpecInterpolation {
    Done(Seq<char>),
    Unterminated,
    EmptyName,
    MissingVar(Seq<char>),
}

/// Interpolation: each `${NAME}` is replaced by the bound value, left to
/// right, and the replacement text is not rescanned. An unterminated
/// `${`, an empty name or an unbound name fails.
pub open spec fn spec_interpolate(s: Seq<char>, env: Seq<(String, String)>) -> SpecInterpolation
    decreases s.len(),
{
    match find_open(s, 0) {
        None => SpecInterpolation::Done(s),
        Some(start) => match find_close(s, start + 2) {
            None => SpecInterpolation::Unterminated,
            Some(end) => {
                if !(start + 2 <= end < s.len()) {
                    SpecInterpolation::Unterminated
                } else {
                    let key = s.subrange(start + 2 as int, end as int);
                    if key.len() == 0 {
                        SpecInterpolation::EmptyName
                    } else {
                        match env_lookup(env, key) {
                            None => SpecInterpolation::MissingVar(key),
                            Some(v) => match spec_interpolate(
                                s.subrange(end + 1 as int, s.len() as int),
                                env,
                            ) {
                                SpecInterpolation::Done(rest) => SpecInterpolation::Done(
                                    s.subrange(0, start as int) + v + rest,
                                ),
                                other => other,
                            },
                        }
                    }
                }
            },
        },
    }
}

fn exec_find_open(s: &str, from: usize) -> (r: Option<usize>)
    requires
        from <= s@.len(),
    ensures
        match r {
            Some(k) => find_open(s@, from as nat) == Some(k as nat),
            None => find_open(s@, from as nat) is None,
        },
{
    let n = s.unicode_len();
    let mut k: usize = from;
    while n - k > 1
        invariant
            n == s@.len(),
            from <= k <= n,
            find_open(s@, from as nat) == find_open(s@, k as nat),
        decreases n - k,
    {
        if s.get_char(k) == '$' && s.get_char(k + 1) == '{' {
            return Some(k);
        }
        k = k + 1;
    }
    None
}

fn exec_find_close(s: &str, from: usize) -> (r: Option<usize>)
    requires
        from <= s@.len(),
    ensures
        match r {
            Some(k) => find_close(s@, from as nat) == Some(k as nat),
            None => find_close(s@, from as nat) is None,
        },
{
    let n = s.unicode_len();
    let mut k: usize = from;
    while k < n
        invariant
            n == s@.len(),
            from <= k <= n,
            find_close(s@, from as nat) == find_close(s@, k as nat),
        decreases n - k,
    {
        if s.get_char(k) == '}' {
            return Some(k);
        }
        k = k + 1;
    }
    None
}

fn exec_env_lookup<'a>(env: &'a Vec<(String, String)>, key: &str) -> (r: Option<&'a String>)
    ensures
        match r {
            Some(v) => env_lookup(env@, key@) == Some(v@),
            None => env_lookup(env@, key@) is None,
        },
{
    let n = env.len();
    proof {
        assert(env@.subrange(0, n as int) =~= env@);
    }
    let mut i: usize = 0;
    while i < n
        invariant
            n == env@.len(),
            i <= n,
            env_lookup(env@, key@) == env_lookup(env@.subrange(i as int, n as int), key@),
        decreases n - i,
    {
        let ghost pre = env@.subrange(i as int, n as int);
        if crate::text::str_eq(env[i].0.as_str(), key) {
            proof {
                assert(pre[0] == env@[i as int]);
            }
            return Some(&env[i].1);
        }
        proof {
            assert(pre[0] == env@[i as int]);
            assert(pre.subrange(1, pre.len() as int) =~= env@.subrange(
                i + 1,
                n as int,
            ));
        }
        i = i + 1;
    }
    proof {
        assert(env@.subrange(n as int, n as int).len() == 0);
    }
    None
}

fn interpolate_rec(s: &str, env: &Vec<(String, String)>) -> (r: Result<String, ConfigError>)
    ensures
        match spec_interpolate(s@, env@) {
            SpecInterpolation::Done(e) => r matches Ok(out) && out@ == e,
            SpecInterpolation::Unterminated => r matches Err(e) && e is Validation,
            SpecInterpolation::EmptyName => r matches Err(e) && e is Validation,
            SpecInterpolation::MissingVar(k) => r matches Err(e) && (e matches
                ConfigError::MissingEnvVar(n) && n@ == k),
        },
    decreases s@.len(),
{
    let n = s.unicode_len();
    let start = match exec_find_open(s, 0) {
        None => {
            return Ok(String::from_str(s));
        },
        Some(start) => start,
    };
    proof {
        lemma_find_open_props(s@, 0);
    }
    let end = match exec_find_close(s, start + 2) {
        None => {
            return Err(ConfigError::Validation(String::from_str(
                "unterminated `${...}` expression",
            )));
        },
        Some(end) => end,
    };
    proof {
        lemma_find_close_props(s@, (start + 2) as nat);
    }
    let key = crate::text::substring(s, start + 2, end);
    if key.as_str().unicode_len() == 0 {
        return Err(ConfigError::Validation(String::from_str(
            "empty environment variable name in `${}`",
        )));
    }
    let value = match exec_env_lookup(env, key.as_str()) {
        None => {
            return Err(ConfigError::MissingEnvVar(key));
        },
        Some(value) => value.clone(),
    };
    let rest_input = crate::text::substring(s, end + 1, n);
    let rest = match interpolate_rec(rest_input.as_str(), env) {
        Ok(rest) => rest,
        Err(e) => {
            return Err(e);
        },
    };
    let mut out = crate::text::substring(s, 0, start);
    out.append(value.as_str());
    out.append(rest.as_str());
    Ok(out)
}

/// Replaces each `${NAME}` in `input` with its binding from `env`; `$`
/// outside `${...}` is literal. Fails on an unterminated `${`, an empty
/// name, or a name without a binding.
pub fn interpolate_env_vars(input: &str, env: &Vec<(String, String)>) -> (r: Result<
    String,
    ConfigError,
>)
    ensures
        match spec_interpolate(input@, env@) {
            SpecInterpolation::Done(e) => r matches Ok(out) && out@ == e,
            SpecInterpolation::Unterminated => r matches Err(e) && e is Validation,
            SpecInterpolation::EmptyName => r matches Err(e) && e is Validation,
            SpecInterpolation::MissingVar(k) => r matches Err(e) && (e matches
                ConfigError::MissingEnvVar(n) && n@ == k),
        },
{
    interpolate_rec(input, env)
}


} // verus!
