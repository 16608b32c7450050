//! The runtime state built from a validated configuration — rate
//! limiter, concurrency gates, observability — and the request
//! admission pipeline that decides every inbound request. The server
//! holds one such state behind an atomically swappable handle; each
//! request works against the state it started with.

use crate::concurrency::{spec_effective_limit, spec_gate, spec_gate_key, ConcurrencyController};
use crate::config::{AppConfig, ConfigError};
use crate::cors::PreflightPlan;
use crate::headers::HeaderTable;
use crate::metrics::GatewayMetrics;
use crate::observability::{ObservabilityRuntime, ObservabilitySummary, SummaryState};
use crate::proxy::{ProxyError, SpecInjection};
use crate::ratelimit::{RateLimitDecision, RateLimiter};
use vstd::prelude::*;

verus! {

/// Everything a request needs, created whole from one configuration.
pub struct RuntimeState {
    pub config: AppConfig,
    pub rate_limiter: Option<RateLimiter>,
    pub concurrency: Option<ConcurrencyController>,
    pub observability: ObservabilityRuntime,
    pub metrics: GatewayMetrics,
    pub summary: SummaryState,
}

impl RuntimeState {
    pub open spec fn wf(self) -> bool {
        &&& crate::config::spec_config_valid(self.config)
        &&& (self.rate_limiter matches Some(rl) ==> rl.wf())
        &&& (self.concurrency matches Some(cc) ==> cc.wf())
        &&& self.metrics.wf()
        &&& self.summary.wf()
    }

    /// Builds the runtime bundle; succeeds exactly when `validate`
    /// accepts the configuration — the two decisions agree on every
    /// input.
    pub fn build_runtime_state(config: AppConfig) -> (r: Result<RuntimeState, ConfigError>)
        ensures
            r is Ok <==> crate::config::spec_config_valid(config),
            r matches Ok(state) ==> {
                &&& state.wf()
                &&& state.config == config
                &&& (match config.rate_limit {
                    Some(rl) => state.rate_limiter matches Some(lim) && lim.per_minute
                        == rl.per_minute,
                    None => state.rate_limiter is None,
                })
            },
    {
        if let Err(e) = config.validate() {
            return Err(e);
        }
        let rate_limiter = match &config.rate_limit {
            Some(rate_limit) => Some(RateLimiter::new(rate_limit.per_minute)),
            None => None,
        };
        let concurrency = ConcurrencyController::new(&config);
        let observability = ObservabilityRuntime::from_config(config.observability.as_ref());
        Ok(
            RuntimeState {
                config,
                rate_limiter,
                concurrency,
                observability,
                metrics: GatewayMetrics::new(),
                summary: SummaryState::new(),
            },
        )
    }
}

/// What the admission pipeline hands back for a request that may be
/// forwarded: where to send it, with what, and which permits it holds.
pub struct ForwardPlan {
    pub route_index: usize,
    pub upstream_url: String,
    pub outbound_headers: HeaderTable,
    pub token_label: String,
    pub request_timeout_ms: u64,
    pub downstream_permit: bool,
    pub upstream_permit: Option<usize>,
}

/// The decision for one inbound request, in admission order.
pub enum RequestDecision {
    NotFound,
    Preflight(PreflightPlan),
    Unauthorized,
    RateLimited { retry_after_secs: u64 },
    DownstreamBusy,
    InvalidUpstreamPath,
    HeaderError(ProxyError),
    UpstreamBusy,
    Forward(ForwardPlan),
}

pub open spec fn spec_cors_enabled(c: AppConfig) -> bool {
    c.cors matches Some(cc) && cc.enabled
}

/// The request is a short-circuited CORS preflight: CORS is on and the
/// request has the preflight shape.
pub open spec fn spec_is_preflight_case(
    c: AppConfig,
    method: Seq<char>,
    h: Seq<(String, String)>,
) -> bool {
    spec_cors_enabled(c) && crate::cors::spec_is_cors_preflight(method, h)
}

/// The limiter is exactly as it was.
pub open spec fn spec_limiter_untouched(a: Option<RateLimiter>, b: Option<RateLimiter>) -> bool {
    match (a, b) {
        (Some(rl), Some(rl2)) => rl2.per_minute == rl.per_minute && rl2.minute_bucket
            == rl.minute_bucket && rl2.counters@ == rl.counters@,
        (None, None) => true,
        _ => false,
    }
}

/// The limiter after an allowed request: the window rotated to the
/// request's minute, the key's count one higher than in the effective
/// window, every other key as it was.
pub open spec fn spec_limiter_counted(
    a: Option<RateLimiter>,
    b: Option<RateLimiter>,
    route_id: Seq<char>,
    token: Seq<char>,
    epoch_seconds: u64,
) -> bool {
    match (a, b) {
        (Some(rl), Some(rl2)) => {
            let base = if rl.minute_bucket == epoch_seconds / 60 {
                rl.counters@
            } else {
                Seq::<(String, String, u64)>::empty()
            };
            &&& rl2.per_minute == rl.per_minute
            &&& rl2.minute_bucket == epoch_seconds / 60
            &&& crate::ratelimit::spec_count(base, route_id, token) < rl.per_minute
            &&& crate::ratelimit::spec_count(rl2.counters@, route_id, token)
                == crate::ratelimit::spec_count(base, route_id, token) + 1
            &&& (forall|r2: Seq<char>, t2: Seq<char>|
                !(r2 == route_id && t2 == token) ==> #[trigger] crate::ratelimit::spec_count(
                    rl2.counters@,
                    r2,
                    t2,
                ) == crate::ratelimit::spec_count(base, r2, t2))
        },
        (None, None) => true,
        _ => false,
    }
}

/// The limiter after a rejected request: the window rotated, the key's
/// count already at the limit, no count moved.
pub open spec fn spec_limiter_rejected(
    a: Option<RateLimiter>,
    b: Option<RateLimiter>,
    route_id: Seq<char>,
    token: Seq<char>,
    epoch_seconds: u64,
) -> bool {
    match (a, b) {
        (Some(rl), Some(rl2)) => {
            let base = if rl.minute_bucket == epoch_seconds / 60 {
                rl.counters@
            } else {
                Seq::<(String, String, u64)>::empty()
            };
            &&& rl2.per_minute == rl.per_minute
            &&& rl2.minute_bucket == epoch_seconds / 60
            &&& crate::ratelimit::spec_count(base, route_id, token) >= rl.per_minute
            &&& rl2.counters@ == base
        },
        _ => false,
    }
}

/// The concurrency gates are exactly as they were.
pub open spec fn spec_gates_untouched(
    a: Option<ConcurrencyController>,
    b: Option<ConcurrencyController>,
) -> bool {
    match (a, b) {
        (Some(c0), Some(c1)) => {
            &&& c1.downstream_limit == c0.downstream_limit
            &&& c1.downstream_inflight == c0.downstream_inflight
            &&& c1.upstream_default_limit == c0.upstream_default_limit
            &&& c1.upstream_gates@ == c0.upstream_gates@
        },
        (None, None) => true,
        _ => false,
    }
}

impl RuntimeState {
    /// The admission pipeline: route match, preflight short-circuit,
    /// authorization, rate limit, downstream gate, upstream URL and
    /// headers, upstream gate — in that order, each step deciding
    /// exactly per its component's rule. A refusal after the
    /// downstream gate hands its permit back.
    pub fn handle_request(
        &mut self,
        method: &str,
        path: &str,
        query: Option<&str>,
        headers: &HeaderTable,
        epoch_seconds: u64,
    ) -> (r: RequestDecision)
        requires
            old(self).wf(),
            headers.wf(),
        ensures
            final(self).wf(),
            final(self).config == old(self).config,
            final(self).observability == old(self).observability,
            final(self).metrics == old(self).metrics,
            final(self).summary == old(self).summary,
            final(self).rate_limiter is Some <==> old(self).rate_limiter is Some,
            final(self).concurrency is Some <==> old(self).concurrency is Some,
            match (old(self).concurrency, final(self).concurrency) {
                (Some(c0), Some(c1)) => c1.downstream_limit == c0.downstream_limit
                    && c1.upstream_default_limit == c0.upstream_default_limit,
                (None, None) => true,
                _ => false,
            },
            ({
                let cfg = old(self).config;
                let origin = crate::headers::spec_lookup(
                    headers.entries@,
                    crate::text::lower_seq("origin"@),
                );
                match r {
                    RequestDecision::NotFound => {
                        &&& crate::proxy::spec_match_route(path@, cfg.routes@) is None
                        &&& spec_limiter_untouched(
                            old(self).rate_limiter,
                            final(self).rate_limiter,
                        )
                        &&& spec_gates_untouched(old(self).concurrency, final(self).concurrency)
                    },
                    RequestDecision::Preflight(plan) => {
                        &&& crate::proxy::spec_match_route(path@, cfg.routes@) is Some
                        &&& spec_is_preflight_case(cfg, method@, headers.entries@)
                        &&& (cfg.cors matches Some(cc) ==> (match
                            crate::cors::spec_resolve_allow_origin(cc.allow_origins@, origin) {
                            None => plan is Forbidden,
                            Some(o) => plan matches PreflightPlan::Allowed {
                                allow_origin,
                                allow_methods,
                                allow_headers,
                            } && allow_origin@ == o && allow_methods@
                                == crate::cors::spec_join_comma(
                                crate::cors::spec_allow_methods_list(cc, headers.entries@),
                            ) && allow_headers@ == crate::cors::spec_join_comma(
                                crate::cors::spec_allow_headers_list(cc, headers.entries@),
                            ),
                        }))
                        &&& spec_limiter_untouched(
                            old(self).rate_limiter,
                            final(self).rate_limiter,
                        )
                        &&& spec_gates_untouched(old(self).concurrency, final(self).concurrency)
                    },
                    RequestDecision::Unauthorized => {
                        &&& crate::proxy::spec_match_route(path@, cfg.routes@) is Some
                        &&& !spec_is_preflight_case(cfg, method@, headers.entries@)
                        &&& crate::auth::spec_authorized_token(
                            headers.entries@,
                            cfg.gateway_auth,
                        ) is None
                        &&& spec_limiter_untouched(
                            old(self).rate_limiter,
                            final(self).rate_limiter,
                        )
                        &&& spec_gates_untouched(old(self).concurrency, final(self).concurrency)
                    },
                    RequestDecision::RateLimited { retry_after_secs } => {
                        &&& crate::proxy::spec_match_route(path@, cfg.routes@) matches Some(k)
                            && (match crate::auth::spec_authorized_token(
                            headers.entries@,
                            cfg.gateway_auth,
                        ) {
                            Some(token) => spec_limiter_rejected(
                                old(self).rate_limiter,
                                final(self).rate_limiter,
                                cfg.routes@[k].id@,
                                token,
                                epoch_seconds,
                            ),
                            None => false,
                        })
                        &&& retry_after_secs == crate::ratelimit::spec_retry_after(
                            epoch_seconds as int,
                        )
                        &&& spec_gates_untouched(old(self).concurrency, final(self).concurrency)
                    },
                    RequestDecision::DownstreamBusy => {
                        &&& crate::proxy::spec_match_route(path@, cfg.routes@) matches Some(k)
                            && (match crate::auth::spec_authorized_token(
                            headers.entries@,
                            cfg.gateway_auth,
                        ) {
                            Some(token) => spec_limiter_counted(
                                old(self).rate_limiter,
                                final(self).rate_limiter,
                                cfg.routes@[k].id@,
                                token,
                                epoch_seconds,
                            ),
                            None => false,
                        })
                        &&& old(self).concurrency matches Some(cc) && (
                        cc.downstream_limit matches Some(l) && cc.downstream_inflight >= l)
                        &&& spec_gates_untouched(old(self).concurrency, final(self).concurrency)
                    },
                    RequestDecision::InvalidUpstreamPath => false,
                    RequestDecision::HeaderError(e) => {
                        &&& crate::proxy::spec_match_route(path@, cfg.routes@) matches Some(k)
                            && (match crate::proxy::spec_prepare_headers(
                            crate::proxy::header_view(headers.entries@),
                            cfg.routes@[k].upstream,
                        ) {
                            SpecInjection::Done(_) => false,
                            SpecInjection::BadName(n) => e matches
                                ProxyError::InvalidHeaderName(s) && s@ == n,
                            SpecInjection::BadValue(v) => e matches
                                ProxyError::InvalidHeaderValue(s) && s@ == v,
                        })
                        &&& (match crate::auth::spec_authorized_token(
                            headers.entries@,
                            cfg.gateway_auth,
                        ) {
                            Some(token) => crate::proxy::spec_match_route(path@, cfg.routes@)
                                matches Some(k2) && spec_limiter_counted(
                                old(self).rate_limiter,
                                final(self).rate_limiter,
                                cfg.routes@[k2].id@,
                                token,
                                epoch_seconds,
                            ),
                            None => false,
                        })
                        &&& spec_gates_untouched(old(self).concurrency, final(self).concurrency)
                    },
                    RequestDecision::UpstreamBusy => {
                        &&& (match crate::auth::spec_authorized_token(
                            headers.entries@,
                            cfg.gateway_auth,
                        ) {
                            Some(token) => crate::proxy::spec_match_route(path@, cfg.routes@)
                                matches Some(k2) && spec_limiter_counted(
                                old(self).rate_limiter,
                                final(self).rate_limiter,
                                cfg.routes@[k2].id@,
                                token,
                                epoch_seconds,
                            ),
                            None => false,
                        })
                        &&& crate::proxy::spec_match_route(path@, cfg.routes@) matches Some(k)
                            && (match final(self).concurrency {
                            Some(cc) => {
                                &&& cc.downstream_inflight == (match old(self).concurrency {
                                    Some(cc0) => cc0.downstream_inflight,
                                    None => 0,
                                })
                                &&& (match spec_gate(
                                    cc.upstream_gates@,
                                    spec_gate_key(cfg.routes@[k]),
                                ) {
                                    Some(g) => g.1 >= g.0,
                                    None => false,
                                })
                            },
                            None => false,
                        })
                    },
                    RequestDecision::Forward(plan) => {
                        &&& crate::proxy::spec_match_route(path@, cfg.routes@) matches Some(k)
                            && plan.route_index == k && {
                            let route = cfg.routes@[k];
                            &&& (match crate::auth::spec_authorized_token(
                                headers.entries@,
                                cfg.gateway_auth,
                            ) {
                                Some(token) => spec_limiter_counted(
                                    old(self).rate_limiter,
                                    final(self).rate_limiter,
                                    route.id@,
                                    token,
                                    epoch_seconds,
                                ),
                                None => false,
                            })
                            &&& plan.upstream_url@ == crate::proxy::spec_build_upstream_url(
                                route.upstream.base_url@,
                                crate::proxy::spec_rewrite_path(
                                    path@,
                                    route.prefix@,
                                    route.upstream.strip_prefix,
                                ),
                                match query {
                                    Some(q) => Some(q@),
                                    None => None,
                                },
                            )
                            &&& (match crate::proxy::spec_prepare_headers(
                                crate::proxy::header_view(headers.entries@),
                                route.upstream,
                            ) {
                                SpecInjection::Done(h) => crate::proxy::header_view(
                                    plan.outbound_headers.entries@,
                                ) == h,
                                _ => false,
                            })
                            &&& plan.request_timeout_ms == route.upstream.request_timeout_ms
                            &&& (match crate::auth::spec_authorized_token(
                                headers.entries@,
                                cfg.gateway_auth,
                            ) {
                                Some(t) => plan.token_label@
                                    == crate::observability::spec_token_label(t),
                                None => false,
                            })
                            &&& plan.downstream_permit == (match old(self).concurrency {
                                Some(cc) => cc.downstream_limit is Some,
                                None => false,
                            })
                            &&& (match old(self).concurrency {
                                Some(cc) => plan.upstream_permit is Some
                                    <==> spec_effective_limit(cc, route) is Some,
                                None => plan.upstream_permit is None,
                            })
                            &&& (match plan.upstream_permit {
                                Some(idx) => final(self).concurrency matches Some(cc) && idx
                                    < cc.upstream_gates@.len() && cc.upstream_gates@[idx as int].0@
                                    == spec_gate_key(route) && cc.upstream_gates@[idx as int].2
                                    > 0,
                                None => true,
                            })
                        }
                    },
                }
            }),
    {
        let route_index = match crate::proxy::match_route_index(path, &self.config.routes) {
            Some(route_index) => route_index,
            None => {
                return RequestDecision::NotFound;
            },
        };

        if let Some(cors) = &self.config.cors {
            if cors.enabled && crate::cors::is_cors_preflight(method, headers) {
                let origin_value = match headers.get("origin") {
                    Some(v) => Some(v.clone()),
                    None => None,
                };
                let origin_ref = match &origin_value {
                    Some(v) => Some(v.as_str()),
                    None => None,
                };
                let plan = crate::cors::build_preflight_response(cors, origin_ref, headers);
                return RequestDecision::Preflight(plan);
            }
        }

        let token = match crate::auth::extract_authorized_token(
            headers,
            &self.config.gateway_auth,
        ) {
            Some(token) => token,
            None => {
                return RequestDecision::Unauthorized;
            },
        };
        let token_label = crate::observability::token_label(token.as_str());

        let route_id = self.config.routes[route_index].id.clone();
        if let Some(rate_limiter) = &mut self.rate_limiter {
            match rate_limiter.check_at_epoch_seconds(
                token.as_str(),
                route_id.as_str(),
                epoch_seconds,
            ) {
                RateLimitDecision::Allowed => {},
                RateLimitDecision::Rejected { retry_after_secs } => {
                    return RequestDecision::RateLimited { retry_after_secs };
                },
            }
        }

        let mut downstream_permit = false;
        if let Some(concurrency) = &mut self.concurrency {
            match concurrency.acquire_downstream() {
                Ok(taken) => {
                    downstream_permit = taken;
                },
                Err(_) => {
                    return RequestDecision::DownstreamBusy;
                },
            }
        }

        let upstream_url = match crate::proxy::build_upstream_url_for_route(
            &self.config.routes[route_index],
            path,
            query,
        ) {
            Some(upstream_url) => upstream_url,
            None => {
                proof {
                    crate::proxy::lemma_match_route_longest(path@, self.config.routes@);
                }
                if downstream_permit {
                    if let Some(concurrency) = &mut self.concurrency {
                        concurrency.release_downstream();
                    }
                }
                return RequestDecision::InvalidUpstreamPath;
            },
        };

        let outbound_headers = match crate::proxy::prepare_upstream_headers(
            headers,
            &self.config.routes[route_index].upstream,
        ) {
            Ok(outbound_headers) => outbound_headers,
            Err(e) => {
                if downstream_permit {
                    if let Some(concurrency) = &mut self.concurrency {
                        concurrency.release_downstream();
                    }
                }
                return RequestDecision::HeaderError(e);
            },
        };

        let mut upstream_permit: Option<usize> = None;
        if let Some(concurrency) = &mut self.concurrency {
            match concurrency.acquire_upstream(&self.config.routes[route_index]) {
                Ok(permit) => {
                    proof {
                        if let Some(idx) = permit {
                            let gates = concurrency.upstream_gates@;
                            let key = spec_gate_key(self.config.routes@[route_index as int]);
                            assert(gates[idx as int].0@ == key);
                            assert(forall|j: int|
                                0 <= j < idx ==> (#[trigger] gates[j]).0@ != key);
                            crate::concurrency::lemma_spec_gate_at(gates, idx as int);
                        }
                    }
                    upstream_permit = permit;
                },
                Err(_) => {
                    if downstream_permit {
                        concurrency.release_downstream();
                    }
                    return RequestDecision::UpstreamBusy;
                },
            }
        }

        let request_timeout_ms = self.config.routes[route_index].upstream.request_timeout_ms;
        RequestDecision::Forward(
            ForwardPlan {
                route_index,
                upstream_url,
                outbound_headers,
                token_label,
                request_timeout_ms,
                downstream_permit,
                upstream_permit,
            },
        )
    }

    /// Hands back whatever permits a forwarded request holds: the
    /// downstream count and the permit's gate count each fall by one
    /// exactly where a permit was taken, so capacities return to their
    /// pre-admission values.
    pub fn release_permits(&mut self, downstream_permit: bool, upstream_permit: Option<usize>)
        requires
            old(self).wf(),
        ensures
            final(self).wf(),
            final(self).config == old(self).config,
            final(self).rate_limiter == old(self).rate_limiter,
            match (old(self).concurrency, final(self).concurrency) {
                (Some(cc0), Some(cc)) => {
                    &&& cc.downstream_limit == cc0.downstream_limit
                    &&& cc.downstream_inflight == (if downstream_permit
                        && cc0.downstream_inflight > 0 {
                        (cc0.downstream_inflight - 1) as usize
                    } else {
                        cc0.downstream_inflight
                    })
                    &&& cc.upstream_gates@.len() == cc0.upstream_gates@.len()
                    &&& (match upstream_permit {
                        Some(idx) => {
                            &&& (idx < cc0.upstream_gates@.len()
                                && cc0.upstream_gates@[idx as int].2 > 0 ==> {
                                &&& cc.upstream_gates@[idx as int].2
                                    == cc0.upstream_gates@[idx as int].2 - 1
                                &&& (forall|j: int|
                                    0 <= j < cc0.upstream_gates@.len() && j != idx ==> (
                                    #[trigger] cc.upstream_gates@[j])
                                        == cc0.upstream_gates@[j])
                            })
                            &&& (!(idx < cc0.upstream_gates@.len()
                                && cc0.upstream_gates@[idx as int].2 > 0)
                                ==> cc.upstream_gates@ == cc0.upstream_gates@)
                        },
                        None => cc.upstream_gates@ == cc0.upstream_gates@,
                    })
                },
                (None, None) => true,
                _ => false,
            },
    {
        if let Some(concurrency) = &mut self.concurrency {
            if downstream_permit && concurrency.downstream_inflight > 0 {
                concurrency.release_downstream();
            }
            if let Some(idx) = upstream_permit {
                if idx < concurrency.upstream_gates.len() {
                    let current = concurrency.upstream_gates[idx].2;
                    if current > 0 {
                        concurrency.release_upstream(idx);
                    }
                }
            }
        }
    }

    /// Records a finished request in the counters, the duration
    /// histogram and the sliding summary; with metrics disabled the
    /// request leaves no trace.
    pub fn observe_completion(
        &mut self,
        route_id: &str,
        token_label: Option<&str>,
        method: &str,
        outcome: &str,
        status: u16,
        duration_ms: u64,
        minute_epoch: u64,
    )
        requires
            old(self).wf(),
        ensures
            final(self).wf(),
            final(self).config == old(self).config,
            final(self).rate_limiter == old(self).rate_limiter,
            final(self).concurrency == old(self).concurrency,
            !old(self).observability.metrics_enabled ==> final(self).metrics == old(self).metrics
                && final(self).summary == old(self).summary,
            old(self).observability.metrics_enabled ==> ({
                let key = crate::metrics::spec_request_labels(
                    route_id@,
                    method@,
                    outcome@,
                    crate::metrics::spec_status_class(status),
                );
                let prior = match crate::kv::assoc(old(self).metrics.requests_total@, key) {
                    Some(v) => v,
                    None => 0,
                };
                &&& crate::kv::assoc(final(self).metrics.requests_total@, key) == Some(
                    crate::observability::sat_add(prior, 1),
                )
                &&& (forall|k2: Seq<char>|
                    k2 != key ==> #[trigger] crate::kv::assoc(
                        final(self).metrics.requests_total@,
                        k2,
                    ) == crate::kv::assoc(old(self).metrics.requests_total@, k2))
            }),
            old(self).observability.metrics_enabled ==> ({
                let key = crate::metrics::spec_duration_labels(route_id@, method@, outcome@);
                &&& (match (
                    crate::kv::assoc(old(self).metrics.request_duration@, key),
                    crate::kv::assoc(final(self).metrics.request_duration@, key),
                ) {
                    (Some(h0), Some(h1)) => h1.count == crate::observability::sat_add(h0.count, 1)
                        && h1.sum_ms == crate::observability::sat_add(h0.sum_ms, duration_ms),
                    (None, Some(h1)) => h1.count == 1 && h1.sum_ms == duration_ms,
                    _ => false,
                })
                &&& (forall|k2: Seq<char>|
                    k2 != key ==> #[trigger] crate::kv::assoc(
                        final(self).metrics.request_duration@,
                        k2,
                    ) == crate::kv::assoc(old(self).metrics.request_duration@, k2))
                &&& final(self).metrics.upstream_duration@
                    == old(self).metrics.upstream_duration@
                &&& final(self).metrics.inflight_requests@
                    == old(self).metrics.inflight_requests@
                &&& final(self).metrics.sse_streams_inflight@
                    == old(self).metrics.sse_streams_inflight@
            }),
            old(self).observability.metrics_enabled ==> ({
                let cutoff = crate::observability::spec_prune_cutoff(minute_epoch);
                let old_b = match crate::kv::assoc(
                    old(self).summary.route_buckets@,
                    route_id@,
                ) {
                    Some(b) => b@,
                    None => Seq::<crate::observability::RouteMinuteBucket>::empty(),
                };
                let infl = crate::observability::spec_inflight_val(
                    old(self).summary.route_inflight@,
                    route_id@,
                );
                &&& (match crate::kv::assoc(final(self).summary.route_buckets@, route_id@) {
                    Some(b2) => b2@ == crate::observability::drop_old_route_buckets(
                        crate::observability::spec_bump_route_buckets(
                            old_b,
                            minute_epoch,
                            infl,
                        ),
                        cutoff,
                    ),
                    None => false,
                })
                &&& (match token_label {
                    Some(l) => {
                        let old_t = match crate::kv::assoc(
                            old(self).summary.token_buckets@,
                            l@,
                        ) {
                            Some(b) => b@,
                            None => Seq::<crate::observability::RequestMinuteBucket>::empty(),
                        };
                        match crate::kv::assoc(final(self).summary.token_buckets@, l@) {
                            Some(b2) => b2@ == crate::observability::drop_old_token_buckets(
                                crate::observability::spec_bump_token_buckets(
                                    old_t,
                                    minute_epoch,
                                ),
                                cutoff,
                            ),
                            None => false,
                        }
                    },
                    None => true,
                })
                &&& (forall|k2: Seq<char>|
                    #[trigger] crate::observability::spec_inflight_val(
                        final(self).summary.route_inflight@,
                        k2,
                    ) == crate::observability::spec_inflight_val(
                        old(self).summary.route_inflight@,
                        k2,
                    ))
            }),
    {
        if self.observability.metrics_enabled {
            self.metrics.observe_request(route_id, method, outcome, status, duration_ms);
            self.summary.observe_request(route_id, token_label, minute_epoch);
        }
    }

    /// Records one upstream exchange's duration in its histogram; with
    /// metrics disabled the exchange leaves no trace. Every other label
    /// set and metric family keeps its numbers.
    pub fn observe_upstream(
        &mut self,
        route_id: &str,
        upstream_host: &str,
        result: &str,
        duration_ms: u64,
    )
        requires
            old(self).wf(),
        ensures
            final(self).wf(),
            final(self).config == old(self).config,
            final(self).summary == old(self).summary,
            final(self).rate_limiter == old(self).rate_limiter,
            final(self).concurrency == old(self).concurrency,
            !old(self).observability.metrics_enabled ==> final(self).metrics == old(self).metrics,
            old(self).observability.metrics_enabled ==> ({
                let key = crate::metrics::spec_upstream_labels(
                    route_id@,
                    upstream_host@,
                    result@,
                );
                &&& (match (
                    crate::kv::assoc(old(self).metrics.upstream_duration@, key),
                    crate::kv::assoc(final(self).metrics.upstream_duration@, key),
                ) {
                    (Some(h0), Some(h1)) => h1.count == crate::observability::sat_add(h0.count, 1)
                        && h1.sum_ms == crate::observability::sat_add(h0.sum_ms, duration_ms),
                    (None, Some(h1)) => h1.count == 1 && h1.sum_ms == duration_ms,
                    _ => false,
                })
                &&& (forall|k2: Seq<char>|
                    k2 != key ==> #[trigger] crate::kv::assoc(
                        final(self).metrics.upstream_duration@,
                        k2,
                    ) == crate::kv::assoc(old(self).metrics.upstream_duration@, k2))
                &&& final(self).metrics.requests_total@ == old(self).metrics.requests_total@
                &&& final(self).metrics.request_duration@ == old(self).metrics.request_duration@
                &&& final(self).metrics.inflight_requests@
                    == old(self).metrics.inflight_requests@
                &&& final(self).metrics.sse_streams_inflight@
                    == old(self).metrics.sse_streams_inflight@
            }),
    {
        if self.observability.metrics_enabled {
            self.metrics.observe_upstream_duration(route_id, upstream_host, result, duration_ms);
        }
    }

    /// Marks a forwarded request's body stream as begun: the route's
    /// in-flight gauge and running count rise by one while metrics are
    /// on, and the SSE gauge rises too for an SSE stream.
    pub fn begin_stream(&mut self, route_id: &str, is_sse: bool, minute_epoch: u64)
        requires
            old(self).wf(),
        ensures
            final(self).wf(),
            final(self).config == old(self).config,
            final(self).rate_limiter == old(self).rate_limiter,
            final(self).concurrency == old(self).concurrency,
            !old(self).observability.metrics_enabled ==> final(self).metrics == old(self).metrics
                && final(self).summary == old(self).summary,
            old(self).observability.metrics_enabled ==> crate::observability::spec_inflight_val(
                final(self).summary.route_inflight@,
                route_id@,
            ) == crate::observability::sat_add(
                crate::observability::spec_inflight_val(
                    old(self).summary.route_inflight@,
                    route_id@,
                ),
                1,
            ),
            old(self).observability.metrics_enabled ==> ({
                let key = crate::metrics::spec_route_labels(route_id@);
                let prior = match crate::kv::assoc(old(self).metrics.inflight_requests@, key) {
                    Some(v) => v as int,
                    None => 0,
                };
                let prior_sse = match crate::kv::assoc(
                    old(self).metrics.sse_streams_inflight@,
                    key,
                ) {
                    Some(v) => v as int,
                    None => 0,
                };
                &&& (crate::kv::assoc(final(self).metrics.inflight_requests@, key) matches Some(
                    v,
                ) && v == (if prior == i64::MAX {
                    prior
                } else {
                    prior + 1
                }))
                &&& (if is_sse {
                    crate::kv::assoc(final(self).metrics.sse_streams_inflight@, key) matches Some(
                        v,
                    ) && v == (if prior_sse == i64::MAX {
                        prior_sse
                    } else {
                        prior_sse + 1
                    })
                } else {
                    final(self).metrics.sse_streams_inflight@
                        == old(self).metrics.sse_streams_inflight@
                })
                &&& final(self).metrics.requests_total@ == old(self).metrics.requests_total@
                &&& final(self).metrics.request_duration@ == old(self).metrics.request_duration@
                &&& final(self).metrics.upstream_duration@
                    == old(self).metrics.upstream_duration@
            }),
    {
        if self.observability.metrics_enabled {
            self.metrics.inc_inflight(route_id);
            if is_sse {
                self.metrics.inc_sse_inflight(route_id);
            }
            self.summary.adjust_inflight(route_id, 1, minute_epoch);
        }
    }

    /// Marks a forwarded request's body stream as finished or dropped:
    /// the route's in-flight gauge and running count fall by one (the
    /// count stopping at zero) while metrics are on, and the SSE gauge
    /// falls too for an SSE stream.
    pub fn end_stream(&mut self, route_id: &str, is_sse: bool, minute_epoch: u64)
        requires
            old(self).wf(),
        ensures
            final(self).wf(),
            final(self).config == old(self).config,
            final(self).rate_limiter == old(self).rate_limiter,
            final(self).concurrency == old(self).concurrency,
            !old(self).observability.metrics_enabled ==> final(self).metrics == old(self).metrics
                && final(self).summary == old(self).summary,
            old(self).observability.metrics_enabled ==> ({
                let prior = crate::observability::spec_inflight_val(
                    old(self).summary.route_inflight@,
                    route_id@,
                );
                crate::observability::spec_inflight_val(
                    final(self).summary.route_inflight@,
                    route_id@,
                ) == (if prior > 0 {
                    (prior - 1) as u64
                } else {
                    0
                })
            }),
            old(self).observability.metrics_enabled ==> ({
                let key = crate::metrics::spec_route_labels(route_id@);
                let prior = match crate::kv::assoc(old(self).metrics.inflight_requests@, key) {
                    Some(v) => v as int,
                    None => 0,
                };
                let prior_sse = match crate::kv::assoc(
                    old(self).metrics.sse_streams_inflight@,
                    key,
                ) {
                    Some(v) => v as int,
                    None => 0,
                };
                &&& (crate::kv::assoc(final(self).metrics.inflight_requests@, key) matches Some(
                    v,
                ) && v == (if prior == i64::MIN {
                    prior
                } else {
                    prior - 1
                }))
                &&& (if is_sse {
                    crate::kv::assoc(final(self).metrics.sse_streams_inflight@, key) matches Some(
                        v,
                    ) && v == (if prior_sse == i64::MIN {
                        prior_sse
                    } else {
                        prior_sse - 1
                    })
                } else {
                    final(self).metrics.sse_streams_inflight@
                        == old(self).metrics.sse_streams_inflight@
                })
                &&& final(self).metrics.requests_total@ == old(self).metrics.requests_total@
                &&& final(self).metrics.request_duration@ == old(self).metrics.request_duration@
                &&& final(self).metrics.upstream_duration@
                    == old(self).metrics.upstream_duration@
            }),
    {
        if self.observability.metrics_enabled {
            self.metrics.dec_inflight(route_id);
            if is_sse {
                self.metrics.dec_sse_inflight(route_id);
            }
            self.summary.adjust_inflight(route_id, -1, minute_epoch);
        }
    }

    /// The Prometheus text of the registry, when metrics are enabled.
    pub fn encode_metrics(&self) -> (r: Option<String>)
        requires
            self.wf(),
        ensures
            self.observability.metrics_enabled ==> (r matches Some(text) && text@
                == crate::metrics::spec_encode(self.metrics)),
            !self.observability.metrics_enabled ==> r is None,
    {
        if self.observability.metrics_enabled {
            Some(self.metrics.encode())
        } else {
            None
        }
    }

    /// The sliding summary, when metrics are enabled: sorted, covering
    /// every route and token this state has observed, with totals that
    /// sum the reported routes.
    pub fn snapshot_summary(&self) -> (r: Option<ObservabilitySummary>)
        requires
            self.wf(),
        ensures
            self.observability.metrics_enabled <==> r is Some,
            r matches Some(summary) ==> {
                &&& crate::observability::spec_routes_sorted(summary.routes@)
                &&& crate::observability::spec_tokens_sorted(summary.tokens@)
                &&& crate::observability::spec_routes_cover(
                    self.summary.route_buckets@,
                    self.summary.route_inflight@,
                    summary.routes@,
                )
                &&& crate::observability::spec_tokens_cover(
                    self.summary.token_buckets@,
                    summary.tokens@,
                )
                &&& summary.total_requests_1h == crate::observability::spec_total_requests_1h(
                    summary.routes@,
                )
                &&& summary.total_requests_24h == crate::observability::spec_total_requests_24h(
                    summary.routes@,
                )
            },
    {
        if self.observability.metrics_enabled {
            Some(self.summary.snapshot())
        } else {
            None
        }
    }
}

/// The status, error code and metric outcome of each refusal, per the
/// outcome table.
pub fn decision_status(r: &RequestDecision) -> (status: u16)
    ensures
        status == (match r {
            RequestDecision::NotFound => 404u16,
            RequestDecision::Preflight(p) => if p is Forbidden {
                403u16
            } else {
                204u16
            },
            RequestDecision::Unauthorized => 401u16,
            RequestDecision::RateLimited { .. } => 429u16,
            RequestDecision::DownstreamBusy => 503u16,
            RequestDecision::InvalidUpstreamPath => 400u16,
            RequestDecision::HeaderError(_) => 502u16,
            RequestDecision::UpstreamBusy => 503u16,
            RequestDecision::Forward(_) => 0u16,
        }),
{
    match r {
        RequestDecision::NotFound => 404,
        RequestDecision::Preflight(p) => match p {
            PreflightPlan::Forbidden => 403,
            PreflightPlan::Allowed { .. } => 204,
        },
        RequestDecision::Unauthorized => 401,
        RequestDecision::RateLimited { .. } => 429,
        RequestDecision::DownstreamBusy => 503,
        RequestDecision::InvalidUpstreamPath => 400,
        RequestDecision::HeaderError(_) => 502,
        RequestDecision::UpstreamBusy => 503,
        RequestDecision::Forward(_) => 0,
    }
}

/// The error code carried in the refusal body, if the decision is a
/// refusal with one.
pub fn decision_error_code(r: &RequestDecision) -> (code: Option<String>)
    ensures
        match r {
            RequestDecision::NotFound => code matches Some(c) && c@ == "route_not_found"@,
            RequestDecision::Preflight(p) => if p is Forbidden {
                code matches Some(c) && c@ == "cors_origin_not_allowed"@
            } else {
                code is None
            },
            RequestDecision::Unauthorized => code matches Some(c) && c@ == "unauthorized"@,
            RequestDecision::RateLimited { .. } => code matches Some(c) && c@ == "rate_limited"@,
            RequestDecision::DownstreamBusy => code matches Some(c) && c@
                == "downstream_concurrency_exceeded"@,
            RequestDecision::InvalidUpstreamPath => code matches Some(c) && c@
                == "invalid_upstream_path"@,
            RequestDecision::HeaderError(_) => code matches Some(c) && c@
                == "upstream_header_error"@,
            RequestDecision::UpstreamBusy => code matches Some(c) && c@
                == "upstream_concurrency_exceeded"@,
            RequestDecision::Forward(_) => code is None,
        },
{
    match r {
        RequestDecision::NotFound => Some(String::from_str("route_not_found")),
        RequestDecision::Preflight(p) => match p {
            PreflightPlan::Forbidden => Some(String::from_str("cors_origin_not_allowed")),
            PreflightPlan::Allowed { .. } => None,
        },
        RequestDecision::Unauthorized => Some(String::from_str("unauthorized")),
        RequestDecision::RateLimited { .. } => Some(String::from_str("rate_limited")),
        RequestDecision::DownstreamBusy => Some(
            String::from_str("downstream_concurrency_exceeded"),
        ),
        RequestDecision::InvalidUpstreamPath => Some(String::from_str("invalid_upstream_path")),
        RequestDecision::HeaderError(_) => Some(String::from_str("upstream_header_error")),
        RequestDecision::UpstreamBusy => Some(String::from_str("upstream_concurrency_exceeded")),
        RequestDecision::Forward(_) => None,
    }
}

/// The metric outcome label of each refusal.
pub fn decision_outcome(r: &RequestDecision) -> (outcome: String)
    ensures
        outcome@ == (match r {
            RequestDecision::NotFound => "route_not_found"@,
            RequestDecision::Preflight(_) => "preflight"@,
            RequestDecision::Unauthorized => "unauthorized"@,
            RequestDecision::RateLimited { .. } => "rate_limited"@,
            RequestDecision::DownstreamBusy => "concurrency"@,
            RequestDecision::InvalidUpstreamPath => "gateway_error"@,
            RequestDecision::HeaderError(_) => "gateway_error"@,
            RequestDecision::UpstreamBusy => "concurrency"@,
            RequestDecision::Forward(_) => "success"@,
        }),
{
    match r {
        RequestDecision::NotFound => String::from_str("route_not_found"),
        RequestDecision::Preflight(_) => String::from_str("preflight"),
        RequestDecision::Unauthorized => String::from_str("unauthorized"),
        RequestDecision::RateLimited { .. } => String::from_str("rate_limited"),
        RequestDecision::DownstreamBusy => String::from_str("concurrency"),
        RequestDecision::InvalidUpstreamPath => String::from_str("gateway_error"),
        RequestDecision::HeaderError(_) => String::from_str("gateway_error"),
        RequestDecision::UpstreamBusy => String::from_str("concurrency"),
        RequestDecision::Forward(_) => String::from_str("success"),
    }
}

/// The status, error code and metric result for an upstream send
/// failure: a timeout maps to the gateway-timeout answer, a connect
/// failure and any other send failure to the bad-gateway answers.
pub fn classify_upstream_failure(timed_out: bool, error_is_timeout: bool, error_is_connect: bool)
    -> (r: (u16, String, String))
    ensures
        timed_out || error_is_timeout ==> r.0 == 504 && r.1@ == "upstream_timeout"@ && r.2@
            == "timeout"@,
        !timed_out && !error_is_timeout && error_is_connect ==> r.0 == 502 && r.1@
            == "upstream_connect_error"@ && r.2@ == "connect_error"@,
        !timed_out && !error_is_timeout && !error_is_connect ==> r.0 == 502 && r.1@
            == "upstream_request_failed"@ && r.2@ == "request_error"@,
{
    if timed_out || error_is_timeout {
        (504, String::from_str("upstream_timeout"), String::from_str("timeout"))
    } else if error_is_connect {
        (502, String::from_str("upstream_connect_error"), String::from_str("connect_error"))
    } else {
        (502, String::from_str("upstream_request_failed"), String::from_str("request_error"))
    }
}

/// The host of a URL, as the HTTP client's parser reads it.
pub uninterp spec fn url_host_of(s: Seq<char>) -> Option<Seq<char>>;

/// Relies on `reqwest::Url::parse` and `Url::host_str`: the URL's
/// host. The outcome depends on the text alone.
#[verifier::external_body]
fn parse_url_host(url: &str) -> (r: Option<String>)
    ensures
        match r {
            Some(h) => url_host_of(url@) == Some(h@),
            None => url_host_of(url@) is None,
        },
{
    let parsed = match reqwest::Url::parse(url) {
        Ok(parsed) => parsed,
        Err(_) => {
            return None;
        },
    };
    parsed.host_str().map(|host| host.to_string())
}

/// The host label used on upstream metrics; `unknown` when the URL
/// does not parse to a host.
pub fn upstream_host_label(upstream_url: &str) -> (r: String)
    ensures
        match url_host_of(upstream_url@) {
            Some(h) => r@ == h,
            None => r@ == "unknown"@,
        },
{
    match parse_url_host(upstream_url) {
        Some(host) => host,
        None => String::from_str("unknown"),
    }
}

} // verus!
