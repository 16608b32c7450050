//! The metrics registry: counters, duration histograms and gauges,
//! each keyed by its rendered label set, and the Prometheus text
//! exposition of the whole registry.
//!
//! Durations are counted in whole milliseconds; the histogram buckets
//! are the powers of two from one millisecond up, sixteen of them,
//! matching exponential buckets that start at a millisecond and double.

use crate::kv::{assoc, unique_keys};
use crate::observability::sat_add;
use crate::text::dec_seq;
use vstd::prelude::*;

verus! {

/// The rendered label set for the request counter.
pub open spec fn spec_request_labels(
    route_id: Seq<char>,
    method: Seq<char>,
    outcome: Seq<char>,
    status_class: Seq<char>,
) -> Seq<char> {
    "route_id=\""@ + route_id + "\",method=\""@ + method + "\",outcome=\""@ + outcome
        + "\",status_class=\""@ + status_class + "\""@
}

/// The rendered label set for the request duration histogram.
pub open spec fn spec_duration_labels(
    route_id: Seq<char>,
    method: Seq<char>,
    outcome: Seq<char>,
) -> Seq<char> {
    "route_id=\""@ + route_id + "\",method=\""@ + method + "\",outcome=\""@ + outcome + "\""@
}

/// The rendered label set for the upstream duration histogram.
pub open spec fn spec_upstream_labels(
    route_id: Seq<char>,
    upstream_host: Seq<char>,
    result: Seq<char>,
) -> Seq<char> {
    "route_id=\""@ + route_id + "\",upstream_host=\""@ + upstream_host + "\",result=\""@ + result
        + "\""@
}

/// The rendered label set for the per-route gauges.
pub open spec fn spec_route_labels(route_id: Seq<char>) -> Seq<char> {
    "route_id=\""@ + route_id + "\""@
}

/// The status class label: the leading digit of the status and `xx`.
pub open spec fn spec_status_class(status: u16) -> Seq<char> {
    seq![crate::text::dec_digit(status as int / 100)] + "xx"@
}

fn render_request_labels(route_id: &str, method: &str, outcome: &str, status_class: &str) -> (r:
    String)
    ensures
        r@ == spec_request_labels(route_id@, method@, outcome@, status_class@),
{
    let mut r = String::from_str("route_id=\"");
    r.append(route_id);
    r.append("\",method=\"");
    r.append(method);
    r.append("\",outcome=\"");
    r.append(outcome);
    r.append("\",status_class=\"");
    r.append(status_class);
    r.append("\"");
    r
}

fn render_duration_labels(route_id: &str, method: &str, outcome: &str) -> (r: String)
    ensures
        r@ == spec_duration_labels(route_id@, method@, outcome@),
{
    let mut r = String::from_str("route_id=\"");
    r.append(route_id);
    r.append("\",method=\"");
    r.append(method);
    r.append("\",outcome=\"");
    r.append(outcome);
    r.append("\"");
    r
}

fn render_upstream_labels(route_id: &str, upstream_host: &str, result: &str) -> (r: String)
    ensures
        r@ == spec_upstream_labels(route_id@, upstream_host@, result@),
{
    let mut r = String::from_str("route_id=\"");
    r.append(route_id);
    r.append("\",upstream_host=\"");
    r.append(upstream_host);
    r.append("\",result=\"");
    r.append(result);
    r.append("\"");
    r
}

fn render_route_labels(route_id: &str) -> (r: String)
    ensures
        r@ == spec_route_labels(route_id@),
{
    let mut r = String::from_str("route_id=\"");
    r.append(route_id);
    r.append("\"");
    r
}

pub fn status_class_label(status: u16) -> (r: String)
    ensures
        r@ == spec_status_class(status),
{
    let d = (status / 100) as u64;
    let mut r = String::new();
    if d < 10 {
        let digits = crate::text::u64_to_dec(d);
        r.append(digits.as_str());
    } else {
        r.push('?');
        proof {
            assert(r@ =~= seq![crate::text::dec_digit(status as int / 100)]);
        }
    }
    r.append("xx");
    proof {
        if d < 10 {
            assert(dec_seq(d as int) =~= seq![crate::text::dec_digit(status as int / 100)]);
        }
        assert(r@ =~= spec_status_class(status));
    }
    r
}

/// The histogram bucket a duration falls in: the least power of two (in
/// milliseconds) at or above it, or past the end for durations above
/// the largest bucket.
pub open spec fn spec_bucket_index(ms: u64) -> int {
    if ms <= 1 {
        0
    } else if ms <= 2 {
        1
    } else if ms <= 4 {
        2
    } else if ms <= 8 {
        3
    } else if ms <= 16 {
        4
    } else if ms <= 32 {
        5
    } else if ms <= 64 {
        6
    } else if ms <= 128 {
        7
    } else if ms <= 256 {
        8
    } else if ms <= 512 {
        9
    } else if ms <= 1024 {
        10
    } else if ms <= 2048 {
        11
    } else if ms <= 4096 {
        12
    } else if ms <= 8192 {
        13
    } else if ms <= 16384 {
        14
    } else if ms <= 32768 {
        15
    } else {
        16
    }
}

fn bucket_index(ms: u64) -> (r: usize)
    ensures
        r == spec_bucket_index(ms),
{
    if ms <= 1 {
        0
    } else if ms <= 2 {
        1
    } else if ms <= 4 {
        2
    } else if ms <= 8 {
        3
    } else if ms <= 16 {
        4
    } else if ms <= 32 {
        5
    } else if ms <= 64 {
        6
    } else if ms <= 128 {
        7
    } else if ms <= 256 {
        8
    } else if ms <= 512 {
        9
    } else if ms <= 1024 {
        10
    } else if ms <= 2048 {
        11
    } else if ms <= 4096 {
        12
    } else if ms <= 8192 {
        13
    } else if ms <= 16384 {
        14
    } else if ms <= 32768 {
        15
    } else {
        16
    }
}

#[derive(Debug, Clone)]
pub struct HistogramState {
    pub bucket_counts: Vec<u64>,
    pub count: u64,
    pub sum_ms: u64,
}

impl HistogramState {
    pub open spec fn wf(self) -> bool {
        self.bucket_counts@.len() == 16
    }

    fn new() -> (r: HistogramState)
        ensures
            r.wf(),
            r.count == 0,
            r.sum_ms == 0,
            forall|i: int| 0 <= i < 16 ==> (#[trigger] r.bucket_counts@[i]) == 0,
    {
        let mut bucket_counts: Vec<u64> = Vec::new();
        let mut i: usize = 0;
        while i < 16
            invariant
                i <= 16,
                bucket_counts@.len() == i,
                forall|j: int| 0 <= j < i ==> (#[trigger] bucket_counts@[j]) == 0,
            decreases 16 - i,
        {
            bucket_counts.push(0);
            i = i + 1;
        }
        HistogramState { bucket_counts, count: 0, sum_ms: 0 }
    }

    fn observe(&mut self, ms: u64)
        requires
            old(self).wf(),
        ensures
            final(self).wf(),
            final(self).count == sat_add(old(self).count, 1),
            final(self).sum_ms == sat_add(old(self).sum_ms, ms),
            ({
                let idx = spec_bucket_index(ms);
                if idx < 16 {
                    final(self).bucket_counts@ == old(self).bucket_counts@.update(
                        idx,
                        sat_add(old(self).bucket_counts@[idx], 1),
                    )
                } else {
                    final(self).bucket_counts@ == old(self).bucket_counts@
                }
            }),
    {
        let idx = bucket_index(ms);
        if idx < 16 {
            let v = self.bucket_counts[idx];
            let bumped = if v == u64::MAX {
                u64::MAX
            } else {
                v + 1
            };
            self.bucket_counts[idx] = bumped;
        }
        self.count = if self.count == u64::MAX {
            u64::MAX
        } else {
            self.count + 1
        };
        self.sum_ms = if self.sum_ms > u64::MAX - ms {
            u64::MAX
        } else {
            self.sum_ms + ms
        };
    }
}

/// The whole registry: one entry per label set seen.
pub struct GatewayMetrics {
    pub requests_total: Vec<(String, u64)>,
    pub request_duration: Vec<(String, HistogramState)>,
    pub upstream_duration: Vec<(String, HistogramState)>,
    pub inflight_requests: Vec<(String, i64)>,
    pub sse_streams_inflight: Vec<(String, i64)>,
}

impl GatewayMetrics {
    pub open spec fn wf(self) -> bool {
        &&& unique_keys(self.requests_total@)
        &&& unique_keys(self.request_duration@)
        &&& unique_keys(self.upstream_duration@)
        &&& unique_keys(self.inflight_requests@)
        &&& unique_keys(self.sse_streams_inflight@)
        &&& forall|i: int|
            0 <= i < self.request_duration@.len() ==> (
            #[trigger] self.request_duration@[i]).1.wf()
        &&& forall|i: int|
            0 <= i < self.upstream_duration@.len() ==> (
            #[trigger] self.upstream_duration@[i]).1.wf()
    }

    pub fn new() -> (r: GatewayMetrics)
        ensures
            r.wf(),
            r.requests_total@.len() == 0,
            r.request_duration@.len() == 0,
            r.upstream_duration@.len() == 0,
            r.inflight_requests@.len() == 0,
            r.sse_streams_inflight@.len() == 0,
    {
        GatewayMetrics {
            requests_total: Vec::new(),
            request_duration: Vec::new(),
            upstream_duration: Vec::new(),
            inflight_requests: Vec::new(),
            sse_streams_inflight: Vec::new(),
        }
    }

    /// Counts one finished request under its labels and observes its
    /// duration; every other label set keeps its numbers.
    pub fn observe_request(
        &mut self,
        route_id: &str,
        method: &str,
        outcome: &str,
        status: u16,
        duration_ms: u64,
    )
        requires
            old(self).wf(),
        ensures
            final(self).wf(),
            ({
                let key = spec_request_labels(
                    route_id@,
                    method@,
                    outcome@,
                    spec_status_class(status),
                );
                let prior = match assoc(old(self).requests_total@, key) {
                    Some(v) => v,
                    None => 0,
                };
                &&& assoc(final(self).requests_total@, key) == Some(sat_add(prior, 1))
                &&& forall|k2: Seq<char>|
                    k2 != key ==> #[trigger] assoc(final(self).requests_total@, k2) == assoc(
                        old(self).requests_total@,
                        k2,
                    )
            }),
            ({
                let key = spec_duration_labels(route_id@, method@, outcome@);
                match (
                    assoc(old(self).request_duration@, key),
                    assoc(final(self).request_duration@, key),
                ) {
                    (Some(h0), Some(h1)) => h1.count == sat_add(h0.count, 1) && h1.sum_ms
                        == sat_add(h0.sum_ms, duration_ms),
                    (None, Some(h1)) => h1.count == 1 && h1.sum_ms == duration_ms,
                    _ => false,
                }
            }),
            forall|k2: Seq<char>|
                k2 != spec_duration_labels(route_id@, method@, outcome@) ==> #[trigger] assoc(
                    final(self).request_duration@,
                    k2,
                ) == assoc(old(self).request_duration@, k2),
            final(self).upstream_duration@ == old(self).upstream_duration@,
            final(self).inflight_requests@ == old(self).inflight_requests@,
            final(self).sse_streams_inflight@ == old(self).sse_streams_inflight@,
    {
        let status_class = status_class_label(status);
        let counter_key = render_request_labels(
            route_id,
            method,
            outcome,
            status_class.as_str(),
        );
        match crate::kv::assoc_index(&self.requests_total, counter_key.as_str()) {
            Some(i) => {
                proof {
                    crate::kv::lemma_assoc_at(self.requests_total@, i as int);
                }
                let key_owned = self.requests_total[i].0.clone();
                let v = self.requests_total[i].1;
                let bumped = if v == u64::MAX {
                    u64::MAX
                } else {
                    v + 1
                };
                let ghost pre = self.requests_total@;
                self.requests_total[i] = (key_owned, bumped);
                proof {
                    crate::kv::lemma_assoc_update(pre, i as int, self.requests_total@[i as int]);
                }
            },
            None => {
                let fresh: (String, u64) = (counter_key, 1);
                proof {
                    crate::kv::lemma_assoc_absent(self.requests_total@, fresh.0@);
                    crate::kv::lemma_assoc_push(self.requests_total@, fresh);
                }
                self.requests_total.push(fresh);
            },
        }

        let duration_key = render_duration_labels(route_id, method, outcome);
        match crate::kv::assoc_index(&self.request_duration, duration_key.as_str()) {
            Some(i) => {
                proof {
                    crate::kv::lemma_assoc_at(self.request_duration@, i as int);
                }
                let mut entry = self.request_duration.remove(i);
                let ghost mid = self.request_duration@;
                entry.1.observe(duration_ms);
                let ghost pre = self.request_duration@;
                proof {
                    assert(mid.insert(i as int, entry) =~= old(
                        self,
                    ).request_duration@.update(i as int, entry));
                    crate::kv::lemma_assoc_update(old(self).request_duration@, i as int, entry);
                }
                self.request_duration.insert(i, entry);
            },
            None => {
                let mut h = HistogramState::new();
                h.observe(duration_ms);
                let fresh: (String, HistogramState) = (duration_key, h);
                proof {
                    crate::kv::lemma_assoc_absent(self.request_duration@, fresh.0@);
                    crate::kv::lemma_assoc_push(self.request_duration@, fresh);
                }
                self.request_duration.push(fresh);
            },
        }
    }

    /// Observes one upstream exchange's duration under its labels.
    pub fn observe_upstream_duration(
        &mut self,
        route_id: &str,
        upstream_host: &str,
        result: &str,
        duration_ms: u64,
    )
        requires
            old(self).wf(),
        ensures
            final(self).wf(),
            ({
                let key = spec_upstream_labels(route_id@, upstream_host@, result@);
                match (
                    assoc(old(self).upstream_duration@, key),
                    assoc(final(self).upstream_duration@, key),
                ) {
                    (Some(h0), Some(h1)) => h1.count == sat_add(h0.count, 1) && h1.sum_ms
                        == sat_add(h0.sum_ms, duration_ms),
                    (None, Some(h1)) => h1.count == 1 && h1.sum_ms == duration_ms,
                    _ => false,
                }
            }),
            forall|k2: Seq<char>|
                k2 != spec_upstream_labels(route_id@, upstream_host@, result@) ==> #[trigger] assoc(
                    final(self).upstream_duration@,
                    k2,
                ) == assoc(old(self).upstream_duration@, k2),
            final(self).requests_total@ == old(self).requests_total@,
            final(self).request_duration@ == old(self).request_duration@,
            final(self).inflight_requests@ == old(self).inflight_requests@,
            final(self).sse_streams_inflight@ == old(self).sse_streams_inflight@,
    {
        let key = render_upstream_labels(route_id, upstream_host, result);
        match crate::kv::assoc_index(&self.upstream_duration, key.as_str()) {
            Some(i) => {
                proof {
                    crate::kv::lemma_assoc_at(self.upstream_duration@, i as int);
                }
                let mut entry = self.upstream_duration.remove(i);
                let ghost mid = self.upstream_duration@;
                entry.1.observe(duration_ms);
                proof {
                    assert(mid.insert(i as int, entry) =~= old(
                        self,
                    ).upstream_duration@.update(i as int, entry));
                    crate::kv::lemma_assoc_update(old(self).upstream_duration@, i as int, entry);
                }
                self.upstream_duration.insert(i, entry);
            },
            None => {
                let mut h = HistogramState::new();
                h.observe(duration_ms);
                let fresh: (String, HistogramState) = (key, h);
                proof {
                    crate::kv::lemma_assoc_absent(self.upstream_duration@, fresh.0@);
                    crate::kv::lemma_assoc_push(self.upstream_duration@, fresh);
                }
                self.upstream_duration.push(fresh);
            },
        }
    }
}

fn adjust_gauge(gauges: &mut Vec<(String, i64)>, key: String, delta: i64)
    requires
        unique_keys(old(gauges)@),
        delta == 1 || delta == -1,
    ensures
        unique_keys(final(gauges)@),
        ({
            let prior = match assoc(old(gauges)@, key@) {
                Some(v) => v as int,
                None => 0,
            };
            let bumped = if delta == 1 {
                if prior == i64::MAX {
                    prior
                } else {
                    prior + 1
                }
            } else {
                if prior == i64::MIN {
                    prior
                } else {
                    prior - 1
                }
            };
            assoc(final(gauges)@, key@) matches Some(v) && v == bumped
        }),
        forall|k2: Seq<char>|
            k2 != key@ ==> #[trigger] assoc(final(gauges)@, k2) == assoc(old(gauges)@, k2),
{
    match crate::kv::assoc_index(gauges, key.as_str()) {
        Some(i) => {
            proof {
                crate::kv::lemma_assoc_at(gauges@, i as int);
            }
            let key_owned = gauges[i].0.clone();
            let v = gauges[i].1;
            let bumped = if delta == 1 {
                if v == i64::MAX {
                    v
                } else {
                    v + 1
                }
            } else {
                if v == i64::MIN {
                    v
                } else {
                    v - 1
                }
            };
            let ghost pre = gauges@;
            gauges[i] = (key_owned, bumped);
            proof {
                crate::kv::lemma_assoc_update(pre, i as int, gauges@[i as int]);
            }
        },
        None => {
            let value: i64 = if delta == 1 {
                1
            } else {
                -1
            };
            let fresh: (String, i64) = (key, value);
            proof {
                crate::kv::lemma_assoc_absent(gauges@, fresh.0@);
                crate::kv::lemma_assoc_push(gauges@, fresh);
            }
            gauges.push(fresh);
        },
    }
}

impl GatewayMetrics {
    /// One more request in flight on the route.
    pub fn inc_inflight(&mut self, route_id: &str)
        requires
            old(self).wf(),
        ensures
            final(self).wf(),
            ({
                let key = spec_route_labels(route_id@);
                let prior = match assoc(old(self).inflight_requests@, key) {
                    Some(v) => v as int,
                    None => 0,
                };
                assoc(final(self).inflight_requests@, key) matches Some(v) && v == (if prior
                    == i64::MAX {
                    prior
                } else {
                    prior + 1
                })
            }),
            forall|k2: Seq<char>|
                k2 != spec_route_labels(route_id@) ==> #[trigger] assoc(
                    final(self).inflight_requests@,
                    k2,
                ) == assoc(old(self).inflight_requests@, k2),
            final(self).requests_total@ == old(self).requests_total@,
            final(self).request_duration@ == old(self).request_duration@,
            final(self).upstream_duration@ == old(self).upstream_duration@,
            final(self).sse_streams_inflight@ == old(self).sse_streams_inflight@,
    {
        let key = render_route_labels(route_id);
        adjust_gauge(&mut self.inflight_requests, key, 1);
    }

    /// One fewer request in flight on the route.
    pub fn dec_inflight(&mut self, route_id: &str)
        requires
            old(self).wf(),
        ensures
            final(self).wf(),
            ({
                let key = spec_route_labels(route_id@);
                let prior = match assoc(old(self).inflight_requests@, key) {
                    Some(v) => v as int,
                    None => 0,
                };
                assoc(final(self).inflight_requests@, key) matches Some(v) && v == (if prior
                    == i64::MIN {
                    prior
                } else {
                    prior - 1
                })
            }),
            forall|k2: Seq<char>|
                k2 != spec_route_labels(route_id@) ==> #[trigger] assoc(
                    final(self).inflight_requests@,
                    k2,
                ) == assoc(old(self).inflight_requests@, k2),
            final(self).requests_total@ == old(self).requests_total@,
            final(self).request_duration@ == old(self).request_duration@,
            final(self).upstream_duration@ == old(self).upstream_duration@,
            final(self).sse_streams_inflight@ == old(self).sse_streams_inflight@,
    {
        let key = render_route_labels(route_id);
        adjust_gauge(&mut self.inflight_requests, key, -1);
    }

    /// One more server-sent-event stream in flight on the route.
    pub fn inc_sse_inflight(&mut self, route_id: &str)
        requires
            old(self).wf(),
        ensures
            final(self).wf(),
            ({
                let key = spec_route_labels(route_id@);
                let prior = match assoc(old(self).sse_streams_inflight@, key) {
                    Some(v) => v as int,
                    None => 0,
                };
                assoc(final(self).sse_streams_inflight@, key) matches Some(v) && v == (if prior
                    == i64::MAX {
                    prior
                } else {
                    prior + 1
                })
            }),
            forall|k2: Seq<char>|
                k2 != spec_route_labels(route_id@) ==> #[trigger] assoc(
                    final(self).sse_streams_inflight@,
                    k2,
                ) == assoc(old(self).sse_streams_inflight@, k2),
            final(self).requests_total@ == old(self).requests_total@,
            final(self).request_duration@ == old(self).request_duration@,
            final(self).upstream_duration@ == old(self).upstream_duration@,
            final(self).inflight_requests@ == old(self).inflight_requests@,
    {
        let key = render_route_labels(route_id);
        adjust_gauge(&mut self.sse_streams_inflight, key, 1);
    }

    /// One fewer server-sent-event stream in flight on the route.
    pub fn dec_sse_inflight(&mut self, route_id: &str)
        requires
            old(self).wf(),
        ensures
            final(self).wf(),
            ({
                let key = spec_route_labels(route_id@);
                let prior = match assoc(old(self).sse_streams_inflight@, key) {
                    Some(v) => v as int,
                    None => 0,
                };
                assoc(final(self).sse_streams_inflight@, key) matches Some(v) && v == (if prior
                    == i64::MIN {
                    prior
                } else {
                    prior - 1
                })
            }),
            forall|k2: Seq<char>|
                k2 != spec_route_labels(route_id@) ==> #[trigger] assoc(
                    final(self).sse_streams_inflight@,
                    k2,
                ) == assoc(old(self).sse_streams_inflight@, k2),
            final(self).requests_total@ == old(self).requests_total@,
            final(self).request_duration@ == old(self).request_duration@,
            final(self).upstream_duration@ == old(self).upstream_duration@,
            final(self).inflight_requests@ == old(self).inflight_requests@,
    {
        let key = render_route_labels(route_id);
        adjust_gauge(&mut self.sse_streams_inflight, key, -1);
    }
}


/// The `le` label text of each finite bucket: seconds, doubling from a
/// millisecond.
pub open spec fn spec_le_label(j: int) -> Seq<char> {
    if j == 0 {
        "0.001"@
    } else if j == 1 {
        "0.002"@
    } else if j == 2 {
        "0.004"@
    } else if j == 3 {
        "0.008"@
    } else if j == 4 {
        "0.016"@
    } else if j == 5 {
        "0.032"@
    } else if j == 6 {
        "0.064"@
    } else if j == 7 {
        "0.128"@
    } else if j == 8 {
        "0.256"@
    } else if j == 9 {
        "0.512"@
    } else if j == 10 {
        "1.024"@
    } else if j == 11 {
        "2.048"@
    } else if j == 12 {
        "4.096"@
    } else if j == 13 {
        "8.192"@
    } else if j == 14 {
        "16.384"@
    } else if j == 15 {
        "32.768"@
    } else {
        "+Inf"@
    }
}

fn le_label(j: usize) -> (r: &'static str)
    ensures
        r@ == spec_le_label(j as int),
{
    if j == 0 {
        "0.001"
    } else if j == 1 {
        "0.002"
    } else if j == 2 {
        "0.004"
    } else if j == 3 {
        "0.008"
    } else if j == 4 {
        "0.016"
    } else if j == 5 {
        "0.032"
    } else if j == 6 {
        "0.064"
    } else if j == 7 {
        "0.128"
    } else if j == 8 {
        "0.256"
    } else if j == 9 {
        "0.512"
    } else if j == 10 {
        "1.024"
    } else if j == 11 {
        "2.048"
    } else if j == 12 {
        "4.096"
    } else if j == 13 {
        "8.192"
    } else if j == 14 {
        "16.384"
    } else if j == 15 {
        "32.768"
    } else {
        "+Inf"
    }
}

/// Milliseconds written as seconds with three decimals.
pub open spec fn spec_seconds_text(ms: u64) -> Seq<char> {
    dec_seq(ms as int / 1000) + seq!['.'] + seq![
        crate::text::dec_digit((ms as int / 100) % 10),
        crate::text::dec_digit((ms as int / 10) % 10),
        crate::text::dec_digit(ms as int % 10),
    ]
}

fn seconds_text(ms: u64) -> (r: String)
    ensures
        r@ == spec_seconds_text(ms),
{
    let mut r = crate::text::u64_to_dec(ms / 1000);
    r.push('.');
    let d1 = crate::text::u64_to_dec((ms / 100) % 10);
    let d2 = crate::text::u64_to_dec((ms / 10) % 10);
    let d3 = crate::text::u64_to_dec(ms % 10);
    r.append(d1.as_str());
    r.append(d2.as_str());
    r.append(d3.as_str());
    proof {
        assert(dec_seq(((ms / 100) % 10) as int) =~= seq![
            crate::text::dec_digit((ms as int / 100) % 10),
        ]);
        assert(dec_seq(((ms / 10) % 10) as int) =~= seq![
            crate::text::dec_digit((ms as int / 10) % 10),
        ]);
        assert(dec_seq((ms % 10) as int) =~= seq![crate::text::dec_digit(ms as int % 10)]);
        assert(r@ =~= spec_seconds_text(ms));
    }
    r
}

/// A gauge value, negative ones with a sign.
pub open spec fn spec_gauge_text(v: i64) -> Seq<char> {
    if v >= 0 {
        dec_seq(v as int)
    } else {
        seq!['-'] + dec_seq(-(v as int))
    }
}

fn gauge_text(v: i64) -> (r: String)
    ensures
        r@ == spec_gauge_text(v),
{
    if v >= 0 {
        crate::text::u64_to_dec(v as u64)
    } else {
        let magnitude: u64 = ((-(v + 1)) as u64) + 1;
        let mut r = String::new();
        r.push('-');
        let digits = crate::text::u64_to_dec(magnitude);
        r.append(digits.as_str());
        proof {
            assert(r@ =~= seq!['-'] + dec_seq(-(v as int)));
        }
        r
    }
}

/// Saturating cumulative bucket count up to index `j`.
pub open spec fn spec_cum(bc: Seq<u64>, j: int) -> u64
    decreases j + 1,
{
    if j < 0 {
        0
    } else if j >= bc.len() {
        spec_cum(bc, bc.len() - 1)
    } else {
        sat_add(spec_cum(bc, j - 1), bc[j])
    }
}

/// One counter line: name, labels, value.
pub open spec fn spec_counter_line(name: Seq<char>, labels: Seq<char>, v: u64) -> Seq<char> {
    name + seq!['{'] + labels + "} "@ + dec_seq(v as int) + seq!['\n']
}

/// The counter lines of every entry, in stored order.
pub open spec fn spec_counter_lines(name: Seq<char>, m: Seq<(String, u64)>) -> Seq<char>
    decreases m.len(),
{
    if m.len() == 0 {
        Seq::empty()
    } else {
        spec_counter_lines(name, m.drop_last()) + spec_counter_line(
            name,
            m.last().0@,
            m.last().1,
        )
    }
}

/// The gauge lines of every entry, in stored order.
pub open spec fn spec_gauge_lines(name: Seq<char>, m: Seq<(String, i64)>) -> Seq<char>
    decreases m.len(),
{
    if m.len() == 0 {
        Seq::empty()
    } else {
        spec_gauge_lines(name, m.drop_last()) + name + seq!['{'] + m.last().0@ + "} "@
            + spec_gauge_text(m.last().1) + seq!['\n']
    }
}

/// The finite bucket lines of one histogram entry, cumulative counts.
pub open spec fn spec_bucket_lines(
    name: Seq<char>,
    labels: Seq<char>,
    bc: Seq<u64>,
    upto: int,
) -> Seq<char>
    decreases upto,
{
    if upto <= 0 {
        Seq::empty()
    } else {
        spec_bucket_lines(name, labels, bc, upto - 1) + name + "_bucket{"@ + labels + ",le=\""@
            + spec_le_label(upto - 1) + "\"} "@ + dec_seq(spec_cum(bc, upto - 1) as int)
            + seq!['\n']
    }
}

/// Every line of one histogram entry: sixteen buckets, the unbounded
/// bucket, the sum in seconds, and the count.
pub open spec fn spec_histogram_entry(
    name: Seq<char>,
    labels: Seq<char>,
    h: HistogramState,
) -> Seq<char> {
    spec_bucket_lines(name, labels, h.bucket_counts@, 16) + name + "_bucket{"@ + labels
        + ",le=\"+Inf\"} "@ + dec_seq(h.count as int) + seq!['\n'] + name + "_sum{"@ + labels
        + "} "@ + spec_seconds_text(h.sum_ms) + seq!['\n'] + name + "_count{"@ + labels + "} "@
        + dec_seq(h.count as int) + seq!['\n']
}

/// The histogram lines of every entry, in stored order.
pub open spec fn spec_histogram_lines(
    name: Seq<char>,
    m: Seq<(String, HistogramState)>,
) -> Seq<char>
    decreases m.len(),
{
    if m.len() == 0 {
        Seq::empty()
    } else {
        spec_histogram_lines(name, m.drop_last()) + spec_histogram_entry(
            name,
            m.last().0@,
            m.last().1,
        )
    }
}

fn push_counter_lines(out: &mut String, name: &str, m: &Vec<(String, u64)>)
    ensures
        final(out)@ == old(out)@ + spec_counter_lines(name@, m@),
{
    let n = m.len();
    let mut i: usize = 0;
    while i < n
        invariant
            n == m@.len(),
            i <= n,
            out@ == old(out)@ + spec_counter_lines(name@, m@.subrange(0, i as int)),
        decreases n - i,
    {
        let ghost cur = m@.subrange(0, i + 1);
        proof {
            assert(cur.drop_last() =~= m@.subrange(0, i as int));
            assert(cur.last() == m@[i as int]);
        }
        out.append(name);
        out.push('{');
        out.append(m[i].0.as_str());
        out.append("} ");
        let v = crate::text::u64_to_dec(m[i].1);
        out.append(v.as_str());
        out.push('\n');
        proof {
            assert(out@ =~= old(out)@ + spec_counter_lines(name@, cur));
        }
        i = i + 1;
    }
    proof {
        assert(m@.subrange(0, n as int) =~= m@);
    }
}

fn push_gauge_lines(out: &mut String, name: &str, m: &Vec<(String, i64)>)
    ensures
        final(out)@ == old(out)@ + spec_gauge_lines(name@, m@),
{
    let n = m.len();
    let mut i: usize = 0;
    while i < n
        invariant
            n == m@.len(),
            i <= n,
            out@ == old(out)@ + spec_gauge_lines(name@, m@.subrange(0, i as int)),
        decreases n - i,
    {
        let ghost cur = m@.subrange(0, i + 1);
        proof {
            assert(cur.drop_last() =~= m@.subrange(0, i as int));
            assert(cur.last() == m@[i as int]);
        }
        out.append(name);
        out.push('{');
        out.append(m[i].0.as_str());
        out.append("} ");
        let v = gauge_text(m[i].1);
        out.append(v.as_str());
        out.push('\n');
        proof {
            assert(out@ =~= old(out)@ + spec_gauge_lines(name@, cur));
        }
        i = i + 1;
    }
    proof {
        assert(m@.subrange(0, n as int) =~= m@);
    }
}

fn push_histogram_entry(out: &mut String, name: &str, labels: &str, h: &HistogramState)
    requires
        h.wf(),
    ensures
        final(out)@ == old(out)@ + spec_histogram_entry(name@, labels@, *h),
{
    let mut cum: u64 = 0;
    let mut j: usize = 0;
    proof {
        assert(spec_cum(h.bucket_counts@, -1) == 0);
    }
    while j < 16
        invariant
            h.wf(),
            j <= 16,
            cum == spec_cum(h.bucket_counts@, j as int - 1),
            out@ == old(out)@ + spec_bucket_lines(name@, labels@, h.bucket_counts@, j as int),
        decreases 16 - j,
    {
        let v = h.bucket_counts[j];
        cum = if cum > u64::MAX - v {
            u64::MAX
        } else {
            cum + v
        };
        out.append(name);
        out.append("_bucket{");
        out.append(labels);
        out.append(",le=\"");
        out.append(le_label(j));
        out.append("\"} ");
        let c = crate::text::u64_to_dec(cum);
        out.append(c.as_str());
        out.push('\n');
        proof {
            assert(out@ =~= old(out)@ + spec_bucket_lines(
                name@,
                labels@,
                h.bucket_counts@,
                j as int + 1,
            ));
        }
        j = j + 1;
    }
    out.append(name);
    out.append("_bucket{");
    out.append(labels);
    out.append(",le=\"+Inf\"} ");
    let total = crate::text::u64_to_dec(h.count);
    out.append(total.as_str());
    out.push('\n');
    out.append(name);
    out.append("_sum{");
    out.append(labels);
    out.append("} ");
    let sum = seconds_text(h.sum_ms);
    out.append(sum.as_str());
    out.push('\n');
    out.append(name);
    out.append("_count{");
    out.append(labels);
    out.append("} ");
    let count = crate::text::u64_to_dec(h.count);
    out.append(count.as_str());
    out.push('\n');
    proof {
        assert(out@ =~= old(out)@ + spec_histogram_entry(name@, labels@, *h));
    }
}

fn push_histogram_lines(out: &mut String, name: &str, m: &Vec<(String, HistogramState)>)
    requires
        forall|i: int| 0 <= i < m@.len() ==> (#[trigger] m@[i]).1.wf(),
    ensures
        final(out)@ == old(out)@ + spec_histogram_lines(name@, m@),
{
    let n = m.len();
    let mut i: usize = 0;
    while i < n
        invariant
            n == m@.len(),
            forall|k: int| 0 <= k < n ==> (#[trigger] m@[k]).1.wf(),
            i <= n,
            out@ == old(out)@ + spec_histogram_lines(name@, m@.subrange(0, i as int)),
        decreases n - i,
    {
        let ghost cur = m@.subrange(0, i + 1);
        proof {
            assert(cur.drop_last() =~= m@.subrange(0, i as int));
            assert(cur.last() == m@[i as int]);
        }
        push_histogram_entry(out, name, m[i].0.as_str(), &m[i].1);
        proof {
            assert(out@ =~= old(out)@ + spec_histogram_lines(name@, cur));
        }
        i = i + 1;
    }
    proof {
        assert(m@.subrange(0, n as int) =~= m@);
    }
}

/// The whole exposition: each family's header and lines in a fixed
/// order, closed by the end marker.
pub open spec fn spec_encode(m: GatewayMetrics) -> Seq<char> {
    "# HELP gateway_requests_total Total number of handled gateway requests.\n# TYPE gateway_requests_total counter\n"@
        + spec_counter_lines("gateway_requests_total"@, m.requests_total@)
        + "# HELP gateway_request_duration_seconds Gateway request duration in seconds.\n# TYPE gateway_request_duration_seconds histogram\n"@
        + spec_histogram_lines("gateway_request_duration_seconds"@, m.request_duration@)
        + "# HELP gateway_upstream_duration_seconds Upstream request duration in seconds.\n# TYPE gateway_upstream_duration_seconds histogram\n"@
        + spec_histogram_lines("gateway_upstream_duration_seconds"@, m.upstream_duration@)
        + "# HELP gateway_inflight_requests Current number of in-flight gateway requests.\n# TYPE gateway_inflight_requests gauge\n"@
        + spec_gauge_lines("gateway_inflight_requests"@, m.inflight_requests@)
        + "# HELP gateway_sse_streams_inflight Current number of in-flight SSE streams.\n# TYPE gateway_sse_streams_inflight gauge\n"@
        + spec_gauge_lines("gateway_sse_streams_inflight"@, m.sse_streams_inflight@)
        + "# EOF\n"@
}

impl GatewayMetrics {
    /// The Prometheus text exposition of the registry.
    pub fn encode(&self) -> (r: String)
        requires
            self.wf(),
        ensures
            r@ == spec_encode(*self),
    {
        let mut out = String::new();
        out.append(
            "# HELP gateway_requests_total Total number of handled gateway requests.\n# TYPE gateway_requests_total counter\n",
        );
        push_counter_lines(&mut out, "gateway_requests_total", &self.requests_total);
        out.append(
            "# HELP gateway_request_duration_seconds Gateway request duration in seconds.\n# TYPE gateway_request_duration_seconds histogram\n",
        );
        push_histogram_lines(
            &mut out,
            "gateway_request_duration_seconds",
            &self.request_duration,
        );
        out.append(
            "# HELP gateway_upstream_duration_seconds Upstream request duration in seconds.\n# TYPE gateway_upstream_duration_seconds histogram\n",
        );
        push_histogram_lines(
            &mut out,
            "gateway_upstream_duration_seconds",
            &self.upstream_duration,
        );
        out.append(
            "# HELP gateway_inflight_requests Current number of in-flight gateway requests.\n# TYPE gateway_inflight_requests gauge\n",
        );
        push_gauge_lines(&mut out, "gateway_inflight_requests", &self.inflight_requests);
        out.append(
            "# HELP gateway_sse_streams_inflight Current number of in-flight SSE streams.\n# TYPE gateway_sse_streams_inflight gauge\n",
        );
        push_gauge_lines(&mut out, "gateway_sse_streams_inflight", &self.sse_streams_inflight);
        out.append("# EOF\n");
        proof {
            assert(out@ =~= spec_encode(*self));
        }
        out
    }
}


} // verus!
