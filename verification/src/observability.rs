//! Observability: request-id propagation, token labeling, the metrics
//! registry and its Prometheus text exposition, and the sliding
//! per-minute summary.

use crate::config::ObservabilityConfig;
use crate::headers::{drop_name, spec_lookup, valid_header_value, HeaderTable};
use crate::text::{lower_seq, trim_seq};
use vstd::prelude::*;

verus! {

/// The header carrying the request id in both directions.
pub fn request_id_header() -> (r: &'static str)
    ensures
        r@ == "x-request-id"@,
{
    "x-request-id"
}

/// A request id worth keeping: 1 to 128 characters, ASCII
/// alphanumerics or `-`, `_`, `.`.
pub open spec fn valid_request_id_char(c: char) -> bool {
    ('0' <= c && c <= '9') || ('a' <= c && c <= 'z') || ('A' <= c && c <= 'Z') || c == '-' || c
        == '_' || c == '.'
}

pub open spec fn spec_valid_request_id(s: Seq<char>) -> bool {
    0 < s.len() <= 128 && forall|i: int| 0 <= i < s.len() ==> valid_request_id_char(#[trigger] s[i])
}

pub fn is_valid_request_id(value: &str) -> (r: bool)
    ensures
        r == spec_valid_request_id(value@),
{
    let n = value.unicode_len();
    if n == 0 || n > 128 {
        return false;
    }
    let mut i: usize = 0;
    while i < n
        invariant
            n == value@.len(),
            i <= n,
            forall|j: int| 0 <= j < i ==> valid_request_id_char(#[trigger] value@[j]),
        decreases n - i,
    {
        let c = value.get_char(i);
        let ok = ('0' <= c && c <= '9') || ('a' <= c && c <= 'z') || ('A' <= c && c <= 'Z') || c
            == '-' || c == '_' || c == '.';
        if !ok {
            return false;
        }
        i = i + 1;
    }
    true
}

/// Relies on `uuid::Uuid::now_v7` and its `Display`: a fresh
/// time-ordered UUID in hyphenated form, 36 characters of lowercase
/// hexadecimal digits and hyphens.
#[verifier::external_body]
fn new_request_id() -> (r: String)
    ensures
        r@.len() == 36,
        forall|i: int|
            0 <= i < r@.len() ==> (('0' <= #[trigger] r@[i] && r@[i] <= '9') || ('a' <= r@[i]
                && r@[i] <= 'f') || r@[i] == '-'),
{
    uuid::Uuid::now_v7().to_string()
}

/// The request id chosen for a request: the trimmed inbound
/// `X-Request-Id` exactly when it satisfies the validity rule, else a
/// fresh UUID. The result always satisfies the validity rule, so the
/// chosen id equals the inbound one if and only if that one was valid.
pub fn extract_or_generate_request_id(headers: &HeaderTable) -> (r: String)
    ensures
        spec_valid_request_id(r@),
        ({
            match spec_lookup(headers.entries@, lower_seq("x-request-id"@)) {
                Some(v) => spec_valid_request_id(trim_seq(v)) ==> r@ == trim_seq(v),
                None => true,
            }
        }),
{
    if let Some(value) = headers.get("x-request-id") {
        let trimmed = crate::text::trim(value.as_str());
        if is_valid_request_id(trimmed.as_str()) {
            return trimmed;
        }
    }
    new_request_id()
}

/// Puts the chosen id on the response headers; an id the header types
/// would refuse (never one this library generated) leaves them
/// unchanged.
pub fn insert_request_id_header(headers: &mut HeaderTable, request_id: &str)
    ensures
        old(headers).wf() ==> final(headers).wf(),
        ({
            if valid_header_value(request_id@) {
                let remaining = drop_name(old(headers).entries@, lower_seq("x-request-id"@));
                &&& final(headers).entries@.len() == remaining.len() + 1
                &&& final(headers).entries@.subrange(0, remaining.len() as int) == remaining
                &&& final(headers).entries@.last().0@ == lower_seq("x-request-id"@)
                &&& final(headers).entries@.last().1@ == request_id@
            } else {
                final(headers).entries@ == old(headers).entries@
            }
        }),
{
    if crate::headers::is_valid_header_value(request_id) {
        headers.insert("x-request-id", request_id);
    }
}

/// Header names whose values are never logged.
pub open spec fn spec_sensitive_header_name(name: Seq<char>) -> bool {
    lower_seq(trim_seq(name)) == "authorization"@ || lower_seq(trim_seq(name)) == "x-api-key"@
        || lower_seq(trim_seq(name)) == "proxy-authorization"@
}

pub fn is_sensitive_header_name(name: &str) -> (r: bool)
    ensures
        r == spec_sensitive_header_name(name@),
{
    let trimmed = crate::text::trim(name);
    let lowered = crate::text::to_lowercase(trimmed.as_str());
    proof {
        reveal_strlit("authorization");
        reveal_strlit("x-api-key");
        reveal_strlit("proxy-authorization");
        assert(lower_seq("authorization"@) =~= "authorization"@);
        assert(lower_seq("x-api-key"@) =~= "x-api-key"@);
        assert(lower_seq("proxy-authorization"@) =~= "proxy-authorization"@);
    }
    if crate::text::eq_ignore_case(lowered.as_str(), "authorization") {
        proof {
            assert(lower_seq(lowered@) =~= lowered@);
        }
        return true;
    }
    if crate::text::eq_ignore_case(lowered.as_str(), "x-api-key") {
        proof {
            assert(lower_seq(lowered@) =~= lowered@);
        }
        return true;
    }
    if crate::text::eq_ignore_case(lowered.as_str(), "proxy-authorization") {
        proof {
            assert(lower_seq(lowered@) =~= lowered@);
        }
        return true;
    }
    proof {
        assert(lower_seq(lowered@) =~= lowered@);
    }
    false
}

/// The short hash shown in a token label: the low 32 bits of the
/// library's fingerprint of the trimmed token.
pub open spec fn spec_token_hash(t: Seq<char>) -> u64 {
    crate::concurrency::spec_fingerprint(t) % 0x100000000
}

/// The non-reversible label standing for a token in metrics and logs:
/// up to the first three characters, `***`, for tokens longer than
/// five also the last two characters, then `#` and eight hex digits of
/// a hash. A token longer than eight characters never appears whole
/// (see `lemma_token_label_hides_token`); for a token of three
/// characters or fewer the kept prefix is the whole token — that much
/// disclosure is the label rule itself.
pub open spec fn spec_token_label(token: Seq<char>) -> Seq<char> {
    let t = trim_seq(token);
    let tail = seq!['#'] + crate::text::hex_seq(spec_token_hash(t) as int, 8);
    if t.len() == 0 {
        "***"@ + tail
    } else if t.len() <= 5 {
        t.subrange(0, if t.len() < 3 { t.len() as int } else { 3 }) + "***"@ + tail
    } else {
        t.subrange(0, 3) + "***"@ + t.subrange(t.len() - 2, t.len() as int) + "#"@
            + crate::text::hex_seq(spec_token_hash(t) as int, 8)
    }
}

pub fn token_label(token: &str) -> (r: String)
    ensures
        r@ == spec_token_label(token@),
{
    let t = crate::text::trim(token);
    let n = t.as_str().unicode_len();
    let hash = crate::concurrency::fingerprint(t.as_str()) % 0x100000000;
    let hex = crate::text::u64_to_hex_fixed(hash, 8);
    if n == 0 {
        let mut r = String::from_str("***");
        r.push('#');
        r.append(hex.as_str());
        proof {
            assert(r@ =~= "***"@ + (seq!['#'] + hex@));
        }
        return r;
    }
    let take = if n < 3 {
        n
    } else {
        3
    };
    let mut r = crate::text::substring(t.as_str(), 0, take);
    r.append("***");
    if n <= 5 {
        r.push('#');
        r.append(hex.as_str());
        proof {
            assert(r@ =~= trim_seq(token@).subrange(
                0,
                if trim_seq(token@).len() < 3 {
                    trim_seq(token@).len() as int
                } else {
                    3
                },
            ) + "***"@ + (seq!['#'] + hex@));
        }
        return r;
    }
    let suffix = crate::text::substring(t.as_str(), n - 2, n);
    r.append(suffix.as_str());
    r.append("#");
    r.append(hex.as_str());
    r
}

/// The configured metrics path with surrounding whitespace and
/// trailing slashes removed; a bare `/` stays `/`.
pub open spec fn spec_normalize_metrics_path(path: Seq<char>) -> Seq<char> {
    let t = trim_seq(path);
    if t =~= seq!['/'] {
        seq!['/']
    } else {
        crate::proxy::trim_slashes_end(t)
    }
}

pub fn normalize_metrics_path(path: &str) -> (r: String)
    ensures
        r@ == spec_normalize_metrics_path(path@),
{
    let trimmed = crate::text::trim(path);
    proof {
        reveal_strlit("/");
        assert("/"@ =~= seq!['/']);
    }
    if crate::text::str_eq(trimmed.as_str(), "/") {
        return trimmed;
    }
    let n = trimmed.as_str().unicode_len();
    let mut end: usize = n;
    while end > 0 && trimmed.as_str().get_char(end - 1) == '/'
        invariant
            n == trimmed@.len(),
            end <= n,
            forall|j: int| end <= j < n ==> trimmed@[j] == '/',
        decreases end,
    {
        end = end - 1;
    }
    proof {
        crate::proxy::lemma_trim_slashes_at(trimmed@, end as int);
    }
    crate::text::substring(trimmed.as_str(), 0, end)
}

/// A companion path under the metrics path: `/suffix` under the root,
/// else `base/suffix`.
pub open spec fn spec_metrics_sub_path(base: Seq<char>, suffix: Seq<char>) -> Seq<char> {
    if base =~= seq!['/'] {
        seq!['/'] + suffix
    } else {
        base + seq!['/'] + suffix
    }
}

pub fn metrics_sub_path(base_path: &str, suffix: &str) -> (r: String)
    ensures
        r@ == spec_metrics_sub_path(base_path@, suffix@),
{
    proof {
        reveal_strlit("/");
        assert("/"@ =~= seq!['/']);
    }
    if crate::text::str_eq(base_path, "/") {
        let mut r = String::from_str("/");
        r.append(suffix);
        return r;
    }
    let mut r = String::from_str(base_path);
    r.append("/");
    r.append(suffix);
    proof {
        assert(r@ =~= base_path@ + seq!['/'] + suffix@);
    }
    r
}


/// Saturating add on `u64`, matching how summary counts accumulate.
pub open spec fn sat_add(a: u64, b: u64) -> u64 {
    if a + b > u64::MAX {
        u64::MAX
    } else {
        (a + b) as u64
    }
}

pub open spec fn max_u64(a: u64, b: u64) -> u64 {
    if a >= b {
        a
    } else {
        b
    }
}

#[derive(Clone, Copy, Debug, PartialEq, Eq, Structural)]
pub struct RouteMinuteBucket {
    pub minute_epoch: u64,
    pub requests: u64,
    pub max_inflight: u64,
}

#[derive(Clone, Copy, Debug, PartialEq, Eq, Structural)]
pub struct RequestMinuteBucket {
    pub minute_epoch: u64,
    pub requests: u64,
}

/// The per-minute sliding window state: per-route buckets, per-token
/// buckets, and the running in-flight count per route.
pub struct SummaryState {
    pub route_buckets: Vec<(String, Vec<RouteMinuteBucket>)>,
    pub token_buckets: Vec<(String, Vec<RequestMinuteBucket>)>,
    pub route_inflight: Vec<(String, u64)>,
}

/// Buckets older than 24 hours are dropped from the front.
pub open spec fn spec_prune_cutoff(minute_epoch: u64) -> u64 {
    if minute_epoch >= 1439 {
        (minute_epoch - 1439) as u64
    } else {
        0
    }
}

/// The front buckets older than the cutoff removed.
pub open spec fn drop_old_route_buckets(
    b: Seq<RouteMinuteBucket>,
    cutoff: u64,
) -> Seq<RouteMinuteBucket>
    decreases b.len(),
{
    if b.len() > 0 && b[0].minute_epoch < cutoff {
        drop_old_route_buckets(b.subrange(1, b.len() as int), cutoff)
    } else {
        b
    }
}

pub open spec fn drop_old_token_buckets(
    b: Seq<RequestMinuteBucket>,
    cutoff: u64,
) -> Seq<RequestMinuteBucket>
    decreases b.len(),
{
    if b.len() > 0 && b[0].minute_epoch < cutoff {
        drop_old_token_buckets(b.subrange(1, b.len() as int), cutoff)
    } else {
        b
    }
}

/// The bucket list after an observation at `minute_epoch`: the last
/// bucket is reused when it already stands at that minute, else a
/// fresh one is appended; the requests count is bumped and the
/// in-flight high-water mark raised.
pub open spec fn spec_bump_route_buckets(
    b: Seq<RouteMinuteBucket>,
    minute_epoch: u64,
    inflight_now: u64,
) -> Seq<RouteMinuteBucket> {
    let b1 = if b.len() > 0 && b.last().minute_epoch == minute_epoch {
        b
    } else {
        b.push(RouteMinuteBucket { minute_epoch, requests: 0, max_inflight: 0 })
    };
    let last = b1.last();
    b1.update(
        b1.len() - 1,
        RouteMinuteBucket {
            minute_epoch,
            requests: sat_add(last.requests, 1),
            max_inflight: max_u64(last.max_inflight, inflight_now),
        },
    )
}

/// Like `spec_bump_route_buckets` but only raising the high-water
/// mark, as an in-flight adjustment does.
pub open spec fn spec_mark_route_buckets(
    b: Seq<RouteMinuteBucket>,
    minute_epoch: u64,
    inflight_now: u64,
) -> Seq<RouteMinuteBucket> {
    let b1 = if b.len() > 0 && b.last().minute_epoch == minute_epoch {
        b
    } else {
        b.push(RouteMinuteBucket { minute_epoch, requests: 0, max_inflight: 0 })
    };
    let last = b1.last();
    b1.update(
        b1.len() - 1,
        RouteMinuteBucket {
            minute_epoch,
            requests: last.requests,
            max_inflight: max_u64(last.max_inflight, inflight_now),
        },
    )
}

pub open spec fn spec_bump_token_buckets(
    b: Seq<RequestMinuteBucket>,
    minute_epoch: u64,
) -> Seq<RequestMinuteBucket> {
    let b1 = if b.len() > 0 && b.last().minute_epoch == minute_epoch {
        b
    } else {
        b.push(RequestMinuteBucket { minute_epoch, requests: 0 })
    };
    let last = b1.last();
    b1.update(
        b1.len() - 1,
        RequestMinuteBucket { minute_epoch, requests: sat_add(last.requests, 1) },
    )
}

impl SummaryState {
    /// Keys appear at most once in each map.
    pub open spec fn wf(self) -> bool {
        &&& forall|i: int, j: int|
            0 <= i < j < self.route_buckets@.len() ==> (#[trigger] self.route_buckets@[i]).0@ != (
            #[trigger] self.route_buckets@[j]).0@
        &&& forall|i: int, j: int|
            0 <= i < j < self.token_buckets@.len() ==> (#[trigger] self.token_buckets@[i]).0@ != (
            #[trigger] self.token_buckets@[j]).0@
        &&& forall|i: int, j: int|
            0 <= i < j < self.route_inflight@.len() ==> (#[trigger] self.route_inflight@[i]).0@
                != (#[trigger] self.route_inflight@[j]).0@
    }

    pub fn new() -> (r: SummaryState)
        ensures
            r.wf(),
            r.route_buckets@.len() == 0,
            r.token_buckets@.len() == 0,
            r.route_inflight@.len() == 0,
    {
        SummaryState {
            route_buckets: Vec::new(),
            token_buckets: Vec::new(),
            route_inflight: Vec::new(),
        }
    }
}



/// The running in-flight count for a route, `0` when absent.
pub open spec fn spec_inflight_val(m: Seq<(String, u64)>, key: Seq<char>) -> u64 {
    match crate::kv::assoc(m, key) {
        Some(v) => v,
        None => 0,
    }
}

fn inflight_value(m: &Vec<(String, u64)>, key: &str) -> (r: u64)
    ensures
        r == spec_inflight_val(m@, key@),
{
    match crate::kv::assoc_index(m, key) {
        Some(i) => {
            proof {
                crate::kv::lemma_assoc_at(m@, i as int);
            }
            m[i].1
        },
        None => {
            proof {
                crate::kv::lemma_assoc_absent(m@, key@);
            }
            0
        },
    }
}

proof fn lemma_drop_old_route_at(b: Seq<RouteMinuteBucket>, cutoff: u64, i: int)
    requires
        0 <= i <= b.len(),
        forall|j: int| 0 <= j < i ==> (#[trigger] b[j]).minute_epoch < cutoff,
        i < b.len() ==> b[i].minute_epoch >= cutoff,
    ensures
        drop_old_route_buckets(b, cutoff) == b.subrange(i, b.len() as int),
    decreases i,
{
    if i == 0 {
        if b.len() == 0 || b[0].minute_epoch >= cutoff {
            assert(b =~= b.subrange(0, b.len() as int));
        }
    } else {
        let t = b.subrange(1, b.len() as int);
        assert(forall|j: int| 0 <= j < t.len() ==> t[j] == b[j + 1]);
        lemma_drop_old_route_at(t, cutoff, i - 1);
        assert(t.subrange(i - 1, t.len() as int) =~= b.subrange(i, b.len() as int));
    }
}

proof fn lemma_drop_old_token_at(b: Seq<RequestMinuteBucket>, cutoff: u64, i: int)
    requires
        0 <= i <= b.len(),
        forall|j: int| 0 <= j < i ==> (#[trigger] b[j]).minute_epoch < cutoff,
        i < b.len() ==> b[i].minute_epoch >= cutoff,
    ensures
        drop_old_token_buckets(b, cutoff) == b.subrange(i, b.len() as int),
    decreases i,
{
    if i == 0 {
        if b.len() == 0 || b[0].minute_epoch >= cutoff {
            assert(b =~= b.subrange(0, b.len() as int));
        }
    } else {
        let t = b.subrange(1, b.len() as int);
        assert(forall|j: int| 0 <= j < t.len() ==> t[j] == b[j + 1]);
        lemma_drop_old_token_at(t, cutoff, i - 1);
        assert(t.subrange(i - 1, t.len() as int) =~= b.subrange(i, b.len() as int));
    }
}

/// A bucket list whose last bucket is inside the window survives
/// pruning.
proof fn lemma_drop_old_route_keeps_last(b: Seq<RouteMinuteBucket>, cutoff: u64)
    requires
        b.len() > 0,
        b.last().minute_epoch >= cutoff,
    ensures
        drop_old_route_buckets(b, cutoff).len() > 0,
    decreases b.len(),
{
    if b[0].minute_epoch < cutoff {
        let t = b.subrange(1, b.len() as int);
        assert(t.last() == b.last());
        lemma_drop_old_route_keeps_last(t, cutoff);
    }
}

proof fn lemma_drop_old_token_keeps_last(b: Seq<RequestMinuteBucket>, cutoff: u64)
    requires
        b.len() > 0,
        b.last().minute_epoch >= cutoff,
    ensures
        drop_old_token_buckets(b, cutoff).len() > 0,
    decreases b.len(),
{
    if b[0].minute_epoch < cutoff {
        let t = b.subrange(1, b.len() as int);
        assert(t.last() == b.last());
        lemma_drop_old_token_keeps_last(t, cutoff);
    }
}

fn prune_route_bucket_list(b: &Vec<RouteMinuteBucket>, cutoff: u64) -> (r: Vec<
    RouteMinuteBucket,
>)
    ensures
        r@ == drop_old_route_buckets(b@, cutoff),
{
    let n = b.len();
    let mut k: usize = 0;
    while k < n && b[k].minute_epoch < cutoff
        invariant
            n == b@.len(),
            k <= n,
            forall|j: int| 0 <= j < k ==> (#[trigger] b@[j]).minute_epoch < cutoff,
        decreases n - k,
    {
        k = k + 1;
    }
    proof {
        lemma_drop_old_route_at(b@, cutoff, k as int);
    }
    let mut r: Vec<RouteMinuteBucket> = Vec::new();
    let mut i: usize = k;
    while i < n
        invariant
            n == b@.len(),
            k <= i <= n,
            r@ == b@.subrange(k as int, i as int),
        decreases n - i,
    {
        r.push(b[i]);
        proof {
            assert(r@ =~= b@.subrange(k as int, i + 1));
        }
        i = i + 1;
    }
    proof {
        assert(r@ =~= b@.subrange(k as int, n as int));
    }
    r
}

fn prune_token_bucket_list(b: &Vec<RequestMinuteBucket>, cutoff: u64) -> (r: Vec<
    RequestMinuteBucket,
>)
    ensures
        r@ == drop_old_token_buckets(b@, cutoff),
{
    let n = b.len();
    let mut k: usize = 0;
    while k < n && b[k].minute_epoch < cutoff
        invariant
            n == b@.len(),
            k <= n,
            forall|j: int| 0 <= j < k ==> (#[trigger] b@[j]).minute_epoch < cutoff,
        decreases n - k,
    {
        k = k + 1;
    }
    proof {
        lemma_drop_old_token_at(b@, cutoff, k as int);
    }
    let mut r: Vec<RequestMinuteBucket> = Vec::new();
    let mut i: usize = k;
    while i < n
        invariant
            n == b@.len(),
            k <= i <= n,
            r@ == b@.subrange(k as int, i as int),
        decreases n - i,
    {
        r.push(b[i]);
        proof {
            assert(r@ =~= b@.subrange(k as int, i + 1));
        }
        i = i + 1;
    }
    proof {
        assert(r@ =~= b@.subrange(k as int, n as int));
    }
    r
}


/// Bucket minutes strictly rise along the list. This holds whenever
/// observations arrive with nondecreasing minutes; a clock stepping
/// backwards can break it, and pruning still only drops from the
/// front then, exactly as the contracts state.
pub open spec fn spec_route_buckets_chronological(b: Seq<RouteMinuteBucket>) -> bool {
    forall|i: int, j: int|
        0 <= i < j < b.len() ==> (#[trigger] b[i]).minute_epoch < (#[trigger] b[j]).minute_epoch
}

pub open spec fn spec_token_buckets_chronological(b: Seq<RequestMinuteBucket>) -> bool {
    forall|i: int, j: int|
        0 <= i < j < b.len() ==> (#[trigger] b[i]).minute_epoch < (#[trigger] b[j]).minute_epoch
}

/// Pruning a chronological list leaves only buckets inside the
/// window, still in order.
pub proof fn lemma_drop_old_route_window(b: Seq<RouteMinuteBucket>, cutoff: u64)
    requires
        spec_route_buckets_chronological(b),
    ensures
        spec_route_buckets_chronological(drop_old_route_buckets(b, cutoff)),
        forall|i: int|
            0 <= i < drop_old_route_buckets(b, cutoff).len() ==> (
            #[trigger] drop_old_route_buckets(b, cutoff)[i]).minute_epoch >= cutoff,
    decreases b.len(),
{
    if b.len() > 0 && b[0].minute_epoch < cutoff {
        let rest = b.subrange(1, b.len() as int);
        assert(forall|i: int| 0 <= i < rest.len() ==> rest[i] == b[i + 1]);
        lemma_drop_old_route_window(rest, cutoff);
    } else if b.len() > 0 {
        assert(forall|i: int|
            0 < i < b.len() ==> (#[trigger] b[i]).minute_epoch > b[0].minute_epoch);
    }
}

pub proof fn lemma_drop_old_token_window(b: Seq<RequestMinuteBucket>, cutoff: u64)
    requires
        spec_token_buckets_chronological(b),
    ensures
        spec_token_buckets_chronological(drop_old_token_buckets(b, cutoff)),
        forall|i: int|
            0 <= i < drop_old_token_buckets(b, cutoff).len() ==> (
            #[trigger] drop_old_token_buckets(b, cutoff)[i]).minute_epoch >= cutoff,
    decreases b.len(),
{
    if b.len() > 0 && b[0].minute_epoch < cutoff {
        let rest = b.subrange(1, b.len() as int);
        assert(forall|i: int| 0 <= i < rest.len() ==> rest[i] == b[i + 1]);
        lemma_drop_old_token_window(rest, cutoff);
    } else if b.len() > 0 {
        assert(forall|i: int|
            0 < i < b.len() ==> (#[trigger] b[i]).minute_epoch > b[0].minute_epoch);
    }
}

/// Strictly rising minutes grow at least one per step.
proof fn lemma_chronological_route_gap(b: Seq<RouteMinuteBucket>, i: int, j: int)
    requires
        spec_route_buckets_chronological(b),
        0 <= i <= j < b.len(),
    ensures
        b[j].minute_epoch >= b[i].minute_epoch + (j - i),
    decreases j - i,
{
    if i < j {
        lemma_chronological_route_gap(b, i, j - 1);
        assert(b[j].minute_epoch > b[j - 1].minute_epoch);
    }
}

/// A chronological list whose minutes all lie in the 24-hour window
/// ending at `now` holds at most 1440 buckets; this is the memory
/// bound of a summary fed with a nondecreasing clock.
pub proof fn lemma_chronological_window_bounds_len(
    b: Seq<RouteMinuteBucket>,
    cutoff: u64,
    now: u64,
)
    requires
        spec_route_buckets_chronological(b),
        now < cutoff + 1440,
        forall|i: int| 0 <= i < b.len() ==> cutoff <= (#[trigger] b[i]).minute_epoch <= now,
    ensures
        b.len() <= 1440,
{
    if b.len() > 1440 {
        lemma_chronological_route_gap(b, 0, b.len() - 1);
        assert(b[b.len() - 1].minute_epoch >= b[0].minute_epoch + b.len() - 1);
    }
}

/// An observation at or after the last bucket's minute keeps the list
/// chronological.
pub proof fn lemma_bump_route_keeps_chronological(
    b: Seq<RouteMinuteBucket>,
    minute_epoch: u64,
    inflight_now: u64,
)
    requires
        spec_route_buckets_chronological(b),
        b.len() > 0 ==> minute_epoch >= b.last().minute_epoch,
    ensures
        spec_route_buckets_chronological(
            spec_bump_route_buckets(b, minute_epoch, inflight_now),
        ),
        spec_route_buckets_chronological(
            spec_mark_route_buckets(b, minute_epoch, inflight_now),
        ),
{
    if !(b.len() > 0 && b.last().minute_epoch == minute_epoch) {
        let b1 = b.push(RouteMinuteBucket { minute_epoch, requests: 0, max_inflight: 0 });
        assert forall|i: int, j: int| 0 <= i < j < b1.len() implies (
        #[trigger] b1[i]).minute_epoch < (#[trigger] b1[j]).minute_epoch by {
            if j < b.len() {
                assert(b1[i] == b[i] && b1[j] == b[j]);
            } else {
                assert(b1[i] == b[i]);
                assert(b[i].minute_epoch < b.last().minute_epoch || i == b.len() - 1);
            }
        }
    }
}

pub proof fn lemma_bump_token_keeps_chronological(b: Seq<RequestMinuteBucket>, minute_epoch: u64)
    requires
        spec_token_buckets_chronological(b),
        b.len() > 0 ==> minute_epoch >= b.last().minute_epoch,
    ensures
        spec_token_buckets_chronological(spec_bump_token_buckets(b, minute_epoch)),
{
    if !(b.len() > 0 && b.last().minute_epoch == minute_epoch) {
        let b1 = b.push(RequestMinuteBucket { minute_epoch, requests: 0 });
        assert forall|i: int, j: int| 0 <= i < j < b1.len() implies (
        #[trigger] b1[i]).minute_epoch < (#[trigger] b1[j]).minute_epoch by {
            if j < b.len() {
                assert(b1[i] == b[i] && b1[j] == b[j]);
            } else {
                assert(b1[i] == b[i]);
                assert(b[i].minute_epoch < b.last().minute_epoch || i == b.len() - 1);
            }
        }
    }
}

/// What pruning leaves of one route's buckets, and whether the entry
/// is garbage-collected.
pub open spec fn spec_route_pruned(
    old_map: Seq<(String, Vec<RouteMinuteBucket>)>,
    old_infl: Seq<(String, u64)>,
    k: Seq<char>,
    cutoff: u64,
    new_map: Seq<(String, Vec<RouteMinuteBucket>)>,
) -> bool {
    match crate::kv::assoc(old_map, k) {
        None => crate::kv::assoc(new_map, k) is None,
        Some(b) => {
            let pruned = drop_old_route_buckets(b@, cutoff);
            if pruned.len() == 0 && spec_inflight_val(old_infl, k) == 0 {
                crate::kv::assoc(new_map, k) is None
            } else {
                match crate::kv::assoc(new_map, k) {
                    Some(b2) => b2@ == pruned,
                    None => false,
                }
            }
        },
    }
}

/// What pruning leaves of one token's buckets.
pub open spec fn spec_token_pruned(
    old_map: Seq<(String, Vec<RequestMinuteBucket>)>,
    k: Seq<char>,
    cutoff: u64,
    new_map: Seq<(String, Vec<RequestMinuteBucket>)>,
) -> bool {
    match crate::kv::assoc(old_map, k) {
        None => crate::kv::assoc(new_map, k) is None,
        Some(b) => {
            let pruned = drop_old_token_buckets(b@, cutoff);
            if pruned.len() == 0 {
                crate::kv::assoc(new_map, k) is None
            } else {
                match crate::kv::assoc(new_map, k) {
                    Some(b2) => b2@ == pruned,
                    None => false,
                }
            }
        },
    }
}

impl SummaryState {
    /// Drops buckets older than the 24-hour window and
    /// garbage-collects entries with nothing left to report.
    pub fn prune(&mut self, minute_epoch: u64)
        requires
            old(self).wf(),
        ensures
            final(self).wf(),
            forall|k: Seq<char>|
                #![trigger crate::kv::assoc(final(self).route_buckets@, k)]
                spec_route_pruned(
                    old(self).route_buckets@,
                    old(self).route_inflight@,
                    k,
                    spec_prune_cutoff(minute_epoch),
                    final(self).route_buckets@,
                ),
            forall|k: Seq<char>|
                #![trigger crate::kv::assoc(final(self).token_buckets@, k)]
                spec_token_pruned(
                    old(self).token_buckets@,
                    k,
                    spec_prune_cutoff(minute_epoch),
                    final(self).token_buckets@,
                ),
            forall|k: Seq<char>|
                #[trigger] spec_inflight_val(final(self).route_inflight@, k) == spec_inflight_val(
                    old(self).route_inflight@,
                    k,
                ),
            forall|k: Seq<char>|
                #![trigger crate::kv::assoc(final(self).route_buckets@, k)]
                (match crate::kv::assoc(old(self).route_buckets@, k) {
                    Some(b) => spec_route_buckets_chronological(b@) ==> (match crate::kv::assoc(
                        final(self).route_buckets@,
                        k,
                    ) {
                        Some(b2) => spec_route_buckets_chronological(b2@) && forall|i: int|
                            0 <= i < b2@.len() ==> (#[trigger] b2@[i]).minute_epoch
                                >= spec_prune_cutoff(minute_epoch),
                        None => true,
                    }),
                    None => true,
                }),
            forall|k: Seq<char>|
                #![trigger crate::kv::assoc(final(self).token_buckets@, k)]
                (match crate::kv::assoc(old(self).token_buckets@, k) {
                    Some(b) => spec_token_buckets_chronological(b@) ==> (match crate::kv::assoc(
                        final(self).token_buckets@,
                        k,
                    ) {
                        Some(b2) => spec_token_buckets_chronological(b2@) && forall|i: int|
                            0 <= i < b2@.len() ==> (#[trigger] b2@[i]).minute_epoch
                                >= spec_prune_cutoff(minute_epoch),
                        None => true,
                    }),
                    None => true,
                }),
    {
        let cutoff = if minute_epoch >= 1439 {
            minute_epoch - 1439
        } else {
            0
        };
        let ghost old_rb = self.route_buckets@;
        let ghost old_tb = self.token_buckets@;
        let ghost old_infl = self.route_inflight@;

        let n = self.route_buckets.len();
        let mut kept: Vec<(String, Vec<RouteMinuteBucket>)> = Vec::new();
        let mut i: usize = 0;
        while i < n
            invariant
                n == old_rb.len(),
                old_rb == self.route_buckets@,
                old_infl == self.route_inflight@,
                i <= n,
                cutoff == spec_prune_cutoff(minute_epoch),
                crate::kv::unique_keys(old_rb),
                crate::kv::unique_keys(kept@),
                forall|x: int|
                    0 <= x < kept@.len() ==> exists|j: int|
                        0 <= j < i && (#[trigger] old_rb[j]).0@ == (#[trigger] kept@[x]).0@,
                forall|j: int|
                    0 <= j < i ==> ({
                        let pruned = drop_old_route_buckets((#[trigger] old_rb[j]).1@, cutoff);
                        if pruned.len() == 0 && spec_inflight_val(old_infl, old_rb[j].0@) == 0 {
                            crate::kv::assoc(kept@, old_rb[j].0@) is None
                        } else {
                            match crate::kv::assoc(kept@, old_rb[j].0@) {
                                Some(b2) => b2@ == pruned,
                                None => false,
                            }
                        }
                    }),
            decreases n - i,
        {
            let key = self.route_buckets[i].0.clone();
            let pruned = prune_route_bucket_list(&self.route_buckets[i].1, cutoff);
            let inflight = inflight_value(&self.route_inflight, key.as_str());
            proof {
                assert forall|x: int| 0 <= x < kept@.len() implies (#[trigger] kept@[x]).0@
                    != key@ by {
                    let j = choose|j: int|
                        0 <= j < i && (#[trigger] old_rb[j]).0@ == kept@[x].0@;
                    assert(old_rb[j].0@ != old_rb[i as int].0@);
                }
            }
            if pruned.len() > 0 || inflight > 0 {
                let ghost pre = kept@;
                proof {
                    crate::kv::lemma_assoc_push(pre, (key, pruned));
                }
                kept.push((key, pruned));
                proof {
                    assert(crate::kv::assoc(kept@, old_rb[i as int].0@) matches Some(b2)
                        && b2@ == drop_old_route_buckets(old_rb[i as int].1@, cutoff));
                    assert forall|x: int| 0 <= x < kept@.len() implies exists|j: int|
                        0 <= j < i + 1 && (#[trigger] old_rb[j]).0@ == (
                        #[trigger] kept@[x]).0@ by {
                        if x < pre.len() {
                            assert(kept@[x] == pre[x]);
                        } else {
                            assert(kept@[x].0@ == old_rb[i as int].0@);
                        }
                    }
                }
            } else {
                proof {
                    crate::kv::lemma_assoc_absent(kept@, key@);
                }
            }
            i = i + 1;
        }
        self.route_buckets = kept;
        proof {
            assert forall|k: Seq<char>|
                #[trigger] spec_route_pruned(
                    old_rb,
                    old_infl,
                    k,
                    cutoff as u64,
                    self.route_buckets@,
                ) by {
                crate::kv::lemma_assoc_index(old_rb, k);
                match crate::kv::assoc(old_rb, k) {
                    Some(b) => {
                        let j = choose|j: int|
                            0 <= j < old_rb.len() && (#[trigger] old_rb[j]).0@ == k && old_rb[j].1
                                == b;
                    },
                    None => {
                        crate::kv::lemma_assoc_index(self.route_buckets@, k);
                        match crate::kv::assoc(self.route_buckets@, k) {
                            Some(b2) => {
                                let x = choose|x: int|
                                    0 <= x < self.route_buckets@.len() && (
                                    #[trigger] self.route_buckets@[x]).0@ == k
                                        && self.route_buckets@[x].1 == b2;
                            },
                            None => {},
                        }
                    },
                }
            }
        }

        let n2 = self.token_buckets.len();
        let mut kept2: Vec<(String, Vec<RequestMinuteBucket>)> = Vec::new();
        let mut i: usize = 0;
        while i < n2
            invariant
                n2 == old_tb.len(),
                old_tb == self.token_buckets@,
                i <= n2,
                cutoff == spec_prune_cutoff(minute_epoch),
                crate::kv::unique_keys(old_tb),
                crate::kv::unique_keys(kept2@),
                forall|x: int|
                    0 <= x < kept2@.len() ==> exists|j: int|
                        0 <= j < i && (#[trigger] old_tb[j]).0@ == (#[trigger] kept2@[x]).0@,
                forall|j: int|
                    0 <= j < i ==> ({
                        let pruned = drop_old_token_buckets((#[trigger] old_tb[j]).1@, cutoff);
                        if pruned.len() == 0 {
                            crate::kv::assoc(kept2@, old_tb[j].0@) is None
                        } else {
                            match crate::kv::assoc(kept2@, old_tb[j].0@) {
                                Some(b2) => b2@ == pruned,
                                None => false,
                            }
                        }
                    }),
            decreases n2 - i,
        {
            let key = self.token_buckets[i].0.clone();
            let pruned = prune_token_bucket_list(&self.token_buckets[i].1, cutoff);
            proof {
                assert forall|x: int| 0 <= x < kept2@.len() implies (#[trigger] kept2@[x]).0@
                    != key@ by {
                    let j = choose|j: int|
                        0 <= j < i && (#[trigger] old_tb[j]).0@ == kept2@[x].0@;
                    assert(old_tb[j].0@ != old_tb[i as int].0@);
                }
            }
            if pruned.len() > 0 {
                let ghost pre = kept2@;
                proof {
                    crate::kv::lemma_assoc_push(pre, (key, pruned));
                }
                kept2.push((key, pruned));
                proof {
                    assert(crate::kv::assoc(kept2@, old_tb[i as int].0@) matches Some(b2)
                        && b2@ == drop_old_token_buckets(old_tb[i as int].1@, cutoff));
                    assert forall|x: int| 0 <= x < kept2@.len() implies exists|j: int|
                        0 <= j < i + 1 && (#[trigger] old_tb[j]).0@ == (
                        #[trigger] kept2@[x]).0@ by {
                        if x < pre.len() {
                            assert(kept2@[x] == pre[x]);
                        } else {
                            assert(kept2@[x].0@ == old_tb[i as int].0@);
                        }
                    }
                }
            } else {
                proof {
                    crate::kv::lemma_assoc_absent(kept2@, key@);
                }
            }
            i = i + 1;
        }
        self.token_buckets = kept2;
        proof {
            assert forall|k: Seq<char>|
                #[trigger] spec_token_pruned(old_tb, k, cutoff as u64, self.token_buckets@) by {
                crate::kv::lemma_assoc_index(old_tb, k);
                match crate::kv::assoc(old_tb, k) {
                    Some(b) => {
                        let j = choose|j: int|
                            0 <= j < old_tb.len() && (#[trigger] old_tb[j]).0@ == k && old_tb[j].1
                                == b;
                    },
                    None => {
                        crate::kv::lemma_assoc_index(self.token_buckets@, k);
                        match crate::kv::assoc(self.token_buckets@, k) {
                            Some(b2) => {
                                let x = choose|x: int|
                                    0 <= x < self.token_buckets@.len() && (
                                    #[trigger] self.token_buckets@[x]).0@ == k
                                        && self.token_buckets@[x].1 == b2;
                            },
                            None => {},
                        }
                    },
                }
            }
        }

        let n3 = self.route_inflight.len();
        let mut kept3: Vec<(String, u64)> = Vec::new();
        let mut i: usize = 0;
        while i < n3
            invariant
                n3 == old_infl.len(),
                old_infl == self.route_inflight@,
                i <= n3,
                crate::kv::unique_keys(old_infl),
                crate::kv::unique_keys(kept3@),
                forall|x: int|
                    0 <= x < kept3@.len() ==> exists|j: int|
                        0 <= j < i && (#[trigger] old_infl[j]).0@ == (#[trigger] kept3@[x]).0@
                            && old_infl[j].1 == kept3@[x].1,
                forall|j: int|
                    0 <= j < i ==> #[trigger] spec_inflight_val(kept3@, old_infl[j].0@)
                        == old_infl[j].1,
            decreases n3 - i,
        {
            let key = self.route_inflight[i].0.clone();
            let value = self.route_inflight[i].1;
            proof {
                assert forall|x: int| 0 <= x < kept3@.len() implies (#[trigger] kept3@[x]).0@
                    != key@ by {
                    let j = choose|j: int|
                        0 <= j < i && (#[trigger] old_infl[j]).0@ == kept3@[x].0@
                            && old_infl[j].1 == kept3@[x].1;
                    assert(old_infl[j].0@ != old_infl[i as int].0@);
                }
            }
            let keep = value > 0 || crate::kv::assoc_index(&self.route_buckets, key.as_str())
                .is_some();
            if keep {
                let ghost pre = kept3@;
                proof {
                    crate::kv::lemma_assoc_push(pre, (key, value));
                }
                kept3.push((key, value));
                proof {
                    assert(crate::kv::assoc(kept3@, old_infl[i as int].0@) == Some(value));
                    assert(spec_inflight_val(kept3@, old_infl[i as int].0@)
                        == old_infl[i as int].1);
                    assert forall|j: int| 0 <= j < i implies #[trigger] spec_inflight_val(
                        kept3@,
                        old_infl[j].0@,
                    ) == old_infl[j].1 by {
                        assert(old_infl[j].0@ != old_infl[i as int].0@);
                        assert(spec_inflight_val(pre, old_infl[j].0@) == old_infl[j].1);
                        assert(crate::kv::assoc(kept3@, old_infl[j].0@) == crate::kv::assoc(
                            pre,
                            old_infl[j].0@,
                        ));
                    }
                    assert forall|x: int| 0 <= x < kept3@.len() implies exists|j: int|
                        0 <= j < i + 1 && (#[trigger] old_infl[j]).0@ == (
                        #[trigger] kept3@[x]).0@ && old_infl[j].1 == kept3@[x].1 by {
                        if x < pre.len() {
                            assert(kept3@[x] == pre[x]);
                        } else {
                            assert(kept3@[x].0@ == old_infl[i as int].0@);
                            assert(kept3@[x].1 == old_infl[i as int].1);
                        }
                    }
                }
            } else {
                proof {
                    crate::kv::lemma_assoc_absent(kept3@, key@);
                    assert(crate::kv::assoc(kept3@, old_infl[i as int].0@) is None);
                    assert(old_infl[i as int].1 == 0);
                    assert(spec_inflight_val(kept3@, old_infl[i as int].0@)
                        == old_infl[i as int].1);
                }
            }
            i = i + 1;
        }
        self.route_inflight = kept3;
        proof {
            assert forall|k: Seq<char>|
                #![trigger crate::kv::assoc(self.route_buckets@, k)]
                spec_route_pruned(
                    old_rb,
                    old_infl,
                    k,
                    spec_prune_cutoff(minute_epoch),
                    self.route_buckets@,
                ) by {
                assert(spec_route_pruned(old_rb, old_infl, k, cutoff as u64, self.route_buckets@));
            }
            assert forall|k: Seq<char>|
                #![trigger crate::kv::assoc(self.token_buckets@, k)]
                spec_token_pruned(old_tb, k, spec_prune_cutoff(minute_epoch), self.token_buckets@)
                by {
                assert(spec_token_pruned(old_tb, k, cutoff as u64, self.token_buckets@));
            }
            assert forall|k: Seq<char>|
                #![trigger crate::kv::assoc(self.route_buckets@, k)]
                (match crate::kv::assoc(old_rb, k) {
                    Some(b) => spec_route_buckets_chronological(b@) ==> (match crate::kv::assoc(
                        self.route_buckets@,
                        k,
                    ) {
                        Some(b2) => spec_route_buckets_chronological(b2@) && forall|i: int|
                            0 <= i < b2@.len() ==> (#[trigger] b2@[i]).minute_epoch
                                >= spec_prune_cutoff(minute_epoch),
                        None => true,
                    }),
                    None => true,
                }) by {
                assert(spec_route_pruned(
                    old_rb,
                    old_infl,
                    k,
                    spec_prune_cutoff(minute_epoch),
                    self.route_buckets@,
                ));
                if let Some(b) = crate::kv::assoc(old_rb, k) {
                    if spec_route_buckets_chronological(b@) {
                        lemma_drop_old_route_window(b@, cutoff as u64);
                    }
                }
            }
            assert forall|k: Seq<char>|
                #![trigger crate::kv::assoc(self.token_buckets@, k)]
                (match crate::kv::assoc(old_tb, k) {
                    Some(b) => spec_token_buckets_chronological(b@) ==> (match crate::kv::assoc(
                        self.token_buckets@,
                        k,
                    ) {
                        Some(b2) => spec_token_buckets_chronological(b2@) && forall|i: int|
                            0 <= i < b2@.len() ==> (#[trigger] b2@[i]).minute_epoch
                                >= spec_prune_cutoff(minute_epoch),
                        None => true,
                    }),
                    None => true,
                }) by {
                assert(spec_token_pruned(
                    old_tb,
                    k,
                    spec_prune_cutoff(minute_epoch),
                    self.token_buckets@,
                ));
                if let Some(b) = crate::kv::assoc(old_tb, k) {
                    if spec_token_buckets_chronological(b@) {
                        lemma_drop_old_token_window(b@, cutoff as u64);
                    }
                }
            }
            assert forall|k: Seq<char>|
                #[trigger] spec_inflight_val(self.route_inflight@, k) == spec_inflight_val(
                    old_infl,
                    k,
                ) by {
                crate::kv::lemma_assoc_index(old_infl, k);
                match crate::kv::assoc(old_infl, k) {
                    Some(v) => {
                        let j = choose|j: int|
                            0 <= j < old_infl.len() && (#[trigger] old_infl[j]).0@ == k
                                && old_infl[j].1 == v;
                    },
                    None => {
                        crate::kv::lemma_assoc_index(self.route_inflight@, k);
                        match crate::kv::assoc(self.route_inflight@, k) {
                            Some(v2) => {
                                let x = choose|x: int|
                                    0 <= x < self.route_inflight@.len() && (
                                    #[trigger] self.route_inflight@[x]).0@ == k
                                        && self.route_inflight@[x].1 == v2;
                            },
                            None => {},
                        }
                    },
                }
            }
        }
    }
}



impl SummaryState {
    /// Records one request at `minute_epoch` for the route (and for the
    /// token label when one is given), then prunes the window. The
    /// route's buckets afterwards are exactly the bumped old buckets
    /// with the expired front removed; every other key is only pruned.
    pub fn observe_request(
        &mut self,
        route_id: &str,
        token_label: Option<&str>,
        minute_epoch: u64,
    )
        requires
            old(self).wf(),
        ensures
            final(self).wf(),
            ({
                let cutoff = spec_prune_cutoff(minute_epoch);
                let old_b = match crate::kv::assoc(old(self).route_buckets@, route_id@) {
                    Some(b) => b@,
                    None => Seq::<RouteMinuteBucket>::empty(),
                };
                let infl = spec_inflight_val(old(self).route_inflight@, route_id@);
                match crate::kv::assoc(final(self).route_buckets@, route_id@) {
                    Some(b2) => b2@ == drop_old_route_buckets(
                        spec_bump_route_buckets(old_b, minute_epoch, infl),
                        cutoff,
                    ),
                    None => false,
                }
            }),
            forall|k2: Seq<char>|
                #![trigger crate::kv::assoc(final(self).route_buckets@, k2)]
                k2 != route_id@ ==> spec_route_pruned(
                    old(self).route_buckets@,
                    old(self).route_inflight@,
                    k2,
                    spec_prune_cutoff(minute_epoch),
                    final(self).route_buckets@,
                ),
            ({
                match token_label {
                    Some(l) => {
                        let cutoff = spec_prune_cutoff(minute_epoch);
                        let old_t = match crate::kv::assoc(old(self).token_buckets@, l@) {
                            Some(b) => b@,
                            None => Seq::<RequestMinuteBucket>::empty(),
                        };
                        match crate::kv::assoc(final(self).token_buckets@, l@) {
                            Some(b2) => b2@ == drop_old_token_buckets(
                                spec_bump_token_buckets(old_t, minute_epoch),
                                cutoff,
                            ),
                            None => false,
                        }
                    },
                    None => true,
                }
            }),
            forall|k2: Seq<char>|
                #![trigger crate::kv::assoc(final(self).token_buckets@, k2)]
                (match token_label {
                    Some(l) => k2 != l@,
                    None => true,
                }) ==> spec_token_pruned(
                    old(self).token_buckets@,
                    k2,
                    spec_prune_cutoff(minute_epoch),
                    final(self).token_buckets@,
                ),
            forall|k2: Seq<char>|
                #[trigger] spec_inflight_val(final(self).route_inflight@, k2)
                    == spec_inflight_val(old(self).route_inflight@, k2),
    {
        let current_inflight = inflight_value(&self.route_inflight, route_id);
        let ghost old_rb = self.route_buckets@;

        let idx = match crate::kv::assoc_index(&self.route_buckets, route_id) {
            Some(idx) => {
                proof {
                    crate::kv::lemma_assoc_at(self.route_buckets@, idx as int);
                }
                idx
            },
            None => {
                let fresh: (String, Vec<RouteMinuteBucket>) = (
                    String::from_str(route_id),
                    Vec::new(),
                );
                proof {
                    crate::kv::lemma_assoc_absent(self.route_buckets@, route_id@);
                    crate::kv::lemma_assoc_push(self.route_buckets@, fresh);
                }
                let idx = self.route_buckets.len();
                self.route_buckets.push(fresh);
                idx
            },
        };
        let ghost mid_rb = self.route_buckets@;
        let mut entry = self.route_buckets.remove(idx);
        let blen = entry.1.len();
        let ghost old_entry_b = entry.1@;
        if blen > 0 && entry.1[blen - 1].minute_epoch == minute_epoch {
            let b = entry.1[blen - 1];
            let new_requests = if b.requests == u64::MAX {
                u64::MAX
            } else {
                b.requests + 1
            };
            let new_max = if b.max_inflight >= current_inflight {
                b.max_inflight
            } else {
                current_inflight
            };
            entry.1[blen - 1] = RouteMinuteBucket {
                minute_epoch,
                requests: new_requests,
                max_inflight: new_max,
            };
            proof {
                assert(entry.1@ =~= spec_bump_route_buckets(
                    old_entry_b,
                    minute_epoch,
                    current_inflight,
                ));
            }
        } else {
            let new_max = current_inflight;
            entry.1.push(
                RouteMinuteBucket { minute_epoch, requests: 1, max_inflight: new_max },
            );
            proof {
                let b1 = old_entry_b.push(
                    RouteMinuteBucket { minute_epoch, requests: 0, max_inflight: 0 },
                );
                assert(b1.last() == RouteMinuteBucket {
                    minute_epoch,
                    requests: 0,
                    max_inflight: 0,
                });
                assert(entry.1@ =~= spec_bump_route_buckets(
                    old_entry_b,
                    minute_epoch,
                    current_inflight,
                ));
            }
        }
        proof {
            crate::kv::lemma_assoc_update(mid_rb, idx as int, entry);
        }
        let ghost new_entry = entry;
        self.route_buckets.insert(idx, entry);
        proof {
            assert(self.route_buckets@ =~= mid_rb.update(idx as int, new_entry));
        }

        if let Some(label) = token_label {
            let ghost old_tb = self.token_buckets@;
            let tidx = match crate::kv::assoc_index(&self.token_buckets, label) {
                Some(tidx) => {
                    proof {
                        crate::kv::lemma_assoc_at(self.token_buckets@, tidx as int);
                    }
                    tidx
                },
                None => {
                    let fresh: (String, Vec<RequestMinuteBucket>) = (
                        String::from_str(label),
                        Vec::new(),
                    );
                    proof {
                        crate::kv::lemma_assoc_absent(self.token_buckets@, label@);
                        crate::kv::lemma_assoc_push(self.token_buckets@, fresh);
                    }
                    let tidx = self.token_buckets.len();
                    self.token_buckets.push(fresh);
                    tidx
                },
            };
            let ghost mid_tb = self.token_buckets@;
            let mut tentry = self.token_buckets.remove(tidx);
            let tlen = tentry.1.len();
            let ghost old_entry_t = tentry.1@;
            if tlen > 0 && tentry.1[tlen - 1].minute_epoch == minute_epoch {
                let b = tentry.1[tlen - 1];
                let new_requests = if b.requests == u64::MAX {
                    u64::MAX
                } else {
                    b.requests + 1
                };
                tentry.1[tlen - 1] = RequestMinuteBucket { minute_epoch, requests: new_requests };
                proof {
                    assert(tentry.1@ =~= spec_bump_token_buckets(old_entry_t, minute_epoch));
                }
            } else {
                tentry.1.push(RequestMinuteBucket { minute_epoch, requests: 1 });
                proof {
                    let b1 = old_entry_t.push(RequestMinuteBucket { minute_epoch, requests: 0 });
                    assert(b1.last() == RequestMinuteBucket { minute_epoch, requests: 0 });
                    assert(tentry.1@ =~= spec_bump_token_buckets(old_entry_t, minute_epoch));
                }
            }
            proof {
                crate::kv::lemma_assoc_update(mid_tb, tidx as int, tentry);
            }
            let ghost new_tentry = tentry;
            self.token_buckets.insert(tidx, tentry);
            proof {
                assert(self.token_buckets@ =~= mid_tb.update(tidx as int, new_tentry));
            }
        }

        let ghost pre_prune = *self;
        proof {
            assert(crate::kv::assoc(pre_prune.route_buckets@, route_id@) matches Some(b)
                && b@ == spec_bump_route_buckets(
                match crate::kv::assoc(old(self).route_buckets@, route_id@) {
                    Some(b0) => b0@,
                    None => Seq::<RouteMinuteBucket>::empty(),
                },
                minute_epoch,
                spec_inflight_val(old(self).route_inflight@, route_id@),
            ));
        }
        self.prune(minute_epoch);
        proof {
            let cutoff = spec_prune_cutoff(minute_epoch);
            let old_b = match crate::kv::assoc(old(self).route_buckets@, route_id@) {
                Some(b) => b@,
                None => Seq::<RouteMinuteBucket>::empty(),
            };
            let infl = spec_inflight_val(old(self).route_inflight@, route_id@);
            let bumped = spec_bump_route_buckets(old_b, minute_epoch, infl);
            assert(bumped.len() > 0 && bumped.last().minute_epoch == minute_epoch);
            lemma_drop_old_route_keeps_last(bumped, cutoff);
            assert(spec_route_pruned(
                pre_prune.route_buckets@,
                pre_prune.route_inflight@,
                route_id@,
                cutoff,
                self.route_buckets@,
            ));
            if let Some(label) = token_label {
                let old_t = match crate::kv::assoc(old(self).token_buckets@, label@) {
                    Some(b) => b@,
                    None => Seq::<RequestMinuteBucket>::empty(),
                };
                let bumped_t = spec_bump_token_buckets(old_t, minute_epoch);
                assert(bumped_t.len() > 0 && bumped_t.last().minute_epoch == minute_epoch);
                lemma_drop_old_token_keeps_last(bumped_t, cutoff);
                assert(spec_token_pruned(
                    pre_prune.token_buckets@,
                    label@,
                    cutoff,
                    self.token_buckets@,
                ));
            }
        }
    }

    /// Applies a delta to the route's running in-flight count
    /// (saturating at the ends), records the new high-water mark in the
    /// current minute's bucket, then prunes the window.
    #[verifier::rlimit(100)]
    pub fn adjust_inflight(&mut self, route_id: &str, delta: i64, minute_epoch: u64)
        requires
            old(self).wf(),
        ensures
            final(self).wf(),
            ({
                let prior = spec_inflight_val(old(self).route_inflight@, route_id@);
                let updated = if delta >= 0 {
                    sat_add(prior, delta as u64)
                } else {
                    if prior >= (-(delta as int)) as u64 {
                        (prior - (-(delta as int))) as u64
                    } else {
                        0
                    }
                };
                &&& spec_inflight_val(final(self).route_inflight@, route_id@) == updated
                &&& (forall|k2: Seq<char>|
                    k2 != route_id@ ==> #[trigger] spec_inflight_val(
                        final(self).route_inflight@,
                        k2,
                    ) == spec_inflight_val(old(self).route_inflight@, k2))
                &&& (match crate::kv::assoc(final(self).route_buckets@, route_id@) {
                    Some(b2) => b2@ == drop_old_route_buckets(
                        spec_mark_route_buckets(
                            match crate::kv::assoc(old(self).route_buckets@, route_id@) {
                                Some(b) => b@,
                                None => Seq::<RouteMinuteBucket>::empty(),
                            },
                            minute_epoch,
                            updated,
                        ),
                        spec_prune_cutoff(minute_epoch),
                    ),
                    None => false,
                })
            }),
            forall|k2: Seq<char>|
                #![trigger crate::kv::assoc(final(self).route_buckets@, k2)]
                k2 != route_id@ ==> spec_route_pruned(
                    old(self).route_buckets@,
                    final(self).route_inflight@,
                    k2,
                    spec_prune_cutoff(minute_epoch),
                    final(self).route_buckets@,
                ),
            forall|k2: Seq<char>|
                #![trigger crate::kv::assoc(final(self).token_buckets@, k2)]
                spec_token_pruned(
                    old(self).token_buckets@,
                    k2,
                    spec_prune_cutoff(minute_epoch),
                    final(self).token_buckets@,
                ),
    {
        let ghost old_infl = self.route_inflight@;
        let prior = inflight_value(&self.route_inflight, route_id);
        let magnitude: u64 = if delta >= 0 {
            delta as u64
        } else {
            ((-(delta + 1)) as u64) + 1
        };
        let updated: u64 = if delta >= 0 {
            if prior > u64::MAX - magnitude {
                u64::MAX
            } else {
                prior + magnitude
            }
        } else {
            if prior >= magnitude {
                prior - magnitude
            } else {
                0
            }
        };
        match crate::kv::assoc_index(&self.route_inflight, route_id) {
            Some(idx) => {
                proof {
                    crate::kv::lemma_assoc_at(self.route_inflight@, idx as int);
                }
                let key = self.route_inflight[idx].0.clone();
                let ghost pre = self.route_inflight@;
                self.route_inflight[idx] = (key, updated);
                proof {
                    crate::kv::lemma_assoc_update(
                        pre,
                        idx as int,
                        self.route_inflight@[idx as int],
                    );
                }
            },
            None => {
                let fresh: (String, u64) = (String::from_str(route_id), updated);
                proof {
                    crate::kv::lemma_assoc_absent(self.route_inflight@, route_id@);
                    crate::kv::lemma_assoc_push(self.route_inflight@, fresh);
                }
                self.route_inflight.push(fresh);
            },
        }

        let ghost old_rb = self.route_buckets@;
        let idx = match crate::kv::assoc_index(&self.route_buckets, route_id) {
            Some(idx) => {
                proof {
                    crate::kv::lemma_assoc_at(self.route_buckets@, idx as int);
                }
                idx
            },
            None => {
                let fresh: (String, Vec<RouteMinuteBucket>) = (
                    String::from_str(route_id),
                    Vec::new(),
                );
                proof {
                    crate::kv::lemma_assoc_absent(self.route_buckets@, route_id@);
                    crate::kv::lemma_assoc_push(self.route_buckets@, fresh);
                }
                let idx = self.route_buckets.len();
                self.route_buckets.push(fresh);
                idx
            },
        };
        let ghost mid_rb = self.route_buckets@;
        let mut entry = self.route_buckets.remove(idx);
        let blen = entry.1.len();
        let ghost old_entry_b = entry.1@;
        if blen > 0 && entry.1[blen - 1].minute_epoch == minute_epoch {
            let b = entry.1[blen - 1];
            let new_max = if b.max_inflight >= updated {
                b.max_inflight
            } else {
                updated
            };
            entry.1[blen - 1] = RouteMinuteBucket {
                minute_epoch,
                requests: b.requests,
                max_inflight: new_max,
            };
            proof {
                assert(entry.1@ =~= spec_mark_route_buckets(old_entry_b, minute_epoch, updated));
            }
        } else {
            entry.1.push(RouteMinuteBucket { minute_epoch, requests: 0, max_inflight: updated });
            proof {
                let b1 = old_entry_b.push(
                    RouteMinuteBucket { minute_epoch, requests: 0, max_inflight: 0 },
                );
                assert(b1.last() == RouteMinuteBucket {
                    minute_epoch,
                    requests: 0,
                    max_inflight: 0,
                });
                assert(entry.1@ =~= spec_mark_route_buckets(old_entry_b, minute_epoch, updated));
            }
        }
        proof {
            crate::kv::lemma_assoc_update(mid_rb, idx as int, entry);
        }
        let ghost new_entry = entry;
        self.route_buckets.insert(idx, entry);
        proof {
            assert(self.route_buckets@ =~= mid_rb.update(idx as int, new_entry));
        }

        let ghost pre_prune = *self;
        self.prune(minute_epoch);
        proof {
            let cutoff = spec_prune_cutoff(minute_epoch);
            let old_b = match crate::kv::assoc(old(self).route_buckets@, route_id@) {
                Some(b) => b@,
                None => Seq::<RouteMinuteBucket>::empty(),
            };
            let ghost updated_spec = spec_inflight_val(self.route_inflight@, route_id@);
            let marked = spec_mark_route_buckets(old_b, minute_epoch, updated);
            assert(marked.len() > 0 && marked.last().minute_epoch == minute_epoch);
            lemma_drop_old_route_keeps_last(marked, cutoff);
            assert(spec_route_pruned(
                pre_prune.route_buckets@,
                pre_prune.route_inflight@,
                route_id@,
                cutoff,
                self.route_buckets@,
            ));
        }
    }
}



/// Minutes since the Unix epoch, from the same clock reading the rate
/// limiter uses.
pub fn epoch_minute_now() -> u64 {
    crate::ratelimit::current_epoch_seconds() / 60
}

/// Relies on `std::time::SystemTime::now`: milliseconds since the Unix
/// epoch, `0` if the clock reads earlier than the epoch.
#[verifier::external_body]
pub fn epoch_millis_now() -> u64 {
    std::time::SystemTime::now()
        .duration_since(std::time::UNIX_EPOCH)
        .map(|duration| duration.as_millis() as u64)
        .unwrap_or(0)
}

#[derive(Clone, Debug)]
pub struct ObservabilitySummary {
    pub generated_at_unix_ms: u64,
    pub total_requests_1h: u64,
    pub total_requests_24h: u64,
    pub routes: Vec<RouteWindowSummary>,
    pub tokens: Vec<TokenWindowSummary>,
}

#[derive(Clone, Debug)]
pub struct RouteWindowSummary {
    pub route_id: String,
    pub requests_1h: u64,
    pub requests_24h: u64,
    pub inflight_current: u64,
    pub inflight_peak_1h: u64,
    pub inflight_peak_24h: u64,
}

#[derive(Clone, Debug)]
pub struct TokenWindowSummary {
    pub token: String,
    pub requests_1h: u64,
    pub requests_24h: u64,
}

impl ObservabilitySummary {
    /// A summary with nothing observed.
    pub fn empty() -> (r: ObservabilitySummary)
        ensures
            r.total_requests_1h == 0,
            r.total_requests_24h == 0,
            r.routes@.len() == 0,
            r.tokens@.len() == 0,
    {
        ObservabilitySummary {
            generated_at_unix_ms: epoch_millis_now(),
            total_requests_1h: 0,
            total_requests_24h: 0,
            routes: Vec::new(),
            tokens: Vec::new(),
        }
    }
}

/// Saturating sum of a route's requests in buckets at or after `from`.
pub open spec fn spec_route_requests_since(b: Seq<RouteMinuteBucket>, from: u64) -> u64
    decreases b.len(),
{
    if b.len() == 0 {
        0
    } else {
        let rest = spec_route_requests_since(b.drop_last(), from);
        if b.last().minute_epoch >= from {
            sat_add(rest, b.last().requests)
        } else {
            rest
        }
    }
}

/// The highest in-flight mark among a route's buckets at or after
/// `from`.
pub open spec fn spec_route_peak_since(b: Seq<RouteMinuteBucket>, from: u64) -> u64
    decreases b.len(),
{
    if b.len() == 0 {
        0
    } else {
        let rest = spec_route_peak_since(b.drop_last(), from);
        if b.last().minute_epoch >= from {
            max_u64(rest, b.last().max_inflight)
        } else {
            rest
        }
    }
}

/// Saturating sum of a token's requests in buckets at or after `from`.
pub open spec fn spec_token_requests_since(b: Seq<RequestMinuteBucket>, from: u64) -> u64
    decreases b.len(),
{
    if b.len() == 0 {
        0
    } else {
        let rest = spec_token_requests_since(b.drop_last(), from);
        if b.last().minute_epoch >= from {
            sat_add(rest, b.last().requests)
        } else {
            rest
        }
    }
}

fn route_requests_since(b: &Vec<RouteMinuteBucket>, from: u64) -> (r: u64)
    ensures
        r == spec_route_requests_since(b@, from),
{
    let n = b.len();
    let mut acc: u64 = 0;
    let mut i: usize = 0;
    while i < n
        invariant
            n == b@.len(),
            i <= n,
            acc == spec_route_requests_since(b@.subrange(0, i as int), from),
        decreases n - i,
    {
        let ghost cur = b@.subrange(0, i + 1);
        proof {
            assert(cur.drop_last() =~= b@.subrange(0, i as int));
            assert(cur.last() == b@[i as int]);
        }
        if b[i].minute_epoch >= from {
            let v = b[i].requests;
            acc = if acc > u64::MAX - v {
                u64::MAX
            } else {
                acc + v
            };
        }
        i = i + 1;
    }
    proof {
        assert(b@.subrange(0, n as int) =~= b@);
    }
    acc
}

fn route_peak_since(b: &Vec<RouteMinuteBucket>, from: u64) -> (r: u64)
    ensures
        r == spec_route_peak_since(b@, from),
{
    let n = b.len();
    let mut acc: u64 = 0;
    let mut i: usize = 0;
    while i < n
        invariant
            n == b@.len(),
            i <= n,
            acc == spec_route_peak_since(b@.subrange(0, i as int), from),
        decreases n - i,
    {
        let ghost cur = b@.subrange(0, i + 1);
        proof {
            assert(cur.drop_last() =~= b@.subrange(0, i as int));
            assert(cur.last() == b@[i as int]);
        }
        if b[i].minute_epoch >= from {
            let v = b[i].max_inflight;
            if v > acc {
                acc = v;
            }
        }
        i = i + 1;
    }
    proof {
        assert(b@.subrange(0, n as int) =~= b@);
    }
    acc
}

fn token_requests_since(b: &Vec<RequestMinuteBucket>, from: u64) -> (r: u64)
    ensures
        r == spec_token_requests_since(b@, from),
{
    let n = b.len();
    let mut acc: u64 = 0;
    let mut i: usize = 0;
    while i < n
        invariant
            n == b@.len(),
            i <= n,
            acc == spec_token_requests_since(b@.subrange(0, i as int), from),
        decreases n - i,
    {
        let ghost cur = b@.subrange(0, i + 1);
        proof {
            assert(cur.drop_last() =~= b@.subrange(0, i as int));
            assert(cur.last() == b@[i as int]);
        }
        if b[i].minute_epoch >= from {
            let v = b[i].requests;
            acc = if acc > u64::MAX - v {
                u64::MAX
            } else {
                acc + v
            };
        }
        i = i + 1;
    }
    proof {
        assert(b@.subrange(0, n as int) =~= b@);
    }
    acc
}

/// The summary's route order: requests over 24 hours falling, then
/// current in-flight falling, then route id rising.
pub open spec fn spec_route_order_le(a: RouteWindowSummary, b: RouteWindowSummary) -> bool {
    ||| a.requests_24h > b.requests_24h
    ||| (a.requests_24h == b.requests_24h && a.inflight_current > b.inflight_current)
    ||| (a.requests_24h == b.requests_24h && a.inflight_current == b.inflight_current
        && crate::text::lex_le(a.route_id@, b.route_id@))
}

/// The summary's token order: requests over 24 hours falling, then
/// label rising.
pub open spec fn spec_token_order_le(a: TokenWindowSummary, b: TokenWindowSummary) -> bool {
    ||| a.requests_24h > b.requests_24h
    ||| (a.requests_24h == b.requests_24h && crate::text::lex_le(a.token@, b.token@))
}

pub open spec fn spec_routes_sorted(v: Seq<RouteWindowSummary>) -> bool {
    forall|i: int| 0 <= i && i + 1 < v.len() ==> spec_route_order_le(#[trigger] v[i], v[i + 1])
}

pub open spec fn spec_tokens_sorted(v: Seq<TokenWindowSummary>) -> bool {
    forall|i: int| 0 <= i && i + 1 < v.len() ==> spec_token_order_le(#[trigger] v[i], v[i + 1])
}

proof fn lemma_route_order_total(a: RouteWindowSummary, b: RouteWindowSummary)
    ensures
        spec_route_order_le(a, b) || spec_route_order_le(b, a),
{
    crate::text::lemma_lex_le_total(a.route_id@, b.route_id@);
}

proof fn lemma_token_order_total(a: TokenWindowSummary, b: TokenWindowSummary)
    ensures
        spec_token_order_le(a, b) || spec_token_order_le(b, a),
{
    crate::text::lemma_lex_le_total(a.token@, b.token@);
}

fn route_order_le(a: &RouteWindowSummary, b: &RouteWindowSummary) -> (r: bool)
    ensures
        r == spec_route_order_le(*a, *b),
{
    if a.requests_24h > b.requests_24h {
        return true;
    }
    if a.requests_24h == b.requests_24h && a.inflight_current > b.inflight_current {
        return true;
    }
    a.requests_24h == b.requests_24h && a.inflight_current == b.inflight_current
        && crate::text::str_lex_le(a.route_id.as_str(), b.route_id.as_str())
}

fn token_order_le(a: &TokenWindowSummary, b: &TokenWindowSummary) -> (r: bool)
    ensures
        r == spec_token_order_le(*a, *b),
{
    if a.requests_24h > b.requests_24h {
        return true;
    }
    a.requests_24h == b.requests_24h && crate::text::str_lex_le(
        a.token.as_str(),
        b.token.as_str(),
    )
}


proof fn lemma_insert_route_keeps_sorted(pre: Seq<RouteWindowSummary>, p: int, e: RouteWindowSummary)
    requires
        spec_routes_sorted(pre),
        0 <= p <= pre.len(),
        forall|j: int| 0 <= j < p ==> spec_route_order_le(#[trigger] pre[j], e),
        p < pre.len() ==> spec_route_order_le(e, pre[p]),
    ensures
        spec_routes_sorted(pre.insert(p, e)),
{
    pre.insert_ensures(p, e);
    assert forall|i: int| 0 <= i && i + 1 < pre.insert(p, e).len() implies spec_route_order_le(
        #[trigger] pre.insert(p, e)[i],
        pre.insert(p, e)[i + 1],
    ) by {
        if i + 1 < p {
            assert(pre.insert(p, e)[i] == pre[i]);
            assert(pre.insert(p, e)[i + 1] == pre[i + 1]);
        } else if i + 1 == p {
            assert(pre.insert(p, e)[i] == pre[i]);
            assert(pre.insert(p, e)[p] == e);
        } else if i == p {
            assert(pre.insert(p, e)[p] == e);
            assert(pre.insert(p, e)[i + 1] == pre[i]);
        } else {
            assert(pre.insert(p, e)[i] == pre[i - 1]);
            assert(pre.insert(p, e)[i + 1] == pre[i]);
        }
    }
}

proof fn lemma_insert_token_keeps_sorted(pre: Seq<TokenWindowSummary>, p: int, e: TokenWindowSummary)
    requires
        spec_tokens_sorted(pre),
        0 <= p <= pre.len(),
        forall|j: int| 0 <= j < p ==> spec_token_order_le(#[trigger] pre[j], e),
        p < pre.len() ==> spec_token_order_le(e, pre[p]),
    ensures
        spec_tokens_sorted(pre.insert(p, e)),
{
    pre.insert_ensures(p, e);
    assert forall|i: int| 0 <= i && i + 1 < pre.insert(p, e).len() implies spec_token_order_le(
        #[trigger] pre.insert(p, e)[i],
        pre.insert(p, e)[i + 1],
    ) by {
        if i + 1 < p {
            assert(pre.insert(p, e)[i] == pre[i]);
            assert(pre.insert(p, e)[i + 1] == pre[i + 1]);
        } else if i + 1 == p {
            assert(pre.insert(p, e)[i] == pre[i]);
            assert(pre.insert(p, e)[p] == e);
        } else if i == p {
            assert(pre.insert(p, e)[p] == e);
            assert(pre.insert(p, e)[i + 1] == pre[i]);
        } else {
            assert(pre.insert(p, e)[i] == pre[i - 1]);
            assert(pre.insert(p, e)[i + 1] == pre[i]);
        }
    }
}

fn insert_route_sorted(v: &mut Vec<RouteWindowSummary>, e: RouteWindowSummary)
    requires
        spec_routes_sorted(old(v)@),
    ensures
        spec_routes_sorted(final(v)@),
        final(v)@.len() == old(v)@.len() + 1,
        final(v)@.contains(e),
        forall|x: RouteWindowSummary| old(v)@.contains(x) ==> final(v)@.contains(x),
        forall|x: RouteWindowSummary|
            final(v)@.contains(x) ==> x == e || old(v)@.contains(x),
{
    let n = v.len();
    let mut p: usize = 0;
    while p < n && route_order_le(&v[p], &e)
        invariant
            n == v@.len(),
            p <= n,
            forall|j: int| 0 <= j < p ==> spec_route_order_le(#[trigger] v@[j], e),
        decreases n - p,
    {
        p = p + 1;
    }
    proof {
        if p < n {
            lemma_route_order_total(v@[p as int], e);
        }
    }
    let ghost pre = v@;
    v.insert(p, e);
    proof {
        lemma_insert_route_keeps_sorted(pre, p as int, e);
        crate::kv::lemma_insert_contains(pre, p as int, e);
        assert(v@.contains(e)) by {
            pre.insert_ensures(p as int, e);
            assert(v@[p as int] == e);
        }
    }
}

fn insert_token_sorted(v: &mut Vec<TokenWindowSummary>, e: TokenWindowSummary)
    requires
        spec_tokens_sorted(old(v)@),
    ensures
        spec_tokens_sorted(final(v)@),
        final(v)@.len() == old(v)@.len() + 1,
        final(v)@.contains(e),
        forall|x: TokenWindowSummary| old(v)@.contains(x) ==> final(v)@.contains(x),
        forall|x: TokenWindowSummary|
            final(v)@.contains(x) ==> x == e || old(v)@.contains(x),
{
    let n = v.len();
    let mut p: usize = 0;
    while p < n && token_order_le(&v[p], &e)
        invariant
            n == v@.len(),
            p <= n,
            forall|j: int| 0 <= j < p ==> spec_token_order_le(#[trigger] v@[j], e),
        decreases n - p,
    {
        p = p + 1;
    }
    proof {
        if p < n {
            lemma_token_order_total(v@[p as int], e);
        }
    }
    let ghost pre = v@;
    v.insert(p, e);
    proof {
        lemma_insert_token_keeps_sorted(pre, p as int, e);
        crate::kv::lemma_insert_contains(pre, p as int, e);
        assert(v@.contains(e)) by {
            pre.insert_ensures(p as int, e);
            assert(v@[p as int] == e);
        }
    }
}

/// Saturating totals over the reported routes.
pub open spec fn spec_total_requests_1h(v: Seq<RouteWindowSummary>) -> u64
    decreases v.len(),
{
    if v.len() == 0 {
        0
    } else {
        sat_add(spec_total_requests_1h(v.drop_last()), v.last().requests_1h)
    }
}

pub open spec fn spec_total_requests_24h(v: Seq<RouteWindowSummary>) -> u64
    decreases v.len(),
{
    if v.len() == 0 {
        0
    } else {
        sat_add(spec_total_requests_24h(v.drop_last()), v.last().requests_24h)
    }
}


/// Some reported route carries this id.
pub open spec fn spec_reported_route(out: Seq<RouteWindowSummary>, key: Seq<char>) -> bool {
    exists|i: int| 0 <= i < out.len() && (#[trigger] out[i]).route_id@ == key
}

/// Some reported token entry carries this label.
pub open spec fn spec_reported_token(out: Seq<TokenWindowSummary>, key: Seq<char>) -> bool {
    exists|i: int| 0 <= i < out.len() && (#[trigger] out[i]).token@ == key
}

/// Every stored route key is reported.
pub open spec fn spec_routes_cover(
    rb: Seq<(String, Vec<RouteMinuteBucket>)>,
    ri: Seq<(String, u64)>,
    out: Seq<RouteWindowSummary>,
) -> bool {
    &&& forall|j: int| 0 <= j < rb.len() ==> spec_reported_route(out, (#[trigger] rb[j]).0@)
    &&& forall|j: int| 0 <= j < ri.len() ==> spec_reported_route(out, (#[trigger] ri[j]).0@)
}

/// Every stored token label is reported.
pub open spec fn spec_tokens_cover(
    tb: Seq<(String, Vec<RequestMinuteBucket>)>,
    out: Seq<TokenWindowSummary>,
) -> bool {
    forall|j: int| 0 <= j < tb.len() ==> spec_reported_token(out, (#[trigger] tb[j]).0@)
}

proof fn lemma_reported_route_monotone(
    pre: Seq<RouteWindowSummary>,
    new: Seq<RouteWindowSummary>,
    key: Seq<char>,
)
    requires
        spec_reported_route(pre, key),
        forall|x: RouteWindowSummary| pre.contains(x) ==> new.contains(x),
    ensures
        spec_reported_route(new, key),
{
    let i0 = choose|i0: int| 0 <= i0 < pre.len() && (#[trigger] pre[i0]).route_id@ == key;
    assert(pre.contains(pre[i0]));
    assert(new.contains(pre[i0]));
    let i1 = choose|i1: int| 0 <= i1 < new.len() && new[i1] == pre[i0];
    assert((new[i1]).route_id@ == key);
}

proof fn lemma_reported_token_monotone(
    pre: Seq<TokenWindowSummary>,
    new: Seq<TokenWindowSummary>,
    key: Seq<char>,
)
    requires
        spec_reported_token(pre, key),
        forall|x: TokenWindowSummary| pre.contains(x) ==> new.contains(x),
    ensures
        spec_reported_token(new, key),
{
    let i0 = choose|i0: int| 0 <= i0 < pre.len() && (#[trigger] pre[i0]).token@ == key;
    assert(pre.contains(pre[i0]));
    assert(new.contains(pre[i0]));
    let i1 = choose|i1: int| 0 <= i1 < new.len() && new[i1] == pre[i0];
    assert((new[i1]).token@ == key);
}

/// One reported route's numbers are the window sums of its state.
pub open spec fn spec_route_summary_ok(
    state: SummaryState,
    rs: RouteWindowSummary,
    now_minute: u64,
) -> bool {
    let b = match crate::kv::assoc(state.route_buckets@, rs.route_id@) {
        Some(b) => b@,
        None => Seq::<RouteMinuteBucket>::empty(),
    };
    let from_1h = if now_minute >= 59 {
        (now_minute - 59) as u64
    } else {
        0
    };
    let from_24h = spec_prune_cutoff(now_minute);
    &&& rs.requests_1h == spec_route_requests_since(b, from_1h)
    &&& rs.requests_24h == spec_route_requests_since(b, from_24h)
    &&& rs.inflight_current == spec_inflight_val(state.route_inflight@, rs.route_id@)
    &&& rs.inflight_peak_1h == spec_route_peak_since(b, from_1h)
    &&& rs.inflight_peak_24h == spec_route_peak_since(b, from_24h)
}

/// One reported token's numbers are the window sums of its state.
pub open spec fn spec_token_summary_ok(
    state: SummaryState,
    ts: TokenWindowSummary,
    now_minute: u64,
) -> bool {
    let b = match crate::kv::assoc(state.token_buckets@, ts.token@) {
        Some(b) => b@,
        None => Seq::<RequestMinuteBucket>::empty(),
    };
    let from_1h = if now_minute >= 59 {
        (now_minute - 59) as u64
    } else {
        0
    };
    let from_24h = spec_prune_cutoff(now_minute);
    &&& ts.requests_1h == spec_token_requests_since(b, from_1h)
    &&& ts.requests_24h == spec_token_requests_since(b, from_24h)
}

impl SummaryState {
    /// The report at a given minute: per-route and per-token window
    /// sums, sorted by the summary orders, covering every route and
    /// token the state knows.
    #[verifier::rlimit(100)]
    pub fn snapshot_at(&self, now_minute: u64, generated_at_unix_ms: u64) -> (r:
        ObservabilitySummary)
        requires
            self.wf(),
        ensures
            r.generated_at_unix_ms == generated_at_unix_ms,
            spec_routes_sorted(r.routes@),
            spec_tokens_sorted(r.tokens@),
            forall|i: int|
                0 <= i < r.routes@.len() ==> spec_route_summary_ok(
                    *self,
                    #[trigger] r.routes@[i],
                    now_minute,
                ),
            forall|i: int|
                0 <= i < r.tokens@.len() ==> spec_token_summary_ok(
                    *self,
                    #[trigger] r.tokens@[i],
                    now_minute,
                ),
            spec_routes_cover(self.route_buckets@, self.route_inflight@, r.routes@),
            spec_tokens_cover(self.token_buckets@, r.tokens@),
            r.total_requests_1h == spec_total_requests_1h(r.routes@),
            r.total_requests_24h == spec_total_requests_24h(r.routes@),
    {
        let from_1h = if now_minute >= 59 {
            now_minute - 59
        } else {
            0
        };
        let from_24h = if now_minute >= 1439 {
            now_minute - 1439
        } else {
            0
        };

        let mut route_ids: Vec<String> = Vec::new();
        let nrb = self.route_buckets.len();
        let mut j: usize = 0;
        while j < nrb
            invariant
                nrb == self.route_buckets@.len(),
                j <= nrb,
                route_ids@.len() == j,
                forall|x: int|
                    0 <= x < j ==> (#[trigger] route_ids@[x])@ == self.route_buckets@[x].0@,
            decreases nrb - j,
        {
            route_ids.push(self.route_buckets[j].0.clone());
            j = j + 1;
        }
        let nri = self.route_inflight.len();
        let ghost base_len = route_ids@.len();
        let mut j: usize = 0;
        while j < nri
            invariant
                nri == self.route_inflight@.len(),
                nrb == self.route_buckets@.len(),
                j <= nri,
                base_len == nrb,
                route_ids@.len() >= base_len,
                forall|x: int|
                    0 <= x < nrb ==> (#[trigger] route_ids@[x])@ == self.route_buckets@[x].0@,
                forall|y: int|
                    0 <= y < j ==> exists|x: int|
                        0 <= x < route_ids@.len() && (#[trigger] self.route_inflight@[y]).0@ == (
                        #[trigger] route_ids@[x])@,
            decreases nri - j,
        {
            let key = &self.route_inflight[j].0;
            match crate::kv::assoc_index(&self.route_buckets, key.as_str()) {
                Some(x) => {
                    proof {
                        assert(route_ids@[x as int]@ == self.route_inflight@[j as int].0@);
                    }
                },
                None => {
                    let ghost pre = route_ids@;
                    route_ids.push(key.clone());
                    proof {
                        assert(route_ids@[pre.len() as int]@
                            == self.route_inflight@[j as int].0@);
                        assert(forall|x: int| 0 <= x < pre.len() ==> route_ids@[x] == pre[x]);
                    }
                },
            }
            j = j + 1;
        }

        let mut routes: Vec<RouteWindowSummary> = Vec::new();
        let nids = route_ids.len();
        let mut j: usize = 0;
        while j < nids
            invariant
                nids == route_ids@.len(),
                self.wf(),
                spec_routes_sorted(routes@),
                j <= nids,
                forall|i: int|
                    0 <= i < routes@.len() ==> spec_route_summary_ok(
                        *self,
                        #[trigger] routes@[i],
                        now_minute,
                    ),
                from_1h == if now_minute >= 59 {
                    (now_minute - 59) as u64
                } else {
                    0
                },
                from_24h == spec_prune_cutoff(now_minute),
                forall|y: int|
                    0 <= y < j ==> spec_reported_route(routes@, (#[trigger] route_ids@[y])@),
            decreases nids - j,
        {
            let id = &route_ids[j];
            let (requests_1h, requests_24h, peak_1h, peak_24h) = match crate::kv::assoc_index(
                &self.route_buckets,
                id.as_str(),
            ) {
                Some(x) => {
                    proof {
                        crate::kv::lemma_assoc_at(self.route_buckets@, x as int);
                    }
                    let b = &self.route_buckets[x].1;
                    (
                        route_requests_since(b, from_1h),
                        route_requests_since(b, from_24h),
                        route_peak_since(b, from_1h),
                        route_peak_since(b, from_24h),
                    )
                },
                None => {
                    proof {
                        crate::kv::lemma_assoc_absent(self.route_buckets@, id@);
                    }
                    (0, 0, 0, 0)
                },
            };
            let inflight_current = inflight_value(&self.route_inflight, id.as_str());
            let entry = RouteWindowSummary {
                route_id: id.clone(),
                requests_1h,
                requests_24h,
                inflight_current,
                inflight_peak_1h: peak_1h,
                inflight_peak_24h: peak_24h,
            };
            proof {
                assert(spec_route_summary_ok(*self, entry, now_minute));
            }
            let ghost pre = routes@;
            insert_route_sorted(&mut routes, entry);
            proof {
                assert forall|i: int| 0 <= i < routes@.len() implies spec_route_summary_ok(
                    *self,
                    #[trigger] routes@[i],
                    now_minute,
                ) by {
                    assert(routes@.contains(routes@[i]));
                    if routes@[i] != entry {
                        assert(pre.contains(routes@[i]));
                        let x = choose|x: int| 0 <= x < pre.len() && pre[x] == routes@[i];
                    }
                }
                assert forall|y: int| 0 <= y < j + 1 implies spec_reported_route(
                    routes@,
                    (#[trigger] route_ids@[y])@,
                ) by {
                    if y < j {
                        lemma_reported_route_monotone(pre, routes@, (route_ids@[y])@);
                    } else {
                        assert(routes@.contains(entry));
                        let i1 = choose|i1: int|
                            0 <= i1 < routes@.len() && routes@[i1] == entry;
                        assert((routes@[i1]).route_id@ == (route_ids@[y])@);
                    }
                }
            }
            j = j + 1;
        }

        let mut tokens: Vec<TokenWindowSummary> = Vec::new();
        let ntb = self.token_buckets.len();
        let mut j: usize = 0;
        while j < ntb
            invariant
                ntb == self.token_buckets@.len(),
                self.wf(),
                spec_tokens_sorted(tokens@),
                j <= ntb,
                forall|i: int|
                    0 <= i < tokens@.len() ==> spec_token_summary_ok(
                        *self,
                        #[trigger] tokens@[i],
                        now_minute,
                    ),
                from_1h == if now_minute >= 59 {
                    (now_minute - 59) as u64
                } else {
                    0
                },
                from_24h == spec_prune_cutoff(now_minute),
                forall|y: int|
                    0 <= y < j ==> spec_reported_token(
                        tokens@,
                        (#[trigger] self.token_buckets@[y]).0@,
                    ),
            decreases ntb - j,
        {
            let label = &self.token_buckets[j].0;
            proof {
                crate::kv::lemma_assoc_at(self.token_buckets@, j as int);
            }
            let b = &self.token_buckets[j].1;
            let entry = TokenWindowSummary {
                token: label.clone(),
                requests_1h: token_requests_since(b, from_1h),
                requests_24h: token_requests_since(b, from_24h),
            };
            proof {
                assert(spec_token_summary_ok(*self, entry, now_minute));
            }
            let ghost pre = tokens@;
            insert_token_sorted(&mut tokens, entry);
            proof {
                assert forall|i: int| 0 <= i < tokens@.len() implies spec_token_summary_ok(
                    *self,
                    #[trigger] tokens@[i],
                    now_minute,
                ) by {
                    assert(tokens@.contains(tokens@[i]));
                    if tokens@[i] != entry {
                        assert(pre.contains(tokens@[i]));
                        let x = choose|x: int| 0 <= x < pre.len() && pre[x] == tokens@[i];
                    }
                }
                assert forall|y: int| 0 <= y < j + 1 implies spec_reported_token(
                    tokens@,
                    (#[trigger] self.token_buckets@[y]).0@,
                ) by {
                    if y < j {
                        lemma_reported_token_monotone(pre, tokens@, (self.token_buckets@[y]).0@);
                    } else {
                        assert(tokens@.contains(entry));
                        let i1 = choose|i1: int|
                            0 <= i1 < tokens@.len() && tokens@[i1] == entry;
                        assert((tokens@[i1]).token@ == (self.token_buckets@[y]).0@);
                    }
                }
            }
            j = j + 1;
        }

        let nroutes = routes.len();
        let mut total_requests_1h: u64 = 0;
        let mut total_requests_24h: u64 = 0;
        let mut j: usize = 0;
        while j < nroutes
            invariant
                nroutes == routes@.len(),
                j <= nroutes,
                total_requests_1h == spec_total_requests_1h(routes@.subrange(0, j as int)),
                total_requests_24h == spec_total_requests_24h(routes@.subrange(0, j as int)),
            decreases nroutes - j,
        {
            let ghost cur = routes@.subrange(0, j + 1);
            proof {
                assert(cur.drop_last() =~= routes@.subrange(0, j as int));
                assert(cur.last() == routes@[j as int]);
            }
            let v1 = routes[j].requests_1h;
            total_requests_1h = if total_requests_1h > u64::MAX - v1 {
                u64::MAX
            } else {
                total_requests_1h + v1
            };
            let v24 = routes[j].requests_24h;
            total_requests_24h = if total_requests_24h > u64::MAX - v24 {
                u64::MAX
            } else {
                total_requests_24h + v24
            };
            j = j + 1;
        }
        proof {
            assert(routes@.subrange(0, nroutes as int) =~= routes@);
            assert(spec_tokens_cover(self.token_buckets@, tokens@));
            assert forall|j2: int| 0 <= j2 < self.route_buckets@.len() implies
                spec_reported_route(routes@, (#[trigger] self.route_buckets@[j2]).0@) by {
                assert(route_ids@[j2]@ == self.route_buckets@[j2].0@);
                assert(spec_reported_route(routes@, (route_ids@[j2])@));
            }
            assert forall|j2: int| 0 <= j2 < self.route_inflight@.len() implies
                spec_reported_route(routes@, (#[trigger] self.route_inflight@[j2]).0@) by {
                let x0 = choose|x0: int|
                    0 <= x0 < route_ids@.len() && (self.route_inflight@[j2]).0@ == (
                    #[trigger] route_ids@[x0])@;
                assert(spec_reported_route(routes@, (route_ids@[x0])@));
            }
            assert(spec_routes_cover(self.route_buckets@, self.route_inflight@, routes@));
        }
        let ghost groutes = routes@;
        let ghost gtokens = tokens@;
        let result = ObservabilitySummary {
            generated_at_unix_ms,
            total_requests_1h,
            total_requests_24h,
            routes,
            tokens,
        };
        proof {
            assert(result.routes@ == groutes);
            assert(result.tokens@ == gtokens);
            assert(spec_tokens_cover(self.token_buckets@, result.tokens@));
            assert(spec_routes_cover(
                self.route_buckets@,
                self.route_inflight@,
                result.routes@,
            ));
        }
        result
    }

    /// The report at the current wall clock; whatever the clock read,
    /// the report is sorted, covers every stored route and token, and
    /// its totals sum its routes.
    pub fn snapshot(&self) -> (r: ObservabilitySummary)
        requires
            self.wf(),
        ensures
            spec_routes_sorted(r.routes@),
            spec_tokens_sorted(r.tokens@),
            spec_routes_cover(self.route_buckets@, self.route_inflight@, r.routes@),
            spec_tokens_cover(self.token_buckets@, r.tokens@),
            r.total_requests_1h == spec_total_requests_1h(r.routes@),
            r.total_requests_24h == spec_total_requests_24h(r.routes@),
    {
        self.snapshot_at(epoch_minute_now(), epoch_millis_now())
    }
}



/// The configuration-derived face of the metrics endpoints: where they
/// live and which token unlocks them. The counters themselves live in
/// the runtime state.
#[derive(Debug, Clone)]
pub struct ObservabilityRuntime {
    pub metrics_enabled: bool,
    pub metrics_path: Option<String>,
    pub metrics_ui_path: Option<String>,
    pub metrics_summary_path: Option<String>,
    pub metrics_token: Option<String>,
}

impl ObservabilityRuntime {
    /// Metrics endpoints exist exactly when the configuration enables
    /// them; the companion paths hang under the normalized base path.
    pub fn from_config(config: Option<&ObservabilityConfig>) -> (r: ObservabilityRuntime)
        ensures
            match config {
                Some(c) => if c.metrics.enabled {
                    let base = spec_normalize_metrics_path(c.metrics.path@);
                    &&& r.metrics_enabled
                    &&& r.metrics_path matches Some(p) && p@ == base
                    &&& r.metrics_ui_path matches Some(p) && p@ == spec_metrics_sub_path(
                        base,
                        "ui"@,
                    )
                    &&& r.metrics_summary_path matches Some(p) && p@ == spec_metrics_sub_path(
                        base,
                        "summary"@,
                    )
                    &&& r.metrics_token matches Some(t) && t@ == c.metrics.token@
                } else {
                    &&& !r.metrics_enabled
                    &&& r.metrics_path is None
                    &&& r.metrics_token is None
                },
                None => {
                    &&& !r.metrics_enabled
                    &&& r.metrics_path is None
                    &&& r.metrics_token is None
                },
            },
    {
        let config = match config {
            Some(config) => config,
            None => {
                return ObservabilityRuntime {
                    metrics_enabled: false,
                    metrics_path: None,
                    metrics_ui_path: None,
                    metrics_summary_path: None,
                    metrics_token: None,
                };
            },
        };
        if config.metrics.enabled {
            let metrics_path = normalize_metrics_path(config.metrics.path.as_str());
            let ui = metrics_sub_path(metrics_path.as_str(), "ui");
            let summary = metrics_sub_path(metrics_path.as_str(), "summary");
            ObservabilityRuntime {
                metrics_enabled: true,
                metrics_path: Some(metrics_path),
                metrics_ui_path: Some(ui),
                metrics_summary_path: Some(summary),
                metrics_token: Some(config.metrics.token.clone()),
            }
        } else {
            ObservabilityRuntime {
                metrics_enabled: false,
                metrics_path: None,
                metrics_ui_path: None,
                metrics_summary_path: None,
                metrics_token: None,
            }
        }
    }

    pub fn metrics_path(&self) -> (r: Option<&String>)
        ensures
            match (r, self.metrics_path) {
                (Some(a), Some(b)) => a@ == b@,
                (None, None) => true,
                _ => false,
            },
    {
        self.metrics_path.as_ref()
    }

    pub fn metrics_ui_path(&self) -> (r: Option<&String>)
        ensures
            match (r, self.metrics_ui_path) {
                (Some(a), Some(b)) => a@ == b@,
                (None, None) => true,
                _ => false,
            },
    {
        self.metrics_ui_path.as_ref()
    }

    pub fn metrics_summary_path(&self) -> (r: Option<&String>)
        ensures
            match (r, self.metrics_summary_path) {
                (Some(a), Some(b)) => a@ == b@,
                (None, None) => true,
                _ => false,
            },
    {
        self.metrics_summary_path.as_ref()
    }

    /// Whether the request carries `Authorization: Bearer` with exactly
    /// the metrics token; with no token configured nothing is
    /// authorized.
    pub fn is_metrics_request_authorized(&self, headers: &HeaderTable) -> (r: bool)
        ensures
            r == spec_bearer_matches(headers.entries@, self.metrics_token),
    {
        let expected = match &self.metrics_token {
            Some(expected) => expected,
            None => {
                return false;
            },
        };
        let value = match headers.get("authorization") {
            Some(value) => value,
            None => {
                return false;
            },
        };
        match crate::auth::parse_bearer_token(value.as_str()) {
            Some(token) => crate::text::str_eq(token.as_str(), expected.as_str()),
            None => false,
        }
    }
}

/// The request's bearer token equals the expected secret, when one is
/// set.
pub open spec fn spec_bearer_matches(h: Seq<(String, String)>, expected: Option<String>) -> bool {
    match expected {
        None => false,
        Some(secret) => match spec_lookup(h, lower_seq("authorization"@)) {
            Some(v) => match crate::auth::spec_parse_bearer(v) {
                Some(t) => t == secret@,
                None => false,
            },
            None => false,
        },
    }
}

/// Whether the request carries `Authorization: Bearer` with exactly the
/// admin token; with no token configured nothing is authorized.
pub fn is_admin_authorized(headers: &HeaderTable, admin_token: Option<&String>) -> (r: bool)
    ensures
        r == spec_bearer_matches(
            headers.entries@,
            match admin_token {
                Some(t) => Some(*t),
                None => None,
            },
        ),
{
    let expected = match admin_token {
        Some(expected) => expected,
        None => {
            return false;
        },
    };
    let value = match headers.get("authorization") {
        Some(value) => value,
        None => {
            return false;
        },
    };
    match crate::auth::parse_bearer_token(value.as_str()) {
        Some(token) => crate::text::str_eq(token.as_str(), expected.as_str()),
        None => false,
    }
}



/// Request-id propagation: a response whose headers went through
/// `insert_request_id_header` with the chosen id carries exactly that
/// id under `x-request-id`.
pub proof fn lemma_response_carries_request_id(
    before: Seq<(String, String)>,
    after: Seq<(String, String)>,
    id: Seq<char>,
)
    requires
        after.len() == drop_name(before, lower_seq("x-request-id"@)).len() + 1,
        after.subrange(0, after.len() - 1) == drop_name(before, lower_seq("x-request-id"@)),
        after.last().0@ == lower_seq("x-request-id"@),
        after.last().1@ == id,
    ensures
        spec_lookup(after, lower_seq("x-request-id"@)) == Some(id),
{
    let lname = lower_seq("x-request-id"@);
    crate::headers::lemma_drop_name_free(before, lname);
    assert(forall|i: int|
        0 <= i < after.len() - 1 ==> (#[trigger] after[i]) == drop_name(before, lname)[i]);
    crate::headers::lemma_lookup_last(after, lname);
}

/// The chosen id equals the trimmed inbound id exactly when that id
/// satisfied the validity rule: a rejected inbound id can never come
/// back, because every chosen id is valid.
pub proof fn lemma_request_id_echo_iff_valid(inbound: Seq<char>, chosen: Seq<char>)
    requires
        spec_valid_request_id(chosen),
        spec_valid_request_id(trim_seq(inbound)) ==> chosen == trim_seq(inbound),
    ensures
        chosen == trim_seq(inbound) <==> spec_valid_request_id(trim_seq(inbound)),
{
}

/// A token label never contains the token it stands for: a trimmed
/// token longer than eight characters holding no `*` and no `#` cannot
/// occur inside its own label, so grepping labels for such a token
/// finds nothing.
pub proof fn lemma_token_label_hides_token(token: Seq<char>)
    requires
        trim_seq(token).len() > 8,
        forall|i: int|
            0 <= i < trim_seq(token).len() ==> (#[trigger] trim_seq(token)[i]) != '*' && trim_seq(
                token,
            )[i] != '#',
    ensures
        !crate::text::contains_seq(spec_token_label(token), trim_seq(token)),
{
    reveal_strlit("***");
    reveal_strlit("#");
    let t = trim_seq(token);
    let n = t.len() as int;
    let label = spec_token_label(token);
    crate::text::lemma_hex_seq_len(spec_token_hash(t) as int, 8);
    assert("***"@ =~= seq!['*', '*', '*']);
    assert(label =~= t.subrange(0, 3) + "***"@ + t.subrange(t.len() - 2, t.len() as int) + "#"@
        + crate::text::hex_seq(spec_token_hash(t) as int, 8));
    assert(label.len() == 17);
    assert(label[3] == '*' && label[4] == '*' && label[5] == '*');
    assert("#"@.len() == 1 && "#"@[0] == '#');
    assert(label[8] == '#');
    assert forall|k: int| 0 <= k <= label.len() - t.len() implies #[trigger] label.subrange(
        k,
        k + t.len() as int,
    ) != t by {
        if k <= 5 {
            let p: int = if k >= 3 {
                k
            } else {
                3
            };
            assert(label.subrange(k, k + n)[p - k] == label[p]);
            assert(label[p] == '*');
            assert(t[p - k] != '*');
        } else {
            assert(label.subrange(k, k + n)[8 - k] == label[8]);
            assert(t[8 - k] != '#');
        }
    }
    assert(!crate::text::contains_seq(label, t));
}


} // verus!
