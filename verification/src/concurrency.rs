//! Concurrency admission: a global downstream gate and lazily created
//! per-(route, upstream-key) gates, each a counting limit with an
//! in-flight count. The asynchronous permit plumbing around these
//! decisions lives with the server; the counting itself is decided and
//! proved here.

use crate::config::{AppConfig, RouteConfig};
use crate::text::{lower_seq, spec_find, trim_seq};
use vstd::prelude::*;

verus! {

#[derive(Debug)]
pub enum ConcurrencyError {
    DownstreamLimitExceeded,
    UpstreamLimitExceeded,
}

/// `Bearer <token>` parsing without trimming the whole value first,
/// as applied to injected upstream credentials.
pub open spec fn spec_parse_bearer_raw(value: Seq<char>) -> Option<Seq<char>> {
    match spec_find(value, ' ', 0) {
        None => None,
        Some(k) => {
            let scheme = value.subrange(0, k as int);
            let token = trim_seq(value.subrange(k + 1 as int, value.len() as int));
            if lower_seq(scheme) != lower_seq("bearer"@) {
                None
            } else if token.len() == 0 {
                None
            } else {
                Some(token)
            }
        },
    }
}

fn parse_bearer_token(value: &str) -> (r: Option<String>)
    ensures
        match r {
            Some(t) => spec_parse_bearer_raw(value@) == Some(t@),
            None => spec_parse_bearer_raw(value@) is None,
        },
{
    let n = value.unicode_len();
    let k = match crate::text::find_char(value, ' ', 0) {
        None => {
            return None;
        },
        Some(k) => k,
    };
    proof {
        crate::text::lemma_spec_find_props(value@, ' ', 0);
    }
    let scheme = crate::text::substring(value, 0, k);
    if !crate::text::eq_ignore_case(scheme.as_str(), "bearer") {
        return None;
    }
    let raw_token = crate::text::substring(value, k + 1, n);
    let token = crate::text::trim(raw_token.as_str());
    if token.as_str().unicode_len() == 0 {
        return None;
    }
    Some(token)
}

/// The last injected header whose trimmed name matches `lname`
/// (already lowercased) decides; its trimmed value counts only when
/// non-empty, so a blank last match hides earlier ones rather than
/// falling back to them.
pub open spec fn spec_find_injected(
    inj: Seq<crate::config::HeaderInjection>,
    lname: Seq<char>,
) -> Option<Seq<char>>
    decreases inj.len(),
{
    if inj.len() == 0 {
        None
    } else if lower_seq(trim_seq(inj.last().name@)) == lname {
        let v = trim_seq(inj.last().value@);
        if v.len() == 0 {
            None
        } else {
            Some(v)
        }
    } else {
        spec_find_injected(inj.drop_last(), lname)
    }
}

fn find_injected_header_value(route: &RouteConfig, header_name: &str) -> (r: Option<String>)
    ensures
        match r {
            Some(v) => spec_find_injected(route.upstream.inject_headers@, lower_seq(header_name@))
                == Some(v@),
            None => spec_find_injected(route.upstream.inject_headers@, lower_seq(header_name@))
                is None,
        },
{
    let n = route.upstream.inject_headers.len();
    let mut i: usize = n;
    proof {
        assert(route.upstream.inject_headers@.subrange(0, n as int)
            =~= route.upstream.inject_headers@);
    }
    while i > 0
        invariant
            n == route.upstream.inject_headers@.len(),
            i <= n,
            spec_find_injected(route.upstream.inject_headers@, lower_seq(header_name@))
                == spec_find_injected(
                route.upstream.inject_headers@.subrange(0, i as int),
                lower_seq(header_name@),
            ),
        decreases i,
    {
        let ghost pre = route.upstream.inject_headers@.subrange(0, i as int);
        proof {
            assert(pre.last() == route.upstream.inject_headers@[i - 1]);
            assert(pre.drop_last() =~= route.upstream.inject_headers@.subrange(0, i - 1));
        }
        let header = &route.upstream.inject_headers[i - 1];
        let trimmed_name = crate::text::trim(header.name.as_str());
        if crate::text::eq_ignore_case(trimmed_name.as_str(), header_name) {
            let value = crate::text::trim(header.value.as_str());
            if value.as_str().unicode_len() == 0 {
                return None;
            }
            return Some(value);
        }
        i = i - 1;
    }
    proof {
        assert(route.upstream.inject_headers@.subrange(0, 0).len() == 0);
    }
    None
}

/// The upstream key material a route derives from its injected
/// credentials: the bearer token of an injected `authorization` (the
/// raw value when it is not bearer-shaped), else an injected
/// `x-api-key` value; nothing when neither is injected.
pub open spec fn spec_upstream_key(route: RouteConfig) -> Option<Seq<char>> {
    match spec_find_injected(route.upstream.inject_headers@, lower_seq("authorization"@)) {
        Some(text) => {
            let bearer = match spec_parse_bearer_raw(text) {
                Some(b) => b,
                None => text,
            };
            Some("authorization:"@ + bearer)
        },
        None => match spec_find_injected(route.upstream.inject_headers@, lower_seq("x-api-key"@)) {
            Some(text) => Some("x-api-key:"@ + text),
            None => None,
        },
    }
}

pub fn extract_upstream_key_from_injected_headers(route: &RouteConfig) -> (r: Option<String>)
    ensures
        match r {
            Some(k) => spec_upstream_key(*route) == Some(k@),
            None => spec_upstream_key(*route) is None,
        },
{
    if let Some(text) = find_injected_header_value(route, "authorization") {
        let bearer = match parse_bearer_token(text.as_str()) {
            Some(b) => b,
            None => text,
        };
        let mut key = String::from_str("authorization:");
        key.append(bearer.as_str());
        return Some(key);
    }
    if let Some(text) = find_injected_header_value(route, "x-api-key") {
        let mut key = String::from_str("x-api-key:");
        key.append(text.as_str());
        return Some(key);
    }
    None
}

/// One 64-bit FNV-1a step per character code point.
pub open spec fn fnv64(acc: u64, s: Seq<char>) -> u64
    decreases s.len(),
{
    if s.len() == 0 {
        acc
    } else {
        let mixed = acc ^ (s[0] as u64);
        let next = (((mixed as int) * 0x100000001b3) % 0x10000000000000000) as u64;
        fnv64(next, s.subrange(1, s.len() as int))
    }
}

/// The stable non-cryptographic fingerprint of upstream key material:
/// 64-bit FNV-1a over the character code points.
pub open spec fn spec_fingerprint(s: Seq<char>) -> u64 {
    fnv64(0xcbf29ce484222325u64, s)
}

/// The fingerprint under which key material is partitioned; the raw
/// material itself is never stored.
pub fn fingerprint(value: &str) -> (r: u64)
    ensures
        r == spec_fingerprint(value@),
{
    let n = value.unicode_len();
    let mut acc: u64 = 0xcbf29ce484222325u64;
    let mut i: usize = 0;
    proof {
        assert(value@.subrange(0, n as int) =~= value@);
    }
    while i < n
        invariant
            n == value@.len(),
            i <= n,
            spec_fingerprint(value@) == fnv64(acc, value@.subrange(i as int, n as int)),
        decreases n - i,
    {
        let ghost pre = value@.subrange(i as int, n as int);
        proof {
            assert(pre[0] == value@[i as int]);
            assert(pre.subrange(1, pre.len() as int) =~= value@.subrange(i + 1, n as int));
        }
        let c = value.get_char(i);
        let mixed = acc ^ (c as u64);
        acc = (((mixed as u128) * 0x100000001b3u128) % 0x10000000000000000u128) as u64;
        i = i + 1;
    }
    proof {
        assert(value@.subrange(n as int, n as int).len() == 0);
    }
    acc
}

/// A route's gate key: `route_id:` and the 16-hex-digit
/// fingerprint of the key material, `default` standing in when the
/// route injects none.
pub open spec fn spec_gate_key(route: RouteConfig) -> Seq<char> {
    let material = match spec_upstream_key(route) {
        Some(k) => k,
        None => "default"@,
    };
    route.id@ + ":"@ + crate::text::hex_seq(spec_fingerprint(material) as int, 16)
}

/// The `(limit, inflight)` pair stored under `key`.
pub open spec fn spec_gate(
    gates: Seq<(String, usize, usize)>,
    key: Seq<char>,
) -> Option<(usize, usize)>
    decreases gates.len(),
{
    if gates.len() == 0 {
        None
    } else if gates[0].0@ == key {
        Some((gates[0].1, gates[0].2))
    } else {
        spec_gate(gates.subrange(1, gates.len() as int), key)
    }
}

pub struct ConcurrencyController {
    pub downstream_limit: Option<usize>,
    pub downstream_inflight: usize,
    pub upstream_default_limit: Option<usize>,
    pub upstream_gates: Vec<(String, usize, usize)>,
}

/// The per-route effective upstream limit: the route override, else the
/// global default.
pub open spec fn spec_effective_limit(
    c: ConcurrencyController,
    route: RouteConfig,
) -> Option<usize> {
    match route.upstream.upstream_key_max_inflight {
        Some(l) => Some(l),
        None => c.upstream_default_limit,
    }
}

/// Some route in the configuration overrides the upstream limit.
pub open spec fn spec_has_route_override(c: AppConfig) -> bool {
    exists|i: int|
        0 <= i < c.routes@.len() && (#[trigger] c.routes@[i]).upstream.upstream_key_max_inflight
            is Some
}

impl ConcurrencyController {
    pub open spec fn wf(self) -> bool {
        &&& (self.downstream_limit matches Some(l) ==> self.downstream_inflight <= l)
        &&& forall|i: int|
            0 <= i < self.upstream_gates@.len() ==> (#[trigger] self.upstream_gates@[i]).2
                <= self.upstream_gates@[i].1
        &&& forall|i: int, j: int|
            0 <= i < j < self.upstream_gates@.len() ==> (#[trigger] self.upstream_gates@[i]).0@
                != (#[trigger] self.upstream_gates@[j]).0@
    }

    /// A controller exists exactly when some limit is configured:
    /// downstream, global upstream, or a route override.
    pub fn new(config: &AppConfig) -> (r: Option<ConcurrencyController>)
        ensures
            match r {
                Some(c) => {
                    &&& c.wf()
                    &&& c.downstream_limit == (match config.concurrency {
                        Some(cc) => cc.downstream_max_inflight,
                        None => None,
                    })
                    &&& c.upstream_default_limit == (match config.concurrency {
                        Some(cc) => cc.upstream_per_key_max_inflight,
                        None => None,
                    })
                    &&& c.downstream_inflight == 0
                    &&& c.upstream_gates@.len() == 0
                    &&& (c.downstream_limit is Some || c.upstream_default_limit is Some
                        || spec_has_route_override(*config))
                },
                None => !(match config.concurrency {
                    Some(cc) => cc.downstream_max_inflight is Some
                        || cc.upstream_per_key_max_inflight is Some,
                    None => false,
                } || spec_has_route_override(*config)),
            },
    {
        let downstream_limit = match &config.concurrency {
            Some(cc) => cc.downstream_max_inflight,
            None => None,
        };
        let upstream_default_limit = match &config.concurrency {
            Some(cc) => cc.upstream_per_key_max_inflight,
            None => None,
        };
        let mut has_route_override = false;
        let n = config.routes.len();
        let mut i: usize = 0;
        while i < n
            invariant
                n == config.routes@.len(),
                i <= n,
                has_route_override == exists|j: int|
                    0 <= j < i && (#[trigger] config.routes@[j]).upstream.upstream_key_max_inflight
                        is Some,
            decreases n - i,
        {
            if config.routes[i].upstream.upstream_key_max_inflight.is_some() {
                has_route_override = true;
            }
            i = i + 1;
        }
        if downstream_limit.is_none() && upstream_default_limit.is_none() && !has_route_override {
            return None;
        }
        Some(
            ConcurrencyController {
                downstream_limit,
                downstream_inflight: 0,
                upstream_default_limit,
                upstream_gates: Vec::new(),
            },
        )
    }

    /// Downstream admission: passes freely without a configured limit;
    /// with one, admits and counts while under it.
    pub fn acquire_downstream(&mut self) -> (r: Result<bool, ConcurrencyError>)
        requires
            old(self).wf(),
        ensures
            final(self).wf(),
            final(self).downstream_limit == old(self).downstream_limit,
            final(self).upstream_default_limit == old(self).upstream_default_limit,
            final(self).upstream_gates@ == old(self).upstream_gates@,
            match old(self).downstream_limit {
                None => r matches Ok(permit) && permit == false && final(self).downstream_inflight
                    == old(self).downstream_inflight,
                Some(limit) => if old(self).downstream_inflight < limit {
                    &&& r matches Ok(permit) && permit == true
                    &&& final(self).downstream_inflight == old(self).downstream_inflight + 1
                } else {
                    &&& r matches Err(e) && e is DownstreamLimitExceeded
                    &&& final(self).downstream_inflight == old(self).downstream_inflight
                },
            },
    {
        let limit = match self.downstream_limit {
            None => {
                return Ok(false);
            },
            Some(limit) => limit,
        };
        if self.downstream_inflight < limit {
            self.downstream_inflight = self.downstream_inflight + 1;
            Ok(true)
        } else {
            Err(ConcurrencyError::DownstreamLimitExceeded)
        }
    }

    /// Returns a downstream permit.
    pub fn release_downstream(&mut self)
        requires
            old(self).wf(),
            old(self).downstream_inflight > 0,
        ensures
            final(self).wf(),
            final(self).downstream_limit == old(self).downstream_limit,
            final(self).upstream_default_limit == old(self).upstream_default_limit,
            final(self).upstream_gates@ == old(self).upstream_gates@,
            final(self).downstream_inflight == old(self).downstream_inflight - 1,
    {
        self.downstream_inflight = self.downstream_inflight - 1;
    }
}


fn find_gate(gates: &Vec<(String, usize, usize)>, key: &str) -> (r: Option<usize>)
    ensures
        match r {
            Some(i) => i < gates@.len() && gates@[i as int].0@ == key@ && forall|j: int|
                0 <= j < i ==> (#[trigger] gates@[j]).0@ != key@,
            None => forall|j: int| 0 <= j < gates@.len() ==> (#[trigger] gates@[j]).0@ != key@,
        },
{
    let n = gates.len();
    let mut i: usize = 0;
    while i < n
        invariant
            n == gates@.len(),
            i <= n,
            forall|j: int| 0 <= j < i ==> (#[trigger] gates@[j]).0@ != key@,
        decreases n - i,
    {
        if crate::text::str_eq(gates[i].0.as_str(), key) {
            return Some(i);
        }
        i = i + 1;
    }
    None
}

/// The first matching entry decides.
pub(crate) proof fn lemma_spec_gate_at(gates: Seq<(String, usize, usize)>, i: int)
    requires
        0 <= i < gates.len(),
        forall|j: int| 0 <= j < i ==> (#[trigger] gates[j]).0@ != gates[i].0@,
    ensures
        spec_gate(gates, gates[i].0@) == Some((gates[i].1, gates[i].2)),
    decreases i,
{
    if i > 0 {
        let rest = gates.subrange(1, gates.len() as int);
        assert(forall|j: int| 0 <= j < rest.len() ==> rest[j] == gates[j + 1]);
        lemma_spec_gate_at(rest, i - 1);
    }
}

/// A key with no entry has no gate.
proof fn lemma_spec_gate_absent(gates: Seq<(String, usize, usize)>, key: Seq<char>)
    requires
        forall|j: int| 0 <= j < gates.len() ==> (#[trigger] gates[j]).0@ != key,
    ensures
        spec_gate(gates, key) is None,
    decreases gates.len(),
{
    if gates.len() > 0 {
        let rest = gates.subrange(1, gates.len() as int);
        assert(forall|j: int| 0 <= j < rest.len() ==> rest[j] == gates[j + 1]);
        lemma_spec_gate_absent(rest, key);
    }
}

proof fn lemma_spec_gate_update(gates: Seq<(String, usize, usize)>, i: int, e: (String, usize, usize))
    requires
        forall|a: int, b: int|
            0 <= a < b < gates.len() ==> (#[trigger] gates[a]).0@ != (#[trigger] gates[b]).0@,
        0 <= i < gates.len(),
        e.0@ == gates[i].0@,
    ensures
        spec_gate(gates.update(i, e), e.0@) == Some((e.1, e.2)),
        forall|k2: Seq<char>|
            k2 != e.0@ ==> #[trigger] spec_gate(gates.update(i, e), k2) == spec_gate(gates, k2),
    decreases gates.len(),
{
    let updated = gates.update(i, e);
    if i == 0 {
        assert(updated[0] == e);
        assert(updated.subrange(1, updated.len() as int) =~= gates.subrange(
            1,
            gates.len() as int,
        ));
        assert forall|k2: Seq<char>| k2 != e.0@ implies #[trigger] spec_gate(updated, k2)
            == spec_gate(gates, k2) by {
            assert(spec_gate(updated, k2) == spec_gate(
                updated.subrange(1, updated.len() as int),
                k2,
            ));
            assert(spec_gate(gates, k2) == spec_gate(gates.subrange(1, gates.len() as int), k2));
        }
    } else {
        let rest = gates.subrange(1, gates.len() as int);
        assert(forall|a: int| 0 <= a < rest.len() ==> rest[a] == gates[a + 1]);
        assert(updated[0] == gates[0]);
        assert(updated.subrange(1, updated.len() as int) =~= rest.update(i - 1, e));
        assert(rest[i - 1] == gates[i]);
        lemma_spec_gate_update(rest, i - 1, e);
        assert(gates[0].0@ != e.0@);
        assert(spec_gate(updated, e.0@) == spec_gate(rest.update(i - 1, e), e.0@));
        assert forall|k2: Seq<char>| k2 != e.0@ implies #[trigger] spec_gate(updated, k2)
            == spec_gate(gates, k2) by {
            if gates[0].0@ == k2 {
                assert(spec_gate(updated, k2) == Some((updated[0].1, updated[0].2)));
            } else {
                assert(spec_gate(updated, k2) == spec_gate(rest.update(i - 1, e), k2));
                assert(spec_gate(gates, k2) == spec_gate(rest, k2));
            }
        }
    }
}

proof fn lemma_spec_gate_push(gates: Seq<(String, usize, usize)>, e: (String, usize, usize))
    requires
        forall|j: int| 0 <= j < gates.len() ==> (#[trigger] gates[j]).0@ != e.0@,
    ensures
        spec_gate(gates.push(e), e.0@) == Some((e.1, e.2)),
        forall|k2: Seq<char>|
            k2 != e.0@ ==> #[trigger] spec_gate(gates.push(e), k2) == spec_gate(gates, k2),
    decreases gates.len(),
{
    let pushed = gates.push(e);
    if gates.len() == 0 {
        assert(pushed[0] == e);
        assert(pushed.subrange(1, pushed.len() as int).len() == 0);
        assert forall|k2: Seq<char>| k2 != e.0@ implies #[trigger] spec_gate(pushed, k2)
            == spec_gate(gates, k2) by {
            assert(spec_gate(pushed, k2) == spec_gate(
                pushed.subrange(1, pushed.len() as int),
                k2,
            ));
        }
    } else {
        let rest = gates.subrange(1, gates.len() as int);
        assert(forall|j: int| 0 <= j < rest.len() ==> rest[j] == gates[j + 1]);
        assert(pushed[0] == gates[0]);
        assert(pushed.subrange(1, pushed.len() as int) =~= rest.push(e));
        lemma_spec_gate_push(rest, e);
        assert(spec_gate(pushed, e.0@) == spec_gate(rest.push(e), e.0@));
        assert forall|k2: Seq<char>| k2 != e.0@ implies #[trigger] spec_gate(pushed, k2)
            == spec_gate(gates, k2) by {
            if gates[0].0@ == k2 {
            } else {
                assert(spec_gate(pushed, k2) == spec_gate(rest.push(e), k2));
                assert(spec_gate(gates, k2) == spec_gate(rest, k2));
            }
        }
    }
}

impl ConcurrencyController {
    /// Upstream admission for a route: without an effective limit the
    /// request passes without a permit; otherwise the route's gate
    /// (created at the effective limit on first use) admits and counts
    /// while under its limit.
    pub fn acquire_upstream(&mut self, route: &RouteConfig) -> (r: Result<
        Option<usize>,
        ConcurrencyError,
    >)
        requires
            old(self).wf(),
        ensures
            final(self).wf(),
            final(self).downstream_limit == old(self).downstream_limit,
            final(self).downstream_inflight == old(self).downstream_inflight,
            final(self).upstream_default_limit == old(self).upstream_default_limit,
            match spec_effective_limit(*old(self), *route) {
                None => r matches Ok(permit) && permit is None && final(self).upstream_gates@
                    == old(self).upstream_gates@,
                Some(l) => {
                    let key = spec_gate_key(*route);
                    let limit = match spec_gate(old(self).upstream_gates@, key) {
                        Some(g) => g.0,
                        None => l,
                    };
                    let inflight = match spec_gate(old(self).upstream_gates@, key) {
                        Some(g) => g.1,
                        None => 0,
                    };
                    &&& (forall|k2: Seq<char>|
                        k2 != key ==> #[trigger] spec_gate(final(self).upstream_gates@, k2)
                            == spec_gate(old(self).upstream_gates@, k2))
                    &&& if inflight < limit {
                        &&& (r matches Ok(permit) && permit is Some)
                        &&& (r matches Ok(Some(idx)) ==> idx < final(self).upstream_gates@.len()
                            && final(self).upstream_gates@[idx as int].0@ == key)
                        &&& spec_gate(final(self).upstream_gates@, key) == Some(
                            (limit, (inflight + 1) as usize),
                        )
                    } else {
                        &&& r matches Err(e) && e is UpstreamLimitExceeded
                        &&& spec_gate(final(self).upstream_gates@, key) == Some((limit, inflight))
                    }
                },
            },
    {
        let limit = match route.upstream.upstream_key_max_inflight {
            Some(l) => l,
            None => match self.upstream_default_limit {
                Some(l) => l,
                None => {
                    return Ok(None);
                },
            },
        };
        let key_material = match extract_upstream_key_from_injected_headers(route) {
            Some(k) => k,
            None => String::from_str("default"),
        };
        let key_fingerprint = fingerprint(key_material.as_str());
        let mut semaphore_key = String::from_str(route.id.as_str());
        semaphore_key.append(":");
        let hex = crate::text::u64_to_hex_fixed(key_fingerprint, 16);
        semaphore_key.append(hex.as_str());
        proof {
            assert(semaphore_key@ == spec_gate_key(*route));
        }
        let idx = match find_gate(&self.upstream_gates, semaphore_key.as_str()) {
            Some(idx) => {
                proof {
                    lemma_spec_gate_at(self.upstream_gates@, idx as int);
                }
                idx
            },
            None => {
                proof {
                    lemma_spec_gate_absent(self.upstream_gates@, semaphore_key@);
                    lemma_spec_gate_push(
                        self.upstream_gates@,
                        (semaphore_key, limit, 0usize),
                    );
                }
                let ghost pre = self.upstream_gates@;
                let idx = self.upstream_gates.len();
                self.upstream_gates.push((semaphore_key, limit, 0));
                proof {
                    lemma_spec_gate_at(self.upstream_gates@, idx as int);
                    assert(forall|j: int|
                        0 <= j < pre.len() ==> self.upstream_gates@[j] == pre[j]);
                }
                idx
            },
        };
        let gate_limit = self.upstream_gates[idx].1;
        let gate_inflight = self.upstream_gates[idx].2;
        if gate_inflight < gate_limit {
            let ghost pre = self.upstream_gates@;
            let key_owned = self.upstream_gates[idx].0.clone();
            self.upstream_gates[idx] = (key_owned, gate_limit, gate_inflight + 1);
            proof {
                lemma_spec_gate_update(pre, idx as int, self.upstream_gates@[idx as int]);
            }
            Ok(Some(idx))
        } else {
            Err(ConcurrencyError::UpstreamLimitExceeded)
        }
    }

    /// Returns the permit taken at gate `idx`.
    pub fn release_upstream(&mut self, idx: usize)
        requires
            old(self).wf(),
            idx < old(self).upstream_gates@.len(),
            old(self).upstream_gates@[idx as int].2 > 0,
        ensures
            final(self).wf(),
            final(self).downstream_limit == old(self).downstream_limit,
            final(self).downstream_inflight == old(self).downstream_inflight,
            final(self).upstream_default_limit == old(self).upstream_default_limit,
            final(self).upstream_gates@.len() == old(self).upstream_gates@.len(),
            final(self).upstream_gates@[idx as int].0@ == old(self).upstream_gates@[idx as int].0@,
            final(self).upstream_gates@[idx as int].1 == old(self).upstream_gates@[idx as int].1,
            final(self).upstream_gates@[idx as int].2 == old(self).upstream_gates@[idx as int].2
                - 1,
            forall|j: int|
                0 <= j < old(self).upstream_gates@.len() && j != idx
                    ==> (#[trigger] final(self).upstream_gates@[j]) == old(
                    self,
                ).upstream_gates@[j],
    {
        let key_owned = self.upstream_gates[idx].0.clone();
        let gate_limit = self.upstream_gates[idx].1;
        let gate_inflight = self.upstream_gates[idx].2;
        self.upstream_gates[idx] = (key_owned, gate_limit, gate_inflight - 1);
    }
}

/// Permit balance: taking one permit from a gate and then handing it
/// back leaves every gate count as it was.
pub proof fn lemma_permit_release_restores_counts(counts: Seq<int>, i: int)
    requires
        0 <= i < counts.len(),
    ensures
        counts.update(i, counts[i] + 1).update(
            i,
            counts.update(i, counts[i] + 1)[i] - 1,
        ) == counts,
{
    assert(counts.update(i, counts[i] + 1).update(
        i,
        counts.update(i, counts[i] + 1)[i] - 1,
    ) =~= counts);
}


} // verus!
