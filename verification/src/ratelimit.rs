//! The fixed-minute-window rate limiter, keyed by `(route, token)`.
//! The first observation of a new minute discards every counter; within
//! a minute each key may pass `per_minute` times.

use vstd::prelude::*;

verus! {

pub enum RateLimitDecision {
    Allowed,
    Rejected { retry_after_secs: u64 },
}

/// The count stored for `(route, token)`, `0` when absent. Counters are
/// scanned front to back; under `wf_counters` at most one entry holds
/// the key.
pub open spec fn spec_count(
    counters: Seq<(String, String, u64)>,
    route: Seq<char>,
    token: Seq<char>,
) -> u64
    decreases counters.len(),
{
    if counters.len() == 0 {
        0
    } else if counters[0].0@ == route && counters[0].1@ == token {
        counters[0].2
    } else {
        spec_count(counters.subrange(1, counters.len() as int), route, token)
    }
}

/// Each `(route, token)` key appears at most once.
pub open spec fn wf_counters(counters: Seq<(String, String, u64)>) -> bool {
    forall|i: int, j: int|
        0 <= i < j < counters.len() ==> !((#[trigger] counters[i]).0@ == (
        #[trigger] counters[j]).0@ && counters[i].1@ == counters[j].1@)
}

/// Seconds until the next minute boundary, always in `1..=60`.
pub open spec fn spec_retry_after(epoch_seconds: int) -> int {
    60 - epoch_seconds % 60
}

pub fn retry_after_seconds(epoch_seconds: u64) -> (r: u64)
    ensures
        r == spec_retry_after(epoch_seconds as int),
        1 <= r <= 60,
{
    let remaining = 60 - (epoch_seconds % 60);
    if remaining == 0 {
        60
    } else {
        remaining
    }
}

/// Relies on `std::time::SystemTime::now`: seconds since the Unix
/// epoch, `0` if the clock reads earlier than the epoch.
#[verifier::external_body]
pub fn current_epoch_seconds() -> u64 {
    std::time::SystemTime::now()
        .duration_since(std::time::UNIX_EPOCH)
        .map_or(0, |duration| duration.as_secs())
}

proof fn lemma_spec_count_update(
    counters: Seq<(String, String, u64)>,
    i: int,
    e: (String, String, u64),
)
    requires
        wf_counters(counters),
        0 <= i < counters.len(),
        e.0@ == counters[i].0@,
        e.1@ == counters[i].1@,
    ensures
        wf_counters(counters.update(i, e)),
        spec_count(counters.update(i, e), e.0@, e.1@) == e.2,
        forall|r2: Seq<char>, t2: Seq<char>|
            !(r2 == e.0@ && t2 == e.1@) ==> #[trigger] spec_count(counters.update(i, e), r2, t2)
                == spec_count(counters, r2, t2),
    decreases counters.len(),
{
    let updated = counters.update(i, e);
    assert forall|a: int, b: int| 0 <= a < b < updated.len() implies !((#[trigger] updated[a]).0@
        == (#[trigger] updated[b]).0@ && updated[a].1@ == updated[b].1@) by {
        assert(counters[a].0@ == updated[a].0@ && counters[a].1@ == updated[a].1@);
        assert(counters[b].0@ == updated[b].0@ && counters[b].1@ == updated[b].1@);
    }
    if i == 0 {
        assert(updated[0] == e);
        assert(updated.subrange(1, updated.len() as int) =~= counters.subrange(
            1,
            counters.len() as int,
        ));
        assert forall|r2: Seq<char>, t2: Seq<char>| !(r2 == e.0@ && t2 == e.1@) implies
            #[trigger] spec_count(updated, r2, t2) == spec_count(counters, r2, t2) by {
            assert(spec_count(updated, r2, t2) == spec_count(
                updated.subrange(1, updated.len() as int),
                r2,
                t2,
            ));
            assert(spec_count(counters, r2, t2) == spec_count(
                counters.subrange(1, counters.len() as int),
                r2,
                t2,
            ));
        }
    } else {
        let rest = counters.subrange(1, counters.len() as int);
        assert(updated[0] == counters[0]);
        assert(updated.subrange(1, updated.len() as int) =~= rest.update(i - 1, e));
        assert(forall|a: int, b: int|
            0 <= a < b < rest.len() ==> !((#[trigger] rest[a]).0@ == (#[trigger] rest[b]).0@
                && rest[a].1@ == rest[b].1@)) by {
            assert(forall|a: int| 0 <= a < rest.len() ==> rest[a] == counters[a + 1]);
        }
        assert(rest[i - 1] == counters[i]);
        lemma_spec_count_update(rest, i - 1, e);
        assert(!(counters[0].0@ == e.0@ && counters[0].1@ == e.1@));
        assert(spec_count(updated, e.0@, e.1@) == spec_count(rest.update(i - 1, e), e.0@, e.1@));
        assert forall|r2: Seq<char>, t2: Seq<char>| !(r2 == e.0@ && t2 == e.1@) implies
            #[trigger] spec_count(updated, r2, t2) == spec_count(counters, r2, t2) by {
            if counters[0].0@ == r2 && counters[0].1@ == t2 {
                assert(spec_count(updated, r2, t2) == updated[0].2);
                assert(spec_count(counters, r2, t2) == counters[0].2);
            } else {
                assert(spec_count(updated, r2, t2) == spec_count(rest.update(i - 1, e), r2, t2));
                assert(spec_count(counters, r2, t2) == spec_count(rest, r2, t2));
            }
        }
    }
}

proof fn lemma_spec_count_push(counters: Seq<(String, String, u64)>, e: (String, String, u64))
    requires
        wf_counters(counters),
        forall|i: int|
            0 <= i < counters.len() ==> !((#[trigger] counters[i]).0@ == e.0@ && counters[i].1@
                == e.1@),
    ensures
        wf_counters(counters.push(e)),
        spec_count(counters.push(e), e.0@, e.1@) == e.2,
        forall|r2: Seq<char>, t2: Seq<char>|
            !(r2 == e.0@ && t2 == e.1@) ==> #[trigger] spec_count(counters.push(e), r2, t2)
                == spec_count(counters, r2, t2),
    decreases counters.len(),
{
    let pushed = counters.push(e);
    assert forall|a: int, b: int| 0 <= a < b < pushed.len() implies !((#[trigger] pushed[a]).0@
        == (#[trigger] pushed[b]).0@ && pushed[a].1@ == pushed[b].1@) by {
        if b < counters.len() {
            assert(pushed[a] == counters[a] && pushed[b] == counters[b]);
        } else {
            assert(pushed[b] == e);
            assert(pushed[a] == counters[a]);
        }
    }
    if counters.len() == 0 {
        assert(pushed[0] == e);
        assert(pushed.subrange(1, pushed.len() as int).len() == 0);
        assert forall|r2: Seq<char>, t2: Seq<char>| !(r2 == e.0@ && t2 == e.1@) implies
            #[trigger] spec_count(pushed, r2, t2) == spec_count(counters, r2, t2) by {
            assert(spec_count(pushed, r2, t2) == spec_count(
                pushed.subrange(1, pushed.len() as int),
                r2,
                t2,
            ));
        }
    } else {
        let rest = counters.subrange(1, counters.len() as int);
        assert(forall|i: int| 0 <= i < rest.len() ==> rest[i] == counters[i + 1]);
        assert(pushed[0] == counters[0]);
        assert(pushed.subrange(1, pushed.len() as int) =~= rest.push(e));
        lemma_spec_count_push(rest, e);
        assert(spec_count(pushed, e.0@, e.1@) == spec_count(rest.push(e), e.0@, e.1@));
        assert forall|r2: Seq<char>, t2: Seq<char>| !(r2 == e.0@ && t2 == e.1@) implies
            #[trigger] spec_count(pushed, r2, t2) == spec_count(counters, r2, t2) by {
            if counters[0].0@ == r2 && counters[0].1@ == t2 {
                assert(spec_count(pushed, r2, t2) == pushed[0].2);
                assert(spec_count(counters, r2, t2) == counters[0].2);
            } else {
                assert(spec_count(pushed, r2, t2) == spec_count(rest.push(e), r2, t2));
                assert(spec_count(counters, r2, t2) == spec_count(rest, r2, t2));
            }
        }
    }
}


fn find_key(counters: &Vec<(String, String, u64)>, route_id: &str, token: &str) -> (r: Option<
    usize,
>)
    ensures
        match r {
            Some(i) => i < counters@.len() && counters@[i as int].0@ == route_id@
                && counters@[i as int].1@ == token@ && forall|j: int|
                0 <= j < i ==> !((#[trigger] counters@[j]).0@ == route_id@ && counters@[j].1@
                    == token@),
            None => forall|j: int|
                0 <= j < counters@.len() ==> !((#[trigger] counters@[j]).0@ == route_id@
                    && counters@[j].1@ == token@),
        },
{
    let n = counters.len();
    let mut i: usize = 0;
    while i < n
        invariant
            n == counters@.len(),
            i <= n,
            forall|j: int|
                0 <= j < i ==> !((#[trigger] counters@[j]).0@ == route_id@ && counters@[j].1@
                    == token@),
        decreases n - i,
    {
        if crate::text::str_eq(counters[i].0.as_str(), route_id) && crate::text::str_eq(
            counters[i].1.as_str(),
            token,
        ) {
            return Some(i);
        }
        i = i + 1;
    }
    None
}

pub struct RateLimiter {
    pub per_minute: u64,
    pub minute_bucket: u64,
    pub counters: Vec<(String, String, u64)>,
}

impl RateLimiter {
    pub open spec fn wf(self) -> bool {
        wf_counters(self.counters@)
    }

    /// A fresh limiter for the current minute, with no counts.
    pub fn new(per_minute: u64) -> (r: RateLimiter)
        ensures
            r.per_minute == per_minute,
            r.counters@.len() == 0,
            r.wf(),
    {
        RateLimiter {
            per_minute,
            minute_bucket: current_epoch_seconds() / 60,
            counters: Vec::new(),
        }
    }

    /// The decision at a given clock reading: rotating the window on a
    /// new minute, then allowing the key iff its count is still under
    /// `per_minute`, counting the allowance.
    pub fn check_at_epoch_seconds(
        &mut self,
        token: &str,
        route_id: &str,
        epoch_seconds: u64,
    ) -> (r: RateLimitDecision)
        requires
            old(self).wf(),
        ensures
            final(self).wf(),
            final(self).per_minute == old(self).per_minute,
            final(self).minute_bucket == epoch_seconds / 60,
            ({
                let base = if old(self).minute_bucket == epoch_seconds / 60 {
                    old(self).counters@
                } else {
                    Seq::<(String, String, u64)>::empty()
                };
                let count = spec_count(base, route_id@, token@);
                if count >= old(self).per_minute {
                    &&& r matches RateLimitDecision::Rejected { retry_after_secs }
                        && retry_after_secs == spec_retry_after(epoch_seconds as int)
                    &&& final(self).counters@ == base
                } else {
                    &&& r is Allowed
                    &&& spec_count(final(self).counters@, route_id@, token@) == count + 1
                    &&& forall|r2: Seq<char>, t2: Seq<char>|
                        !(r2 == route_id@ && t2 == token@) ==> #[trigger] spec_count(
                            final(self).counters@,
                            r2,
                            t2,
                        ) == spec_count(base, r2, t2)
                }
            }),
    {
        let minute_bucket = epoch_seconds / 60;
        if self.minute_bucket != minute_bucket {
            self.minute_bucket = minute_bucket;
            self.counters.clear();
        }
        let ghost base = self.counters@;
        let found = find_key(&self.counters, route_id, token);
        match found {
            Some(idx) => {
                proof {
                    assert(self.counters@[idx as int].0@ == route_id@);
                    lemma_spec_count_at(self.counters@, idx as int);
                }
                let count = self.counters[idx].2;
                if count >= self.per_minute {
                    return RateLimitDecision::Rejected {
                        retry_after_secs: retry_after_seconds(epoch_seconds),
                    };
                }
                let route_owned = self.counters[idx].0.clone();
                let token_owned = self.counters[idx].1.clone();
                let ghost pre = self.counters@;
                self.counters[idx] = (route_owned, token_owned, count + 1);
                proof {
                    lemma_spec_count_update(pre, idx as int, self.counters@[idx as int]);
                }
                RateLimitDecision::Allowed
            },
            None => {
                proof {
                    lemma_spec_count_absent(self.counters@, route_id@, token@);
                }
                if self.per_minute == 0 {
                    return RateLimitDecision::Rejected {
                        retry_after_secs: retry_after_seconds(epoch_seconds),
                    };
                }
                let ghost pre = self.counters@;
                self.counters.push((String::from_str(route_id), String::from_str(token), 1));
                proof {
                    lemma_spec_count_push(pre, self.counters@.last());
                }
                RateLimitDecision::Allowed
            },
        }
    }

    /// The decision at the current wall clock. Whatever the clock
    /// read, a rejection carries a `Retry-After` within the minute.
    pub fn check(&mut self, token: &str, route_id: &str) -> (r: RateLimitDecision)
        requires
            old(self).wf(),
        ensures
            final(self).wf(),
            final(self).per_minute == old(self).per_minute,
            r matches RateLimitDecision::Rejected { retry_after_secs } ==> 1 <= retry_after_secs
                <= 60,
    {
        let now = current_epoch_seconds();
        self.check_at_epoch_seconds(token, route_id, now)
    }
}

/// The first match decides the count.
proof fn lemma_spec_count_at(counters: Seq<(String, String, u64)>, i: int)
    requires
        wf_counters(counters),
        0 <= i < counters.len(),
        forall|j: int|
            0 <= j < i ==> !((#[trigger] counters[j]).0@ == counters[i].0@ && counters[j].1@
                == counters[i].1@),
    ensures
        spec_count(counters, counters[i].0@, counters[i].1@) == counters[i].2,
    decreases i,
{
    if i == 0 {
    } else {
        let rest = counters.subrange(1, counters.len() as int);
        assert(forall|j: int| 0 <= j < rest.len() ==> rest[j] == counters[j + 1]);
        assert(!(counters[0].0@ == counters[i].0@ && counters[0].1@ == counters[i].1@));
        lemma_spec_count_at(rest, i - 1);
    }
}

/// A key with no entry counts zero.
proof fn lemma_spec_count_absent(
    counters: Seq<(String, String, u64)>,
    route: Seq<char>,
    token: Seq<char>,
)
    requires
        forall|j: int|
            0 <= j < counters.len() ==> !((#[trigger] counters[j]).0@ == route && counters[j].1@
                == token),
    ensures
        spec_count(counters, route, token) == 0,
    decreases counters.len(),
{
    if counters.len() > 0 {
        let rest = counters.subrange(1, counters.len() as int);
        assert(forall|j: int| 0 <= j < rest.len() ==> rest[j] == counters[j + 1]);
        lemma_spec_count_absent(rest, route, token);
    }
}

} // verus!
