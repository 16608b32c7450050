//! Association lists keyed by strings, shared by the summary and
//! metrics state: a first-match lookup, and the facts about lookups
//! after an update or an append that the state transitions need.

use vstd::prelude::*;

verus! {

/// The first value stored under `key`.
pub open spec fn assoc<V>(m: Seq<(String, V)>, key: Seq<char>) -> Option<V>
    decreases m.len(),
{
    if m.len() == 0 {
        None
    } else if m[0].0@ == key {
        Some(m[0].1)
    } else {
        assoc(m.subrange(1, m.len() as int), key)
    }
}

/// Each key appears at most once.
pub open spec fn unique_keys<V>(m: Seq<(String, V)>) -> bool {
    forall|i: int, j: int|
        0 <= i < j < m.len() ==> (#[trigger] m[i]).0@ != (#[trigger] m[j]).0@
}

/// The index of the first entry under `key`, if any.
pub fn assoc_index<V>(m: &Vec<(String, V)>, key: &str) -> (r: Option<usize>)
    ensures
        match r {
            Some(i) => i < m@.len() && m@[i as int].0@ == key@ && forall|j: int|
                0 <= j < i ==> (#[trigger] m@[j]).0@ != key@,
            None => forall|j: int| 0 <= j < m@.len() ==> (#[trigger] m@[j]).0@ != key@,
        },
{
    let n = m.len();
    let mut i: usize = 0;
    while i < n
        invariant
            n == m@.len(),
            i <= n,
            forall|j: int| 0 <= j < i ==> (#[trigger] m@[j]).0@ != key@,
        decreases n - i,
    {
        if crate::text::str_eq(m[i].0.as_str(), key) {
            return Some(i);
        }
        i = i + 1;
    }
    None
}

/// The first match decides the lookup.
pub proof fn lemma_assoc_at<V>(m: Seq<(String, V)>, i: int)
    requires
        0 <= i < m.len(),
        forall|j: int| 0 <= j < i ==> (#[trigger] m[j]).0@ != m[i].0@,
    ensures
        assoc(m, m[i].0@) == Some(m[i].1),
    decreases i,
{
    if i > 0 {
        let rest = m.subrange(1, m.len() as int);
        assert(forall|j: int| 0 <= j < rest.len() ==> rest[j] == m[j + 1]);
        lemma_assoc_at(rest, i - 1);
    }
}

/// A key with no entry looks up to nothing.
pub proof fn lemma_assoc_absent<V>(m: Seq<(String, V)>, key: Seq<char>)
    requires
        forall|j: int| 0 <= j < m.len() ==> (#[trigger] m[j]).0@ != key,
    ensures
        assoc(m, key) is None,
    decreases m.len(),
{
    if m.len() > 0 {
        let rest = m.subrange(1, m.len() as int);
        assert(forall|j: int| 0 <= j < rest.len() ==> rest[j] == m[j + 1]);
        lemma_assoc_absent(rest, key);
    }
}

/// Updating the entry under a key changes that lookup and no other.
pub proof fn lemma_assoc_update<V>(m: Seq<(String, V)>, i: int, e: (String, V))
    requires
        unique_keys(m),
        0 <= i < m.len(),
        e.0@ == m[i].0@,
    ensures
        unique_keys(m.update(i, e)),
        assoc(m.update(i, e), e.0@) == Some(e.1),
        forall|k2: Seq<char>|
            k2 != e.0@ ==> #[trigger] assoc(m.update(i, e), k2) == assoc(m, k2),
    decreases m.len(),
{
    let updated = m.update(i, e);
    assert forall|a: int, b: int| 0 <= a < b < updated.len() implies (#[trigger] updated[a]).0@
        != (#[trigger] updated[b]).0@ by {
        assert(m[a].0@ == updated[a].0@);
        assert(m[b].0@ == updated[b].0@);
    }
    if i == 0 {
        assert(updated[0] == e);
        assert(updated.subrange(1, updated.len() as int) =~= m.subrange(1, m.len() as int));
        assert forall|k2: Seq<char>| k2 != e.0@ implies #[trigger] assoc(updated, k2) == assoc(
            m,
            k2,
        ) by {
            assert(assoc(updated, k2) == assoc(updated.subrange(1, updated.len() as int), k2));
            assert(assoc(m, k2) == assoc(m.subrange(1, m.len() as int), k2));
        }
    } else {
        let rest = m.subrange(1, m.len() as int);
        assert(forall|a: int| 0 <= a < rest.len() ==> rest[a] == m[a + 1]);
        assert(updated[0] == m[0]);
        assert(updated.subrange(1, updated.len() as int) =~= rest.update(i - 1, e));
        assert(rest[i - 1] == m[i]);
        lemma_assoc_update(rest, i - 1, e);
        assert(m[0].0@ != e.0@);
        assert(assoc(updated, e.0@) == assoc(rest.update(i - 1, e), e.0@));
        assert forall|k2: Seq<char>| k2 != e.0@ implies #[trigger] assoc(updated, k2) == assoc(
            m,
            k2,
        ) by {
            if m[0].0@ == k2 {
                assert(assoc(updated, k2) == Some(updated[0].1));
                assert(assoc(m, k2) == Some(m[0].1));
            } else {
                assert(assoc(updated, k2) == assoc(rest.update(i - 1, e), k2));
                assert(assoc(m, k2) == assoc(rest, k2));
            }
        }
    }
}

/// Appending a fresh key adds that lookup and changes no other.
pub proof fn lemma_assoc_push<V>(m: Seq<(String, V)>, e: (String, V))
    requires
        forall|j: int| 0 <= j < m.len() ==> (#[trigger] m[j]).0@ != e.0@,
    ensures
        unique_keys(m) ==> unique_keys(m.push(e)),
        assoc(m.push(e), e.0@) == Some(e.1),
        forall|k2: Seq<char>| k2 != e.0@ ==> #[trigger] assoc(m.push(e), k2) == assoc(m, k2),
    decreases m.len(),
{
    let pushed = m.push(e);
    if unique_keys(m) {
        assert forall|a: int, b: int| 0 <= a < b < pushed.len() implies (#[trigger] pushed[a]).0@
            != (#[trigger] pushed[b]).0@ by {
            if b < m.len() {
                assert(pushed[a] == m[a] && pushed[b] == m[b]);
            } else {
                assert(pushed[b] == e);
                assert(pushed[a] == m[a]);
            }
        }
    }
    if m.len() == 0 {
        assert(pushed[0] == e);
        assert(pushed.subrange(1, pushed.len() as int).len() == 0);
        assert forall|k2: Seq<char>| k2 != e.0@ implies #[trigger] assoc(pushed, k2) == assoc(
            m,
            k2,
        ) by {
            assert(assoc(pushed, k2) == assoc(pushed.subrange(1, pushed.len() as int), k2));
        }
    } else {
        let rest = m.subrange(1, m.len() as int);
        assert(forall|j: int| 0 <= j < rest.len() ==> rest[j] == m[j + 1]);
        assert(pushed[0] == m[0]);
        assert(pushed.subrange(1, pushed.len() as int) =~= rest.push(e));
        lemma_assoc_push(rest, e);
        assert(assoc(pushed, e.0@) == assoc(rest.push(e), e.0@));
        assert forall|k2: Seq<char>| k2 != e.0@ implies #[trigger] assoc(pushed, k2) == assoc(
            m,
            k2,
        ) by {
            if m[0].0@ == k2 {
            } else {
                assert(assoc(pushed, k2) == assoc(rest.push(e), k2));
                assert(assoc(m, k2) == assoc(rest, k2));
            }
        }
    }
}


/// A successful lookup names an entry; under unique keys, the entry.
pub proof fn lemma_assoc_index<V>(m: Seq<(String, V)>, key: Seq<char>)
    ensures
        match assoc(m, key) {
            Some(v) => exists|j: int|
                #![trigger m[j]]
                0 <= j < m.len() && m[j].0@ == key && m[j].1 == v,
            None => forall|j: int| 0 <= j < m.len() ==> (#[trigger] m[j]).0@ != key,
        },
    decreases m.len(),
{
    if m.len() > 0 {
        let rest = m.subrange(1, m.len() as int);
        assert(forall|j: int| 0 <= j < rest.len() ==> rest[j] == m[j + 1]);
        lemma_assoc_index(rest, key);
        if m[0].0@ == key {
            assert(0 <= 0 < m.len() && m[0].0@ == key && m[0].1 == m[0].1);
        } else {
            assert(assoc(m, key) == assoc(rest, key));
            match assoc(rest, key) {
                Some(v) => {
                    assert(exists|j: int|
                        #![trigger rest[j]]
                        0 <= j < rest.len() && rest[j].0@ == key && rest[j].1 == v);
                    let j = choose|j: int|
                        #![trigger rest[j]]
                        0 <= j < rest.len() && rest[j].0@ == key && rest[j].1 == v;
                    assert(0 <= j + 1 < m.len());
                    assert(m[j + 1].0@ == key && m[j + 1].1 == v);
                    assert(exists|j2: int|
                        #![trigger m[j2]]
                        0 <= j2 < m.len() && m[j2].0@ == key && m[j2].1 == v);
                },
                None => {
                    assert forall|j: int| 0 <= j < m.len() implies (#[trigger] m[j]).0@
                        != key by {
                        if j > 0 {
                            assert(rest[j - 1] == m[j]);
                        }
                    }
                },
            }
        }
    }
}


/// What inserting at a position does to membership.
pub proof fn lemma_insert_contains<A>(pre: Seq<A>, p: int, e: A)
    requires
        0 <= p <= pre.len(),
    ensures
        pre.insert(p, e).contains(e),
        forall|x: A| pre.contains(x) ==> #[trigger] pre.insert(p, e).contains(x),
        forall|x: A| #[trigger] pre.insert(p, e).contains(x) ==> x == e || pre.contains(x),
{
    pre.insert_ensures(p, e);
    let v = pre.insert(p, e);
    assert(v[p] == e);
    assert forall|x: A| pre.contains(x) implies #[trigger] v.contains(x) by {
        let j = choose|j: int| 0 <= j < pre.len() && pre[j] == x;
        if j < p {
            assert(v[j] == x);
        } else {
            assert(v[j + 1] == x);
        }
    }
    assert forall|x: A| #[trigger] v.contains(x) implies x == e || pre.contains(x) by {
        let j = choose|j: int| 0 <= j < v.len() && v[j] == x;
        if j < p {
            assert(pre[j] == x);
        } else if j > p {
            assert(pre[j - 1] == x);
        }
    }
}

} // verus!
