//! The library's model of an HTTP header map: an ordered list of
//! `(name, value)` pairs whose names are stored ASCII-lowercased, as the
//! HTTP layer normalizes them.
//!
//! `valid_header_name` and `valid_header_value` state exactly which
//! texts the HTTP types accept, so header construction can be decided
//! here and proved.

use crate::text::lower_seq;
use vstd::prelude::*;

verus! {

/// A character allowed in an HTTP header name (the HTTP token set).
pub open spec fn valid_name_char(c: char) -> bool {
    ('0' <= c && c <= '9') || ('a' <= c && c <= 'z') || ('A' <= c && c <= 'Z') || c == '!' || c
        == '#' || c == '$' || c == '%' || c == '&' || c == '\'' || c == '*' || c == '+' || c == '-'
        || c == '.' || c == '^' || c == '_' || c == '`' || c == '|' || c == '~'
}

/// A non-empty name of header-token characters.
pub open spec fn valid_header_name(s: Seq<char>) -> bool {
    s.len() > 0 && forall|i: int| 0 <= i < s.len() ==> valid_name_char(#[trigger] s[i])
}

/// A character allowed in an HTTP header value: tab or anything at or
/// above space except delete.
pub open spec fn valid_value_char(c: char) -> bool {
    c == '\t' || (c >= ' ' && c != '\u{7f}')
}

pub open spec fn valid_header_value(s: Seq<char>) -> bool {
    forall|i: int| 0 <= i < s.len() ==> valid_value_char(#[trigger] s[i])
}

pub fn is_valid_header_name(s: &str) -> (r: bool)
    ensures
        r == valid_header_name(s@),
{
    let n = s.unicode_len();
    if n == 0 {
        return false;
    }
    let mut i: usize = 0;
    while i < n
        invariant
            n == s@.len(),
            i <= n,
            forall|j: int| 0 <= j < i ==> valid_name_char(#[trigger] s@[j]),
        decreases n - i,
    {
        let c = s.get_char(i);
        let ok = ('0' <= c && c <= '9') || ('a' <= c && c <= 'z') || ('A' <= c && c <= 'Z') || c
            == '!' || c == '#' || c == '$' || c == '%' || c == '&' || c == '\'' || c == '*' || c
            == '+' || c == '-' || c == '.' || c == '^' || c == '_' || c == '`' || c == '|' || c
            == '~';
        if !ok {
            return false;
        }
        i = i + 1;
    }
    true
}

pub fn is_valid_header_value(s: &str) -> (r: bool)
    ensures
        r == valid_header_value(s@),
{
    let n = s.unicode_len();
    let mut i: usize = 0;
    while i < n
        invariant
            n == s@.len(),
            i <= n,
            forall|j: int| 0 <= j < i ==> valid_value_char(#[trigger] s@[j]),
        decreases n - i,
    {
        let c = s.get_char(i);
        if !(c == '\t' || (c >= ' ' && c != '\u{7f}')) {
            return false;
        }
        i = i + 1;
    }
    true
}

/// The first value stored under `lname` (an already-lowercased name).
pub open spec fn spec_lookup(entries: Seq<(String, String)>, lname: Seq<char>) -> Option<
    Seq<char>,
>
    decreases entries.len(),
{
    if entries.len() == 0 {
        None
    } else if entries[0].0@ == lname {
        Some(entries[0].1@)
    } else {
        spec_lookup(entries.subrange(1, entries.len() as int), lname)
    }
}

/// Some entry is stored under `lname`.
pub open spec fn spec_has(entries: Seq<(String, String)>, lname: Seq<char>) -> bool {
    exists|i: int| 0 <= i < entries.len() && (#[trigger] entries[i].0)@ == lname
}

proof fn lemma_lookup_has(entries: Seq<(String, String)>, lname: Seq<char>)
    ensures
        spec_lookup(entries, lname) is Some <==> spec_has(entries, lname),
    decreases entries.len(),
{
    if entries.len() > 0 {
        let rest = entries.subrange(1, entries.len() as int);
        lemma_lookup_has(rest, lname);
        if entries[0].0@ == lname {
            assert(spec_has(entries, lname));
        } else {
            if spec_has(rest, lname) {
                let i = choose|i: int| 0 <= i < rest.len() && (#[trigger] rest[i].0)@ == lname;
                assert(entries[i + 1].0@ == lname);
            }
            if spec_has(entries, lname) {
                let i = choose|i: int|
                    0 <= i < entries.len() && (#[trigger] entries[i].0)@ == lname;
                assert(rest[i - 1].0@ == lname);
            }
        }
    }
}

/// The entries that survive removing the (already-lowercased) name
/// `lname`: every other entry, in order.
pub open spec fn drop_name(entries: Seq<(String, String)>, lname: Seq<char>) -> Seq<
    (String, String),
>
    decreases entries.len(),
{
    if entries.len() == 0 {
        Seq::empty()
    } else {
        let rest = drop_name(entries.drop_last(), lname);
        if entries.last().0@ == lname {
            rest
        } else {
            rest.push(entries.last())
        }
    }
}

/// Every surviving entry was among the entries before the removal.
proof fn lemma_drop_name_within(entries: Seq<(String, String)>, lname: Seq<char>)
    ensures
        forall|i: int|
            0 <= i < drop_name(entries, lname).len() ==> exists|j: int|
                0 <= j < entries.len() && entries[j] == #[trigger] drop_name(entries, lname)[i],
    decreases entries.len(),
{
    if entries.len() > 0 {
        let prev = entries.drop_last();
        lemma_drop_name_within(prev, lname);
        let rest = drop_name(prev, lname);
        assert forall|i: int| 0 <= i < drop_name(entries, lname).len() implies exists|j: int|
            0 <= j < entries.len() && entries[j] == #[trigger] drop_name(entries, lname)[i] by {
            if i < rest.len() {
                let j = choose|j: int| 0 <= j < prev.len() && prev[j] == rest[i];
                assert(entries[j] == drop_name(entries, lname)[i]);
            } else {
                assert(drop_name(entries, lname)[i] == entries.last());
                assert(entries[entries.len() - 1] == drop_name(entries, lname)[i]);
            }
        }
    }
}

/// An ordered header map with lowercased names.
pub struct HeaderTable {
    pub entries: Vec<(String, String)>,
}

impl HeaderTable {
    /// All stored names are lowercase.
    pub open spec fn wf(self) -> bool {
        forall|i: int|
            0 <= i < self.entries@.len() ==> (#[trigger] self.entries@[i].0)@ == lower_seq(
                self.entries@[i].0@,
            )
    }

    pub fn new() -> (r: HeaderTable)
        ensures
            r.entries@.len() == 0,
            r.wf(),
    {
        HeaderTable { entries: Vec::new() }
    }

    pub fn len(&self) -> (r: usize)
        ensures
            r == self.entries@.len(),
    {
        self.entries.len()
    }

    pub fn name_at(&self, i: usize) -> (r: &String)
        requires
            i < self.entries@.len(),
        ensures
            r@ == self.entries@[i as int].0@,
    {
        &self.entries[i].0
    }

    pub fn value_at(&self, i: usize) -> (r: &String)
        requires
            i < self.entries@.len(),
        ensures
            r@ == self.entries@[i as int].1@,
    {
        &self.entries[i].1
    }

    /// Field-for-field copy.
    pub fn duplicate(&self) -> (r: HeaderTable)
        ensures
            r.entries@ == self.entries@,
    {
        let n = self.entries.len();
        let mut entries: Vec<(String, String)> = Vec::new();
        let mut i: usize = 0;
        while i < n
            invariant
                n == self.entries@.len(),
                i <= n,
                entries@ == self.entries@.subrange(0, i as int),
            decreases n - i,
        {
            entries.push((self.entries[i].0.clone(), self.entries[i].1.clone()));
            proof {
                assert(entries@ =~= self.entries@.subrange(0, i + 1));
            }
            i = i + 1;
        }
        proof {
            assert(entries@ =~= self.entries@);
        }
        HeaderTable { entries }
    }

    /// Appends an entry; the stored name is the lowercased `name`.
    pub fn add(&mut self, name: &str, value: &str)
        ensures
            final(self).entries@.len() == old(self).entries@.len() + 1,
            final(self).entries@.subrange(0, old(self).entries@.len() as int) == old(
                self,
            ).entries@,
            final(self).entries@.last().0@ == lower_seq(name@),
            final(self).entries@.last().1@ == value@,
            old(self).wf() ==> final(self).wf(),
    {
        let lname = crate::text::to_lowercase(name);
        proof {
            assert(lower_seq(lower_seq(name@)) =~= lower_seq(name@));
        }
        self.entries.push((lname, String::from_str(value)));
        proof {
            assert(final(self).entries@.subrange(0, old(self).entries@.len() as int) =~= old(
                self,
            ).entries@);
        }
    }

    /// The first value under the (case-insensitive) name.
    pub fn get<'a>(&'a self, name: &str) -> (r: Option<&'a String>)
        ensures
            match r {
                Some(v) => spec_lookup(self.entries@, lower_seq(name@)) == Some(v@),
                None => spec_lookup(self.entries@, lower_seq(name@)) is None,
            },
    {
        let lname = crate::text::to_lowercase(name);
        let n = self.entries.len();
        proof {
            assert(self.entries@.subrange(0, n as int) =~= self.entries@);
        }
        let mut i: usize = 0;
        while i < n
            invariant
                n == self.entries@.len(),
                i <= n,
                lname@ == lower_seq(name@),
                spec_lookup(self.entries@, lname@) == spec_lookup(
                    self.entries@.subrange(i as int, n as int),
                    lname@,
                ),
            decreases n - i,
        {
            let ghost pre = self.entries@.subrange(i as int, n as int);
            if crate::text::str_eq(self.entries[i].0.as_str(), lname.as_str()) {
                proof {
                    assert(pre[0] == self.entries@[i as int]);
                }
                return Some(&self.entries[i].1);
            }
            proof {
                assert(pre[0] == self.entries@[i as int]);
                assert(pre.subrange(1, pre.len() as int) =~= self.entries@.subrange(
                    i + 1,
                    n as int,
                ));
            }
            i = i + 1;
        }
        proof {
            assert(self.entries@.subrange(n as int, n as int).len() == 0);
        }
        None
    }

    /// Some entry is stored under the (case-insensitive) name.
    pub fn contains(&self, name: &str) -> (r: bool)
        ensures
            r == spec_has(self.entries@, lower_seq(name@)),
    {
        proof {
            lemma_lookup_has(self.entries@, lower_seq(name@));
        }
        self.get(name).is_some()
    }

    /// Removes every entry under the (case-insensitive) name, keeping
    /// the others in order.
    pub fn remove(&mut self, name: &str)
        ensures
            final(self).entries@ == drop_name(old(self).entries@, lower_seq(name@)),
            old(self).wf() ==> final(self).wf(),
    {
        let lname = crate::text::to_lowercase(name);
        let ghost orig = self.entries@;
        let n = self.entries.len();
        let mut kept: Vec<(String, String)> = Vec::new();
        let mut i: usize = 0;
        proof {
            assert(orig.subrange(0, 0) =~= Seq::<(String, String)>::empty());
        }
        while i < n
            invariant
                n == orig.len(),
                orig == self.entries@,
                i <= n,
                lname@ == lower_seq(name@),
                kept@ == drop_name(orig.subrange(0, i as int), lname@),
            decreases n - i,
        {
            let ghost prev = orig.subrange(0, i as int);
            let ghost cur = orig.subrange(0, i + 1);
            proof {
                assert(cur.drop_last() =~= prev);
                assert(cur.last() == orig[i as int]);
            }
            if !crate::text::str_eq(self.entries[i].0.as_str(), lname.as_str()) {
                kept.push((self.entries[i].0.clone(), self.entries[i].1.clone()));
                proof {
                    assert(kept@ =~= drop_name(cur, lname@));
                }
            } else {
                proof {
                    assert(kept@ =~= drop_name(cur, lname@));
                }
            }
            i = i + 1;
        }
        proof {
            assert(orig.subrange(0, n as int) =~= orig);
            if old(self).wf() {
                lemma_drop_name_within(orig, lname@);
                assert forall|k: int| 0 <= k < kept@.len() implies (#[trigger] kept@[k].0)@
                    == lower_seq(kept@[k].0@) by {
                    let j = choose|j: int| 0 <= j < orig.len() && orig[j] == kept@[k];
                    assert(orig[j].0@ == lower_seq(orig[j].0@));
                }
            }
        }
        self.entries = kept;
    }

    /// Replace-or-insert: removes every entry under the name, then
    /// appends the new pair at the end.
    pub fn insert(&mut self, name: &str, value: &str)
        ensures
            ({
                let remaining = drop_name(old(self).entries@, lower_seq(name@));
                &&& final(self).entries@.len() == remaining.len() + 1
                &&& final(self).entries@.subrange(0, remaining.len() as int) == remaining
                &&& final(self).entries@.last().0@ == lower_seq(name@)
                &&& final(self).entries@.last().1@ == value@
            }),
            old(self).wf() ==> final(self).wf(),
    {
        self.remove(name);
        self.add(name, value);
    }
}


/// Nothing under `lname` survives its removal.
pub proof fn lemma_drop_name_free(entries: Seq<(String, String)>, lname: Seq<char>)
    ensures
        forall|i: int|
            0 <= i < drop_name(entries, lname).len() ==> (#[trigger] drop_name(entries, lname)[
                i]).0@ != lname,
    decreases entries.len(),
{
    if entries.len() > 0 {
        let prev = entries.drop_last();
        lemma_drop_name_free(prev, lname);
        let rest = drop_name(prev, lname);
        if entries.last().0@ != lname {
            assert(forall|i: int|
                0 <= i < rest.len() ==> drop_name(entries, lname)[i] == #[trigger] rest[i]);
            assert(drop_name(entries, lname).last() == entries.last());
        }
    }
}

/// When only the last entry carries `lname`, the lookup finds it.
pub proof fn lemma_lookup_last(entries: Seq<(String, String)>, lname: Seq<char>)
    requires
        entries.len() > 0,
        entries.last().0@ == lname,
        forall|i: int| 0 <= i < entries.len() - 1 ==> (#[trigger] entries[i]).0@ != lname,
    ensures
        spec_lookup(entries, lname) == Some(entries.last().1@),
    decreases entries.len(),
{
    if entries.len() > 1 {
        let rest = entries.subrange(1, entries.len() as int);
        assert(forall|i: int| 0 <= i < rest.len() ==> rest[i] == entries[i + 1]);
        assert(rest.last() == entries.last());
        lemma_lookup_last(rest, lname);
    }
}


} // verus!
