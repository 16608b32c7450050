//! The forwarding core: longest-prefix route matching, path rewriting,
//! upstream URL construction, and the header pipeline that scrubs and
//! injects headers on the way to the upstream.

use crate::config::{HeaderInjection, RouteConfig, UpstreamConfig};
use crate::headers::{
    drop_name, valid_header_name, valid_header_value, HeaderTable,
};
use crate::text::{is_prefix_of, lower_seq};
use vstd::prelude::*;

verus! {

#[derive(Debug, Clone)]
pub enum ProxyError {
    InvalidHeaderName(String),
    InvalidHeaderValue(String),
}

impl ProxyError {
    /// Human-readable description.
    pub fn message(&self) -> (r: String)
        ensures
            match self {
                ProxyError::InvalidHeaderName(name) => r@ == "invalid header name `"@ + name@
                    + "`"@,
                ProxyError::InvalidHeaderValue(value) => r@ == "invalid header value `"@ + value@
                    + "`"@,
            },
    {
        match self {
            ProxyError::InvalidHeaderName(name) => {
                let mut m = String::from_str("invalid header name `");
                m.append(name.as_str());
                m.append("`");
                m
            },
            ProxyError::InvalidHeaderValue(value) => {
                let mut m = String::from_str("invalid header value `");
                m.append(value.as_str());
                m.append("`");
                m
            },
        }
    }
}

/// The route-matching predicate: both sides must start with `/`; the
/// root prefix matches everything; otherwise the prefix must be
/// followed in the path by nothing or by a `/`, so `/openai` never
/// matches `/openai2`.
pub open spec fn spec_path_matches_prefix(path: Seq<char>, prefix: Seq<char>) -> bool {
    if !(path.len() > 0 && path[0] == '/') || !(prefix.len() > 0 && prefix[0] == '/') {
        false
    } else if prefix.len() == 1 {
        true
    } else if !is_prefix_of(prefix, path) {
        false
    } else if path.len() == prefix.len() {
        true
    } else {
        path[prefix.len() as int] == '/'
    }
}

/// Whether `prefix` matches `path` under the route-matching predicate.
pub fn path_matches_prefix(path: &str, prefix: &str) -> (r: bool)
    ensures
        r == spec_path_matches_prefix(path@, prefix@),
{
    let np = path.unicode_len();
    let nf = prefix.unicode_len();
    if np == 0 || path.get_char(0) != '/' || nf == 0 || prefix.get_char(0) != '/' {
        return false;
    }
    if nf == 1 {
        return true;
    }
    if !crate::text::starts_with(path, prefix) {
        return false;
    }
    if np == nf {
        return true;
    }
    path.get_char(nf) == '/'
}

/// The chosen route index: the longest matching prefix, the later entry
/// winning ties.
pub open spec fn spec_match_route(path: Seq<char>, routes: Seq<RouteConfig>) -> Option<int>
    decreases routes.len(),
{
    if routes.len() == 0 {
        None
    } else {
        let rest = spec_match_route(path, routes.drop_last());
        let last = routes.len() - 1;
        if spec_path_matches_prefix(path, routes.last().prefix@) {
            match rest {
                Some(i) => if routes[i].prefix@.len() > routes.last().prefix@.len() {
                    Some(i)
                } else {
                    Some(last)
                },
                None => Some(last),
            }
        } else {
            rest
        }
    }
}

/// The matched route has the longest matching prefix; when nothing is
/// returned, no route matches.
pub proof fn lemma_match_route_longest(path: Seq<char>, routes: Seq<RouteConfig>)
    ensures
        match spec_match_route(path, routes) {
            Some(k) => 0 <= k < routes.len() && spec_path_matches_prefix(path, routes[k].prefix@)
                && forall|i: int|
                0 <= i < routes.len() && spec_path_matches_prefix(
                    path,
                    (#[trigger] routes[i]).prefix@,
                ) ==> routes[i].prefix@.len() <= routes[k].prefix@.len(),
            None => forall|i: int|
                0 <= i < routes.len() ==> !spec_path_matches_prefix(
                    path,
                    (#[trigger] routes[i]).prefix@,
                ),
        },
    decreases routes.len(),
{
    if routes.len() > 0 {
        let prev = routes.drop_last();
        lemma_match_route_longest(path, prev);
        assert(forall|i: int| 0 <= i < prev.len() ==> prev[i] == routes[i]);
    }
}

/// The route with the longest matching prefix, input order breaking
/// ties toward the later entry.
pub fn match_route<'a>(path: &str, routes: &'a Vec<RouteConfig>) -> (r: Option<&'a RouteConfig>)
    ensures
        match r {
            Some(route) => spec_match_route(path@, routes@) matches Some(k) && 0 <= k
                < routes@.len() && *route == routes@[k],
            None => spec_match_route(path@, routes@) is None,
        },
{
    let n = routes.len();
    let mut best: Option<usize> = None;
    let mut best_len: usize = 0;
    let mut i: usize = 0;
    proof {
        assert(routes@.subrange(0, 0) =~= Seq::<RouteConfig>::empty());
    }
    while i < n
        invariant
            n == routes@.len(),
            i <= n,
            match best {
                Some(b) => b < i && spec_match_route(path@, routes@.subrange(0, i as int))
                    == Some(b as int) && best_len == routes@[b as int].prefix@.len(),
                None => spec_match_route(path@, routes@.subrange(0, i as int)) is None,
            },
        decreases n - i,
    {
        let ghost prev = routes@.subrange(0, i as int);
        let ghost cur = routes@.subrange(0, i + 1);
        proof {
            assert(cur.drop_last() =~= prev);
            assert(cur.last() == routes@[i as int]);
            assert(forall|j: int| 0 <= j < prev.len() ==> cur[j] == prev[j]);
        }
        if path_matches_prefix(path, routes[i].prefix.as_str()) {
            let plen = routes[i].prefix.as_str().unicode_len();
            match best {
                Some(_) => {
                    if !(best_len > plen) {
                        best = Some(i);
                        best_len = plen;
                    }
                },
                None => {
                    best = Some(i);
                    best_len = plen;
                },
            }
        }
        i = i + 1;
    }
    proof {
        assert(routes@.subrange(0, n as int) =~= routes@);
    }
    match best {
        Some(b) => Some(&routes[b]),
        None => None,
    }
}

/// A path made absolute: empty becomes `/`, a relative path gains a
/// leading `/`, an absolute path is kept.
pub open spec fn spec_normalize_path(p: Seq<char>) -> Seq<char> {
    if p.len() == 0 {
        seq!['/']
    } else if p[0] == '/' {
        p
    } else {
        seq!['/'] + p
    }
}

pub fn normalize_path(path: &str) -> (r: String)
    ensures
        r@ == spec_normalize_path(path@),
{
    let n = path.unicode_len();
    if n == 0 {
        let mut r = String::new();
        r.push('/');
        proof {
            assert(r@ =~= seq!['/']);
        }
        return r;
    }
    if path.get_char(0) == '/' {
        return String::from_str(path);
    }
    let mut r = String::new();
    r.push('/');
    r.append(path);
    proof {
        assert(r@ =~= seq!['/'] + path@);
    }
    r
}

/// The rewritten request path: with `strip_prefix` and a matching
/// non-root prefix the prefix is cut off, an empty remainder becoming
/// `/`; otherwise the path is only normalized.
pub open spec fn spec_rewrite_path(path: Seq<char>, prefix: Seq<char>, strip: bool) -> Seq<
    char,
> {
    if !strip {
        spec_normalize_path(path)
    } else if prefix =~= seq!['/'] {
        spec_normalize_path(path)
    } else if !spec_path_matches_prefix(path, prefix) {
        spec_normalize_path(path)
    } else {
        let rest = path.subrange(prefix.len() as int, path.len() as int);
        if rest.len() == 0 {
            seq!['/']
        } else {
            spec_normalize_path(rest)
        }
    }
}

pub fn rewrite_path(path: &str, prefix: &str, strip_prefix: bool) -> (r: String)
    ensures
        r@ == spec_rewrite_path(path@, prefix@, strip_prefix),
{
    if !strip_prefix {
        return normalize_path(path);
    }
    proof {
        reveal_strlit("/");
    }
    if crate::text::str_eq(prefix, "/") {
        proof {
            assert("/"@ =~= seq!['/']);
        }
        return normalize_path(path);
    }
    proof {
        assert("/"@ =~= seq!['/']);
    }
    if !path_matches_prefix(path, prefix) {
        return normalize_path(path);
    }
    let np = path.unicode_len();
    let nf = prefix.unicode_len();
    let rest = crate::text::substring(path, nf, np);
    if rest.as_str().unicode_len() == 0 {
        let mut r = String::new();
        r.push('/');
        proof {
            assert(r@ =~= seq!['/']);
        }
        return r;
    }
    normalize_path(rest.as_str())
}

/// The base URL with trailing slashes removed.
pub open spec fn trim_slashes_end(s: Seq<char>) -> Seq<char>
    decreases s.len(),
{
    if s.len() > 0 && s.last() == '/' {
        trim_slashes_end(s.drop_last())
    } else {
        s
    }
}

pub(crate) proof fn lemma_trim_slashes_at(s: Seq<char>, i: int)
    requires
        0 <= i <= s.len(),
        forall|j: int| i <= j < s.len() ==> s[j] == '/',
        i > 0 ==> s[i - 1] != '/',
    ensures
        trim_slashes_end(s) == s.subrange(0, i),
    decreases s.len() - i,
{
    if i == s.len() {
        if s.len() == 0 || s.last() != '/' {
            assert(s =~= s.subrange(0, i));
        } else {
            let t = s.drop_last();
            assert(t =~= s.subrange(0, s.len() - 1));
            lemma_trim_slashes_at(t, t.len() as int);
            assert(t.subrange(0, t.len() as int) =~= t);
            assert(t =~= s.subrange(0, i));
        }
    } else {
        assert(s.last() == '/');
        let t = s.drop_last();
        assert(t =~= s.subrange(0, s.len() - 1));
        assert(forall|j: int| i <= j < t.len() ==> t[j] == '/');
        lemma_trim_slashes_at(t, i);
        assert(t.subrange(0, i) =~= s.subrange(0, i));
    }
}

/// The upstream URL: the base with trailing slashes cut, then the
/// normalized rest path, then `?` and the query when one is present
/// and non-empty.
pub open spec fn spec_build_upstream_url(
    base: Seq<char>,
    rest: Seq<char>,
    query: Option<Seq<char>>,
) -> Seq<char> {
    let stem = trim_slashes_end(base) + spec_normalize_path(rest);
    match query {
        Some(q) => if q.len() > 0 {
            stem + seq!['?'] + q
        } else {
            stem
        },
        None => stem,
    }
}

pub fn build_upstream_url(base_url: &str, rest_path: &str, query: Option<&str>) -> (r: String)
    ensures
        r@ == spec_build_upstream_url(
            base_url@,
            rest_path@,
            match query {
                Some(q) => Some(q@),
                None => None,
            },
        ),
{
    let n = base_url.unicode_len();
    let mut end: usize = n;
    while end > 0 && base_url.get_char(end - 1) == '/'
        invariant
            n == base_url@.len(),
            end <= n,
            forall|j: int| end <= j < n ==> base_url@[j] == '/',
        decreases end,
    {
        end = end - 1;
    }
    proof {
        lemma_trim_slashes_at(base_url@, end as int);
    }
    let mut url = crate::text::substring(base_url, 0, end);
    let rest = normalize_path(rest_path);
    url.append(rest.as_str());
    match query {
        Some(q) => {
            if q.unicode_len() > 0 {
                url.push('?');
                url.append(q);
                proof {
                    assert(url@ =~= trim_slashes_end(base_url@) + spec_normalize_path(rest_path@)
                        + seq!['?'] + q@);
                }
            }
        },
        None => {},
    }
    url
}

/// The upstream URL for a route, when the route's prefix matches the
/// request path.
pub fn build_upstream_url_for_route(
    route: &RouteConfig,
    request_path: &str,
    query: Option<&str>,
) -> (r: Option<String>)
    ensures
        match r {
            Some(url) => spec_path_matches_prefix(request_path@, route.prefix@) && url@
                == spec_build_upstream_url(
                route.upstream.base_url@,
                spec_rewrite_path(request_path@, route.prefix@, route.upstream.strip_prefix),
                match query {
                    Some(q) => Some(q@),
                    None => None,
                },
            ),
            None => !spec_path_matches_prefix(request_path@, route.prefix@),
        },
{
    if !path_matches_prefix(request_path, route.prefix.as_str()) {
        return None;
    }
    let rest = rewrite_path(request_path, route.prefix.as_str(), route.upstream.strip_prefix);
    Some(build_upstream_url(route.upstream.base_url.as_str(), rest.as_str(), query))
}

/// The view of a header table: names and values as character sequences.
pub open spec fn header_view(entries: Seq<(String, String)>) -> Seq<(Seq<char>, Seq<char>)> {
    entries.map_values(|e: (String, String)| (e.0@, e.1@))
}

/// Removing a (lowercased) name at the view level.
pub open spec fn drop_name_v(h: Seq<(Seq<char>, Seq<char>)>, lname: Seq<char>) -> Seq<
    (Seq<char>, Seq<char>),
>
    decreases h.len(),
{
    if h.len() == 0 {
        Seq::empty()
    } else {
        let rest = drop_name_v(h.drop_last(), lname);
        if h.last().0 == lname {
            rest
        } else {
            rest.push(h.last())
        }
    }
}

/// Replace-or-insert at the view level.
pub open spec fn insert_v(
    h: Seq<(Seq<char>, Seq<char>)>,
    lname: Seq<char>,
    value: Seq<char>,
) -> Seq<(Seq<char>, Seq<char>)> {
    drop_name_v(h, lname).push((lname, value))
}

proof fn lemma_view_drop_name(entries: Seq<(String, String)>, lname: Seq<char>)
    ensures
        header_view(drop_name(entries, lname)) == drop_name_v(header_view(entries), lname),
    decreases entries.len(),
{
    if entries.len() == 0 {
        assert(header_view(entries) =~= Seq::<(Seq<char>, Seq<char>)>::empty());
        assert(header_view(drop_name(entries, lname)) =~= drop_name_v(
            header_view(entries),
            lname,
        ));
    } else {
        let prev = entries.drop_last();
        lemma_view_drop_name(prev, lname);
        assert(header_view(prev) =~= header_view(entries).drop_last());
        if entries.last().0@ == lname {
            assert(header_view(drop_name(entries, lname)) =~= drop_name_v(
                header_view(entries),
                lname,
            ));
        } else {
            assert(header_view(drop_name(entries, lname)) =~= header_view(
                drop_name(prev, lname),
            ).push((entries.last().0@, entries.last().1@)));
            assert(header_view(drop_name(entries, lname)) =~= drop_name_v(
                header_view(entries),
                lname,
            ));
        }
    }
}

/// The hop-by-hop header names, dropped from every forwarded message.
pub open spec fn spec_drop_hop_v(h: Seq<(Seq<char>, Seq<char>)>) -> Seq<(Seq<char>, Seq<char>)> {
    let h1 = drop_name_v(h, lower_seq("connection"@));
    let h2 = drop_name_v(h1, lower_seq("keep-alive"@));
    let h3 = drop_name_v(h2, lower_seq("proxy-authenticate"@));
    let h4 = drop_name_v(h3, lower_seq("proxy-authorization"@));
    let h5 = drop_name_v(h4, lower_seq("te"@));
    let h6 = drop_name_v(h5, lower_seq("trailer"@));
    let h7 = drop_name_v(h6, lower_seq("transfer-encoding"@));
    drop_name_v(h7, lower_seq("upgrade"@))
}

/// The caller-IP header names, dropped unless `forward_xff` is set.
pub open spec fn spec_drop_ip_v(h: Seq<(Seq<char>, Seq<char>)>) -> Seq<(Seq<char>, Seq<char>)> {
    let h1 = drop_name_v(h, lower_seq("x-forwarded-for"@));
    let h2 = drop_name_v(h1, lower_seq("forwarded"@));
    let h3 = drop_name_v(h2, lower_seq("cf-connecting-ip"@));
    let h4 = drop_name_v(h3, lower_seq("true-client-ip"@));
    drop_name_v(h4, lower_seq("x-real-ip"@))
}

/// The route's `remove_headers` applied in order; an entry that is not
/// a valid header name removes nothing.
pub open spec fn spec_remove_custom_v(
    h: Seq<(Seq<char>, Seq<char>)>,
    names: Seq<String>,
) -> Seq<(Seq<char>, Seq<char>)>
    decreases names.len(),
{
    if names.len() == 0 {
        h
    } else {
        let h1 = if valid_header_name(names[0]@) {
            drop_name_v(h, lower_seq(names[0]@))
        } else {
            h
        };
        spec_remove_custom_v(h1, names.subrange(1, names.len() as int))
    }
}

/// The outcome of applying the route's header injections.
pub enum SpecInjection {
    Done(Seq<(Seq<char>, Seq<char>)>),
    BadName(Seq<char>),
    BadValue(Seq<char>),
}

/// `inject_headers` applied in order as replace-or-insert; the first
/// invalid name or value stops the pipeline.
pub open spec fn spec_inject_v(
    h: Seq<(Seq<char>, Seq<char>)>,
    inj: Seq<HeaderInjection>,
) -> SpecInjection
    decreases inj.len(),
{
    if inj.len() == 0 {
        SpecInjection::Done(h)
    } else {
        let hd = inj[0];
        if !valid_header_name(hd.name@) {
            SpecInjection::BadName(hd.name@)
        } else if !valid_header_value(hd.value@) {
            SpecInjection::BadValue(hd.value@)
        } else {
            spec_inject_v(
                insert_v(h, lower_seq(hd.name@), hd.value@),
                inj.subrange(1, inj.len() as int),
            )
        }
    }
}

/// The whole outbound pipeline: hop-by-hop scrub, configured removals,
/// caller-IP scrub unless forwarded, ordered injection, and the `host`
/// header dropped at the end.
pub open spec fn spec_prepare_headers(
    h: Seq<(Seq<char>, Seq<char>)>,
    upstream: UpstreamConfig,
) -> SpecInjection {
    let h1 = spec_drop_hop_v(h);
    let h2 = spec_remove_custom_v(h1, upstream.remove_headers@);
    let h3 = if upstream.forward_xff {
        h2
    } else {
        spec_drop_ip_v(h2)
    };
    match spec_inject_v(h3, upstream.inject_headers@) {
        SpecInjection::Done(h4) => SpecInjection::Done(drop_name_v(h4, lower_seq("host"@))),
        other => other,
    }
}

fn remove_hop_headers(headers: &mut HeaderTable)
    ensures
        header_view(final(headers).entries@) == spec_drop_hop_v(header_view(old(headers).entries@)),
        old(headers).wf() ==> final(headers).wf(),
{
    let ghost h0 = header_view(headers.entries@);
    let ghost e0 = headers.entries@;
    headers.remove("connection");
    proof {
        lemma_view_drop_name(e0, lower_seq("connection"@));
    }
    let ghost e1 = headers.entries@;
    headers.remove("keep-alive");
    proof {
        lemma_view_drop_name(e1, lower_seq("keep-alive"@));
    }
    let ghost e2 = headers.entries@;
    headers.remove("proxy-authenticate");
    proof {
        lemma_view_drop_name(e2, lower_seq("proxy-authenticate"@));
    }
    let ghost e3 = headers.entries@;
    headers.remove("proxy-authorization");
    proof {
        lemma_view_drop_name(e3, lower_seq("proxy-authorization"@));
    }
    let ghost e4 = headers.entries@;
    headers.remove("te");
    proof {
        lemma_view_drop_name(e4, lower_seq("te"@));
    }
    let ghost e5 = headers.entries@;
    headers.remove("trailer");
    proof {
        lemma_view_drop_name(e5, lower_seq("trailer"@));
    }
    let ghost e6 = headers.entries@;
    headers.remove("transfer-encoding");
    proof {
        lemma_view_drop_name(e6, lower_seq("transfer-encoding"@));
    }
    let ghost e7 = headers.entries@;
    headers.remove("upgrade");
    proof {
        lemma_view_drop_name(e7, lower_seq("upgrade"@));
    }
}

fn remove_ip_headers(headers: &mut HeaderTable)
    ensures
        header_view(final(headers).entries@) == spec_drop_ip_v(header_view(old(headers).entries@)),
        old(headers).wf() ==> final(headers).wf(),
{
    let ghost e0 = headers.entries@;
    headers.remove("x-forwarded-for");
    proof {
        lemma_view_drop_name(e0, lower_seq("x-forwarded-for"@));
    }
    let ghost e1 = headers.entries@;
    headers.remove("forwarded");
    proof {
        lemma_view_drop_name(e1, lower_seq("forwarded"@));
    }
    let ghost e2 = headers.entries@;
    headers.remove("cf-connecting-ip");
    proof {
        lemma_view_drop_name(e2, lower_seq("cf-connecting-ip"@));
    }
    let ghost e3 = headers.entries@;
    headers.remove("true-client-ip");
    proof {
        lemma_view_drop_name(e3, lower_seq("true-client-ip"@));
    }
    let ghost e4 = headers.entries@;
    headers.remove("x-real-ip");
    proof {
        lemma_view_drop_name(e4, lower_seq("x-real-ip"@));
    }
}

/// The outbound header map for a request, per the route's upstream
/// policy; fails on an injection whose name or value the HTTP types
/// would refuse.
pub fn prepare_upstream_headers(inbound: &HeaderTable, upstream: &UpstreamConfig) -> (r: Result<
    HeaderTable,
    ProxyError,
>)
    requires
        inbound.wf(),
    ensures
        match spec_prepare_headers(header_view(inbound.entries@), *upstream) {
            SpecInjection::Done(h) => r matches Ok(out) && header_view(out.entries@) == h
                && out.wf(),
            SpecInjection::BadName(n) => r matches Err(e) && (e matches
                ProxyError::InvalidHeaderName(s) && s@ == n),
            SpecInjection::BadValue(v) => r matches Err(e) && (e matches
                ProxyError::InvalidHeaderValue(s) && s@ == v),
        },
{
    let mut outbound = inbound.duplicate();
    remove_hop_headers(&mut outbound);

    let ghost h1 = header_view(outbound.entries@);
    let nrm = upstream.remove_headers.len();
    let mut i: usize = 0;
    proof {
        assert(upstream.remove_headers@.subrange(0, nrm as int) =~= upstream.remove_headers@);
    }
    while i < nrm
        invariant
            nrm == upstream.remove_headers@.len(),
            i <= nrm,
            outbound.wf(),
            spec_remove_custom_v(h1, upstream.remove_headers@) == spec_remove_custom_v(
                header_view(outbound.entries@),
                upstream.remove_headers@.subrange(i as int, nrm as int),
            ),
        decreases nrm - i,
    {
        let ghost pre = upstream.remove_headers@.subrange(i as int, nrm as int);
        proof {
            assert(pre[0] == upstream.remove_headers@[i as int]);
            assert(pre.subrange(1, pre.len() as int) =~= upstream.remove_headers@.subrange(
                i + 1,
                nrm as int,
            ));
        }
        let name = &upstream.remove_headers[i];
        if crate::headers::is_valid_header_name(name.as_str()) {
            let ghost e = outbound.entries@;
            outbound.remove(name.as_str());
            proof {
                lemma_view_drop_name(e, lower_seq(name@));
            }
        }
        i = i + 1;
    }
    proof {
        assert(upstream.remove_headers@.subrange(nrm as int, nrm as int).len() == 0);
    }
    let ghost h2 = header_view(outbound.entries@);
    assert(h2 == spec_remove_custom_v(h1, upstream.remove_headers@));

    if !upstream.forward_xff {
        remove_ip_headers(&mut outbound);
    }
    let ghost h3 = header_view(outbound.entries@);

    let ninj = upstream.inject_headers.len();
    let mut i: usize = 0;
    proof {
        assert(upstream.inject_headers@.subrange(0, ninj as int) =~= upstream.inject_headers@);
    }
    while i < ninj
        invariant
            ninj == upstream.inject_headers@.len(),
            i <= ninj,
            outbound.wf(),
            h1 == spec_drop_hop_v(header_view(inbound.entries@)),
            h2 == spec_remove_custom_v(h1, upstream.remove_headers@),
            h3 == if upstream.forward_xff {
                h2
            } else {
                spec_drop_ip_v(h2)
            },
            spec_inject_v(h3, upstream.inject_headers@) == spec_inject_v(
                header_view(outbound.entries@),
                upstream.inject_headers@.subrange(i as int, ninj as int),
            ),
        decreases ninj - i,
    {
        let ghost pre = upstream.inject_headers@.subrange(i as int, ninj as int);
        proof {
            assert(pre[0] == upstream.inject_headers@[i as int]);
            assert(pre.subrange(1, pre.len() as int) =~= upstream.inject_headers@.subrange(
                i + 1,
                ninj as int,
            ));
        }
        let header = &upstream.inject_headers[i];
        if !crate::headers::is_valid_header_name(header.name.as_str()) {
            return Err(ProxyError::InvalidHeaderName(header.name.clone()));
        }
        if !crate::headers::is_valid_header_value(header.value.as_str()) {
            return Err(ProxyError::InvalidHeaderValue(header.value.clone()));
        }
        let ghost e = outbound.entries@;
        outbound.insert(header.name.as_str(), header.value.as_str());
        proof {
            lemma_view_drop_name(e, lower_seq(header.name@));
            assert(header_view(outbound.entries@) =~= insert_v(
                header_view(e),
                lower_seq(header.name@),
                header.value@,
            ));
        }
        i = i + 1;
    }
    proof {
        assert(upstream.inject_headers@.subrange(ninj as int, ninj as int).len() == 0);
    }

    let ghost e = outbound.entries@;
    outbound.remove("host");
    proof {
        lemma_view_drop_name(e, lower_seq("host"@));
    }
    Ok(outbound)
}

/// Response headers handed downstream: the upstream's headers with the
/// hop-by-hop set removed.
pub fn sanitize_response_headers(upstream_headers: &HeaderTable) -> (r: HeaderTable)
    requires
        upstream_headers.wf(),
    ensures
        header_view(r.entries@) == spec_drop_hop_v(header_view(upstream_headers.entries@)),
        r.wf(),
{
    let mut headers = upstream_headers.duplicate();
    remove_hop_headers(&mut headers);
    headers
}


/// The index of the matched route, when one matches.
pub fn match_route_index(path: &str, routes: &Vec<RouteConfig>) -> (r: Option<usize>)
    ensures
        match r {
            Some(k) => spec_match_route(path@, routes@) == Some(k as int) && k < routes@.len(),
            None => spec_match_route(path@, routes@) is None,
        },
{
    let n = routes.len();
    let mut best: Option<usize> = None;
    let mut best_len: usize = 0;
    let mut i: usize = 0;
    proof {
        assert(routes@.subrange(0, 0) =~= Seq::<RouteConfig>::empty());
    }
    while i < n
        invariant
            n == routes@.len(),
            i <= n,
            match best {
                Some(b) => b < i && spec_match_route(path@, routes@.subrange(0, i as int))
                    == Some(b as int) && best_len == routes@[b as int].prefix@.len(),
                None => spec_match_route(path@, routes@.subrange(0, i as int)) is None,
            },
        decreases n - i,
    {
        let ghost prev = routes@.subrange(0, i as int);
        let ghost cur = routes@.subrange(0, i + 1);
        proof {
            assert(cur.drop_last() =~= prev);
            assert(cur.last() == routes@[i as int]);
            assert(forall|j: int| 0 <= j < prev.len() ==> cur[j] == prev[j]);
        }
        if path_matches_prefix(path, routes[i].prefix.as_str()) {
            let plen = routes[i].prefix.as_str().unicode_len();
            match best {
                Some(_) => {
                    if !(best_len > plen) {
                        best = Some(i);
                        best_len = plen;
                    }
                },
                None => {
                    best = Some(i);
                    best_len = plen;
                },
            }
        }
        i = i + 1;
    }
    proof {
        assert(routes@.subrange(0, n as int) =~= routes@);
    }
    best
}

/// Server-sent events: the `Content-Type` media type (before any `;`),
/// trimmed, equals `text/event-stream` in any case. A missing or other
/// content type is not SSE.
pub open spec fn spec_is_sse(h: Seq<(String, String)>) -> bool {
    match crate::headers::spec_lookup(h, lower_seq("content-type"@)) {
        Some(v) => {
            let cut = match crate::text::spec_find(v, ';', 0) {
                Some(k) => v.subrange(0, k as int),
                None => v,
            };
            lower_seq(crate::text::trim_seq(cut)) == lower_seq("text/event-stream"@)
        },
        None => false,
    }
}

pub fn is_sse_response(headers: &HeaderTable) -> (r: bool)
    ensures
        r == spec_is_sse(headers.entries@),
{
    let value = match headers.get("content-type") {
        Some(value) => value,
        None => {
            return false;
        },
    };
    let n = value.as_str().unicode_len();
    let cut = match crate::text::find_char(value.as_str(), ';', 0) {
        Some(k) => {
            proof {
                crate::text::lemma_spec_find_props(value@, ';', 0);
            }
            crate::text::substring(value.as_str(), 0, k)
        },
        None => value.clone(),
    };
    let trimmed = crate::text::trim(cut.as_str());
    crate::text::eq_ignore_case(trimmed.as_str(), "text/event-stream")
}

/// The deadline that bounds reading the response body: none for SSE,
/// the request deadline otherwise.
pub fn response_body_deadline(is_sse: bool, deadline_ms: u64) -> (r: Option<u64>)
    ensures
        is_sse ==> r is None,
        !is_sse ==> r == Some(deadline_ms),
{
    if is_sse {
        None
    } else {
        Some(deadline_ms)
    }
}

/// The error body shape every failure answer carries.
pub fn error_body(code: &str) -> (r: String)
    ensures
        r@ == "{\"error\":\""@ + code@ + "\"}"@,
{
    let mut r = String::from_str("{\"error\":\"");
    r.append(code);
    r.append("\"}");
    r
}



/// Stripping a matching non-root prefix leaves exactly the remainder:
/// for every well-formed prefix and every absolute remainder, the
/// rewritten path of `prefix + rest` is `rest`.
pub proof fn lemma_rewrite_path_strips(prefix: Seq<char>, rest: Seq<char>)
    requires
        prefix.len() > 1,
        prefix[0] == '/',
        prefix[prefix.len() - 1] != '/',
        rest.len() > 0,
        rest[0] == '/',
    ensures
        spec_rewrite_path(prefix + rest, prefix, true) == rest,
{
    let path = prefix + rest;
    assert(path[0] == '/');
    assert(path.subrange(0, prefix.len() as int) =~= prefix);
    assert(path[prefix.len() as int] == rest[0]);
    assert(spec_path_matches_prefix(path, prefix));
    assert(path.subrange(prefix.len() as int, path.len() as int) =~= rest);
    assert(spec_normalize_path(rest) == rest);
    assert(!(prefix =~= seq!['/']));
}

/// A path equal to a well-formed prefix rewrites to the root.
pub proof fn lemma_rewrite_path_exact(prefix: Seq<char>)
    requires
        prefix.len() > 0,
        prefix[0] == '/',
    ensures
        spec_rewrite_path(prefix, prefix, true) == seq!['/'],
{
    if prefix =~= seq!['/'] {
        assert(spec_normalize_path(prefix) =~= seq!['/']);
    } else {
        assert(prefix.subrange(0, prefix.len() as int) =~= prefix);
        assert(spec_path_matches_prefix(prefix, prefix));
        assert(prefix.subrange(prefix.len() as int, prefix.len() as int).len() == 0);
    }
}


} // verus!
