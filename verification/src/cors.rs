//! Cross-origin handling: origin resolution against the allow-list,
//! the preflight answer, and the headers appended to ordinary
//! responses.

use crate::config::CorsConfig;
use crate::headers::{spec_lookup, HeaderTable};
use crate::text::{contains_seq, lower_seq, trim_seq, upper_seq};
use vstd::prelude::*;

verus! {

/// The host (and non-default port) of an origin URL, as the HTTP
/// client's URL parser reads it.
pub uninterp spec fn origin_host_of(s: Seq<char>) -> Option<Seq<char>>;

/// Relies on `reqwest::Url::parse`, `Url::host_str` and `Url::port`:
/// the origin's host, with `:port` appended when the port is not the
/// scheme default. The outcome depends on the text alone.
#[verifier::external_body]
fn extract_origin_host(origin: &str) -> (r: Option<String>)
    ensures
        match r {
            Some(h) => origin_host_of(origin@) == Some(h@),
            None => origin_host_of(origin@) is None,
        },
{
    let parsed = match reqwest::Url::parse(origin) {
        Ok(parsed) => parsed,
        Err(_) => {
            return None;
        },
    };
    let host = parsed.host_str()?;
    Some(match parsed.port() {
        Some(port) => format!("{host}:{port}"),
        None => host.to_string(),
    })
}

/// The allow-list scan: the first entry that is `*`, matches the
/// trimmed origin case-insensitively, or (when it names no scheme)
/// matches the origin's host and port, decides.
pub open spec fn spec_scan_origins(allow: Seq<String>, t: Seq<char>) -> Option<Seq<char>>
    decreases allow.len(),
{
    if allow.len() == 0 {
        None
    } else {
        let e = trim_seq(allow[0]@);
        if e.len() == 0 {
            spec_scan_origins(allow.subrange(1, allow.len() as int), t)
        } else if e == "*"@ {
            Some("*"@)
        } else if lower_seq(e) == lower_seq(t) {
            Some(t)
        } else if !contains_seq(e, "://"@) && (match origin_host_of(t) {
            Some(h) => lower_seq(e) == lower_seq(h),
            None => false,
        }) {
            Some(t)
        } else {
            spec_scan_origins(allow.subrange(1, allow.len() as int), t)
        }
    }
}

/// The `Access-Control-Allow-Origin` value a request origin earns, if
/// any.
pub open spec fn spec_resolve_allow_origin(
    allow: Seq<String>,
    request_origin: Option<Seq<char>>,
) -> Option<Seq<char>> {
    match request_origin {
        None => None,
        Some(o) => {
            let t = trim_seq(o);
            if t.len() == 0 {
                None
            } else {
                spec_scan_origins(allow, t)
            }
        },
    }
}

pub fn resolve_allow_origin(cors: &CorsConfig, request_origin: Option<&str>) -> (r: Option<
    String,
>)
    ensures
        match (request_origin, r) {
            (Some(o), Some(v)) => spec_resolve_allow_origin(cors.allow_origins@, Some(o@))
                == Some(v@),
            (Some(o), None) => spec_resolve_allow_origin(cors.allow_origins@, Some(o@)) is None,
            (None, None) => true,
            (None, Some(v)) => false,
        },
{
    let origin = match request_origin {
        Some(origin) => origin,
        None => {
            return None;
        },
    };
    let trimmed = crate::text::trim(origin);
    if trimmed.as_str().unicode_len() == 0 {
        return None;
    }
    let n = cors.allow_origins.len();
    proof {
        assert(cors.allow_origins@.subrange(0, n as int) =~= cors.allow_origins@);
    }
    let mut i: usize = 0;
    while i < n
        invariant
            n == cors.allow_origins@.len(),
            i <= n,
            request_origin matches Some(og) && og@ == origin@,
            trimmed@ == trim_seq(origin@),
            trimmed@.len() > 0,
            spec_scan_origins(cors.allow_origins@, trimmed@) == spec_scan_origins(
                cors.allow_origins@.subrange(i as int, n as int),
                trimmed@,
            ),
        decreases n - i,
    {
        let ghost pre = cors.allow_origins@.subrange(i as int, n as int);
        proof {
            assert(pre[0] == cors.allow_origins@[i as int]);
            assert(pre.subrange(1, pre.len() as int) =~= cors.allow_origins@.subrange(
                i + 1,
                n as int,
            ));
        }
        let entry = crate::text::trim(cors.allow_origins[i].as_str());
        if entry.as_str().unicode_len() != 0 {
            if crate::text::str_eq(entry.as_str(), "*") {
                return Some(String::from_str("*"));
            }
            if crate::text::eq_ignore_case(entry.as_str(), trimmed.as_str()) {
                return Some(trimmed);
            }
            if !crate::text::contains_str(entry.as_str(), "://") {
                if let Some(origin_host) = extract_origin_host(trimmed.as_str()) {
                    if crate::text::eq_ignore_case(entry.as_str(), origin_host.as_str()) {
                        return Some(trimmed);
                    }
                }
            }
        }
        i = i + 1;
    }
    proof {
        assert(cors.allow_origins@.subrange(n as int, n as int).len() == 0);
    }
    None
}

/// A preflight request: `OPTIONS` carrying an origin and a requested
/// method.
pub open spec fn spec_is_cors_preflight(method: Seq<char>, h: Seq<(String, String)>) -> bool {
    &&& method == "OPTIONS"@
    &&& crate::headers::spec_has(h, lower_seq("origin"@))
    &&& crate::headers::spec_has(h, lower_seq("access-control-request-method"@))
}

pub fn is_cors_preflight(method: &str, headers: &HeaderTable) -> (r: bool)
    ensures
        r == spec_is_cors_preflight(method@, headers.entries@),
{
    crate::text::str_eq(method, "OPTIONS") && headers.contains("origin") && headers.contains(
        "access-control-request-method",
    )
}

/// The configured entries trimmed and case-folded, empties dropped,
/// in order.
pub open spec fn spec_clean_upper(items: Seq<String>) -> Seq<Seq<char>>
    decreases items.len(),
{
    if items.len() == 0 {
        Seq::empty()
    } else {
        let rest = spec_clean_upper(items.drop_last());
        let v = upper_seq(trim_seq(items.last()@));
        if v.len() == 0 {
            rest
        } else {
            rest.push(v)
        }
    }
}

pub open spec fn spec_clean_lower(items: Seq<String>) -> Seq<Seq<char>>
    decreases items.len(),
{
    if items.len() == 0 {
        Seq::empty()
    } else {
        let rest = spec_clean_lower(items.drop_last());
        let v = lower_seq(trim_seq(items.last()@));
        if v.len() == 0 {
            rest
        } else {
            rest.push(v)
        }
    }
}

/// Pieces joined with `, `.
pub open spec fn spec_join_comma(items: Seq<Seq<char>>) -> Seq<char>
    decreases items.len(),
{
    if items.len() == 0 {
        Seq::empty()
    } else if items.len() == 1 {
        items[0]
    } else {
        spec_join_comma(items.drop_last()) + ", "@ + items.last()
    }
}

fn clean_upper(items: &Vec<String>) -> (r: Vec<String>)
    ensures
        r@.len() == spec_clean_upper(items@).len(),
        forall|i: int| 0 <= i < r@.len() ==> (#[trigger] r@[i])@ == spec_clean_upper(items@)[i],
{
    let n = items.len();
    let mut r: Vec<String> = Vec::new();
    let mut i: usize = 0;
    while i < n
        invariant
            n == items@.len(),
            i <= n,
            r@.len() == spec_clean_upper(items@.subrange(0, i as int)).len(),
            forall|k: int|
                0 <= k < r@.len() ==> (#[trigger] r@[k])@ == spec_clean_upper(
                    items@.subrange(0, i as int),
                )[k],
        decreases n - i,
    {
        let ghost cur = items@.subrange(0, i + 1);
        proof {
            assert(cur.drop_last() =~= items@.subrange(0, i as int));
            assert(cur.last() == items@[i as int]);
        }
        let trimmed = crate::text::trim(items[i].as_str());
        let cleaned = crate::text::to_uppercase(trimmed.as_str());
        if cleaned.as_str().unicode_len() != 0 {
            r.push(cleaned);
        }
        i = i + 1;
    }
    proof {
        assert(items@.subrange(0, n as int) =~= items@);
    }
    r
}

fn clean_lower(items: &Vec<String>) -> (r: Vec<String>)
    ensures
        r@.len() == spec_clean_lower(items@).len(),
        forall|i: int| 0 <= i < r@.len() ==> (#[trigger] r@[i])@ == spec_clean_lower(items@)[i],
{
    let n = items.len();
    let mut r: Vec<String> = Vec::new();
    let mut i: usize = 0;
    while i < n
        invariant
            n == items@.len(),
            i <= n,
            r@.len() == spec_clean_lower(items@.subrange(0, i as int)).len(),
            forall|k: int|
                0 <= k < r@.len() ==> (#[trigger] r@[k])@ == spec_clean_lower(
                    items@.subrange(0, i as int),
                )[k],
        decreases n - i,
    {
        let ghost cur = items@.subrange(0, i + 1);
        proof {
            assert(cur.drop_last() =~= items@.subrange(0, i as int));
            assert(cur.last() == items@[i as int]);
        }
        let trimmed = crate::text::trim(items[i].as_str());
        let cleaned = crate::text::to_lowercase(trimmed.as_str());
        if cleaned.as_str().unicode_len() != 0 {
            r.push(cleaned);
        }
        i = i + 1;
    }
    proof {
        assert(items@.subrange(0, n as int) =~= items@);
    }
    r
}

fn join_comma(items: &Vec<String>) -> (r: String)
    ensures
        r@ == spec_join_comma(items@.map_values(|s: String| s@)),
{
    let ghost view = items@.map_values(|s: String| s@);
    let n = items.len();
    let mut r = String::new();
    let mut i: usize = 0;
    while i < n
        invariant
            n == items@.len(),
            view == items@.map_values(|s: String| s@),
            i <= n,
            r@ == spec_join_comma(view.subrange(0, i as int)),
        decreases n - i,
    {
        let ghost cur = view.subrange(0, i + 1);
        proof {
            assert(cur.drop_last() =~= view.subrange(0, i as int));
            assert(cur.last() == view[i as int]);
        }
        if i > 0 {
            r.append(", ");
        }
        r.append(items[i].as_str());
        proof {
            assert(r@ =~= spec_join_comma(cur));
        }
        i = i + 1;
    }
    proof {
        assert(view.subrange(0, n as int) =~= view);
    }
    r
}

/// Whether `item` is already present (by exact characters).
pub open spec fn spec_seq_contains_str(items: Seq<Seq<char>>, item: Seq<char>) -> bool {
    exists|i: int| 0 <= i < items.len() && #[trigger] items[i] == item
}

fn vec_contains_str(items: &Vec<String>, item: &str) -> (r: bool)
    ensures
        r == spec_seq_contains_str(items@.map_values(|s: String| s@), item@),
{
    let ghost view = items@.map_values(|s: String| s@);
    let n = items.len();
    let mut i: usize = 0;
    while i < n
        invariant
            n == items@.len(),
            view == items@.map_values(|s: String| s@),
            i <= n,
            forall|j: int| 0 <= j < i ==> #[trigger] view[j] != item@,
        decreases n - i,
    {
        if crate::text::str_eq(items[i].as_str(), item) {
            proof {
                assert(view[i as int] == item@);
            }
            return true;
        }
        i = i + 1;
    }
    false
}

/// The allowed methods announced on a preflight: the cleaned
/// configured list, and the requested method when it is new.
pub open spec fn spec_allow_methods_list(
    cors: CorsConfig,
    h: Seq<(String, String)>,
) -> Seq<Seq<char>> {
    let base = spec_clean_upper(cors.allow_methods@);
    match spec_lookup(h, lower_seq("access-control-request-method"@)) {
        Some(v) => {
            let m = upper_seq(trim_seq(v));
            if m.len() > 0 && !spec_seq_contains_str(base, m) {
                base.push(m)
            } else {
                base
            }
        },
        None => base,
    }
}

pub fn build_allow_methods(cors: &CorsConfig, request_headers: &HeaderTable) -> (r: String)
    ensures
        r@ == spec_join_comma(spec_allow_methods_list(*cors, request_headers.entries@)),
{
    let mut methods = clean_upper(&cors.allow_methods);
    proof {
        assert(methods@.map_values(|s: String| s@) =~= spec_clean_upper(cors.allow_methods@));
    }
    if let Some(value) = request_headers.get("access-control-request-method") {
        let trimmed = crate::text::trim(value.as_str());
        let requested = crate::text::to_uppercase(trimmed.as_str());
        if requested.as_str().unicode_len() != 0 && !vec_contains_str(
            &methods,
            requested.as_str(),
        ) {
            let ghost pre = methods@.map_values(|s: String| s@);
            methods.push(requested);
            proof {
                assert(methods@.map_values(|s: String| s@) =~= pre.push(
                    upper_seq(trim_seq(value@)),
                ));
            }
        }
    }
    join_comma(&methods)
}


/// A header list split at commas; no comma yields the whole text.
pub open spec fn spec_split_commas(s: Seq<char>) -> Seq<Seq<char>>
    decreases s.len(),
{
    match crate::text::spec_find(s, ',', 0) {
        None => seq![s],
        Some(k) => {
            if k < s.len() {
                seq![s.subrange(0, k as int)] + spec_split_commas(
                    s.subrange(k + 1 as int, s.len() as int),
                )
            } else {
                seq![s]
            }
        },
    }
}

/// Requested header names folded into the configured list: trimmed,
/// lowercased, empties and repeats dropped, in request order.
pub open spec fn spec_add_headers(base: Seq<Seq<char>>, parts: Seq<Seq<char>>) -> Seq<Seq<char>>
    decreases parts.len(),
{
    if parts.len() == 0 {
        base
    } else {
        let h = lower_seq(trim_seq(parts[0]));
        let base1 = if h.len() > 0 && !spec_seq_contains_str(base, h) {
            base.push(h)
        } else {
            base
        };
        spec_add_headers(base1, parts.subrange(1, parts.len() as int))
    }
}

/// The allowed headers announced on a preflight.
pub open spec fn spec_allow_headers_list(
    cors: CorsConfig,
    h: Seq<(String, String)>,
) -> Seq<Seq<char>> {
    let base = spec_clean_lower(cors.allow_headers@);
    match spec_lookup(h, lower_seq("access-control-request-headers"@)) {
        Some(v) => spec_add_headers(base, spec_split_commas(v)),
        None => base,
    }
}

pub fn build_allow_headers(cors: &CorsConfig, request_headers: &HeaderTable) -> (r: String)
    ensures
        r@ == spec_join_comma(spec_allow_headers_list(*cors, request_headers.entries@)),
{
    let mut list = clean_lower(&cors.allow_headers);
    proof {
        assert(list@.map_values(|s: String| s@) =~= spec_clean_lower(cors.allow_headers@));
    }
    let requested = match request_headers.get("access-control-request-headers") {
        Some(value) => value.clone(),
        None => {
            return join_comma(&list);
        },
    };
    let ghost target = spec_add_headers(
        list@.map_values(|s: String| s@),
        spec_split_commas(requested@),
    );
    let mut rest = requested;
    let mut done = false;
    while !done
        invariant
            done ==> spec_add_headers(
                list@.map_values(|s: String| s@),
                Seq::<Seq<char>>::empty(),
            ) == target,
            !done ==> spec_add_headers(
                list@.map_values(|s: String| s@),
                spec_split_commas(rest@),
            ) == target,
        decreases (if done {
            0int
        } else {
            rest@.len() as int + 1
        }),
    {
        let ghost pre_list = list@.map_values(|s: String| s@);
        let ghost pre_rest = rest@;
        let n = rest.as_str().unicode_len();
        let (part, next, has_more): (String, String, bool) = match crate::text::find_char(
            rest.as_str(),
            ',',
            0,
        ) {
            Some(k) => {
                proof {
                    crate::text::lemma_spec_find_props(rest@, ',', 0);
                }
                (
                    crate::text::substring(rest.as_str(), 0, k),
                    crate::text::substring(rest.as_str(), k + 1, n),
                    true,
                )
            },
            None => (rest, String::new(), false),
        };
        let trimmed = crate::text::trim(part.as_str());
        let cleaned = crate::text::to_lowercase(trimmed.as_str());
        if cleaned.as_str().unicode_len() != 0 && !vec_contains_str(&list, cleaned.as_str()) {
            list.push(cleaned);
            proof {
                assert(list@.map_values(|s: String| s@) =~= pre_list.push(
                    lower_seq(trim_seq(part@)),
                ));
            }
        }
        proof {
            if has_more {
                assert(spec_split_commas(pre_rest)[0] == part@);
                assert(spec_split_commas(pre_rest).subrange(
                    1,
                    spec_split_commas(pre_rest).len() as int,
                ) =~= spec_split_commas(next@));
            } else {
                assert(spec_split_commas(pre_rest) =~= seq![part@]);
                assert(spec_split_commas(pre_rest).subrange(
                    1,
                    spec_split_commas(pre_rest).len() as int,
                ) =~= Seq::<Seq<char>>::empty());
            }
        }
        rest = next;
        if !has_more {
            done = true;
        }
    }
    join_comma(&list)
}

/// The answer to a preflight request: refused when the origin does not
/// resolve, else the origin to allow and the computed method and
/// header lists.
pub enum PreflightPlan {
    Forbidden,
    Allowed { allow_origin: String, allow_methods: String, allow_headers: String },
}

pub fn build_preflight_response(
    cors: &CorsConfig,
    request_origin: Option<&str>,
    request_headers: &HeaderTable,
) -> (r: PreflightPlan)
    ensures
        ({
            let spec_origin = match request_origin {
                Some(o) => Some(o@),
                None => None::<Seq<char>>,
            };
            match spec_resolve_allow_origin(cors.allow_origins@, spec_origin) {
                None => r is Forbidden,
                Some(o) => r matches PreflightPlan::Allowed {
                    allow_origin,
                    allow_methods,
                    allow_headers,
                } && allow_origin@ == o && allow_methods@ == spec_join_comma(
                    spec_allow_methods_list(*cors, request_headers.entries@),
                ) && allow_headers@ == spec_join_comma(
                    spec_allow_headers_list(*cors, request_headers.entries@),
                ),
            }
        }),
{
    let allow_origin = match resolve_allow_origin(cors, request_origin) {
        Some(allow_origin) => allow_origin,
        None => {
            return PreflightPlan::Forbidden;
        },
    };
    let allow_methods = build_allow_methods(cors, request_headers);
    let allow_headers = build_allow_headers(cors, request_headers);
    PreflightPlan::Allowed { allow_origin, allow_methods, allow_headers }
}

/// Configured entries trimmed, empties dropped, case kept.
pub open spec fn spec_clean_trim(items: Seq<String>) -> Seq<Seq<char>>
    decreases items.len(),
{
    if items.len() == 0 {
        Seq::empty()
    } else {
        let rest = spec_clean_trim(items.drop_last());
        let v = trim_seq(items.last()@);
        if v.len() == 0 {
            rest
        } else {
            rest.push(v)
        }
    }
}

fn clean_trim(items: &Vec<String>) -> (r: Vec<String>)
    ensures
        r@.len() == spec_clean_trim(items@).len(),
        forall|i: int| 0 <= i < r@.len() ==> (#[trigger] r@[i])@ == spec_clean_trim(items@)[i],
{
    let n = items.len();
    let mut r: Vec<String> = Vec::new();
    let mut i: usize = 0;
    while i < n
        invariant
            n == items@.len(),
            i <= n,
            r@.len() == spec_clean_trim(items@.subrange(0, i as int)).len(),
            forall|k: int|
                0 <= k < r@.len() ==> (#[trigger] r@[k])@ == spec_clean_trim(
                    items@.subrange(0, i as int),
                )[k],
        decreases n - i,
    {
        let ghost cur = items@.subrange(0, i + 1);
        proof {
            assert(cur.drop_last() =~= items@.subrange(0, i as int));
            assert(cur.last() == items@[i as int]);
        }
        let trimmed = crate::text::trim(items[i].as_str());
        if trimmed.as_str().unicode_len() != 0 {
            r.push(trimmed);
        }
        i = i + 1;
    }
    proof {
        assert(items@.subrange(0, n as int) =~= items@);
    }
    r
}

/// The headers appended to an ordinary (non-preflight) response: the
/// resolved allow-origin with `Vary: Origin`, and the configured
/// expose-headers when any survive trimming.
pub open spec fn spec_cors_response_headers(
    cors: CorsConfig,
    request_origin: Option<Seq<char>>,
) -> Seq<(Seq<char>, Seq<char>)> {
    let base: Seq<(Seq<char>, Seq<char>)> = match spec_resolve_allow_origin(
        cors.allow_origins@,
        request_origin,
    ) {
        Some(o) => seq![("access-control-allow-origin"@, o), ("vary"@, "Origin"@)],
        None => Seq::empty(),
    };
    let exposed = spec_join_comma(spec_clean_trim(cors.expose_headers@));
    if exposed.len() > 0 {
        base.push(("access-control-expose-headers"@, exposed))
    } else {
        base
    }
}

pub fn cors_response_headers(cors: &CorsConfig, request_origin: Option<&str>) -> (r: Vec<
    (String, String),
>)
    ensures
        ({
            let spec_origin = match request_origin {
                Some(o) => Some(o@),
                None => None::<Seq<char>>,
            };
            let expected = spec_cors_response_headers(*cors, spec_origin);
            &&& r@.len() == expected.len()
            &&& forall|i: int|
                0 <= i < r@.len() ==> (#[trigger] r@[i]).0@ == expected[i].0 && r@[i].1@
                    == expected[i].1
        }),
{
    let mut r: Vec<(String, String)> = Vec::new();
    let ghost spec_origin = match request_origin {
        Some(o) => Some(o@),
        None => None::<Seq<char>>,
    };
    match resolve_allow_origin(cors, request_origin) {
        Some(allow_origin) => {
            r.push((String::from_str("access-control-allow-origin"), allow_origin));
            r.push((String::from_str("vary"), String::from_str("Origin")));
        },
        None => {},
    }
    let cleaned = clean_trim(&cors.expose_headers);
    proof {
        assert(cleaned@.map_values(|s: String| s@) =~= spec_clean_trim(cors.expose_headers@));
    }
    let exposed = join_comma(&cleaned);
    if exposed.as_str().unicode_len() != 0 {
        r.push((String::from_str("access-control-expose-headers"), exposed));
    }
    r
}


} // verus!
