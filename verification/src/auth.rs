//! Downstream caller authentication: token extraction from the
//! configured sources and the allow-list check.

use crate::config::{GatewayAuthConfig, TokenSourceConfig};
use crate::headers::{spec_lookup, valid_header_name, HeaderTable};
use crate::text::{lower_seq, spec_find, trim_seq};
use vstd::prelude::*;

verus! {

/// `Bearer <token>` parsing after trimming the whole value: the text up
/// to the first space must be `bearer` in any case, and the trimmed
/// remainder must be non-empty.
pub open spec fn spec_parse_bearer(value: Seq<char>) -> Option<Seq<char>> {
    let t = trim_seq(value);
    match spec_find(t, ' ', 0) {
        None => None,
        Some(k) => {
            let scheme = t.subrange(0, k as int);
            let token = trim_seq(t.subrange(k + 1 as int, t.len() as int));
            if lower_seq(scheme) != lower_seq("bearer"@) {
                None
            } else if token.len() == 0 {
                None
            } else {
                Some(token)
            }
        },
    }
}

/// The bearer token in an `Authorization`-style value, if any.
pub fn parse_bearer_token(value: &str) -> (r: Option<String>)
    ensures
        match r {
            Some(t) => spec_parse_bearer(value@) == Some(t@),
            None => spec_parse_bearer(value@) is None,
        },
{
    let trimmed = crate::text::trim(value);
    let n = trimmed.as_str().unicode_len();
    let k = match crate::text::find_char(trimmed.as_str(), ' ', 0) {
        None => {
            return None;
        },
        Some(k) => k,
    };
    proof {
        crate::text::lemma_spec_find_props(trimmed@, ' ', 0);
    }
    let scheme = crate::text::substring(trimmed.as_str(), 0, k);
    if !crate::text::eq_ignore_case(scheme.as_str(), "bearer") {
        return None;
    }
    let raw_token = crate::text::substring(trimmed.as_str(), k + 1, n);
    let token = crate::text::trim(raw_token.as_str());
    if token.as_str().unicode_len() == 0 {
        return None;
    }
    Some(token)
}

/// The token the configured sources yield: the first source that
/// produces a non-empty candidate wins.
pub open spec fn spec_extract_token(
    h: Seq<(String, String)>,
    sources: Seq<TokenSourceConfig>,
) -> Option<Seq<char>>
    decreases sources.len(),
{
    if sources.len() == 0 {
        None
    } else {
        let attempt = match sources[0] {
            TokenSourceConfig::AuthorizationBearer => match spec_lookup(
                h,
                lower_seq("authorization"@),
            ) {
                Some(v) => spec_parse_bearer(v),
                None => None,
            },
            TokenSourceConfig::Header { name } => if valid_header_name(name@) {
                match spec_lookup(h, lower_seq(name@)) {
                    Some(v) => if trim_seq(v).len() == 0 {
                        None
                    } else {
                        Some(trim_seq(v))
                    },
                    None => None,
                }
            } else {
                None
            },
        };
        match attempt {
            Some(t) => Some(t),
            None => spec_extract_token(h, sources.subrange(1, sources.len() as int)),
        }
    }
}

/// The caller's token candidate, per the ordered token sources.
pub fn extract_token(headers: &HeaderTable, token_sources: &Vec<TokenSourceConfig>) -> (r:
    Option<String>)
    ensures
        match r {
            Some(t) => spec_extract_token(headers.entries@, token_sources@) == Some(t@),
            None => spec_extract_token(headers.entries@, token_sources@) is None,
        },
{
    let n = token_sources.len();
    proof {
        assert(token_sources@.subrange(0, n as int) =~= token_sources@);
    }
    let mut i: usize = 0;
    while i < n
        invariant
            n == token_sources@.len(),
            i <= n,
            spec_extract_token(headers.entries@, token_sources@) == spec_extract_token(
                headers.entries@,
                token_sources@.subrange(i as int, n as int),
            ),
        decreases n - i,
    {
        let ghost pre = token_sources@.subrange(i as int, n as int);
        proof {
            assert(pre[0] == token_sources@[i as int]);
            assert(pre.subrange(1, pre.len() as int) =~= token_sources@.subrange(
                i + 1,
                n as int,
            ));
        }
        match &token_sources[i] {
            TokenSourceConfig::AuthorizationBearer => {
                if let Some(value) = headers.get("authorization") {
                    if let Some(token) = parse_bearer_token(value.as_str()) {
                        return Some(token);
                    }
                }
            },
            TokenSourceConfig::Header { name } => {
                if crate::headers::is_valid_header_name(name.as_str()) {
                    if let Some(value) = headers.get(name.as_str()) {
                        let trimmed = crate::text::trim(value.as_str());
                        if trimmed.as_str().unicode_len() != 0 {
                            return Some(trimmed);
                        }
                    }
                }
            },
        }
        i = i + 1;
    }
    None
}

/// The extracted token is in the allow-list.
pub open spec fn spec_token_allowed(tokens: Seq<String>, token: Seq<char>) -> bool {
    exists|i: int| 0 <= i < tokens.len() && (#[trigger] tokens[i])@ == token
}

/// The token the request is authorized with, if any: the extracted
/// candidate exactly when it equals (byte for byte) some allow-list
/// entry.
pub open spec fn spec_authorized_token(
    h: Seq<(String, String)>,
    auth: GatewayAuthConfig,
) -> Option<Seq<char>> {
    match spec_extract_token(h, auth.token_sources@) {
        None => None,
        Some(t) => if spec_token_allowed(auth.tokens@, t) {
            Some(t)
        } else {
            None
        },
    }
}

/// The authorized token carried forward for rate-limit keying and
/// metric labeling.
pub fn extract_authorized_token(headers: &HeaderTable, gateway_auth: &GatewayAuthConfig) -> (r:
    Option<String>)
    ensures
        match r {
            Some(t) => spec_authorized_token(headers.entries@, *gateway_auth) == Some(t@),
            None => spec_authorized_token(headers.entries@, *gateway_auth) is None,
        },
{
    let token = match extract_token(headers, &gateway_auth.token_sources) {
        None => {
            return None;
        },
        Some(token) => token,
    };
    let n = gateway_auth.tokens.len();
    let mut i: usize = 0;
    while i < n
        invariant
            n == gateway_auth.tokens@.len(),
            i <= n,
            spec_extract_token(headers.entries@, gateway_auth.token_sources@) == Some(token@),
            forall|j: int| 0 <= j < i ==> (#[trigger] gateway_auth.tokens@[j])@ != token@,
        decreases n - i,
    {
        if crate::text::str_eq(gateway_auth.tokens[i].as_str(), token.as_str()) {
            return Some(token);
        }
        i = i + 1;
    }
    None
}

/// Whether the request carries an allow-listed token.
pub fn is_authorized(headers: &HeaderTable, gateway_auth: &GatewayAuthConfig) -> (r: bool)
    ensures
        r == (spec_authorized_token(headers.entries@, *gateway_auth) is Some),
{
    extract_authorized_token(headers, gateway_auth).is_some()
}

} // verus!
