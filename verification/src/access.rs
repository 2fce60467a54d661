//! Who may call the API and how callers are told apart: bearer-token
//! authentication, the trusted-proxy switch, the key a client is rate-limited
//! under, and the allowed CORS origins.

use vstd::prelude::*;

use subtle::ConstantTimeEq;

use crate::text::{
    ascii_lower_char, ascii_lower_seq, chars_of, string_of_range, trim_bounds, trimmed,
};

verus! {

/// `<[u8] as subtle::ConstantTimeEq>::ct_eq`, read as a `bool`. The crate's
/// source compares the lengths and then every pair of bytes, so the result
/// says whether the two byte strings are equal.
#[verifier::external_body]
fn bytes_equal_in_constant_time(a: &[u8], b: &[u8]) -> (r: bool)
    ensures
        r == (a@ == b@),
{
    bool::from(a.ct_eq(b))
}

/// The token of an `Authorization` header of the form `Bearer <token>`.
pub open spec fn bearer_token(header: Seq<char>) -> Option<Seq<char>> {
    if header.len() >= 7 && header.take(7) == "Bearer "@ {
        Some(header.skip(7))
    } else {
        None
    }
}

/// Whether a request may use the mutating endpoints: always when no token is
/// configured; otherwise only with a bearer token equal to it.
pub open spec fn authorized(expected: Option<Seq<char>>, header: Option<Seq<char>>) -> bool {
    match expected {
        None => true,
        Some(e) => match header {
            Some(h) => match bearer_token(h) {
                Some(t) => t == e,
                None => false,
            },
            None => false,
        },
    }
}

/// The token of a `Bearer` header, if the header has that form.
pub fn bearer_token_of(header: &str) -> (r: Option<String>)
    ensures
        match r {
            Some(t) => bearer_token(header@) == Some(t@),
            None => bearer_token(header@) is None,
        },
{
    let v = chars_of(header);
    let prefix = chars_of("Bearer ");
    proof {
        reveal_strlit("Bearer ");
    }
    assert(prefix@.len() == 7);
    if v.len() < 7 {
        return None;
    }
    let mut i: usize = 0;
    while i < 7
        invariant
            i <= 7 <= v.len(),
            prefix.len() == 7,
            prefix@ == "Bearer "@,
            v@ == header@,
            v@.take(i as int) == prefix@.take(i as int),
        decreases 7 - i,
    {
        if v[i] != prefix[i] {
            assert(v@.take(7)[i as int] != prefix@[i as int]);
            return None;
        }
        i = i + 1;
        assert(v@.take(i as int) =~= prefix@.take(i as int));
    }
    assert(prefix@.take(7) =~= prefix@);
    let t = string_of_range(&v, 7, v.len());
    assert(t@ =~= header@.skip(7));
    Some(t)
}

/// Checks a request's `Authorization` header (its text, when it is valid
/// header text) against the configured API token, comparing the token bytes
/// in constant time.
pub fn request_authorized(expected: Option<&str>, authorization: Option<&str>) -> (r: bool)
    ensures
        r == authorized(
            match expected {
                Some(e) => Some(e@),
                None => None,
            },
            match authorization {
                Some(h) => Some(h@),
                None => None,
            },
        ),
{
    match expected {
        None => true,
        Some(e) => match authorization {
            None => false,
            Some(h) => match bearer_token_of(h) {
                None => false,
                Some(t) => {
                    let eq = bytes_equal_in_constant_time(t.as_str().as_bytes(), e.as_bytes());
                    proof {
                        vstd::utf8::encode_utf8_decode_utf8(t@);
                        vstd::utf8::encode_utf8_decode_utf8(e@);
                    }
                    eq
                },
            },
        },
    }
}

/// The trusted-proxy switch: set by `1`, `true`, `yes` or `on`, ignoring
/// surrounding whitespace and ASCII case.
pub open spec fn trust_proxy_value(value: Option<Seq<char>>) -> bool {
    match value {
        Some(v) => {
            let n = ascii_lower_seq(trimmed(v));
            n == "1"@ || n == "true"@ || n == "yes"@ || n == "on"@
        },
        None => false,
    }
}

/// Reads the trusted-proxy switch from its setting, if set.
pub fn trust_proxy_enabled(value: Option<&str>) -> (r: bool)
    ensures
        r == trust_proxy_value(
            match value {
                Some(v) => Some(v@),
                None => None,
            },
        ),
{
    match value {
        None => false,
        Some(v) => {
            let n = lowered_trimmed(v);
            let ghost nv = ascii_lower_seq(trimmed(v@));
            let r = crate::text::same_text(n.as_str(), "1") || crate::text::same_text(
                n.as_str(),
                "true",
            ) || crate::text::same_text(n.as_str(), "yes") || crate::text::same_text(
                n.as_str(),
                "on",
            );
            r
        },
    }
}

/// `s.trim().to_ascii_lowercase()`.
pub fn lowered_trimmed(s: &str) -> (r: String)
    ensures
        r@ == ascii_lower_seq(trimmed(s@)),
{
    let v = chars_of(s);
    let (a, b) = trim_bounds(&v);
    let mut r = String::new();
    let mut i = a;
    while i < b
        invariant
            a <= i <= b <= v.len(),
            v@ == s@,
            v@.subrange(a as int, b as int) == trimmed(s@),
            r@ == ascii_lower_seq(v@.subrange(a as int, i as int)),
        decreases b - i,
    {
        crate::text::push_char(&mut r, ascii_lower_char(v[i]));
        i = i + 1;
        assert(r@ =~= ascii_lower_seq(v@.subrange(a as int, i as int)));
    }
    r
}

/// Index of the first `,` in `s`, or its length.
pub open spec fn first_comma(s: Seq<char>) -> int
    decreases s.len(),
{
    if s.len() == 0 {
        0
    } else if s[0] == ',' {
        0
    } else {
        1 + first_comma(s.drop_first())
    }
}

/// The key a client is rate-limited under: with the trusted-proxy switch on,
/// the first entry of `X-Forwarded-For` (trimmed) when it is not blank;
/// otherwise the peer address; `unknown` when there is neither.
pub open spec fn rate_limit_key(
    trust_proxy: bool,
    forwarded_for: Option<Seq<char>>,
    peer_ip: Option<Seq<char>>,
) -> Seq<char> {
    let forwarded = match forwarded_for {
        Some(f) => if trust_proxy {
            let first = trimmed(f.take(first_comma(f)));
            if first.len() > 0 {
                Some(first)
            } else {
                None
            }
        } else {
            None
        },
        None => None,
    };
    match forwarded {
        Some(k) => k,
        None => match peer_ip {
            Some(p) => p,
            None => "unknown"@,
        },
    }
}

proof fn lemma_first_comma_bounds(s: Seq<char>)
    ensures
        0 <= first_comma(s) <= s.len(),
        forall|i: int| 0 <= i < first_comma(s) ==> s[i] != ',',
        first_comma(s) < s.len() ==> s[first_comma(s)] == ',',
    decreases s.len(),
{
    if s.len() > 0 && s[0] != ',' {
        lemma_first_comma_bounds(s.drop_first());
        assert forall|i: int| 0 <= i < first_comma(s) implies s[i] != ',' by {
            if i > 0 {
                assert(s[i] == s.drop_first()[i - 1]);
            }
        }
    }
}

/// Derives the rate-limit key of a request from the `X-Forwarded-For` header
/// text (when present and valid) and the peer address.
pub fn client_rate_limit_key(trust_proxy: bool, forwarded_for: Option<&str>, peer_ip: Option<&str>) -> (r:
    String)
    ensures
        r@ == rate_limit_key(
            trust_proxy,
            match forwarded_for {
                Some(f) => Some(f@),
                None => None,
            },
            match peer_ip {
                Some(p) => Some(p@),
                None => None,
            },
        ),
{
    if trust_proxy {
        if let Some(f) = forwarded_for {
            let v = chars_of(f);
            let mut e: usize = 0;
            while e < v.len() && v[e] != ','
                invariant
                    e <= v.len(),
                    forall|i: int| 0 <= i < e ==> v@[i] != ',',
                decreases v.len() - e,
            {
                e = e + 1;
            }
            proof {
                lemma_first_comma_bounds(v@);
                if first_comma(v@) < e {
                    assert(v@[first_comma(v@)] == ',');
                }
                if e < first_comma(v@) {
                    assert(v@[e as int] == ',');
                }
                assert(e == first_comma(v@));
            }
            let first = string_of_range(&v, 0, e);
            let w = chars_of(first.as_str());
            let (a, b) = trim_bounds(&w);
            if a < b {
                let key = string_of_range(&w, a, b);
                assert(first@ =~= f@.take(first_comma(f@)));
                return key;
            }
            assert(first@ =~= f@.take(first_comma(f@)));
        }
    }
    match peer_ip {
        Some(p) => p.to_string(),
        None => {
            let r = String::from_str("unknown");
            r
        },
    }
}


/// Splits `s` at every `,` from position `i`, with the current piece begun at
/// `start` and the pieces `acc` already split off (`str::split(',')`).
pub open spec fn split_commas_from(s: Seq<char>, i: int, start: int, acc: Seq<Seq<char>>) -> Seq<
    Seq<char>,
>
    decreases s.len() - i,
{
    if i >= s.len() {
        acc.push(s.subrange(start, s.len() as int))
    } else if s[i] == ',' {
        split_commas_from(s, i + 1, i + 1, acc.push(s.subrange(start, i)))
    } else {
        split_commas_from(s, i + 1, start, acc)
    }
}

/// The pieces of `s` between commas.
pub open spec fn comma_parts(s: Seq<char>) -> Seq<Seq<char>> {
    split_commas_from(s, 0, 0, Seq::empty())
}

/// The pieces, trimmed, without the blank ones.
pub open spec fn nonblank_trimmed_parts(parts: Seq<Seq<char>>) -> Seq<Seq<char>>
    decreases parts.len(),
{
    if parts.len() == 0 {
        Seq::empty()
    } else {
        let rest = nonblank_trimmed_parts(parts.drop_last());
        let t = trimmed(parts.last());
        if t.len() > 0 {
            rest.push(t)
        } else {
            rest
        }
    }
}

/// The origins allowed when none are configured: the explorer's local dev
/// server, by name and by address.
pub open spec fn default_cors_origins() -> Seq<Seq<char>> {
    seq!["http://localhost:8032"@, "http://127.0.0.1:8032"@]
}

/// The allowed CORS origins: the comma-separated, trimmed, nonblank entries
/// of the setting when it has any, the defaults otherwise.
pub open spec fn cors_origins(setting: Option<Seq<char>>) -> Seq<Seq<char>> {
    match setting {
        Some(raw) => {
            let parsed = nonblank_trimmed_parts(comma_parts(raw));
            if parsed.len() > 0 {
                parsed
            } else {
                default_cors_origins()
            }
        },
        None => default_cors_origins(),
    }
}

fn default_origin_list() -> (r: Vec<String>)
    ensures
        crate::rate_limit::string_views(r@) == default_cors_origins(),
{
    let mut r: Vec<String> = Vec::new();
    r.push(String::from_str("http://localhost:8032"));
    r.push(String::from_str("http://127.0.0.1:8032"));
    assert(crate::rate_limit::string_views(r@) =~= default_cors_origins());
    r
}

/// Resolves the allowed CORS origins from the setting's text, if set.
pub fn allowed_cors_origins(setting: Option<&str>) -> (r: Vec<String>)
    ensures
        crate::rate_limit::string_views(r@) == cors_origins(
            match setting {
                Some(v) => Some(v@),
                None => None,
            },
        ),
{
    let raw = match setting {
        None => {
            return default_origin_list();
        },
        Some(raw) => raw,
    };
    let v = chars_of(raw);
    let mut kept: Vec<String> = Vec::new();
    let ghost mut pieces: Seq<Seq<char>> = Seq::empty();
    let mut start: usize = 0;
    let mut i: usize = 0;
    loop
        invariant_except_break
            comma_parts(v@) == split_commas_from(v@, i as int, start as int, pieces),
        invariant
            start <= i <= v.len(),
            v@ == raw@,
            crate::rate_limit::string_views(kept@) == nonblank_trimmed_parts(pieces),
        ensures
            comma_parts(v@) == pieces,
            crate::rate_limit::string_views(kept@) == nonblank_trimmed_parts(pieces),
        decreases v.len() - i,
    {
        let at_end = i == v.len();
        if at_end || v[i] == ',' {
            let piece = string_of_range(&v, start, i);
            let w = chars_of(piece.as_str());
            let (a, b) = trim_bounds(&w);
            let ghost before = pieces;
            proof {
                pieces = pieces.push(v@.subrange(start as int, i as int));
                assert(pieces.drop_last() =~= before);
            }
            if a < b {
                let t = string_of_range(&w, a, b);
                let ghost kv = crate::rate_limit::string_views(kept@);
                kept.push(t);
                assert(crate::rate_limit::string_views(kept@) =~= kv.push(t@));
            }
            if at_end {
                break;
            }
            start = i + 1;
        }
        i = i + 1;
    }
    if kept.len() == 0 {
        return default_origin_list();
    }
    kept
}

} // verus!
