//! Interpretation of configuration values (environment-style strings):
//! boolean flags and numeric overrides with their defaults. Reading the
//! environment itself is left to the caller; these functions decide what a
//! raw value means.

use vstd::prelude::*;
use crate::text::{
    ascii_lower, parse_u64, spec_parse_u64, str_chars, to_ascii_lowercase, trim, trim_chars,
};

verus! {

/// A flag is on when its trimmed, ASCII-lowercased value is one of
/// `1`, `true`, `yes`, `on`.
pub open spec fn flag_truthy(raw: Seq<char>) -> bool {
    let v = ascii_lower(trim(raw));
    v == seq!['1'] || v == seq!['t', 'r', 'u', 'e'] || v == seq!['y', 'e', 's'] || v == seq![
        'o',
        'n',
    ]
}

pub open spec fn spec_flag_enabled(raw: Option<Seq<char>>) -> bool {
    match raw {
        Some(v) => flag_truthy(v),
        None => false,
    }
}

pub(crate) fn is_word(v: &Vec<char>, w: &[char]) -> (r: bool)
    ensures
        r == (v@ == w@),
{
    if v.len() != w.len() {
        return false;
    }
    let mut i: usize = 0;
    while i < v.len()
        invariant
            i <= v.len() == w@.len(),
            forall|k: int| 0 <= k < i ==> v@[k] == w@[k],
        decreases v.len() - i,
    {
        if v[i] != w[i] {
            return false;
        }
        i = i + 1;
    }
    proof {
        assert(v@ =~= w@);
    }
    true
}

/// Whether a raw flag value (absent = off) turns the flag on.
pub fn flag_value_enabled(raw: Option<&str>) -> (r: bool)
    ensures
        r == spec_flag_enabled(
            match raw {
                Some(s) => Some(s@),
                None => None,
            },
        ),
{
    match raw {
        None => false,
        Some(s) => {
            let chars = str_chars(s);
            let t = trim_chars(&chars);
            let v = to_ascii_lowercase(&t);
            let one = ['1'];
            let tru = ['t', 'r', 'u', 'e'];
            let yes = ['y', 'e', 's'];
            let on = ['o', 'n'];
            let r = is_word(&v, &one) || is_word(&v, &tru) || is_word(&v, &yes) || is_word(
                &v,
                &on,
            );
            proof {
                assert(one@ == seq!['1']);
                assert(tru@ == seq!['t', 'r', 'u', 'e']);
                assert(yes@ == seq!['y', 'e', 's']);
                assert(on@ == seq!['o', 'n']);
            }
            r
        },
    }
}

/// A numeric setting: the trimmed value parsed as `u64`, or the default when
/// absent or unparsable.
pub open spec fn spec_u64_setting(raw: Option<Seq<char>>, default: u64) -> u64 {
    match raw {
        Some(v) => match spec_parse_u64(trim(v)) {
            Some(n) => n,
            None => default,
        },
        None => default,
    }
}

/// Like [`spec_u64_setting`], but a parsed zero also falls back to the default.
pub open spec fn spec_positive_u64_setting(raw: Option<Seq<char>>, default: u64) -> u64 {
    match raw {
        Some(v) => match spec_parse_u64(trim(v)) {
            Some(n) => if n > 0 { n } else { default },
            None => default,
        },
        None => default,
    }
}

pub open spec fn opt_view(raw: Option<&str>) -> Option<Seq<char>> {
    match raw {
        Some(s) => Some(s@),
        None => None,
    }
}

pub fn u64_setting(raw: Option<&str>, default: u64) -> (r: u64)
    ensures
        r == spec_u64_setting(opt_view(raw), default),
{
    match raw {
        None => default,
        Some(s) => {
            let t = trim_chars(&str_chars(s));
            match parse_u64(&t) {
                Some(n) => n,
                None => default,
            }
        },
    }
}

pub fn positive_u64_setting(raw: Option<&str>, default: u64) -> (r: u64)
    ensures
        r == spec_positive_u64_setting(opt_view(raw), default),
{
    match raw {
        None => default,
        Some(s) => {
            let t = trim_chars(&str_chars(s));
            match parse_u64(&t) {
                Some(n) => if n > 0 {
                    n
                } else {
                    default
                },
                None => default,
            }
        },
    }
}

/// Seconds of freshness for cached registry metadata (default 6 hours).
pub fn metadata_ttl_secs(raw: Option<&str>) -> (r: u64)
    ensures
        r == spec_u64_setting(opt_view(raw), 21600),
{
    u64_setting(raw, 21600)
}

/// Oldest cached metadata that may still stand in for a failed refresh
/// (default 24 hours; zero means the default).
pub fn metadata_max_stale_fallback_secs(raw: Option<&str>) -> (r: u64)
    ensures
        r == spec_positive_u64_setting(opt_view(raw), 86400),
{
    positive_u64_setting(raw, 86400)
}

/// Cool-down before retrying a refresh that failed (default 30 seconds).
pub fn metadata_stale_retry_ttl_secs(raw: Option<&str>) -> (r: u64)
    ensures
        r == spec_positive_u64_setting(opt_view(raw), 30),
{
    positive_u64_setting(raw, 30)
}

/// Concurrent metadata requests (default 24).
pub fn metadata_concurrency_limit(raw: Option<&str>) -> (r: u64)
    ensures
        r == spec_positive_u64_setting(opt_view(raw), 24),
{
    positive_u64_setting(raw, 24)
}

/// Concurrent tarball downloads (default 24).
pub fn download_concurrency_limit(raw: Option<&str>) -> (r: u64)
    ensures
        r == spec_positive_u64_setting(opt_view(raw), 24),
{
    positive_u64_setting(raw, 24)
}

/// Interval between shared-cache garbage collections (default 6 hours).
pub fn shared_cache_prune_interval_secs(raw: Option<&str>) -> (r: u64)
    ensures
        r == spec_positive_u64_setting(opt_view(raw), 21600),
{
    positive_u64_setting(raw, 21600)
}

/// Age after which shared-cache entries are collected (default 7 days).
pub fn shared_cache_max_age_secs(raw: Option<&str>) -> (r: u64)
    ensures
        r == spec_positive_u64_setting(opt_view(raw), 604800),
{
    positive_u64_setting(raw, 604800)
}

/// Size quota of the shared cache in bytes (default 2 GiB; zero disables
/// the quota).
pub fn shared_cache_max_bytes(raw: Option<&str>) -> (r: u64)
    ensures
        r == spec_u64_setting(opt_view(raw), 2147483648),
{
    u64_setting(raw, 2147483648)
}

/// Lifecycle script timeout in seconds: the untrimmed value parsed as `u64`,
/// positive, else 300.
pub fn lifecycle_timeout_secs(raw: Option<&str>) -> (r: u64)
    ensures
        r == match opt_view(raw) {
            Some(v) => match spec_parse_u64(v) {
                Some(n) => if n > 0 { n } else { 300 },
                None => 300,
            },
            None => 300,
        },
{
    match raw {
        None => 300,
        Some(s) => match parse_u64(&str_chars(s)) {
            Some(n) => if n > 0 {
                n
            } else {
                300
            },
            None => 300,
        },
    }
}

/// Pipeline task concurrency: a positive override, else the download
/// concurrency plus the extract concurrency (at least 1).
pub fn pipeline_task_concurrency_limit(
    raw: Option<&str>,
    download_concurrency: u64,
    extract_concurrency: u64,
) -> (r: u64)
    requires
        download_concurrency + extract_concurrency <= u64::MAX,
    ensures
        r == spec_positive_u64_setting(
            opt_view(raw),
            if download_concurrency + extract_concurrency == 0 {
                1
            } else {
                (download_concurrency + extract_concurrency) as u64
            },
        ),
{
    let sum = download_concurrency + extract_concurrency;
    let fallback = if sum == 0 {
        1
    } else {
        sum
    };
    positive_u64_setting(raw, fallback)
}

} // verus!
