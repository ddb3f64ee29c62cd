//! Dependency-provider policies: release-age gate, npm `time` parsing,
//! `npm:` alias specs and platform (`os`/`cpu`) filters.

use vstd::prelude::*;
use crate::native::npm_registry::{PackageMetadata, VersionInfo, lookup_entry, spec_lookup};
use crate::text::{
    find_char, find_char_index, parse_u64, rfind_char, rfind_char_index, spec_parse_u64,
    split_char, split_chars, str_chars, string_append, string_from_chars, sub_chars, trim,
    trim_chars, trim_end_char, trim_end_char_chars, u64_to_decimal, vecs_view, starts_with,
    chars_starts_with, slice_to_vec, spec_decimal, str_to_string, strings_view,
};

verus! {

/// Age-gate policy: minimum age in hours, plus whether versions without a
/// registry timestamp are kept.
#[derive(Debug, Clone, Copy, PartialEq, Eq)]
pub struct AgePolicy {
    pub cutoff_hours: u64,
    pub allow_missing_time: bool,
}

/// Calendar fields of an npm `time` value (`YYYY-MM-DDTHH:MM:SS[.fff][Z]`)
/// after range checks: year, month, day, hour, minute, second.
pub open spec fn npm_time_fields(raw: Seq<char>) -> Option<(u64, u64, u64, u64, u64, u64)> {
    let n = trim_end_char(raw, 'Z');
    match find_char(n, 'T') {
        None => None,
        Some(t) => {
            let dp = split_char(n.take(t), '-');
            let tp = split_char(split_char(n.skip(t + 1), '.')[0], ':');
            if dp.len() < 3 || tp.len() < 3 {
                None
            } else {
                match (
                    spec_parse_u64(dp[0]),
                    spec_parse_u64(dp[1]),
                    spec_parse_u64(dp[2]),
                    spec_parse_u64(tp[0]),
                    spec_parse_u64(tp[1]),
                    spec_parse_u64(tp[2]),
                ) {
                    (Some(y), Some(m), Some(d), Some(hh), Some(mm), Some(ss)) => {
                        if 1 <= m <= 12 && 1 <= d <= 31 && hh <= 23 && mm <= 59 && ss <= 60 {
                            Some((y, m, d, hh, mm, ss))
                        } else {
                            None
                        }
                    },
                    _ => None,
                }
            }
        },
    }
}

/// Days from the civil date 1970-01-01 (proleptic Gregorian calendar),
/// split into the partial sums the computation goes through.
pub open spec fn civil_era_part(y: u64, m: u64, d: u64) -> int {
    let y_adj: int = if m <= 2 { y - 1 } else { y as int };
    let era = y_adj / 400;
    let yoe = y_adj - era * 400;
    let mp = (m + 9) % 12;
    let doy = (153 * mp + 2) / 5 + d - 1;
    let doe = yoe * 365 + yoe / 4 - yoe / 100 + doy;
    era * 146097 + doe
}

pub open spec fn civil_days(y: u64, m: u64, d: u64) -> int {
    civil_era_part(y, m, d) - 719468
}

pub open spec fn npm_time_secs(f: (u64, u64, u64, u64, u64, u64)) -> int {
    civil_days(f.0, f.1, f.2) * 86400 + f.3 * 3600 + f.4 * 60 + f.5
}

/// The field values for which the unsigned arithmetic of the conversion
/// neither underflows nor overflows.
pub open spec fn npm_time_computable(f: (u64, u64, u64, u64, u64, u64)) -> bool {
    &&& !(f.0 == 0 && f.1 <= 2)
    &&& civil_era_part(f.0, f.1, f.2) <= u64::MAX
    &&& civil_days(f.0, f.1, f.2) >= 0
    &&& npm_time_secs(f) <= u64::MAX
}

/// The unix seconds of an npm `time` value, when it has the npm form and
/// denotes an instant from the epoch on that fits in `u64`; otherwise it
/// is unparseable (`None`).
pub open spec fn spec_parse_npm_time(raw: Seq<char>) -> Option<u64> {
    match npm_time_fields(raw) {
        Some(f) => if npm_time_computable(f) {
            Some(npm_time_secs(f) as u64)
        } else {
            None
        },
        None => None,
    }
}

/// A well-formed npm time before the unix epoch has no unix-seconds value:
/// it does not parse (and the conversion neither panics nor wraps).
pub proof fn law_npm_time_before_epoch_is_none(raw: Seq<char>)
    requires
        npm_time_fields(raw) matches Some(f) && (f.0 == 0 && f.1 <= 2 || civil_days(f.0, f.1, f.2) < 0),
    ensures
        spec_parse_npm_time(raw) is None,
{
}

proof fn lemma_split_nonempty(cur: Seq<char>, s: Seq<char>, sep: char)
    ensures
        crate::text::split_from(cur, s, sep).len() >= 1,
    decreases s.len(),
{
    if s.len() > 0 {
        if s[0] == sep {
            lemma_split_nonempty(Seq::empty(), s.drop_first(), sep);
        } else {
            lemma_split_nonempty(cur.push(s[0]), s.drop_first(), sep);
        }
    }
}

/// Parses an npm `time` value to unix seconds; `None` when it is not of the
/// form `YYYY-MM-DDTHH:MM:SS` (fraction and trailing `Z` optional), a field
/// is out of range, or the instant lies before the epoch or past `u64`
/// seconds.
pub fn parse_npm_time(raw: &str) -> (r: Option<u64>)
    ensures
        r == spec_parse_npm_time(raw@),
{
    let chars = str_chars(raw);
    let n = trim_end_char_chars(&chars, 'Z');
    let t = match find_char_index(&n, 'T') {
        Some(t) => t,
        None => return None,
    };
    let date = sub_chars(&n, 0, t);
    let time = sub_chars(&n, t + 1, n.len());
    proof {
        assert(date@ == n@.take(t as int));
        assert(time@ == n@.skip(t + 1));
    }
    let dp = split_chars(&date, '-');
    let tdot = split_chars(&time, '.');
    proof {
        lemma_split_nonempty(Seq::empty(), time@, '.');
        assert(vecs_view(tdot@)[0] == tdot@[0]@);
    }
    let tp = split_chars(&tdot[0], ':');
    if dp.len() < 3 || tp.len() < 3 {
        return None;
    }
    proof {
        assert(vecs_view(dp@)[0] == dp@[0]@);
        assert(vecs_view(dp@)[1] == dp@[1]@);
        assert(vecs_view(dp@)[2] == dp@[2]@);
        assert(vecs_view(tp@)[0] == tp@[0]@);
        assert(vecs_view(tp@)[1] == tp@[1]@);
        assert(vecs_view(tp@)[2] == tp@[2]@);
    }
    let y = match parse_u64(&dp[0]) { Some(v) => v, None => return None };
    let m = match parse_u64(&dp[1]) { Some(v) => v, None => return None };
    let d = match parse_u64(&dp[2]) { Some(v) => v, None => return None };
    let hh = match parse_u64(&tp[0]) { Some(v) => v, None => return None };
    let mm = match parse_u64(&tp[1]) { Some(v) => v, None => return None };
    let ss = match parse_u64(&tp[2]) { Some(v) => v, None => return None };
    if !(1 <= m && m <= 12) || d == 0 || d > 31 || hh > 23 || mm > 59 || ss > 60 {
        return None;
    }
    if y == 0 && m <= 2 {
        return None;
    }
    let y_adj: i128 = if m <= 2 { y as i128 - 1 } else { y as i128 };
    let era: i128 = y_adj / 400;
    let yoe: i128 = y_adj - era * 400;
    let mp: i128 = (m as i128 + 9) % 12;
    let doy: i128 = (153 * mp + 2) / 5 + d as i128 - 1;
    let doe: i128 = yoe * 365 + yoe / 4 - yoe / 100 + doy;
    let era_part: i128 = era * 146097 + doe;
    if era_part > u64::MAX as i128 {
        return None;
    }
    let days: i128 = era_part - 719468;
    if days < 0 {
        return None;
    }
    let secs: i128 = days * 86400 + hh as i128 * 3600 + mm as i128 * 60 + ss as i128;
    if secs > u64::MAX as i128 {
        return None;
    }
    proof {
        let f = (y, m, d, hh, mm, ss);
        assert(era_part == civil_era_part(y, m, d));
        assert(days == civil_days(y, m, d));
        assert(secs == npm_time_secs(f));
        assert(npm_time_computable(f));
    }
    Some(secs as u64)
}

} // verus!

verus! {

pub enum AgeVerdict {
    Eligible,
    TooYoung,
    Unstamped,
}

/// The age gate for one version: `published` is its parsed timestamp.
pub open spec fn age_verdict(published: Option<u64>, now: u64, policy: AgePolicy) -> AgeVerdict {
    match published {
        Some(ts) => {
            let age: int = if now >= ts { now - ts } else { 0 };
            let cutoff: int = if policy.cutoff_hours * 3600 > u64::MAX {
                u64::MAX as int
            } else {
                policy.cutoff_hours * 3600
            };
            if age >= cutoff {
                AgeVerdict::Eligible
            } else {
                AgeVerdict::TooYoung
            }
        },
        None => if policy.allow_missing_time {
            AgeVerdict::Eligible
        } else {
            AgeVerdict::Unstamped
        },
    }
}

/// The parsed registry timestamp of `version` in a packument.
pub open spec fn published_at(meta: PackageMetadata, version: Seq<char>) -> Option<u64> {
    match spec_lookup(meta.time@, version) {
        Some(text) => spec_parse_npm_time(text@),
        None => None,
    }
}

proof fn lemma_lookup_in(entries: Seq<(String, String)>, key: Seq<char>)
    ensures
        spec_lookup(entries, key) matches Some(v) ==> exists|i: int|
            0 <= i < entries.len() && #[trigger] entries[i].1 == v,
    decreases entries.len(),
{
    if entries.len() > 0 && entries[0].0@ != key {
        lemma_lookup_in(entries.drop_first(), key);
        if spec_lookup(entries, key) is Some {
            let v = spec_lookup(entries, key)->0;
            let i = choose|i: int| 0 <= i < entries.drop_first().len() && #[trigger] entries.drop_first()[i].1 == v;
            assert(entries[i + 1].1 == v);
        }
    } else if entries.len() > 0 {
        assert(entries[0].1 == entries[0].1);
    }
}

fn published_time(meta: &PackageMetadata, version: &str) -> (r: Option<u64>)
    ensures
        r == published_at(*meta, version@),
{
    match lookup_entry(&meta.time, version) {
        Some(text) => {
            proof {
                lemma_lookup_in(meta.time@, version@);
            }
            parse_npm_time(text.as_str())
        },
        None => None,
    }
}

fn age_verdict_of(published: Option<u64>, now: u64, policy: AgePolicy) -> (r: AgeVerdict)
    ensures
        r == age_verdict(published, now, policy),
{
    match published {
        Some(ts) => {
            let cutoff_secs: u64 = if policy.cutoff_hours > u64::MAX / 3600 {
                u64::MAX
            } else {
                policy.cutoff_hours * 3600
            };
            if now.saturating_sub(ts) >= cutoff_secs {
                AgeVerdict::Eligible
            } else {
                AgeVerdict::TooYoung
            }
        },
        None => if policy.allow_missing_time {
            AgeVerdict::Eligible
        } else {
            AgeVerdict::Unstamped
        },
    }
}

pub open spec fn too_young_message(package: Seq<char>, version: Seq<char>, cutoff: u64) -> Seq<char> {
    "minimum-release-age: "@ + package + "@"@ + version + " is younger than "@ + spec_decimal(
        cutoff as nat,
    ) + "h — pin an older version explicitly or relax [security] min_release_age"@
}

pub open spec fn unstamped_message(package: Seq<char>, version: Seq<char>) -> Seq<char> {
    "minimum-release-age: "@ + package + "@"@ + version
        + " has no registry timestamp — set [security] allow_missing_time for private registries"@
}

/// Outcome of checking one explicitly chosen version at time `now`.
pub open spec fn spec_check_pinned(
    package: Seq<char>,
    meta: PackageMetadata,
    version: Seq<char>,
    policy: Option<AgePolicy>,
    now: u64,
) -> Result<(), Seq<char>> {
    match policy {
        Some(p) if p.cutoff_hours > 0 => match age_verdict(published_at(meta, version), now, p) {
            AgeVerdict::Eligible => Ok(()),
            AgeVerdict::TooYoung => Err(too_young_message(package, version, p.cutoff_hours)),
            AgeVerdict::Unstamped => Err(unstamped_message(package, version)),
        },
        _ => Ok(()),
    }
}

pub open spec fn result_view(r: Result<(), String>) -> Result<(), Seq<char>> {
    match r {
        Ok(()) => Ok(()),
        Err(e) => Err(e@),
    }
}

/// Checks one explicitly selected version against the age policy at `now`.
pub fn check_pinned_version_at(
    package: &str,
    meta: &PackageMetadata,
    version: &str,
    policy: Option<AgePolicy>,
    now: u64,
) -> (r: Result<(), String>)
    ensures
        result_view(r) == spec_check_pinned(package@, *meta, version@, policy, now),
{
    let p = match policy {
        Some(p) => p,
        None => return Ok(()),
    };
    if p.cutoff_hours == 0 {
        return Ok(());
    }
    match age_verdict_of(published_time(meta, version), now, p) {
        AgeVerdict::Eligible => Ok(()),
        AgeVerdict::TooYoung => {
            let mut m = str_to_string("minimum-release-age: ");
            string_append(&mut m, package);
            string_append(&mut m, "@");
            string_append(&mut m, version);
            string_append(&mut m, " is younger than ");
            crate::text::push_decimal(&mut m, p.cutoff_hours);
            string_append(
                &mut m,
                "h — pin an older version explicitly or relax [security] min_release_age",
            );
            Err(m)
        },
        AgeVerdict::Unstamped => {
            let mut m = str_to_string("minimum-release-age: ");
            string_append(&mut m, package);
            string_append(&mut m, "@");
            string_append(&mut m, version);
            string_append(
                &mut m,
                " has no registry timestamp — set [security] allow_missing_time for private registries",
            );
            Err(m)
        },
    }
}

/// Checks one explicitly selected version (dist-tag pin, add-latest, update
/// target) against the age policy at the current time.
pub fn check_pinned_version(
    package: &str,
    meta: &PackageMetadata,
    version: &str,
    policy: Option<AgePolicy>,
) -> (r: Result<(), String>)
    ensures
        exists|now: u64| result_view(r) == spec_check_pinned(package@, *meta, version@, policy, now),
{
    let now = crate::cache::current_unix_secs();
    check_pinned_version_at(package, meta, version, policy, now)
}

} // verus!

verus! {

pub open spec fn is_eligible(meta: PackageMetadata, v: String, p: AgePolicy, now: u64) -> bool {
    age_verdict(published_at(meta, v@), now, p) == AgeVerdict::Eligible
}

/// Candidates (in order) that pass the age gate.
pub open spec fn kept_versions(
    cands: Seq<String>,
    meta: PackageMetadata,
    p: AgePolicy,
    now: u64,
) -> Seq<String>
    decreases cands.len(),
{
    if cands.len() == 0 {
        Seq::empty()
    } else {
        let rest = kept_versions(cands.drop_last(), meta, p, now);
        if is_eligible(meta, cands.last(), p, now) {
            rest.push(cands.last())
        } else {
            rest
        }
    }
}

/// Number of candidates with the given verdict.
pub open spec fn count_verdict(
    cands: Seq<String>,
    meta: PackageMetadata,
    p: AgePolicy,
    now: u64,
    which: AgeVerdict,
) -> nat
    decreases cands.len(),
{
    if cands.len() == 0 {
        0
    } else {
        count_verdict(cands.drop_last(), meta, p, now, which) + if age_verdict(
            published_at(meta, cands.last()@),
            now,
            p,
        ) == which {
            1nat
        } else {
            0nat
        }
    }
}

pub open spec fn all_excluded_message(
    total: nat,
    package: Seq<char>,
    young: nat,
    unstamped: nat,
) -> Seq<char> {
    "minimum-release-age: all "@ + spec_decimal(total) + " version(s) of "@ + package + " excluded ("@
        + spec_decimal(young) + " too young, "@ + spec_decimal(unstamped)
        + " unstamped) — relax [security] min_release_age, set allow_missing_time, or pin an older version explicitly"@
}

/// Version list with the minimum-age gate applied at time `now`.
/// `candidates` are the packument's version keys that are valid versions.
pub open spec fn spec_eligible_versions(
    package: Seq<char>,
    meta: PackageMetadata,
    candidates: Seq<String>,
    policy: Option<AgePolicy>,
    now: u64,
) -> Result<Seq<String>, Seq<char>> {
    match policy {
        Some(p) if p.cutoff_hours > 0 => {
            let kept = kept_versions(candidates, meta, p, now);
            if kept.len() == 0 && meta.versions@.len() > 0 {
                Err(
                    all_excluded_message(
                        meta.versions@.len(),
                        package,
                        count_verdict(candidates, meta, p, now, AgeVerdict::TooYoung),
                        count_verdict(candidates, meta, p, now, AgeVerdict::Unstamped),
                    ),
                )
            } else {
                Ok(kept)
            }
        },
        _ => Ok(candidates),
    }
}

pub open spec fn versions_result_view(r: Result<Vec<String>, String>) -> Result<Seq<String>, Seq<char>> {
    match r {
        Ok(v) => Ok(v@),
        Err(e) => Err(e@),
    }
}

fn clone_strings(v: &Vec<String>) -> (r: Vec<String>)
    ensures
        r@ == v@,
{
    let mut r: Vec<String> = Vec::new();
    let mut i: usize = 0;
    while i < v.len()
        invariant
            i <= v.len(),
            r@ == v@.take(i as int),
        decreases v.len() - i,
    {
        r.push(v[i].clone());
        proof {
            assert(v@.take(i + 1) == v@.take(i as int).push(v@[i as int]));
        }
        i = i + 1;
    }
    proof {
        assert(v@.take(v@.len() as int) == v@);
    }
    r
}

pub fn eligible_versions_at(
    package: &str,
    meta: &PackageMetadata,
    candidates: &Vec<String>,
    policy: Option<AgePolicy>,
    now: u64,
) -> (r: Result<Vec<String>, String>)
    ensures
        versions_result_view(r) == spec_eligible_versions(package@, *meta, candidates@, policy, now),
{
    let p = match policy {
        Some(p) => p,
        None => return Ok(clone_strings(candidates)),
    };
    if p.cutoff_hours == 0 {
        return Ok(clone_strings(candidates));
    }
    let mut kept: Vec<String> = Vec::new();
    let mut young: u64 = 0;
    let mut unstamped: u64 = 0;
    let mut i: usize = 0;
    while i < candidates.len()
        invariant
            i <= candidates.len(),
            p.cutoff_hours > 0,
            young <= i,
            unstamped <= i,
            kept@ == kept_versions(candidates@.take(i as int), *meta, p, now),
            young == count_verdict(candidates@.take(i as int), *meta, p, now, AgeVerdict::TooYoung),
            unstamped == count_verdict(
                candidates@.take(i as int),
                *meta,
                p,
                now,
                AgeVerdict::Unstamped,
            ),
        decreases candidates.len() - i,
    {
        let v = &candidates[i];
        let verdict = age_verdict_of(published_time(meta, v.as_str()), now, p);
        proof {
            assert(candidates@.take(i + 1).drop_last() == candidates@.take(i as int));
            assert(candidates@.take(i + 1).last() == candidates@[i as int]);
        }
        match verdict {
            AgeVerdict::Eligible => {
                kept.push(v.clone());
            },
            AgeVerdict::TooYoung => {
                young = young + 1;
            },
            AgeVerdict::Unstamped => {
                unstamped = unstamped + 1;
            },
        }
        i = i + 1;
    }
    proof {
        assert(candidates@.take(candidates@.len() as int) == candidates@);
    }
    if kept.len() == 0 && meta.versions.len() > 0 {
        let mut m = str_to_string("minimum-release-age: all ");
        crate::text::push_decimal(&mut m, meta.versions.len() as u64);
        string_append(&mut m, " version(s) of ");
        string_append(&mut m, package);
        string_append(&mut m, " excluded (");
        crate::text::push_decimal(&mut m, young);
        string_append(&mut m, " too young, ");
        crate::text::push_decimal(&mut m, unstamped);
        string_append(
            &mut m,
            " unstamped) — relax [security] min_release_age, set allow_missing_time, or pin an older version explicitly",
        );
        return Err(m);
    }
    Ok(kept)
}

/// The age gate applied to a version list at the current time.
pub fn eligible_versions(
    package: &str,
    meta: &PackageMetadata,
    candidates: &Vec<String>,
    policy: Option<AgePolicy>,
) -> (r: Result<Vec<String>, String>)
    ensures
        exists|now: u64|
            versions_result_view(r) == spec_eligible_versions(
                package@,
                *meta,
                candidates@,
                policy,
                now,
            ),
{
    let now = crate::cache::current_unix_secs();
    eligible_versions_at(package, meta, candidates, policy, now)
}

} // verus!

verus! {

/// `npm:<package>@<range>` alias specs: the package is everything before the
/// last `@` (which may not be the first character), the range everything
/// after it; both must be non-blank.
pub open spec fn spec_parse_alias(spec: Seq<char>) -> Option<(Seq<char>, Seq<char>)> {
    let prefix = seq!['n', 'p', 'm', ':'];
    if !starts_with(spec, prefix) {
        None
    } else {
        let rem = spec.skip(4);
        match rfind_char(rem, '@') {
            None => None,
            Some(at) => {
                let package = rem.take(at);
                let range = rem.skip(at + 1);
                if at == 0 || trim(package).len() == 0 || trim(range).len() == 0 {
                    None
                } else {
                    Some((package, range))
                }
            },
        }
    }
}

pub open spec fn pair_view(r: Option<(String, String)>) -> Option<(Seq<char>, Seq<char>)> {
    match r {
        Some((a, b)) => Some((a@, b@)),
        None => None,
    }
}

proof fn lemma_rfind_bound(s: Seq<char>, c: char)
    ensures
        rfind_char(s, c) matches Some(i) ==> 0 <= i < s.len(),
    decreases s.len(),
{
    if s.len() > 0 && s.last() != c {
        lemma_rfind_bound(s.drop_last(), c);
    }
}

/// Splits an `npm:` alias spec into target package and range.
pub fn parse_alias_spec(spec: &str) -> (r: Option<(String, String)>)
    ensures
        pair_view(r) == spec_parse_alias(spec@),
{
    let chars = str_chars(spec);
    let prefix = slice_to_vec(&['n', 'p', 'm', ':']);
    proof {
        assert(prefix@ == seq!['n', 'p', 'm', ':']);
    }
    if !chars_starts_with(&chars, &prefix) {
        return None;
    }
    let rem = sub_chars(&chars, 4, chars.len());
    proof {
        assert(rem@ == chars@.skip(4));
    }
    let at = match rfind_char_index(&rem, '@') {
        Some(at) => at,
        None => return None,
    };
    proof {
        lemma_rfind_bound(rem@, '@');
    }
    if at == 0 {
        return None;
    }
    let package = sub_chars(&rem, 0, at);
    let range = sub_chars(&rem, at + 1, rem.len());
    proof {
        assert(package@ == rem@.take(at as int));
        assert(range@ == rem@.skip(at + 1));
    }
    if trim_chars(&package).len() == 0 || trim_chars(&range).len() == 0 {
        return None;
    }
    Some((string_from_chars(&package), string_from_chars(&range)))
}

pub open spec fn is_negated(rule: Seq<char>) -> bool {
    rule.len() > 0 && rule[0] == '!'
}

/// npm `os`/`cpu` filter: rules `!x` exclude `x`; if any positive rule
/// exists, `current` must be one of them. No rules means any platform.
pub open spec fn spec_platform_matches(rules: Option<Seq<Seq<char>>>, current: Seq<char>) -> bool {
    match rules {
        None => true,
        Some(rs) => {
            ||| rs.len() == 0
            ||| {
                &&& !(exists|i: int| 0 <= i < rs.len() && is_negated(rs[i]) && #[trigger] rs[i].drop_first() == current)
                &&& (!(exists|i: int| 0 <= i < rs.len() && !is_negated(#[trigger] rs[i]))
                    || exists|i: int| 0 <= i < rs.len() && !is_negated(rs[i]) && #[trigger] rs[i] == current)
            }
        },
    }
}

pub fn platform_matches(rules: Option<&Vec<String>>, current: &str) -> (r: bool)
    ensures
        r == spec_platform_matches(
            match rules {
                Some(v) => Some(strings_view(v@)),
                None => None,
            },
            current@,
        ),
{
    let rules = match rules {
        None => return true,
        Some(v) => v,
    };
    let ghost rs = strings_view(rules@);
    if rules.len() == 0 {
        return true;
    }
    let cur = str_chars(current);
    let mut neg_hit = false;
    let mut has_pos = false;
    let mut pos_hit = false;
    let mut i: usize = 0;
    while i < rules.len()
        invariant
            i <= rules.len(),
            rs == strings_view(rules@),
            cur@ == current@,
            neg_hit == exists|k: int| 0 <= k < i && is_negated(rs[k]) && #[trigger] rs[k].drop_first() == current@,
            has_pos == exists|k: int| 0 <= k < i && !is_negated(#[trigger] rs[k]),
            pos_hit == exists|k: int| 0 <= k < i && !is_negated(rs[k]) && #[trigger] rs[k] == current@,
        decreases rules.len() - i,
    {
        let rule = str_chars(rules[i].as_str());
        proof {
            assert(rs[i as int] == rule@);
        }
        if rule.len() > 0 && rule[0] == '!' {
            let body = sub_chars(&rule, 1, rule.len());
            proof {
                assert(body@ == rule@.drop_first());
            }
            if crate::text::chars_eq(&body, &cur) {
                neg_hit = true;
            }
        } else {
            has_pos = true;
            if crate::text::chars_eq(&rule, &cur) {
                pos_hit = true;
            }
        }
        i = i + 1;
    }
    !neg_hit && (!has_pos || pos_hit)
}

/// npm's name for the operating system Rust calls `rust_os`.
pub open spec fn spec_npm_os(rust_os: Seq<char>) -> Seq<char> {
    if rust_os == "macos"@ {
        "darwin"@
    } else if rust_os == "windows"@ {
        "win32"@
    } else {
        rust_os
    }
}

/// npm's name for the architecture Rust calls `rust_arch`.
pub open spec fn spec_npm_cpu(rust_arch: Seq<char>) -> Seq<char> {
    if rust_arch == "x86_64"@ {
        "x64"@
    } else if rust_arch == "aarch64"@ {
        "arm64"@
    } else if rust_arch == "x86"@ {
        "ia32"@
    } else if rust_arch == "powerpc64"@ {
        "ppc64"@
    } else if rust_arch == "loongarch64"@ {
        "loong64"@
    } else {
        rust_arch
    }
}

fn str_is(a: &str, b: &str) -> (r: bool)
    ensures
        r == (a@ == b@),
{
    crate::text::chars_eq(&str_chars(a), &str_chars(b))
}

pub fn current_npm_os(rust_os: &str) -> (r: String)
    ensures
        r@ == spec_npm_os(rust_os@),
{
    if str_is(rust_os, "macos") {
        str_to_string("darwin")
    } else if str_is(rust_os, "windows") {
        str_to_string("win32")
    } else {
        str_to_string(rust_os)
    }
}

pub fn current_npm_cpu(rust_arch: &str) -> (r: String)
    ensures
        r@ == spec_npm_cpu(rust_arch@),
{
    if str_is(rust_arch, "x86_64") {
        str_to_string("x64")
    } else if str_is(rust_arch, "aarch64") {
        str_to_string("arm64")
    } else if str_is(rust_arch, "x86") {
        str_to_string("ia32")
    } else if str_is(rust_arch, "powerpc64") {
        str_to_string("ppc64")
    } else if str_is(rust_arch, "loongarch64") {
        str_to_string("loong64")
    } else {
        str_to_string(rust_arch)
    }
}

/// Platform suffix of a known native-binary optional package, by prefix
/// (checked in this order).
pub open spec fn native_binary_target(name: Seq<char>) -> Option<Seq<char>> {
    if starts_with(name, "@esbuild/"@) {
        Some(name.skip("@esbuild/"@.len() as int))
    } else if starts_with(name, "@next/swc-"@) {
        Some(name.skip("@next/swc-"@.len() as int))
    } else if starts_with(name, "@swc/core-"@) {
        Some(name.skip("@swc/core-"@.len() as int))
    } else if starts_with(name, "@rollup/rollup-"@) {
        Some(name.skip("@rollup/rollup-"@.len() as int))
    } else if starts_with(name, "@tailwindcss/oxide-"@) {
        Some(name.skip("@tailwindcss/oxide-"@.len() as int))
    } else if starts_with(name, "lightningcss-"@) {
        Some(name.skip("lightningcss-"@.len() as int))
    } else if starts_with(name, "@parcel/watcher-"@) {
        Some(name.skip("@parcel/watcher-"@.len() as int))
    } else {
        None
    }
}

/// Whether a known native-binary optional dependency targets this platform
/// (`<os>-<cpu>` prefix); `None` for packages not in the known families.
pub open spec fn spec_known_native_supported(name: Seq<char>, os: Seq<char>, cpu: Seq<char>) -> Option<bool> {
    match native_binary_target(name) {
        Some(t) => Some(starts_with(t, os + "-"@ + cpu)),
        None => None,
    }
}

fn strip_prefix_str(name: &Vec<char>, prefix: &str) -> (r: Option<Vec<char>>)
    ensures
        match r {
            Some(t) => starts_with(name@, prefix@) && t@ == name@.skip(prefix@.len() as int),
            None => !starts_with(name@, prefix@),
        },
{
    let p = str_chars(prefix);
    if chars_starts_with(name, &p) {
        Some(sub_chars(name, p.len(), name.len()))
    } else {
        None
    }
}

pub fn known_optional_native_binary_supported(
    package: &str,
    npm_os: &str,
    npm_cpu: &str,
) -> (r: Option<bool>)
    ensures
        r == spec_known_native_supported(package@, npm_os@, npm_cpu@),
{
    let name = str_chars(package);
    let target = match strip_prefix_str(&name, "@esbuild/") {
        Some(t) => t,
        None => match strip_prefix_str(&name, "@next/swc-") {
            Some(t) => t,
            None => match strip_prefix_str(&name, "@swc/core-") {
                Some(t) => t,
                None => match strip_prefix_str(&name, "@rollup/rollup-") {
                    Some(t) => t,
                    None => match strip_prefix_str(&name, "@tailwindcss/oxide-") {
                        Some(t) => t,
                        None => match strip_prefix_str(&name, "lightningcss-") {
                            Some(t) => t,
                            None => match strip_prefix_str(&name, "@parcel/watcher-") {
                                Some(t) => t,
                                None => return None,
                            },
                        },
                    },
                },
            },
        },
    };
    let mut expected = str_to_string(npm_os);
    string_append(&mut expected, "-");
    string_append(&mut expected, npm_cpu);
    let e = str_chars(expected.as_str());
    Some(chars_starts_with(&target, &e))
}

/// A version runs here when its `os` and `cpu` rules both admit the
/// current platform.
pub fn version_supported(info: &VersionInfo, npm_os: &str, npm_cpu: &str) -> (r: bool)
    ensures
        r == (spec_platform_matches(opt_strings(info.os), npm_os@) && spec_platform_matches(
            opt_strings(info.cpu),
            npm_cpu@,
        )),
{
    platform_matches(info.os.as_ref(), npm_os) && platform_matches(info.cpu.as_ref(), npm_cpu)
}

pub open spec fn opt_strings(o: Option<Vec<String>>) -> Option<Seq<Seq<char>>> {
    match o {
        Some(v) => Some(strings_view(v@)),
        None => None,
    }
}

/// The package whose document an alias stands for: its recorded target,
/// or the name itself.
pub open spec fn spec_source_package(alias_targets: Seq<(String, String)>, name: Seq<char>) -> Seq<char> {
    match spec_lookup(alias_targets, name) {
        Some(t) => t@,
        None => name,
    }
}

pub fn source_package_name(alias_targets: &Vec<(String, String)>, name: &str) -> (r: String)
    ensures
        r@ == spec_source_package(alias_targets@, name@),
{
    match lookup_entry(alias_targets, name) {
        Some(t) => str_to_string(t.as_str()),
        None => str_to_string(name),
    }
}

/// A dependency edge read from a version's manifest. For an `npm:` alias,
/// `spec` is the range after the target and `alias_target` the package the
/// alias stands for.
#[derive(Debug, Clone)]
pub struct DepRequest {
    pub package: String,
    pub spec: String,
    pub optional: bool,
    pub peer: bool,
    pub alias_target: Option<String>,
}

pub open spec fn dep_request_view(d: DepRequest) -> (Seq<char>, Seq<char>, bool, bool, Option<Seq<char>>) {
    (
        d.package@,
        d.spec@,
        d.optional,
        d.peer,
        match d.alias_target {
            Some(t) => Some(t@),
            None => None,
        },
    )
}

/// The edge of one manifest entry.
pub open spec fn edge_of(entry: (Seq<char>, Seq<char>), optional: bool, peer: bool) -> (
    Seq<char>,
    Seq<char>,
    bool,
    bool,
    Option<Seq<char>>,
) {
    match spec_parse_alias(entry.1) {
        Some((target, range)) => (entry.0, range, optional, peer, Some(target)),
        None => (entry.0, entry.1, optional, peer, None),
    }
}

pub open spec fn entries_view(o: Option<Vec<(String, String)>>) -> Seq<(Seq<char>, Seq<char>)> {
    match o {
        Some(v) => v@.map_values(|e: (String, String)| (e.0@, e.1@)),
        None => Seq::empty(),
    }
}

pub open spec fn edges_of(entries: Seq<(Seq<char>, Seq<char>)>, optional: bool, peer: bool) -> Seq<
    (Seq<char>, Seq<char>, bool, bool, Option<Seq<char>>),
> {
    entries.map_values(|e: (Seq<char>, Seq<char>)| edge_of(e, optional, peer))
}

/// The edges of a version: its dependencies, then its optional
/// dependencies, then its peer dependencies, each in manifest order.
pub open spec fn version_edges(info: VersionInfo) -> Seq<(Seq<char>, Seq<char>, bool, bool, Option<Seq<char>>)> {
    edges_of(entries_view(info.dependencies), false, false) + edges_of(
        entries_view(info.optional_dependencies),
        true,
        false,
    ) + edges_of(entries_view(info.peer_dependencies), false, true)
}

fn push_edges(
    out: &mut Vec<DepRequest>,
    entries: &Option<Vec<(String, String)>>,
    optional: bool,
    peer: bool,
)
    ensures
        final(out)@.map_values(|d: DepRequest| dep_request_view(d)) == old(out)@.map_values(
            |d: DepRequest| dep_request_view(d),
        ) + edges_of(entries_view(*entries), optional, peer),
{
    let ghost before = out@.map_values(|d: DepRequest| dep_request_view(d));
    let es = match entries {
        Some(v) => v,
        None => {
            proof {
                assert(before + edges_of(entries_view(*entries), optional, peer) =~= before);
            }
            return;
        },
    };
    let ghost ev = entries_view(*entries);
    let mut i: usize = 0;
    proof {
        assert(before + edges_of(ev, optional, peer).take(0) =~= before);
    }
    while i < es.len()
        invariant
            i <= es.len(),
            ev == entries_view(*entries),
            ev.len() == es.len(),
            *entries == Some(*es),
            out@.map_values(|d: DepRequest| dep_request_view(d)) == before + edges_of(ev, optional, peer).take(
                i as int,
            ),
        decreases es.len() - i,
    {
        let (name, spec) = (&es[i].0, &es[i].1);
        let d = match parse_alias_spec(spec.as_str()) {
            Some((target, range)) => DepRequest {
                package: str_to_string(name.as_str()),
                spec: range,
                optional,
                peer,
                alias_target: Some(target),
            },
            None => DepRequest {
                package: str_to_string(name.as_str()),
                spec: str_to_string(spec.as_str()),
                optional,
                peer,
                alias_target: None,
            },
        };
        let ghost prev = out@;
        out.push(d);
        proof {
            assert(ev[i as int] == (name@, spec@));
            assert(dep_request_view(d) == edge_of(ev[i as int], optional, peer));
            assert(out@.map_values(|d: DepRequest| dep_request_view(d)) =~= prev.map_values(
                |d: DepRequest| dep_request_view(d),
            ).push(dep_request_view(d)));
            assert(edges_of(ev, optional, peer).take(i + 1) =~= edges_of(ev, optional, peer).take(
                i as int,
            ).push(edge_of(ev[i as int], optional, peer)));
        }
        i = i + 1;
    }
    proof {
        assert(edges_of(ev, optional, peer).take(es.len() as int) =~= edges_of(ev, optional, peer));
    }
}

/// The dependency edges of a version (see [`version_edges`]). Whether each
/// name is a valid package name is checked by the caller.
pub fn version_dependencies(info: &VersionInfo) -> (r: Vec<DepRequest>)
    ensures
        r@.map_values(|d: DepRequest| dep_request_view(d)) == version_edges(*info),
{
    let mut out: Vec<DepRequest> = Vec::new();
    proof {
        assert(out@.map_values(|d: DepRequest| dep_request_view(d)) =~= Seq::<
            (Seq<char>, Seq<char>, bool, bool, Option<Seq<char>>),
        >::empty());
    }
    push_edges(&mut out, &info.dependencies, false, false);
    push_edges(&mut out, &info.optional_dependencies, true, false);
    push_edges(&mut out, &info.peer_dependencies, false, true);
    proof {
        let e1 = edges_of(entries_view(info.dependencies), false, false);
        let e2 = edges_of(entries_view(info.optional_dependencies), true, false);
        let e3 = edges_of(entries_view(info.peer_dependencies), false, true);
        assert(Seq::<(Seq<char>, Seq<char>, bool, bool, Option<Seq<char>>)>::empty() + e1 + e2 + e3
            =~= e1 + e2 + e3);
    }
    out
}

/// The packages whose documents a prefetch requests: each source that is
/// not cached, once, in order of first appearance (`cached[i]` tells
/// whether `sources[i]` is cached).
pub open spec fn fetch_sources(sources: Seq<Seq<char>>, cached: Seq<bool>) -> Seq<Seq<char>>
    decreases sources.len(),
{
    if sources.len() == 0 {
        Seq::empty()
    } else {
        let r = fetch_sources(sources.drop_last(), cached.drop_last());
        let s = sources.last();
        if cached[sources.len() - 1] || r.contains(s) {
            r
        } else {
            r.push(s)
        }
    }
}

pub fn prefetch_sources(sources: &Vec<String>, cached: &Vec<bool>) -> (r: Vec<String>)
    requires
        sources.len() == cached.len(),
    ensures
        strings_view(r@) == fetch_sources(strings_view(sources@), cached@),
{
    let ghost sv = strings_view(sources@);
    let mut out: Vec<String> = Vec::new();
    let mut seen: Vec<Vec<char>> = Vec::new();
    let mut i: usize = 0;
    proof {
        assert(sv.take(0) =~= Seq::<Seq<char>>::empty());
        assert(cached@.take(0) =~= Seq::<bool>::empty());
    }
    while i < sources.len()
        invariant
            i <= sources.len(),
            sources.len() == cached.len(),
            sv == strings_view(sources@),
            strings_view(out@) == fetch_sources(sv.take(i as int), cached@.take(i as int)),
            vecs_view(seen@) == strings_view(out@),
        decreases sources.len() - i,
    {
        let s = str_chars(sources[i].as_str());
        let ghost r = fetch_sources(sv.take(i as int), cached@.take(i as int));
        proof {
            assert(sv.take(i + 1).drop_last() =~= sv.take(i as int));
            assert(cached@.take(i + 1).drop_last() =~= cached@.take(i as int));
            assert(sv.take(i + 1).last() == s@);
            assert(cached@.take(i + 1)[i as int] == cached@[i as int]);
        }
        let dup = contains_seen(&seen, &s);
        proof {
            assert(dup == r.contains(s@)) by {
                if r.contains(s@) {
                    let k = choose|k: int| 0 <= k < r.len() && r[k] == s@;
                    assert(vecs_view(seen@)[k] == s@);
                }
            }
        }
        if !cached[i] && !dup {
            let ghost before = out@;
            out.push(string_from_chars(&s));
            seen.push(s);
            proof {
                assert(strings_view(out@) =~= strings_view(before).push(s@));
            }
        }
        i = i + 1;
    }
    proof {
        assert(sv.take(sources.len() as int) =~= sv);
        assert(cached@.take(sources.len() as int) =~= cached@);
    }
    out
}

fn contains_seen(items: &Vec<Vec<char>>, x: &Vec<char>) -> (r: bool)
    ensures
        r == vecs_view(items@).contains(x@),
{
    let r = crate::text::contains_chars(items, x);
    proof {
        if vecs_view(items@).contains(x@) {
            let k = choose|k: int| 0 <= k < vecs_view(items@).len() && vecs_view(items@)[k] == x@;
            assert(vecs_view(items@)[k] == x@);
        }
    }
    r
}

/// A prefetch requests each uncached source exactly once: the list has no
/// repeats, holds only uncached sources, and holds every one of them.
pub proof fn law_prefetch_sources_once(sources: Seq<Seq<char>>, cached: Seq<bool>)
    requires
        sources.len() == cached.len(),
    ensures
        forall|a: int, b: int|
            0 <= a < b < fetch_sources(sources, cached).len() ==> fetch_sources(sources, cached)[a]
                != fetch_sources(sources, cached)[b],
        forall|i: int|
            0 <= i < sources.len() && !cached[i] ==> fetch_sources(sources, cached).contains(
                #[trigger] sources[i],
            ),
        forall|s: Seq<char>|
            #[trigger] fetch_sources(sources, cached).contains(s) ==> exists|i: int|
                0 <= i < sources.len() && !cached[i] && sources[i] == s,
    decreases sources.len(),
{
    if sources.len() > 0 {
        let n = sources.len() - 1;
        law_prefetch_sources_once(sources.drop_last(), cached.drop_last());
        let r = fetch_sources(sources.drop_last(), cached.drop_last());
        assert forall|i: int|
            0 <= i < sources.len() && !cached[i] implies fetch_sources(sources, cached).contains(
            #[trigger] sources[i],
        ) by {
            if i < n {
                assert(sources.drop_last()[i] == sources[i]);
                assert(cached.drop_last()[i] == cached[i]);
                assert(r.contains(sources[i]));
                let k = choose|k: int| 0 <= k < r.len() && r[k] == sources[i];
                if !(cached[n] || r.contains(sources.last())) {
                    assert(r.push(sources.last())[k] == sources[i]);
                }
            } else {
                if !r.contains(sources.last()) {
                    assert(r.push(sources.last())[r.len() as int] == sources[i]);
                }
            }
        }
        assert forall|s: Seq<char>| #[trigger] fetch_sources(sources, cached).contains(s) implies exists|i: int|
            0 <= i < sources.len() && !cached[i] && sources[i] == s by {
            let f = fetch_sources(sources, cached);
            let k = choose|k: int| 0 <= k < f.len() && f[k] == s;
            if k < r.len() {
                assert(r[k] == s);
                assert(r.contains(s));
                let i = choose|i: int|
                    0 <= i < sources.drop_last().len() && !cached.drop_last()[i] && sources.drop_last()[i] == s;
                assert(sources[i] == s && !cached[i]);
            } else {
                assert(sources[n] == s && !cached[n]);
            }
        }
    }
}

/// Whether a range admits prereleases: it names one (holds a `-`).
pub open spec fn allows_prerelease(spec: Seq<char>) -> bool {
    spec.contains('-')
}

/// `i` is a candidate of highest rank among those that `pick` admits.
pub open spec fn highest_among(ranks: Seq<u64>, admitted: spec_fn(int) -> bool, i: int) -> bool {
    &&& admitted(i)
    &&& forall|j: int| 0 <= j < ranks.len() && #[trigger] admitted(j) ==> ranks[j] <= ranks[i]
}

/// The choice among candidate versions for a range: `matches[i]` tells
/// whether version `i` satisfies the range, `prerelease[i]` whether it is a
/// prerelease, and `ranks` orders the versions (a higher rank is a newer
/// version). Unless the range names a prerelease, the newest stable match
/// wins when there is one; otherwise the newest match. No match, no
/// choice.
pub fn select_best_version(
    spec: &str,
    matches: &Vec<bool>,
    prerelease: &Vec<bool>,
    ranks: &Vec<u64>,
) -> (r: Option<usize>)
    requires
        matches.len() == ranks.len(),
        prerelease.len() == ranks.len(),
    ensures
        r.is_none() <==> forall|j: int| 0 <= j < matches.len() ==> !#[trigger] matches@[j],
        r matches Some(i) ==> i < ranks.len() && if !allows_prerelease(spec@) && exists|j: int|
            0 <= j < matches.len() && #[trigger] matches@[j] && !prerelease@[j] {
            highest_among(ranks@, |j: int| 0 <= j < ranks.len() && matches@[j] && !prerelease@[j], i as int)
        } else {
            highest_among(ranks@, |j: int| 0 <= j < ranks.len() && matches@[j], i as int)
        },
{
    let c = str_chars(spec);
    let mut dash = false;
    let mut k: usize = 0;
    while k < c.len()
        invariant
            k <= c.len(),
            c@ == spec@,
            dash == exists|m: int| 0 <= m < k && c@[m] == '-',
        decreases c.len() - k,
    {
        if c[k] == '-' {
            dash = true;
        }
        k = k + 1;
    }
    proof {
        if dash {
            let m = choose|m: int| 0 <= m < c.len() && c@[m] == '-';
            assert(spec@[m] == '-');
        }
        if spec@.contains('-') {
            let m = choose|m: int| 0 <= m < spec@.len() && spec@[m] == '-';
            assert(c@[m] == '-');
        }
    }
    let mut best_any: Option<usize> = None;
    let mut best_stable: Option<usize> = None;
    let mut i: usize = 0;
    while i < ranks.len()
        invariant
            i <= ranks.len(),
            matches.len() == ranks.len(),
            prerelease.len() == ranks.len(),
            best_any.is_none() <==> forall|j: int| 0 <= j < i ==> !#[trigger] matches@[j],
            best_any matches Some(b) ==> b < i && matches@[b as int] && forall|j: int|
                0 <= j < i && #[trigger] matches@[j] ==> ranks@[j] <= ranks@[b as int],
            best_stable.is_none() <==> forall|j: int|
                0 <= j < i ==> !(#[trigger] matches@[j] && !prerelease@[j]),
            best_stable matches Some(b) ==> b < i && matches@[b as int] && !prerelease@[b as int]
                && forall|j: int|
                0 <= j < i && #[trigger] matches@[j] && !prerelease@[j] ==> ranks@[j] <= ranks@[b as int],
        decreases ranks.len() - i,
    {
        if matches[i] {
            match best_any {
                Some(b) => {
                    if ranks[i] >= ranks[b] {
                        best_any = Some(i);
                    }
                },
                None => {
                    best_any = Some(i);
                },
            }
            if !prerelease[i] {
                match best_stable {
                    Some(b) => {
                        if ranks[i] >= ranks[b] {
                            best_stable = Some(i);
                        }
                    },
                    None => {
                        best_stable = Some(i);
                    },
                }
            }
        }
        i = i + 1;
    }
    if best_any.is_none() {
        return None;
    }
    if !dash {
        if let Some(b) = best_stable {
            return Some(b);
        }
    }
    best_any
}

/// Whether a dependency edge is followed, when it can be told without the
/// package's document: required edges always; an optional edge as cached,
/// else as the known native-binary packages tell for this platform. `None`
/// when the document is needed.
pub fn enqueue_without_metadata(
    optional: bool,
    cached: Option<bool>,
    package: &str,
    npm_os: &str,
    npm_cpu: &str,
) -> (r: Option<bool>)
    ensures
        r == if !optional {
            Some(true)
        } else {
            match cached {
                Some(c) => Some(c),
                None => spec_known_native_supported(package@, npm_os@, npm_cpu@),
            }
        },
{
    if !optional {
        return Some(true);
    }
    if let Some(c) = cached {
        return Some(c);
    }
    known_optional_native_binary_supported(package, npm_os, npm_cpu)
}

/// Whether an optional edge is followed once the version for it is chosen:
/// only when a version was chosen, the document lists it, and it runs on
/// this platform.
pub fn enqueue_selected(
    meta: &PackageMetadata,
    selected: Option<&str>,
    npm_os: &str,
    npm_cpu: &str,
) -> (r: bool)
    ensures
        r == match selected {
            None => false,
            Some(v) => match spec_lookup(meta.versions@, v@) {
                None => false,
                Some(info) => spec_platform_matches(opt_strings(info.os), npm_os@)
                    && spec_platform_matches(opt_strings(info.cpu), npm_cpu@),
            },
        },
{
    match selected {
        None => false,
        Some(v) => match lookup_entry(&meta.versions, v) {
            None => false,
            Some(info) => version_supported(info, npm_os, npm_cpu),
        },
    }
}

/// The resolved version a dependency edge points to: of the resolutions of
/// its package, the newest (highest rank) that its range accepts
/// (`matches[i]`); none when the range accepts none.
pub fn newest_matching(matches: &Vec<bool>, ranks: &Vec<u64>) -> (r: Option<usize>)
    requires
        matches.len() == ranks.len(),
    ensures
        r.is_none() <==> forall|j: int| 0 <= j < matches.len() ==> !#[trigger] matches@[j],
        r matches Some(i) ==> i < ranks.len() && highest_among(
            ranks@,
            |j: int| 0 <= j < ranks.len() && matches@[j],
            i as int,
        ),
{
    let mut best: Option<usize> = None;
    let mut i: usize = 0;
    while i < ranks.len()
        invariant
            i <= ranks.len(),
            matches.len() == ranks.len(),
            best.is_none() <==> forall|j: int| 0 <= j < i ==> !#[trigger] matches@[j],
            best matches Some(b) ==> b < i && matches@[b as int] && forall|j: int|
                0 <= j < i && #[trigger] matches@[j] ==> ranks@[j] <= ranks@[b as int],
        decreases ranks.len() - i,
    {
        if matches[i] {
            match best {
                Some(b) => {
                    if ranks[i] >= ranks[b] {
                        best = Some(i);
                    }
                },
                None => {
                    best = Some(i);
                },
            }
        }
        i = i + 1;
    }
    best
}

/// The resolved version a peer edge points to: the newest resolution its
/// range accepts, or, when it accepts none, the newest resolution of the
/// package; none only when the package has no resolution.
pub fn peer_candidate(matches: &Vec<bool>, ranks: &Vec<u64>) -> (r: Option<usize>)
    requires
        matches.len() == ranks.len(),
    ensures
        r.is_none() <==> ranks.len() == 0,
        r matches Some(i) ==> i < ranks.len() && if exists|j: int| 0 <= j < matches.len() && #[trigger] matches@[j] {
            highest_among(ranks@, |j: int| 0 <= j < ranks.len() && matches@[j], i as int)
        } else {
            highest_among(ranks@, |j: int| 0 <= j < ranks.len(), i as int)
        },
{
    match newest_matching(matches, ranks) {
        Some(i) => Some(i),
        None => {
            let mut all: Vec<bool> = Vec::new();
            let mut k: usize = 0;
            while k < ranks.len()
                invariant
                    k <= ranks.len(),
                    all.len() == k,
                    forall|j: int| 0 <= j < k ==> #[trigger] all@[j],
                decreases ranks.len() - k,
            {
                all.push(true);
                k = k + 1;
            }
            let r = newest_matching(&all, ranks);
            proof {
                if ranks.len() > 0 {
                    assert(all@[0]);
                }
                if let Some(i) = r {
                    let any = |j: int| 0 <= j < ranks.len();
                    let alls = |j: int| 0 <= j < ranks.len() && all@[j];
                    assert(highest_among(ranks@, alls, i as int));
                    assert forall|j: int| 0 <= j < ranks.len() && #[trigger] any(j) implies ranks@[j]
                        <= ranks@[i as int] by {
                        assert(alls(j));
                    }
                    assert(highest_among(ranks@, any, i as int));
                }
            }
            r
        },
    }
}

} // verus!


verus! {

/// An optional string list by its strings.
pub open spec fn versions_view(o: Option<Vec<String>>) -> Option<Seq<String>> {
    match o {
        Some(v) => Some(v@),
        None => None,
    }
}

/// What a string-to-string association list holds under `k`, by its
/// characters.
pub open spec fn text_lookup(entries: Seq<(String, String)>, k: Seq<char>) -> Option<Seq<char>> {
    match spec_lookup(entries, k) {
        Some(t) => Some(t@),
        None => None,
    }
}

/// What a version cache holds under `k`.
pub open spec fn versions_lookup(entries: Seq<(String, Vec<String>)>, k: Seq<char>) -> Option<
    Seq<String>,
> {
    match spec_lookup(entries, k) {
        Some(v) => Some(v@),
        None => None,
    }
}

/// The in-memory state of the npm dependency provider: the registry
/// client, the shared cache, the alias targets seen so far, the cached
/// version lists, the cached verdicts on optional dependencies, and the age
/// policy armed for the current operation. (Metadata documents are cached
/// by a [`crate::metadata_cache::MetadataCache`] of their own.)
pub struct NpmDependencyProvider {
    registry: crate::native::npm_registry::NpmRegistry,
    shared_cache: Option<crate::cache::SharedWebCache>,
    alias_targets: Vec<(String, String)>,
    versions_cache: Vec<(String, Vec<String>)>,
    optional_enqueue_cache: Vec<(String, bool)>,
    age_policy: Option<AgePolicy>,
}

impl NpmDependencyProvider {
    pub closed spec fn aliases(&self) -> Seq<(String, String)> {
        self.alias_targets@
    }

    pub closed spec fn cached_versions(&self) -> Seq<(String, Vec<String>)> {
        self.versions_cache@
    }

    pub closed spec fn optional_verdicts(&self) -> Seq<(String, bool)> {
        self.optional_enqueue_cache@
    }

    pub closed spec fn spec_age_policy(&self) -> Option<AgePolicy> {
        self.age_policy
    }

    pub closed spec fn spec_registry(&self) -> crate::native::npm_registry::NpmRegistry {
        self.registry
    }

    pub closed spec fn spec_shared_cache(&self) -> Option<crate::cache::SharedWebCache> {
        self.shared_cache
    }

    /// Each cache holds a key at most once.
    pub open spec fn wf(&self) -> bool {
        &&& crate::native::npm_registry::keys_unique(self.aliases())
        &&& crate::native::npm_registry::keys_unique(self.cached_versions())
        &&& crate::native::npm_registry::keys_unique(self.optional_verdicts())
    }

    /// The registry client.
    pub fn registry(&self) -> (r: &crate::native::npm_registry::NpmRegistry)
        ensures
            *r == self.spec_registry(),
    {
        &self.registry
    }

    /// The shared cache, when there is one.
    pub fn shared_cache(&self) -> (r: Option<&crate::cache::SharedWebCache>)
        ensures
            r == match self.spec_shared_cache() {
                Some(c) => Some(&c),
                None => None::<&crate::cache::SharedWebCache>,
            },
    {
        match &self.shared_cache {
            Some(c) => Some(c),
            None => None,
        }
    }

    /// A provider with empty caches and no age policy.
    pub fn new(
        registry: crate::native::npm_registry::NpmRegistry,
        shared_cache: Option<crate::cache::SharedWebCache>,
    ) -> (r: Self)
        ensures
            r.wf(),
            r.aliases().len() == 0,
            r.cached_versions().len() == 0,
            r.optional_verdicts().len() == 0,
            r.spec_age_policy() is None,
            r.spec_registry() == registry,
            r.spec_shared_cache() == shared_cache,
    {
        NpmDependencyProvider {
            registry,
            shared_cache,
            alias_targets: Vec::new(),
            versions_cache: Vec::new(),
            optional_enqueue_cache: Vec::new(),
            age_policy: None,
        }
    }

    /// Arms this provider's age policy for the current operation, replacing
    /// any earlier one.
    pub fn set_age_policy(&mut self, policy: Option<AgePolicy>)
        requires
            old(self).wf(),
        ensures
            final(self).wf(),
            final(self).spec_age_policy() == policy,
            final(self).aliases() == old(self).aliases(),
            final(self).cached_versions() == old(self).cached_versions(),
            final(self).optional_verdicts() == old(self).optional_verdicts(),
    {
        self.age_policy = policy;
    }

    /// The age policy in effect (`None`: versions are not filtered).
    pub fn age_policy(&self) -> (r: Option<AgePolicy>)
        ensures
            r == self.spec_age_policy(),
    {
        self.age_policy
    }

    /// Whether a cutoff is armed: a policy with a positive number of hours.
    pub fn age_gate_armed_for_test(&self) -> (r: bool)
        ensures
            r == (self.spec_age_policy() matches Some(p) && p.cutoff_hours > 0),
    {
        match self.age_policy {
            Some(p) => p.cutoff_hours > 0,
            None => false,
        }
    }

    /// Remembers that `alias` stands for the package `target`.
    pub fn record_alias_target(&mut self, alias: &str, target: &str)
        requires
            old(self).wf(),
        ensures
            final(self).wf(),
            forall|k: Seq<char>|
                #[trigger] text_lookup(final(self).aliases(), k) == if k == alias@ {
                    Some(target@)
                } else {
                    text_lookup(old(self).aliases(), k)
                },
            final(self).cached_versions() == old(self).cached_versions(),
            final(self).optional_verdicts() == old(self).optional_verdicts(),
            final(self).spec_age_policy() == old(self).spec_age_policy(),
    {
        let t = str_to_string(target);
        let ghost tv = t;
        crate::assoc::assoc_insert(&mut self.alias_targets, str_to_string(alias), t);
        proof {
            assert forall|k: Seq<char>|
                #[trigger] text_lookup(self.alias_targets@, k) == if k == alias@ {
                    Some(target@)
                } else {
                    text_lookup(old(self).aliases(), k)
                } by {
                assert(spec_lookup(self.alias_targets@, k) == if k == alias@ {
                    Some(tv)
                } else {
                    spec_lookup(old(self).aliases(), k)
                });
            }
        }
    }

    /// The package whose registry document `name` reads: its alias
    /// target, or itself.
    pub fn source_package_name(&self, name: &str) -> (r: String)
        ensures
            r@ == spec_source_package(self.aliases(), name@),
    {
        source_package_name(&self.alias_targets, name)
    }

    /// The cached versions of `package`, else those of the package its
    /// alias stands for.
    pub fn cached_versions_for(&self, package: &str) -> (r: Option<Vec<String>>)
        ensures
            versions_view(r) == spec_cached_versions_for(
                self.aliases(),
                self.cached_versions(),
                package@,
            ),
    {
        match lookup_entry(&self.versions_cache, package) {
            Some(v) => Some(clone_strings(v)),
            None => {
                let source = source_package_name(&self.alias_targets, package);
                if crate::text::str_eq(source.as_str(), package) {
                    None
                } else {
                    match lookup_entry(&self.versions_cache, source.as_str()) {
                        Some(v) => Some(clone_strings(v)),
                        None => None,
                    }
                }
            },
        }
    }

    /// Caches `versions` for `package` and, when it is an alias, for the
    /// package it stands for.
    pub fn insert_versions_for(&mut self, package: &str, versions: Vec<String>)
        requires
            old(self).wf(),
        ensures
            final(self).wf(),
            forall|k: Seq<char>|
                #[trigger] versions_lookup(final(self).cached_versions(), k) == if k == package@
                    || k == spec_source_package(old(self).aliases(), package@) {
                    Some(versions@)
                } else {
                    versions_lookup(old(self).cached_versions(), k)
                },
            final(self).aliases() == old(self).aliases(),
            final(self).optional_verdicts() == old(self).optional_verdicts(),
            final(self).spec_age_policy() == old(self).spec_age_policy(),
    {
        let ghost before = self.versions_cache@;
        let source = source_package_name(&self.alias_targets, package);
        let copy = clone_strings(&versions);
        let ghost vcopy = copy;
        let ghost vorig = versions;
        crate::assoc::assoc_insert(&mut self.versions_cache, str_to_string(package), versions);
        let ghost mid = self.versions_cache@;
        if !crate::text::str_eq(source.as_str(), package) {
            crate::assoc::assoc_insert(&mut self.versions_cache, source, copy);
        }
        proof {
            let src = spec_source_package(old(self).aliases(), package@);
            assert forall|k: Seq<char>|
                #[trigger] versions_lookup(self.versions_cache@, k) == if k == package@ || k == src {
                    Some(versions@)
                } else {
                    versions_lookup(before, k)
                } by {
                assert(spec_lookup(mid, k) == if k == package@ {
                    Some(vorig)
                } else {
                    spec_lookup(before, k)
                });
            }
        }
    }

    /// The cached verdict on whether an optional dependency is enqueued.
    pub fn cached_optional_enqueue(&self, key: &str) -> (r: Option<bool>)
        ensures
            r == spec_lookup(self.optional_verdicts(), key@),
    {
        match lookup_entry(&self.optional_enqueue_cache, key) {
            Some(b) => Some(*b),
            None => None,
        }
    }

    /// Caches the verdict on an optional dependency.
    pub fn record_optional_enqueue(&mut self, key: &str, enqueue: bool)
        requires
            old(self).wf(),
        ensures
            final(self).wf(),
            forall|k: Seq<char>|
                #[trigger] spec_lookup(final(self).optional_verdicts(), k) == if k == key@ {
                    Some(enqueue)
                } else {
                    spec_lookup(old(self).optional_verdicts(), k)
                },
            final(self).aliases() == old(self).aliases(),
            final(self).cached_versions() == old(self).cached_versions(),
            final(self).spec_age_policy() == old(self).spec_age_policy(),
    {
        crate::assoc::assoc_insert(&mut self.optional_enqueue_cache, str_to_string(key), enqueue);
    }

    /// The cache key of a package version: `name@version`.
    pub fn version_key(name: &str, version: &str) -> (r: String)
        ensures
            r@ == name@ + "@"@ + version@,
    {
        let mut s = str_to_string(name);
        string_append(&mut s, "@");
        string_append(&mut s, version);
        s
    }

    /// The cache key of an optional dependency request: `package@spec`.
    pub fn optional_enqueue_key(dep: &DepRequest) -> (r: String)
        ensures
            r@ == dep.package@ + "@"@ + dep.spec@,
    {
        Self::version_key(dep.package.as_str(), dep.spec.as_str())
    }
}

/// The versions cached for `package`, else for the package its alias
/// stands for.
pub open spec fn spec_cached_versions_for(
    aliases: Seq<(String, String)>,
    cache: Seq<(String, Vec<String>)>,
    package: Seq<char>,
) -> Option<Seq<String>> {
    match versions_lookup(cache, package) {
        Some(v) => Some(v),
        None => {
            let source = spec_source_package(aliases, package);
            if source == package {
                None
            } else {
                versions_lookup(cache, source)
            }
        },
    }
}

/// A version list cached for a package is read back for it, and for the
/// package its alias stands for, until something else is cached there.
pub proof fn law_versions_read_back(
    aliases: Seq<(String, String)>,
    before: Seq<(String, Vec<String>)>,
    after: Seq<(String, Vec<String>)>,
    package: Seq<char>,
    versions: Seq<String>,
)
    requires
        forall|k: Seq<char>|
            #[trigger] versions_lookup(after, k) == if k == package || k == spec_source_package(
                aliases,
                package,
            ) {
                Some(versions)
            } else {
                versions_lookup(before, k)
            },
    ensures
        spec_cached_versions_for(aliases, after, package) == Some(versions),
        versions_lookup(after, spec_source_package(aliases, package)) == Some(versions),
{
    assert(versions_lookup(after, package) == Some(versions));
}

} // verus!
