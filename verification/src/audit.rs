//! Registry and tarball URL trust decisions and the advisory endpoint.

use vstd::prelude::*;
use crate::env_config::opt_view;
use crate::text::{
    chars_ends_with, chars_starts_with, comma_items, comma_items_chars, contains_chars, ends_with,
    starts_with, str_chars, str_to_string, string_append, strings_view, vecs_view, chars_eq,
    push_decimal, spec_decimal,
};
use crate::install::bin::{contains_text, text_contains};
use crate::order::{pairs_view, sorted_distinct_pairs, strictly_sorted_pairs};

verus! {

/// Scheme and host (`Url::host_str`) of a URL as the `url` crate (WHATWG URL
/// standard) parses it; `None` when it does not parse.
pub uninterp spec fn url_scheme_host(s: Seq<char>) -> Option<(Seq<char>, Option<Seq<char>>)>;

/// The URL `rel` resolved against the base `base` and serialised, as the
/// `url` crate computes it; `None` when the base does not parse or the join
/// fails.
pub uninterp spec fn url_join_text(base: Seq<char>, rel: Seq<char>) -> Option<Seq<char>>;

pub open spec fn scheme_host_view(r: Option<(String, Option<String>)>) -> Option<(Seq<char>, Option<Seq<char>>)> {
    match r {
        Some((s, Some(h))) => Some((s@, Some(h@))),
        Some((s, None)) => Some((s@, None)),
        None => None,
    }
}

/// Parses a URL and returns its scheme and host
/// (`url::Url::parse`, `Url::scheme`, `Url::host_str`).
#[verifier::external_body]
pub(crate) fn parse_url_scheme_host(s: &str) -> (r: Option<(String, Option<String>)>)
    ensures
        scheme_host_view(r) == url_scheme_host(s@),
{
    match url::Url::parse(s) {
        Ok(u) => Some((
            u.scheme().to_string(),
            match u.host_str() {
                Some(h) => Some(h.to_string()),
                None => None,
            },
        )),
        Err(_) => None,
    }
}

/// Resolves `rel` against `base` (`url::Url::parse` then `Url::join`) and
/// serialises the result.
#[verifier::external_body]
pub(crate) fn url_join(base: &str, rel: &str) -> (r: Option<String>)
    ensures
        match r {
            Some(t) => url_join_text(base@, rel@) == Some(t@),
            None => url_join_text(base@, rel@) is None,
        },
{
    match url::Url::parse(base) {
        Ok(b) => match b.join(rel) {
            Ok(j) => Some(j.to_string()),
            Err(_) => None,
        },
        Err(_) => None,
    }
}

pub open spec fn is_loopback_host(h: Seq<char>) -> bool {
    h == "127.0.0.1"@ || h == "localhost"@ || h == "::1"@
}

/// Plain `http` is tolerated only towards the loopback host.
pub open spec fn spec_allow_insecure_loopback(url: Seq<char>) -> bool {
    match url_scheme_host(url) {
        Some((scheme, Some(host))) => scheme == "http"@ && is_loopback_host(host),
        _ => false,
    }
}

fn chars_is(a: &Vec<char>, b: &str) -> (r: bool)
    ensures
        r == (a@ == b@),
{
    chars_eq(a, &str_chars(b))
}

fn loopback_host(h: &Vec<char>) -> (r: bool)
    ensures
        r == is_loopback_host(h@),
{
    chars_is(h, "127.0.0.1") || chars_is(h, "localhost") || chars_is(h, "::1")
}

pub fn allow_insecure_loopback_url(url: &str) -> (r: bool)
    ensures
        r == spec_allow_insecure_loopback(url@),
{
    match parse_url_scheme_host(url) {
        Some((scheme, Some(host))) => {
            chars_is(&str_chars(scheme.as_str()), "http") && loopback_host(
                &str_chars(host.as_str()),
            )
        },
        _ => false,
    }
}

/// Whether `host` is one of the items of a comma-separated list.
pub open spec fn host_listed(list: Seq<char>, host: Seq<char>) -> bool {
    exists|i: int| 0 <= i < comma_items(list).len() && #[trigger] comma_items(list)[i] == host
}

/// Whether a tarball URL may be fetched for a registry: loopback hosts and
/// the registry's own host always; for the public npm registry also
/// `*.npmjs.org` and `registry.yarnpkg.com`; otherwise only hosts named in
/// the comma-separated `allowed_hosts` list.
pub open spec fn spec_tarball_url_trusted(
    tarball_url: Seq<char>,
    registry_url: Seq<char>,
    allowed_hosts: Option<Seq<char>>,
) -> bool {
    match (url_scheme_host(tarball_url), url_scheme_host(registry_url)) {
        (Some((_, Some(th))), Some((_, Some(rh)))) => {
            if is_loopback_host(th) || th == rh {
                true
            } else if rh == "registry.npmjs.org"@ {
                th == "registry.npmjs.org"@ || ends_with(th, ".npmjs.org"@) || th
                    == "registry.yarnpkg.com"@
            } else {
                match allowed_hosts {
                    Some(list) => host_listed(list, th),
                    None => false,
                }
            }
        },
        _ => false,
    }
}

pub fn is_tarball_url_trusted(
    tarball_url: &str,
    registry_url: &str,
    allowed_hosts: Option<&str>,
) -> (r: bool)
    ensures
        r == spec_tarball_url_trusted(tarball_url@, registry_url@, opt_view(allowed_hosts)),
{
    let th = match parse_url_scheme_host(tarball_url) {
        Some((_, Some(h))) => str_chars(h.as_str()),
        _ => return false,
    };
    let rh = match parse_url_scheme_host(registry_url) {
        Some((_, Some(h))) => str_chars(h.as_str()),
        _ => return false,
    };
    proof {
        assert(url_scheme_host(tarball_url@) matches Some((_, Some(x))) && x == th@);
        assert(url_scheme_host(registry_url@) matches Some((_, Some(x))) && x == rh@);
    }
    if loopback_host(&th) {
        return true;
    }
    if chars_eq(&th, &rh) {
        return true;
    }
    if chars_is(&rh, "registry.npmjs.org") {
        return chars_is(&th, "registry.npmjs.org") || chars_ends_with(&th, &str_chars(".npmjs.org"))
            || chars_is(&th, "registry.yarnpkg.com");
    }
    match allowed_hosts {
        Some(list) => {
            let items = comma_items_chars(&str_chars(list));
            let found = contains_chars(&items, &th);
            proof {
                let ci = comma_items(list@);
                assert(vecs_view(items@) == ci);
                if found {
                    let i = choose|i: int| 0 <= i < items@.len() && #[trigger] vecs_view(items@)[i] == th@;
                    assert(ci[i] == th@);
                } else {
                    assert forall|i: int| 0 <= i < ci.len() implies #[trigger] ci[i] != th@ by {
                        assert(vecs_view(items@)[i] == ci[i]);
                    };
                }
                assert(!is_loopback_host(th@) && th@ != rh@ && rh@ != "registry.npmjs.org"@);
                assert(found == host_listed(list@, th@));
            }
            found
        },
        None => {
            false
        },
    }
}

/// Why the advisory endpoint could not be formed.
#[derive(Debug, Clone)]
pub enum EndpointError {
    InvalidRegistryUrl { registry_url: String },
    InvalidEndpoint { registry_url: String },
}

pub open spec fn spec_advisory_endpoint(registry_url: Seq<char>) -> Result<Seq<char>, bool> {
    match url_scheme_host(registry_url) {
        None => Err(true),
        Some(_) => match url_join_text(registry_url, "-/npm/v1/security/advisories/bulk"@) {
            Some(u) => Ok(u),
            None => Err(false),
        },
    }
}

/// The npm bulk-advisory endpoint of a registry
/// (`<registry>/-/npm/v1/security/advisories/bulk`, joined as a relative URL).
pub fn registry_advisory_bulk_endpoint(registry_url: &str) -> (r: Result<String, EndpointError>)
    ensures
        match r {
            Ok(u) => spec_advisory_endpoint(registry_url@) == Ok::<Seq<char>, bool>(u@),
            Err(EndpointError::InvalidRegistryUrl { registry_url: u }) => u@ == registry_url@
                && spec_advisory_endpoint(registry_url@) == Err::<Seq<char>, bool>(true),
            Err(EndpointError::InvalidEndpoint { registry_url: u }) => u@ == registry_url@
                && spec_advisory_endpoint(registry_url@) == Err::<Seq<char>, bool>(false),
        },
{
    if parse_url_scheme_host(registry_url).is_none() {
        return Err(
            EndpointError::InvalidRegistryUrl {
                registry_url: crate::text::str_to_string(registry_url),
            },
        );
    }
    match url_join(registry_url, "-/npm/v1/security/advisories/bulk") {
        Some(u) => Ok(u),
        None => Err(
            EndpointError::InvalidEndpoint { registry_url: crate::text::str_to_string(registry_url) },
        ),
    }
}


/// The lockfiles of other JavaScript runtimes that an audit looks for, in
/// order: `bun.lock`, `deno.lock`, `bun.lockb`.
pub open spec fn spec_rival_lockfiles(bun_lock: bool, deno_lock: bool, bun_lockb: bool) -> Seq<Seq<char>> {
    (if bun_lock {
        seq!["bun.lock"@]
    } else {
        Seq::empty()
    }) + (if deno_lock {
        seq!["deno.lock"@]
    } else {
        Seq::empty()
    }) + (if bun_lockb {
        seq!["bun.lockb"@]
    } else {
        Seq::empty()
    })
}

/// The rival lockfiles present (each flag says whether that file is a
/// regular file in the project root).
pub fn detect_rival_lockfiles(bun_lock: bool, deno_lock: bool, bun_lockb: bool) -> (r: Vec<String>)
    ensures
        strings_view(r@) == spec_rival_lockfiles(bun_lock, deno_lock, bun_lockb),
{
    let mut out: Vec<String> = Vec::new();
    if bun_lock {
        out.push(str_to_string("bun.lock"));
    }
    if deno_lock {
        out.push(str_to_string("deno.lock"));
    }
    if bun_lockb {
        out.push(str_to_string("bun.lockb"));
    }
    proof {
        assert(strings_view(out@) =~= spec_rival_lockfiles(bun_lock, deno_lock, bun_lockb));
    }
    out
}

pub open spec fn join_comma(items: Seq<Seq<char>>) -> Seq<char>
    decreases items.len(),
{
    if items.len() == 0 {
        Seq::empty()
    } else if items.len() == 1 {
        items[0]
    } else {
        join_comma(items.drop_last()) + ", "@ + items.last()
    }
}

/// The importer to run: `deno` when a rival lockfile is Deno's, else `bun`.
pub open spec fn importer_for(rival: Seq<Seq<char>>) -> Seq<char> {
    if exists|i: int| 0 <= i < rival.len() && contains_text(#[trigger] rival[i], "deno"@) {
        "deno"@
    } else {
        "bun"@
    }
}

/// The refusal of an audit without `mgc.lock` when rival lockfiles exist.
pub open spec fn missing_lock_message(rival: Seq<Seq<char>>) -> Seq<char> {
    "rival lockfile(s) detected ["@ + join_comma(rival)
        + "] but mgc.lock is missing \u{2014} mgc audit consumes mgc.lock ONLY. Run `mgc import "@
        + importer_for(rival) + "` to migrate this project first."@
}

pub fn missing_lock_error(rival: &Vec<String>) -> (r: String)
    ensures
        r@ == missing_lock_message(strings_view(rival@)),
{
    let ghost rv = strings_view(rival@);
    let mut joined = crate::text::string_from_chars(&Vec::new());
    let mut deno = false;
    let mut i: usize = 0;
    while i < rival.len()
        invariant
            i <= rival.len(),
            rv == strings_view(rival@),
            joined@ == join_comma(rv.take(i as int)),
            deno == exists|k: int| 0 <= k < i && contains_text(#[trigger] rv[k], "deno"@),
        decreases rival.len() - i,
    {
        proof {
            assert(rv.take(i + 1).drop_last() =~= rv.take(i as int));
            assert(rv.take(i + 1).last() == rival@[i as int]@);
        }
        if i > 0 {
            string_append(&mut joined, ", ");
        }
        string_append(&mut joined, rival[i].as_str());
        proof {
            if i == 0 {
                assert(rv.take(1)[0] == rv[0]);
                assert(joined@ =~= join_comma(rv.take(1)));
            }
        }
        if text_contains(&str_chars(rival[i].as_str()), &str_chars("deno")) {
            deno = true;
        }
        proof {
            assert(rv[i as int] == rival@[i as int]@);
        }
        i = i + 1;
    }
    proof {
        assert(rv.take(rival.len() as int) =~= rv);
    }
    let mut m = str_to_string("rival lockfile(s) detected [");
    string_append(&mut m, joined.as_str());
    string_append(
        &mut m,
        "] but mgc.lock is missing \u{2014} mgc audit consumes mgc.lock ONLY. Run `mgc import ",
    );
    if deno {
        string_append(&mut m, "deno");
    } else {
        string_append(&mut m, "bun");
    }
    string_append(&mut m, "` to migrate this project first.");
    m
}

/// The pins of an audit: npm packages (name, version), sorted and without
/// repeats, and the JSR packages (`jsr:` names), which no npm advisory
/// covers.
pub struct AuditPins {
    pub npm: Vec<(String, String)>,
    pub jsr: Vec<String>,
}

pub open spec fn is_jsr(name: Seq<char>) -> bool {
    starts_with(name, "jsr:"@)
}

pub open spec fn npm_entries(ps: Seq<(Seq<char>, Seq<char>)>) -> Seq<(Seq<char>, Seq<char>)>
    decreases ps.len(),
{
    if ps.len() == 0 {
        Seq::empty()
    } else {
        let r = npm_entries(ps.drop_last());
        if is_jsr(ps.last().0) {
            r
        } else {
            r.push(ps.last())
        }
    }
}

pub open spec fn jsr_names(ps: Seq<(Seq<char>, Seq<char>)>) -> Seq<Seq<char>>
    decreases ps.len(),
{
    if ps.len() == 0 {
        Seq::empty()
    } else {
        let r = jsr_names(ps.drop_last());
        if is_jsr(ps.last().0) {
            r.push(ps.last().0)
        } else {
            r
        }
    }
}

/// A lock entry is audited against npm advisories exactly when its name does
/// not start with `jsr:`; the names that do start with `jsr:` are the JSR
/// names, each listed once per entry. Scoped npm names (`@scope/name`) are npm
/// entries like any other.
pub proof fn law_audit_pins_split_on_jsr_prefix(ps: Seq<(Seq<char>, Seq<char>)>)
    ensures
        forall|x: (Seq<char>, Seq<char>)|
            #[trigger] npm_entries(ps).contains(x) <==> (ps.contains(x) && !starts_with(
                x.0,
                "jsr:"@,
            )),
        forall|n: Seq<char>|
            #[trigger] jsr_names(ps).contains(n) ==> starts_with(n, "jsr:"@),
        forall|i: int|
            0 <= i < ps.len() && starts_with(#[trigger] ps[i].0, "jsr:"@) ==> jsr_names(
                ps,
            ).contains(ps[i].0),
        forall|n: Seq<char>|
            #[trigger] jsr_names(ps).contains(n) ==> exists|i: int|
                0 <= i < ps.len() && #[trigger] ps[i].0 == n,
    decreases ps.len(),
{
    if ps.len() > 0 {
        let init = ps.drop_last();
        law_audit_pins_split_on_jsr_prefix(init);
        assert(ps =~= init.push(ps.last()));
        let last = ps.last();
        let ri = npm_entries(init);
        let ji = jsr_names(init);
        assert forall|x: (Seq<char>, Seq<char>)|
            #[trigger] npm_entries(ps).contains(x) <==> (ps.contains(x) && !starts_with(
                x.0,
                "jsr:"@,
            )) by {
            if npm_entries(ps).contains(x) {
                let k = choose|k: int| 0 <= k < npm_entries(ps).len() && npm_entries(ps)[k] == x;
                if k < ri.len() {
                    assert(ri[k] == x);
                    assert(ri.contains(x));
                    let j = choose|j: int| 0 <= j < init.len() && init[j] == x;
                    assert(ps[j] == x);
                } else {
                    assert(x == last);
                    assert(ps[ps.len() - 1] == x);
                }
            }
            if ps.contains(x) && !starts_with(x.0, "jsr:"@) {
                let k = choose|k: int| 0 <= k < ps.len() && ps[k] == x;
                if k < init.len() {
                    assert(init[k] == x);
                    assert(init.contains(x));
                    assert(ri.contains(x));
                    let j = choose|j: int| 0 <= j < ri.len() && ri[j] == x;
                    assert(npm_entries(ps)[j] == x);
                } else {
                    assert(x == last);
                    assert(npm_entries(ps) == ri.push(last));
                    assert(npm_entries(ps)[ri.len() as int] == x);
                }
            }
        }
        assert forall|n: Seq<char>|
            #[trigger] jsr_names(ps).contains(n) implies starts_with(n, "jsr:"@) by {
            let k = choose|k: int| 0 <= k < jsr_names(ps).len() && jsr_names(ps)[k] == n;
            if k < ji.len() {
                assert(ji[k] == n);
                assert(ji.contains(n));
            } else {
                assert(n == last.0);
            }
        }
        assert forall|i: int|
            0 <= i < ps.len() && starts_with(#[trigger] ps[i].0, "jsr:"@) implies jsr_names(
                ps,
            ).contains(ps[i].0) by {
            if i < init.len() {
                assert(init[i] == ps[i]);
                let j = choose|j: int|
                    0 <= j < jsr_names(init).len() && jsr_names(init)[j] == ps[i].0;
                assert(jsr_names(ps)[j] == ps[i].0);
            } else {
                assert(jsr_names(ps).last() == ps[i].0);
            }
        }
        assert forall|n: Seq<char>| #[trigger] jsr_names(ps).contains(n) implies exists|i: int|
            0 <= i < ps.len() && #[trigger] ps[i].0 == n by {
            let k = choose|k: int| 0 <= k < jsr_names(ps).len() && jsr_names(ps)[k] == n;
            if k < ji.len() {
                assert(ji[k] == n);
                assert(ji.contains(n));
                let j = choose|j: int| 0 <= j < init.len() && #[trigger] init[j].0 == n;
                assert(ps[j].0 == n);
            } else {
                assert(ps[ps.len() - 1].0 == n);
            }
        }
    }
}

/// Splits a lock's (name, version) entries into npm pins and JSR names.
pub fn split_audit_pins(packages: &Vec<(String, String)>) -> (r: AuditPins)
    ensures
        strictly_sorted_pairs(pairs_view(r.npm@)),
        pairs_view(r.npm@).to_set() == npm_entries(pairs_view(packages@)).to_set(),
        strings_view(r.jsr@) == jsr_names(pairs_view(packages@)),
        forall|i: int|
            0 <= i < packages.len() && !starts_with(#[trigger] packages@[i].0@, "jsr:"@)
                ==> pairs_view(r.npm@).contains((packages@[i].0@, packages@[i].1@)),
        forall|k: int|
            0 <= k < r.npm.len() ==> !starts_with(#[trigger] r.npm@[k].0@, "jsr:"@)
                && pairs_view(packages@).contains((r.npm@[k].0@, r.npm@[k].1@)),
        forall|i: int|
            0 <= i < packages.len() && starts_with(#[trigger] packages@[i].0@, "jsr:"@)
                ==> strings_view(r.jsr@).contains(packages@[i].0@),
        forall|k: int| 0 <= k < r.jsr.len() ==> starts_with(#[trigger] r.jsr@[k]@, "jsr:"@),
{
    let ghost pv = pairs_view(packages@);
    let mut npm: Vec<(String, String)> = Vec::new();
    let mut jsr: Vec<String> = Vec::new();
    let prefix = str_chars("jsr:");
    let mut i: usize = 0;
    while i < packages.len()
        invariant
            i <= packages.len(),
            pv == pairs_view(packages@),
            prefix@ == "jsr:"@,
            pairs_view(npm@) == npm_entries(pv.take(i as int)),
            strings_view(jsr@) == jsr_names(pv.take(i as int)),
        decreases packages.len() - i,
    {
        let p = &packages[i];
        proof {
            assert(pv.take(i + 1).drop_last() =~= pv.take(i as int));
            assert(pv.take(i + 1).last() == (p.0@, p.1@));
        }
        if chars_starts_with(&str_chars(p.0.as_str()), &prefix) {
            let ghost before = jsr@;
            jsr.push(str_to_string(p.0.as_str()));
            proof {
                assert(strings_view(jsr@) =~= strings_view(before).push(p.0@));
            }
        } else {
            let ghost before = npm@;
            npm.push((str_to_string(p.0.as_str()), str_to_string(p.1.as_str())));
            proof {
                assert(pairs_view(npm@) =~= pairs_view(before).push((p.0@, p.1@)));
            }
        }
        i = i + 1;
    }
    proof {
        assert(pv.take(packages.len() as int) =~= pv);
        law_audit_pins_split_on_jsr_prefix(pv);
    }
    let sorted = sorted_distinct_pairs(&npm);
    proof {
        let sv = pairs_view(sorted@);
        let ne = npm_entries(pv);
        assert forall|i: int|
            0 <= i < packages.len() && !starts_with(#[trigger] packages@[i].0@, "jsr:"@)
                implies sv.contains((packages@[i].0@, packages@[i].1@)) by {
            let x = (packages@[i].0@, packages@[i].1@);
            assert(pv[i] == x);
            assert(ne.contains(x));
            assert(ne.to_set().contains(x));
            assert(sv.to_set().contains(x));
        }
        assert forall|k: int| 0 <= k < sorted.len() implies !starts_with(
            #[trigger] sorted@[k].0@,
            "jsr:"@,
        ) && pv.contains((sorted@[k].0@, sorted@[k].1@)) by {
            let x = (sorted@[k].0@, sorted@[k].1@);
            assert(sv[k] == x);
            assert(sv.to_set().contains(x));
            assert(ne.to_set().contains(x));
            assert(ne.contains(x));
        }
        assert forall|i: int|
            0 <= i < packages.len() && starts_with(#[trigger] packages@[i].0@, "jsr:"@)
                implies strings_view(jsr@).contains(packages@[i].0@) by {
            assert(pv[i].0 == packages@[i].0@);
        }
        assert forall|k: int| 0 <= k < jsr.len() implies starts_with(#[trigger] jsr@[k]@, "jsr:"@) by {
            assert(strings_view(jsr@)[k] == jsr@[k]@);
            assert(jsr_names(pv).contains(jsr@[k]@));
        }
    }
    AuditPins { npm: sorted, jsr }
}

/// Why a JSR package is skipped.
pub open spec fn jsr_reason(name: Seq<char>) -> Seq<char> {
    "jsr package '"@ + name + "' has no npm advisory mapping yet"@
}

pub fn jsr_reasons(jsr: &Vec<String>) -> (r: Vec<String>)
    ensures
        strings_view(r@) == strings_view(jsr@).map_values(|j: Seq<char>| jsr_reason(j)),
{
    let ghost target = strings_view(jsr@).map_values(|j: Seq<char>| jsr_reason(j));
    let mut out: Vec<String> = Vec::new();
    let mut i: usize = 0;
    while i < jsr.len()
        invariant
            i <= jsr.len(),
            target == strings_view(jsr@).map_values(|j: Seq<char>| jsr_reason(j)),
            strings_view(out@) == target.take(i as int),
        decreases jsr.len() - i,
    {
        let mut m = str_to_string("jsr package '");
        string_append(&mut m, jsr[i].as_str());
        string_append(&mut m, "' has no npm advisory mapping yet");
        let ghost before = out@;
        out.push(m);
        proof {
            assert(strings_view(out@) =~= strings_view(before).push(m@));
            assert(target.take(i + 1) =~= target.take(i as int).push(target[i as int]));
        }
        i = i + 1;
    }
    proof {
        assert(target.take(jsr.len() as int) =~= target);
    }
    out
}

/// The course of an audit given its pins.
pub enum AuditPlan {
    /// No pins: a clean report of nothing.
    NothingToAudit,
    /// Only JSR pins: a partial report skipping them all, with reasons.
    JsrOnly { reasons: Vec<String> },
    /// Query the advisory endpoint for the npm pins; the JSR pins (if any)
    /// make the report partial with these reasons.
    Query { jsr_reasons: Vec<String> },
}

pub fn audit_plan(pins: &AuditPins) -> (r: AuditPlan)
    ensures
        (pins.npm.len() == 0 && pins.jsr.len() == 0) <==> r is NothingToAudit,
        (pins.npm.len() == 0 && pins.jsr.len() > 0) <==> r is JsrOnly,
        pins.npm.len() > 0 <==> r is Query,
        r matches AuditPlan::JsrOnly { reasons } ==> strings_view(reasons@) == strings_view(
            pins.jsr@,
        ).map_values(|j: Seq<char>| jsr_reason(j)),
        r matches AuditPlan::Query { jsr_reasons } ==> strings_view(jsr_reasons@) == strings_view(
            pins.jsr@,
        ).map_values(|j: Seq<char>| jsr_reason(j)),
{
    if pins.npm.len() == 0 && pins.jsr.len() == 0 {
        return AuditPlan::NothingToAudit;
    }
    let reasons = jsr_reasons(&pins.jsr);
    if pins.npm.len() == 0 {
        return AuditPlan::JsrOnly { reasons };
    }
    AuditPlan::Query { jsr_reasons: reasons }
}

pub open spec fn join_semicolon(items: Seq<Seq<char>>) -> Seq<char>
    decreases items.len(),
{
    if items.len() == 0 {
        Seq::empty()
    } else if items.len() == 1 {
        items[0]
    } else {
        join_semicolon(items.drop_last()) + "; "@ + items.last()
    }
}

/// The refusal of an advisory response with malformed entries.
pub open spec fn malformed_message(rejected: Seq<Seq<char>>) -> Seq<char> {
    "advisory response contained "@ + spec_decimal(rejected.len()) + " malformed entr"@ + (if rejected.len()
        == 1 {
        "y"@
    } else {
        "ies"@
    }) + ": "@ + join_semicolon(rejected)
}

pub fn malformed_entries_error(rejected: &Vec<String>) -> (r: String)
    requires
        rejected.len() <= u64::MAX,
    ensures
        r@ == malformed_message(strings_view(rejected@)),
{
    let ghost rv = strings_view(rejected@);
    let mut joined = crate::text::string_from_chars(&Vec::new());
    let mut i: usize = 0;
    while i < rejected.len()
        invariant
            i <= rejected.len(),
            rv == strings_view(rejected@),
            joined@ == join_semicolon(rv.take(i as int)),
        decreases rejected.len() - i,
    {
        proof {
            assert(rv.take(i + 1).drop_last() =~= rv.take(i as int));
            assert(rv.take(i + 1).last() == rejected@[i as int]@);
        }
        if i > 0 {
            string_append(&mut joined, "; ");
        }
        string_append(&mut joined, rejected[i].as_str());
        proof {
            if i == 0 {
                assert(rv.take(1)[0] == rv[0]);
                assert(joined@ =~= join_semicolon(rv.take(1)));
            }
        }
        i = i + 1;
    }
    proof {
        assert(rv.take(rejected.len() as int) =~= rv);
    }
    let mut m = str_to_string("advisory response contained ");
    push_decimal(&mut m, rejected.len() as u64);
    string_append(&mut m, " malformed entr");
    if rejected.len() == 1 {
        string_append(&mut m, "y");
    } else {
        string_append(&mut m, "ies");
    }
    string_append(&mut m, ": ");
    string_append(&mut m, joined.as_str());
    m
}

} // verus!
