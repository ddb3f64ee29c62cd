//! The npm bulk-advisory response, read fail-closed: findings are built on
//! this side by matching each advisory against the audited pins, and a
//! response of the wrong shape, about packages that were not asked for, or
//! with any malformed advisory is refused as a whole.

use vstd::prelude::*;
use crate::audit::{malformed_entries_error, malformed_message};
use crate::text::{opt_string_view, str_to_string, string_append, strings_view};

verus! {

/// The kind of a JSON value.
#[derive(Debug, Clone, Copy, PartialEq, Eq, Structural)]
pub enum JsonKind {
    Null,
    Bool,
    Number,
    String,
    Array,
    Object,
}

pub open spec fn kind_name(k: JsonKind) -> Seq<char> {
    match k {
        JsonKind::Null => "null"@,
        JsonKind::Bool => "bool"@,
        JsonKind::Number => "number"@,
        JsonKind::String => "string"@,
        JsonKind::Array => "array"@,
        JsonKind::Object => "object"@,
    }
}

/// The name of a JSON value's kind, as schema errors show it.
pub fn type_of_json(k: JsonKind) -> (r: String)
    ensures
        r@ == kind_name(k),
{
    match k {
        JsonKind::Null => str_to_string("null"),
        JsonKind::Bool => str_to_string("bool"),
        JsonKind::Number => str_to_string("number"),
        JsonKind::String => str_to_string("string"),
        JsonKind::Array => str_to_string("array"),
        JsonKind::Object => str_to_string("object"),
    }
}

/// The fields of an advisory that the bulk API must carry.
#[derive(Debug, Clone)]
pub struct AdvisoryRecord {
    /// The registry's numeric id, as text.
    pub id: String,
    pub url: String,
    pub title: String,
    pub severity: String,
    /// The affected versions, a semver range such as `<4.17.21`.
    pub vulnerable_versions: String,
}

/// One advisory of the response, with what the semver checks said of it:
/// `range_error` is the refusal of its range (unparsable, or failing the
/// audit-grade validation); `versions[k]` is, for the `k`-th pin of the
/// package (in pin order), whether its version is in the range, or why it
/// does not parse; `name_error` is the refusal of the package name.
#[derive(Debug, Clone)]
pub enum AdvisoryEntry {
    /// The advisory did not deserialize; `message` is the schema error.
    Malformed { message: String },
    Record {
        record: AdvisoryRecord,
        range_error: Option<String>,
        versions: Vec<Result<bool, String>>,
        name_error: Option<String>,
    },
}

/// What the response holds for one package.
#[derive(Debug, Clone)]
pub enum AdvisoryList {
    NotArray { kind: JsonKind },
    Items { items: Vec<AdvisoryEntry> },
}

/// The response body.
#[derive(Debug, Clone)]
pub enum AdvisoryResponse {
    NotObject { kind: JsonKind },
    Object { entries: Vec<(String, AdvisoryList)> },
}

/// A finding: a pinned version that an advisory covers.
#[derive(Debug, Clone)]
pub struct Finding {
    pub package: String,
    pub version: String,
    pub title: String,
    pub severity: String,
    /// The advisory id.
    pub cve: String,
    /// The advisory's vulnerable range.
    pub patched_versions: String,
    pub url: String,
    /// The source of the evidence: always `npm-bulk-advisory`.
    pub scanner: Option<String>,
    /// The ecosystem of the evidence: always `web/javascript`.
    pub ecosystem: Option<String>,
    /// When the evidence was gathered (seconds since the unix epoch).
    pub evidence_at: Option<u64>,
}

/// A finding carries the evidence of the npm bulk-advisory scan gathered at
/// `at`.
pub open spec fn stamped(f: Finding, at: u64) -> bool {
    &&& opt_string_view(f.scanner) == Some("npm-bulk-advisory"@)
    &&& opt_string_view(f.ecosystem) == Some("web/javascript"@)
    &&& f.evidence_at == Some(at)
}

pub open spec fn all_stamped(fs: Seq<Finding>, at: u64) -> bool {
    forall|k: int| 0 <= k < fs.len() ==> stamped(#[trigger] fs[k], at)
}

pub type FindingView = (Seq<char>, Seq<char>, Seq<char>, Seq<char>, Seq<char>, Seq<char>, Seq<char>);

pub open spec fn finding_view(f: Finding) -> FindingView {
    (f.package@, f.version@, f.title@, f.severity@, f.cve@, f.patched_versions@, f.url@)
}

pub open spec fn findings_view(fs: Seq<Finding>) -> Seq<FindingView> {
    fs.map_values(|f: Finding| finding_view(f))
}

/// The versions pinned for `name`, in pin order.
pub open spec fn pins_named(pins: Seq<(String, String)>, name: Seq<char>) -> Seq<Seq<char>>
    decreases pins.len(),
{
    if pins.len() == 0 {
        Seq::empty()
    } else {
        let r = pins_named(pins.drop_last(), name);
        if pins.last().0@ == name {
            r.push(pins.last().1@)
        } else {
            r
        }
    }
}

pub open spec fn finding_of(pkg: Seq<char>, version: Seq<char>, rec: AdvisoryRecord) -> FindingView {
    (pkg, version, rec.title@, rec.severity@, rec.id@, rec.vulnerable_versions@, rec.url@)
}

pub open spec fn version_error(version: Seq<char>, e: Seq<char>) -> Seq<char> {
    "invalid installed version '"@ + version + "': "@ + e
}

pub open spec fn name_error_message(e: Seq<char>) -> Seq<char> {
    "invalid package name: "@ + e
}

pub open spec fn check_view(c: Result<bool, String>) -> Result<bool, Seq<char>> {
    match c {
        Ok(b) => Ok(b),
        Err(e) => Err(e@),
    }
}

/// The findings of one advisory over the pins of its package, stopping at
/// the first pin whose version does not parse, or at a covered pin when
/// the package name is refused.
pub open spec fn record_findings(
    pkg: Seq<char>,
    rec: AdvisoryRecord,
    vers: Seq<Seq<char>>,
    checks: Seq<Result<bool, String>>,
    name_error: Option<Seq<char>>,
) -> Result<Seq<FindingView>, Seq<char>>
    decreases vers.len(),
{
    if vers.len() == 0 {
        Ok(Seq::empty())
    } else {
        match record_findings(pkg, rec, vers.drop_last(), checks.drop_last(), name_error) {
            Err(e) => Err(e),
            Ok(fs) => match check_view(checks[vers.len() - 1]) {
                Err(e) => Err(version_error(vers.last(), e)),
                Ok(false) => Ok(fs),
                Ok(true) => match name_error {
                    Some(e) => Err(name_error_message(e)),
                    None => Ok(fs.push(finding_of(pkg, vers.last(), rec))),
                },
            },
        }
    }
}

/// The findings of one advisory entry, or why it is malformed.
pub open spec fn entry_findings(pkg: Seq<char>, entry: AdvisoryEntry, pins: Seq<(String, String)>) -> Result<
    Seq<FindingView>,
    Seq<char>,
> {
    match entry {
        AdvisoryEntry::Malformed { message } => Err("schema mismatch: "@ + message@),
        AdvisoryEntry::Record { record, range_error, versions, name_error } => match range_error {
            Some(e) => Err(e@),
            None => record_findings(
                pkg,
                record,
                pins_named(pins, pkg),
                versions@,
                opt_string_view(name_error),
            ),
        },
    }
}

/// The findings of a package's advisories and the reasons of the
/// malformed ones, each reason prefixed with the package name.
pub open spec fn scan_items(pkg: Seq<char>, items: Seq<AdvisoryEntry>, pins: Seq<(String, String)>) -> (
    Seq<FindingView>,
    Seq<Seq<char>>,
)
    decreases items.len(),
{
    if items.len() == 0 {
        (Seq::empty(), Seq::empty())
    } else {
        let (fs, rj) = scan_items(pkg, items.drop_last(), pins);
        match entry_findings(pkg, items.last(), pins) {
            Ok(found) => (fs + found, rj),
            Err(reason) => (fs, rj.push(pkg + ": "@ + reason)),
        }
    }
}

pub open spec fn requested(pins: Seq<(String, String)>, name: Seq<char>) -> bool {
    exists|i: int| 0 <= i < pins.len() && #[trigger] pins[i].0@ == name
}

pub open spec fn not_requested_message(name: Seq<char>) -> Seq<char> {
    "advisory response mentions package '"@ + name
        + "' which was not requested \u{2014} possible malformed or hostile response"@
}

pub open spec fn not_array_message(name: Seq<char>, kind: JsonKind) -> Seq<char> {
    "advisory response for '"@ + name + "' must be an array, got: "@ + kind_name(kind)
}

pub open spec fn not_object_message(kind: JsonKind) -> Seq<char> {
    "advisory response must be a JSON object mapping packages to advisory arrays, got: "@
        + kind_name(kind)
}

/// The package entries read in order: the first that names a package not
/// asked for, or whose advisories are not an array, stops the reading.
pub open spec fn scan_entries(entries: Seq<(String, AdvisoryList)>, pins: Seq<(String, String)>) -> Result<
    (Seq<FindingView>, Seq<Seq<char>>),
    Seq<char>,
>
    decreases entries.len(),
{
    if entries.len() == 0 {
        Ok((Seq::empty(), Seq::empty()))
    } else {
        match scan_entries(entries.drop_last(), pins) {
            Err(e) => Err(e),
            Ok((fs, rj)) => {
                let name = entries.last().0@;
                if !requested(pins, name) {
                    Err(not_requested_message(name))
                } else {
                    match entries.last().1 {
                        AdvisoryList::NotArray { kind } => Err(not_array_message(name, kind)),
                        AdvisoryList::Items { items } => {
                            let (f2, r2) = scan_items(name, items@, pins);
                            Ok((fs + f2, rj + r2))
                        },
                    }
                }
            },
        }
    }
}

/// The reading of a whole response: its findings, or the refusal.
pub open spec fn spec_parse_advisories(resp: AdvisoryResponse, pins: Seq<(String, String)>) -> Result<
    Seq<FindingView>,
    Seq<char>,
> {
    match resp {
        AdvisoryResponse::NotObject { kind } => Err(not_object_message(kind)),
        AdvisoryResponse::Object { entries } => match scan_entries(entries@, pins) {
            Err(e) => Err(e),
            Ok((fs, rj)) => if rj.len() > 0 {
                Err(malformed_message(rj))
            } else {
                Ok(fs)
            },
        },
    }
}

/// Every record carries one version check per pin of its package.
pub open spec fn entry_wf(pkg: Seq<char>, entry: AdvisoryEntry, pins: Seq<(String, String)>) -> bool {
    match entry {
        AdvisoryEntry::Malformed { .. } => true,
        AdvisoryEntry::Record { versions, .. } => versions.len() == pins_named(pins, pkg).len(),
    }
}

pub open spec fn response_wf(resp: AdvisoryResponse, pins: Seq<(String, String)>) -> bool {
    match resp {
        AdvisoryResponse::NotObject { .. } => true,
        AdvisoryResponse::Object { entries } => forall|i: int|
            0 <= i < entries.len() ==> match #[trigger] entries@[i].1 {
                AdvisoryList::NotArray { .. } => true,
                AdvisoryList::Items { items } => forall|k: int|
                    0 <= k < items.len() ==> entry_wf(entries@[i].0@, #[trigger] items@[k], pins),
            },
    }
}

pub open spec fn findings_result_view(r: Result<Vec<Finding>, String>) -> Result<Seq<FindingView>, Seq<char>> {
    match r {
        Ok(v) => Ok(findings_view(v@)),
        Err(e) => Err(e@),
    }
}

fn record_findings_exec(
    pkg: &String,
    rec: &AdvisoryRecord,
    pins: &Vec<(String, String)>,
    versions: &Vec<Result<bool, String>>,
    name_error: &Option<String>,
    at: u64,
) -> (r: Result<Vec<Finding>, String>)
    requires
        versions.len() == pins_named(pins@, pkg@).len(),
    ensures
        findings_result_view(r) == record_findings(
            pkg@,
            *rec,
            pins_named(pins@, pkg@),
            versions@,
            opt_string_view(*name_error),
        ),
        r matches Ok(v) ==> all_stamped(v@, at),
{
    let ghost all = pins_named(pins@, pkg@);
    let mut out: Vec<Finding> = Vec::new();
    let mut k: usize = 0;
    let mut i: usize = 0;
    proof {
        assert(pins@.take(0) =~= Seq::<(String, String)>::empty());
        assert(versions@.take(0) =~= Seq::<Result<bool, String>>::empty());
        assert(all.take(0) =~= Seq::<Seq<char>>::empty());
        assert(findings_view(out@) =~= Seq::<FindingView>::empty());
    }
    while i < pins.len()
        invariant
            i <= pins.len(),
            all == pins_named(pins@, pkg@),
            versions.len() == all.len(),
            k == pins_named(pins@.take(i as int), pkg@).len(),
            k <= all.len(),
            pins_named(pins@.take(i as int), pkg@) == all.take(k as int),
            record_findings(pkg@, *rec, all.take(k as int), versions@.take(k as int), opt_string_view(*name_error))
                == Ok::<Seq<FindingView>, Seq<char>>(findings_view(out@)),
            all_stamped(out@, at),
        decreases pins.len() - i,
    {
        proof {
            lemma_pins_named_prefix(pins@, pkg@, i as int);
            assert(pins@.take(i + 1).drop_last() =~= pins@.take(i as int));
        }
        if pins[i].0 == *pkg {
            let ghost v = pins@[i as int].1@;
            proof {
                assert(pins_named(pins@.take(i + 1), pkg@) == all.take(k as int).push(v));
                lemma_pins_named_len(pins@, pkg@, i + 1);
                assert(all.take(k + 1) =~= all.take(k as int).push(v)) by {
                    assert(pins_named(pins@.take(i + 1), pkg@) == all.take((k + 1) as int));
                }
                assert(all.take(k + 1).drop_last() =~= all.take(k as int));
                assert(versions@.take(k + 1).drop_last() =~= versions@.take(k as int));
                assert(versions@.take(k + 1)[k as int] == versions@[k as int]);
            }
            match &versions[k] {
                Err(e) => {
                    let mut m = str_to_string("invalid installed version '");
                    string_append(&mut m, pins[i].1.as_str());
                    string_append(&mut m, "': ");
                    string_append(&mut m, e.as_str());
                    proof {
                        assert(m@ =~= version_error(v, e@));
                        lemma_record_findings_stop(pkg@, *rec, all, versions@, opt_string_view(*name_error), k + 1);
                    }
                    return Err(m);
                },
                Ok(false) => {},
                Ok(true) => {
                    match name_error {
                        Some(e) => {
                            let mut m = str_to_string("invalid package name: ");
                            string_append(&mut m, e.as_str());
                            proof {
                                lemma_record_findings_stop(pkg@, *rec, all, versions@, opt_string_view(*name_error), k + 1);
                            }
                            return Err(m);
                        },
                        None => {
                            let f = Finding {
                                package: pkg.clone(),
                                version: pins[i].1.clone(),
                                title: rec.title.clone(),
                                severity: rec.severity.clone(),
                                cve: rec.id.clone(),
                                patched_versions: rec.vulnerable_versions.clone(),
                                url: rec.url.clone(),
                                scanner: Some(str_to_string("npm-bulk-advisory")),
                                ecosystem: Some(str_to_string("web/javascript")),
                                evidence_at: Some(at),
                            };
                            let ghost before = out@;
                            out.push(f);
                            proof {
                                assert(findings_view(out@) =~= findings_view(before).push(finding_view(f)));
                                assert forall|q: int| 0 <= q < out@.len() implies stamped(#[trigger] out@[q], at) by {
                                    if q < before.len() {
                                        assert(out@[q] == before[q]);
                                    }
                                }
                            }
                        },
                    }
                },
            }
            k = k + 1;
        } else {
            proof {
                assert(pins_named(pins@.take(i + 1), pkg@) == pins_named(pins@.take(i as int), pkg@));
            }
        }
        i = i + 1;
    }
    proof {
        assert(pins@.take(pins.len() as int) =~= pins@);
        assert(all.take(k as int) =~= all);
        assert(versions@.take(k as int) =~= versions@);
    }
    Ok(out)
}

proof fn lemma_pins_named_prefix(pins: Seq<(String, String)>, name: Seq<char>, i: int)
    requires
        0 <= i < pins.len(),
    ensures
        pins_named(pins.take(i + 1), name) == if pins[i].0@ == name {
            pins_named(pins.take(i), name).push(pins[i].1@)
        } else {
            pins_named(pins.take(i), name)
        },
{
    assert(pins.take(i + 1).drop_last() =~= pins.take(i));
    assert(pins.take(i + 1).last() == pins[i]);
}

/// The pins named so far are a prefix of all pins named.
proof fn lemma_pins_named_len(pins: Seq<(String, String)>, name: Seq<char>, n: int)
    requires
        0 <= n <= pins.len(),
    ensures
        pins_named(pins.take(n), name).len() <= pins_named(pins, name).len(),
        pins_named(pins.take(n), name) == pins_named(pins, name).take(
            pins_named(pins.take(n), name).len() as int,
        ),
    decreases pins.len() - n,
{
    if n == pins.len() {
        assert(pins.take(n) =~= pins);
        assert(pins_named(pins, name).take(pins_named(pins, name).len() as int) =~= pins_named(
            pins,
            name,
        ));
    } else {
        lemma_pins_named_len(pins, name, n + 1);
        lemma_pins_named_prefix(pins, name, n);
        let a = pins_named(pins.take(n), name);
        let b = pins_named(pins.take(n + 1), name);
        let all = pins_named(pins, name);
        if pins[n].0@ == name {
            assert(b == a.push(pins[n].1@));
            assert(a =~= all.take(a.len() as int)) by {
                assert forall|j: int| 0 <= j < a.len() implies a[j] == all.take(a.len() as int)[j] by {
                    assert(b[j] == a[j]);
                    assert(b == all.take(b.len() as int));
                }
            }
        } else {
            assert(b == a);
        }
    }
}

/// Once a check stops the reading, later pins change nothing.
proof fn lemma_record_findings_stop(
    pkg: Seq<char>,
    rec: AdvisoryRecord,
    vers: Seq<Seq<char>>,
    checks: Seq<Result<bool, String>>,
    name_error: Option<Seq<char>>,
    n: int,
)
    requires
        0 < n <= vers.len(),
        checks.len() == vers.len(),
        record_findings(pkg, rec, vers.take(n), checks.take(n), name_error) is Err,
    ensures
        record_findings(pkg, rec, vers, checks, name_error) == record_findings(
            pkg,
            rec,
            vers.take(n),
            checks.take(n),
            name_error,
        ),
    decreases vers.len() - n,
{
    if n < vers.len() {
        assert(vers.take(n + 1).drop_last() =~= vers.take(n));
        assert(checks.take(n + 1).drop_last() =~= checks.take(n));
        assert(record_findings(pkg, rec, vers.take(n + 1), checks.take(n + 1), name_error) is Err);
        lemma_record_findings_stop(pkg, rec, vers, checks, name_error, n + 1);
    } else {
        assert(vers.take(n) =~= vers);
        assert(checks.take(n) =~= checks);
    }
}

fn entry_findings_exec(pkg: &String, entry: &AdvisoryEntry, pins: &Vec<(String, String)>, at: u64) -> (r:
    Result<Vec<Finding>, String>)
    requires
        entry_wf(pkg@, *entry, pins@),
    ensures
        findings_result_view(r) == entry_findings(pkg@, *entry, pins@),
        r matches Ok(v) ==> all_stamped(v@, at),
{
    match entry {
        AdvisoryEntry::Malformed { message } => {
            let mut m = str_to_string("schema mismatch: ");
            string_append(&mut m, message.as_str());
            Err(m)
        },
        AdvisoryEntry::Record { record, range_error, versions, name_error } => match range_error {
            Some(e) => Err(e.clone()),
            None => record_findings_exec(pkg, record, pins, versions, name_error, at),
        },
    }
}

fn requested_exec(pins: &Vec<(String, String)>, name: &String) -> (r: bool)
    ensures
        r == requested(pins@, name@),
{
    let mut i: usize = 0;
    while i < pins.len()
        invariant
            i <= pins.len(),
            forall|k: int| 0 <= k < i ==> #[trigger] pins@[k].0@ != name@,
        decreases pins.len() - i,
    {
        if pins[i].0 == *name {
            return true;
        }
        i = i + 1;
    }
    false
}

/// Reads a bulk-advisory response against the audited pins (see
/// [`spec_parse_advisories`]): the findings in response order, each with
/// the scan's evidence stamped at `evidence_at`, or the refusal of the
/// whole response.
pub fn parse_advisory_bulk_response(
    resp: &AdvisoryResponse,
    pins: &Vec<(String, String)>,
    evidence_at: u64,
) -> (r: Result<Vec<Finding>, String>)
    requires
        response_wf(*resp, pins@),
    ensures
        findings_result_view(r) == spec_parse_advisories(*resp, pins@),
        r matches Ok(v) ==> all_stamped(v@, evidence_at),
{
    let entries = match resp {
        AdvisoryResponse::NotObject { kind } => {
            let mut m = str_to_string(
                "advisory response must be a JSON object mapping packages to advisory arrays, got: ",
            );
            let k = type_of_json(*kind);
            string_append(&mut m, k.as_str());
            return Err(m);
        },
        AdvisoryResponse::Object { entries } => entries,
    };
    let mut found: Vec<Finding> = Vec::new();
    let mut rejected: Vec<String> = Vec::new();
    let mut i: usize = 0;
    proof {
        assert(entries@.take(0) =~= Seq::<(String, AdvisoryList)>::empty());
        assert(findings_view(found@) =~= Seq::<FindingView>::empty());
        assert(strings_view(rejected@) =~= Seq::<Seq<char>>::empty());
    }
    while i < entries.len()
        invariant
            i <= entries.len(),
            response_wf(*resp, pins@),
            *resp == (AdvisoryResponse::Object { entries: *entries }),
            scan_entries(entries@.take(i as int), pins@) == Ok::<
                (Seq<FindingView>, Seq<Seq<char>>),
                Seq<char>,
            >((findings_view(found@), strings_view(rejected@))),
            all_stamped(found@, evidence_at),
        decreases entries.len() - i,
    {
        let name = &entries[i].0;
        proof {
            assert(entries@.take(i + 1).drop_last() =~= entries@.take(i as int));
            assert(entries@.take(i + 1).last() == entries@[i as int]);
        }
        if !requested_exec(pins, name) {
            let mut m = str_to_string("advisory response mentions package '");
            string_append(&mut m, name.as_str());
            string_append(
                &mut m,
                "' which was not requested \u{2014} possible malformed or hostile response",
            );
            proof {
                lemma_scan_entries_stop(entries@, pins@, i + 1);
            }
            return Err(m);
        }
        match &entries[i].1 {
            AdvisoryList::NotArray { kind } => {
                let mut m = str_to_string("advisory response for '");
                string_append(&mut m, name.as_str());
                string_append(&mut m, "' must be an array, got: ");
                let k = type_of_json(*kind);
                string_append(&mut m, k.as_str());
                proof {
                    lemma_scan_entries_stop(entries@, pins@, i + 1);
                }
                return Err(m);
            },
            AdvisoryList::Items { items } => {
                let ghost fs0 = findings_view(found@);
                let ghost rj0 = strings_view(rejected@);
                let mut j: usize = 0;
                proof {
                    assert(items@.take(0) =~= Seq::<AdvisoryEntry>::empty());
                    assert(fs0 + Seq::<FindingView>::empty() =~= fs0);
                    assert(rj0 + Seq::<Seq<char>>::empty() =~= rj0);
                }
                while j < items.len()
                    invariant
                        j <= items.len(),
                        entries@[i as int].1 == (AdvisoryList::Items { items: *items }),
                        forall|k: int|
                            0 <= k < items.len() ==> entry_wf(name@, #[trigger] items@[k], pins@),
                        name@ == entries@[i as int].0@,
                        findings_view(found@) == fs0 + scan_items(name@, items@.take(j as int), pins@).0,
                        strings_view(rejected@) == rj0 + scan_items(name@, items@.take(j as int), pins@).1,
                        all_stamped(found@, evidence_at),
                    decreases items.len() - j,
                {
                    proof {
                        assert(items@.take(j + 1).drop_last() =~= items@.take(j as int));
                        assert(items@.take(j + 1).last() == items@[j as int]);
                    }
                    let ghost prev_f = found@;
                    let ghost prev_r = rejected@;
                    match entry_findings_exec(name, &items[j], pins, evidence_at) {
                        Ok(more) => {
                            let mut more = more;
                            let ghost mv = findings_view(more@);
                            let ghost more0 = more@;
                            found.append(&mut more);
                            proof {
                                assert(found@ =~= prev_f + more0);
                                assert forall|q: int| 0 <= q < found@.len() implies stamped(
                                    #[trigger] found@[q],
                                    evidence_at,
                                ) by {
                                    if q < prev_f.len() {
                                        assert(found@[q] == prev_f[q]);
                                    } else {
                                        assert(found@[q] == more0[q - prev_f.len()]);
                                    }
                                }
                                assert(findings_view(found@) =~= findings_view(prev_f) + mv);
                                let sc = scan_items(name@, items@.take(j as int), pins@);
                                assert(fs0 + (sc.0 + mv) =~= (fs0 + sc.0) + mv);
                            }
                        },
                        Err(reason) => {
                            let mut m = str_to_string(name.as_str());
                            string_append(&mut m, ": ");
                            string_append(&mut m, reason.as_str());
                            rejected.push(m);
                            proof {
                                assert(strings_view(rejected@) =~= strings_view(prev_r).push(m@));
                                let sc = scan_items(name@, items@.take(j as int), pins@);
                                assert(rj0 + sc.1.push(m@) =~= (rj0 + sc.1).push(m@));
                            }
                        },
                    }
                    j = j + 1;
                }
                proof {
                    assert(items@.take(items.len() as int) =~= items@);
                }
            },
        }
        i = i + 1;
    }
    proof {
        assert(entries@.take(entries.len() as int) =~= entries@);
    }
    if rejected.len() > 0 {
        return Err(malformed_entries_error(&rejected));
    }
    Ok(found)
}

proof fn lemma_scan_entries_stop(entries: Seq<(String, AdvisoryList)>, pins: Seq<(String, String)>, n: int)
    requires
        0 < n <= entries.len(),
        scan_entries(entries.take(n), pins) is Err,
    ensures
        scan_entries(entries, pins) == scan_entries(entries.take(n), pins),
    decreases entries.len() - n,
{
    if n < entries.len() {
        assert(entries.take(n + 1).drop_last() =~= entries.take(n));
        lemma_scan_entries_stop(entries, pins, n + 1);
    } else {
        assert(entries.take(n) =~= entries);
    }
}

proof fn lemma_scan_items_rejects(pkg: Seq<char>, items: Seq<AdvisoryEntry>, pins: Seq<(String, String)>, k: int)
    requires
        0 <= k < items.len(),
        entry_findings(pkg, items[k], pins) is Err,
    ensures
        scan_items(pkg, items, pins).1.len() > 0,
    decreases items.len(),
{
    if k < items.len() - 1 {
        lemma_scan_items_rejects(pkg, items.drop_last(), pins, k);
    }
}

proof fn lemma_scan_entries_unrequested(entries: Seq<(String, AdvisoryList)>, pins: Seq<(String, String)>, i: int)
    requires
        0 <= i < entries.len(),
        !requested(pins, entries[i].0@),
    ensures
        scan_entries(entries, pins) is Err,
    decreases entries.len(),
{
    if i < entries.len() - 1 {
        lemma_scan_entries_unrequested(entries.drop_last(), pins, i);
    }
}

proof fn lemma_scan_entries_malformed(
    entries: Seq<(String, AdvisoryList)>,
    pins: Seq<(String, String)>,
    i: int,
    k: int,
)
    requires
        0 <= i < entries.len(),
        entries[i].1 matches AdvisoryList::Items { items } && 0 <= k < items.len()
            && entry_findings(entries[i].0@, items@[k], pins) is Err,
    ensures
        scan_entries(entries, pins) matches Ok((_, rj)) ==> rj.len() > 0,
    decreases entries.len(),
{
    if i < entries.len() - 1 {
        lemma_scan_entries_malformed(entries.drop_last(), pins, i, k);
    } else {
        match entries[i].1 {
            AdvisoryList::Items { items } => {
                lemma_scan_items_rejects(entries[i].0@, items@, pins, k);
            },
            AdvisoryList::NotArray { .. } => {},
        }
    }
}

proof fn lemma_scan_entries_not_array(entries: Seq<(String, AdvisoryList)>, pins: Seq<(String, String)>, i: int)
    requires
        0 <= i < entries.len(),
        entries[i].1 is NotArray,
    ensures
        scan_entries(entries, pins) is Err,
    decreases entries.len(),
{
    if i < entries.len() - 1 {
        lemma_scan_entries_not_array(entries.drop_last(), pins, i);
    }
}

/// The reading fails closed: a body that is not an object, one that names
/// a package that was not asked for, one whose advisories for a package are
/// not an array, and one with any advisory that does not read (a schema
/// mismatch, a vulnerable range that is not valid semver, an installed
/// version that does not parse) are refused; none reads as a partial or
/// clean report.
pub proof fn law_advisories_fail_closed(resp: AdvisoryResponse, pins: Seq<(String, String)>, i: int, k: int)
    ensures
        resp is NotObject ==> spec_parse_advisories(resp, pins) is Err,
        resp matches AdvisoryResponse::Object { entries } && 0 <= i < entries.len() && !requested(
            pins,
            entries@[i].0@,
        ) ==> spec_parse_advisories(resp, pins) is Err,
        resp matches AdvisoryResponse::Object { entries } && 0 <= i < entries.len()
            && entries@[i].1 is NotArray ==> spec_parse_advisories(resp, pins) is Err,
        resp matches AdvisoryResponse::Object { entries } && 0 <= i < entries.len() && (
        entries@[i].1 matches AdvisoryList::Items { items } && 0 <= k < items.len() && (
        items@[k] is Malformed || items@[k] matches AdvisoryEntry::Record { range_error: Some(_), .. }))
            ==> spec_parse_advisories(resp, pins) is Err,
        resp matches AdvisoryResponse::Object { entries } && 0 <= i < entries.len() && (
        entries@[i].1 matches AdvisoryList::Items { items } && 0 <= k < items.len() && entry_findings(
            entries@[i].0@,
            items@[k],
            pins,
        ) is Err) ==> spec_parse_advisories(resp, pins) is Err,
{
    match resp {
        AdvisoryResponse::NotObject { .. } => {},
        AdvisoryResponse::Object { entries } => {
            if 0 <= i < entries.len() && !requested(pins, entries@[i].0@) {
                lemma_scan_entries_unrequested(entries@, pins, i);
            }
            if 0 <= i < entries.len() {
                match entries@[i].1 {
                    AdvisoryList::Items { items } => {
                        if 0 <= k < items.len() && entry_findings(entries@[i].0@, items@[k], pins) is Err {
                            lemma_scan_entries_malformed(entries@, pins, i, k);
                        }
                    },
                    AdvisoryList::NotArray { .. } => {
                        lemma_scan_entries_not_array(entries@, pins, i);
                    },
                }
            }
        },
    }
}

/// How many of the pins an advisory was checked against it covers.
pub open spec fn covered_count(checks: Seq<Result<bool, String>>) -> nat
    decreases checks.len(),
{
    if checks.len() == 0 {
        0
    } else {
        covered_count(checks.drop_last()) + (if checks.last() == Ok::<bool, String>(true) {
            1nat
        } else {
            0nat
        })
    }
}

/// How many pins the advisories of a list cover.
pub open spec fn items_covered(items: Seq<AdvisoryEntry>) -> nat
    decreases items.len(),
{
    if items.len() == 0 {
        0
    } else {
        items_covered(items.drop_last()) + match items.last() {
            AdvisoryEntry::Record { versions, .. } => covered_count(versions@),
            AdvisoryEntry::Malformed { .. } => 0nat,
        }
    }
}

/// How many pins the advisories of a whole response cover.
pub open spec fn entries_covered(entries: Seq<(String, AdvisoryList)>) -> nat
    decreases entries.len(),
{
    if entries.len() == 0 {
        0
    } else {
        entries_covered(entries.drop_last()) + match entries.last().1 {
            AdvisoryList::Items { items } => items_covered(items@),
            AdvisoryList::NotArray { .. } => 0nat,
        }
    }
}

proof fn lemma_record_count(
    pkg: Seq<char>,
    rec: AdvisoryRecord,
    vers: Seq<Seq<char>>,
    checks: Seq<Result<bool, String>>,
    name_error: Option<Seq<char>>,
)
    requires
        vers.len() == checks.len(),
    ensures
        record_findings(pkg, rec, vers, checks, name_error) matches Ok(fs) ==> fs.len() == covered_count(
            checks,
        ),
    decreases vers.len(),
{
    if vers.len() > 0 {
        lemma_record_count(pkg, rec, vers.drop_last(), checks.drop_last(), name_error);
        if checks.last() == Ok::<bool, String>(true) {
            assert(check_view(checks[vers.len() - 1]) == Ok::<bool, Seq<char>>(true));
        } else {
            match checks.last() {
                Ok(b) => assert(!b),
                Err(_) => {},
            }
        }
    }
}

proof fn lemma_items_count(pkg: Seq<char>, items: Seq<AdvisoryEntry>, pins: Seq<(String, String)>)
    requires
        forall|k: int| 0 <= k < items.len() ==> entry_wf(pkg, #[trigger] items[k], pins),
    ensures
        scan_items(pkg, items, pins).1.len() == 0 ==> scan_items(pkg, items, pins).0.len()
            == items_covered(items),
    decreases items.len(),
{
    if items.len() > 0 {
        assert forall|k: int| 0 <= k < items.drop_last().len() implies entry_wf(
            pkg,
            #[trigger] items.drop_last()[k],
            pins,
        ) by {
            assert(items.drop_last()[k] == items[k]);
        }
        lemma_items_count(pkg, items.drop_last(), pins);
        assert(entry_wf(pkg, items[items.len() - 1], pins));
        match items.last() {
            AdvisoryEntry::Record { record, range_error, versions, name_error } => {
                lemma_record_count(pkg, record, pins_named(pins, pkg), versions@, opt_string_view(name_error));
            },
            AdvisoryEntry::Malformed { .. } => {},
        }
    }
}

proof fn lemma_entries_count(entries: Seq<(String, AdvisoryList)>, pins: Seq<(String, String)>)
    requires
        forall|i: int|
            0 <= i < entries.len() ==> match #[trigger] entries[i].1 {
                AdvisoryList::NotArray { .. } => true,
                AdvisoryList::Items { items } => forall|k: int|
                    0 <= k < items.len() ==> entry_wf(entries[i].0@, #[trigger] items@[k], pins),
            },
    ensures
        scan_entries(entries, pins) matches Ok((fs, rj)) ==> (rj.len() == 0 ==> fs.len()
            == entries_covered(entries)),
    decreases entries.len(),
{
    if entries.len() > 0 {
        let init = entries.drop_last();
        assert forall|i: int| 0 <= i < init.len() implies match #[trigger] init[i].1 {
            AdvisoryList::NotArray { .. } => true,
            AdvisoryList::Items { items } => forall|k: int|
                0 <= k < items.len() ==> entry_wf(init[i].0@, #[trigger] items@[k], pins),
        } by {
            assert(init[i] == entries[i]);
        }
        lemma_entries_count(init, pins);
        let last = entries[entries.len() - 1];
        match last.1 {
            AdvisoryList::Items { items } => {
                lemma_items_count(last.0@, items@, pins);
            },
            AdvisoryList::NotArray { .. } => {},
        }
    }
}

/// A response that reads yields one finding for each pin that one of its
/// advisories covers, counted over every advisory of every package: no
/// covered pin is dropped and none is counted twice (an empty object gives
/// no findings).
pub proof fn law_findings_count(resp: AdvisoryResponse, pins: Seq<(String, String)>)
    requires
        response_wf(resp, pins),
    ensures
        spec_parse_advisories(resp, pins) matches Ok(fs) ==> (resp matches AdvisoryResponse::Object {
            entries,
        } && fs.len() == entries_covered(entries@)),
{
    match resp {
        AdvisoryResponse::NotObject { .. } => {},
        AdvisoryResponse::Object { entries } => {
            lemma_entries_count(entries@, pins);
        },
    }
}

} // verus!
