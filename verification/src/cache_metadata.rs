//! Cached registry metadata: freshness rules and the stale-fallback policy
//! that decides, around each registry round trip, what is returned and what
//! is written back to the shared cache.

use vstd::prelude::*;
use crate::cache::current_unix_secs;
use crate::native::npm_registry::PackageMetadata;
use crate::text::{opt_string_view, string_append, str_to_string};

verus! {

/// A metadata document as read from the shared cache. `fetched_at == 0`
/// marks a legacy document that carried no envelope.
#[derive(Debug, Clone)]
pub struct CachedMetadataRecord {
    pub fetched_at: u64,
    pub etag: Option<String>,
    pub stale_retry_after: Option<u64>,
    pub metadata: PackageMetadata,
}

/// The on-disk envelope around a cached metadata document.
#[derive(Debug, Clone)]
pub struct CachedMetadataEnvelope {
    pub fetched_at: u64,
    pub etag: Option<String>,
    pub stale_retry_after: Option<u64>,
    pub metadata: PackageMetadata,
}

/// Age of an entry fetched at `fetched_at`, seen at `now` (saturating).
pub open spec fn age(now: u64, fetched_at: u64) -> int {
    if now >= fetched_at {
        now - fetched_at
    } else {
        0
    }
}

pub open spec fn spec_is_fresh(fetched_at: u64, now: u64, ttl: u64) -> bool {
    fetched_at != 0 && age(now, fetched_at) <= ttl
}

pub open spec fn spec_retry_deferred(stale_retry_after: Option<u64>, now: u64) -> bool {
    match stale_retry_after {
        Some(t) => t > now,
        None => false,
    }
}

pub open spec fn spec_usable_stale(fetched_at: u64, now: u64, max_stale: u64) -> bool {
    fetched_at == 0 || age(now, fetched_at) <= max_stale
}

/// A record is fresh when it carries a fetch time no older than `ttl`.
pub fn metadata_record_is_fresh_at(record: &CachedMetadataRecord, now: u64, ttl: u64) -> (r: bool)
    ensures
        r == spec_is_fresh(record.fetched_at, now, ttl),
{
    if record.fetched_at == 0 {
        return false;
    }
    now.saturating_sub(record.fetched_at) <= ttl
}

/// A failed refresh has already scheduled the next retry after `now`.
pub fn metadata_record_retry_deferred_at(record: &CachedMetadataRecord, now: u64) -> (r: bool)
    ensures
        r == spec_retry_deferred(record.stale_retry_after, now),
{
    match record.stale_retry_after {
        Some(t) => t > now,
        None => false,
    }
}

/// A stale record may still be served: legacy records always, others while
/// no older than `max_stale`.
pub fn metadata_record_is_usable_stale_at(record: &CachedMetadataRecord, now: u64, max_stale: u64) -> (r:
    bool)
    ensures
        r == spec_usable_stale(record.fetched_at, now, max_stale),
{
    if record.fetched_at == 0 {
        return true;
    }
    now.saturating_sub(record.fetched_at) <= max_stale
}

/// Freshness against the system clock: the verdict of
/// [`metadata_record_is_fresh_at`] at the clock's reading (whatever it is),
/// so a legacy record is never fresh.
pub fn metadata_record_is_fresh(record: &CachedMetadataRecord, ttl: u64) -> (r: bool)
    ensures
        exists|now: u64| r == #[trigger] spec_is_fresh(record.fetched_at, now, ttl),
        record.fetched_at == 0 ==> !r,
{
    let now = current_unix_secs();
    metadata_record_is_fresh_at(record, now, ttl)
}

/// Deferral against the system clock: the verdict of
/// [`metadata_record_retry_deferred_at`] at the clock's reading (whatever it
/// is), so a record without a retry time is never deferred.
pub fn metadata_record_retry_deferred(record: &CachedMetadataRecord) -> (r: bool)
    ensures
        exists|now: u64| r == #[trigger] spec_retry_deferred(record.stale_retry_after, now),
        record.stale_retry_after.is_none() ==> !r,
{
    let now = current_unix_secs();
    metadata_record_retry_deferred_at(record, now)
}

/// Stale usability against the system clock: the verdict of
/// [`metadata_record_is_usable_stale_at`] at the clock's reading (whatever
/// it is), so a legacy record is always usable.
pub fn metadata_record_is_usable_stale(record: &CachedMetadataRecord, max_stale: u64) -> (r: bool)
    ensures
        exists|now: u64| r == #[trigger] spec_usable_stale(record.fetched_at, now, max_stale),
        record.fetched_at == 0 ==> r,
{
    let now = current_unix_secs();
    metadata_record_is_usable_stale_at(record, now, max_stale)
}

pub open spec fn spec_saturating_add(a: u64, b: u64) -> u64 {
    if a + b > u64::MAX {
        u64::MAX
    } else {
        (a + b) as u64
    }
}

/// When the next refresh of a stale record may be attempted.
pub fn next_stale_retry_after_at(now: u64, retry_ttl: u64) -> (r: u64)
    ensures
        r == spec_saturating_add(now, retry_ttl),
{
    now.saturating_add(retry_ttl)
}

/// [`next_stale_retry_after_at`] against the system clock.
pub fn next_stale_retry_after(retry_ttl: u64) -> (r: u64)
    ensures
        r >= retry_ttl,
        exists|now: u64| r == spec_saturating_add(now, retry_ttl),
{
    let now = current_unix_secs();
    next_stale_retry_after_at(now, retry_ttl)
}

/// The first move when metadata for a package is wanted.
#[derive(Debug, Clone, PartialEq, Eq)]
pub enum MetadataStep {
    /// Serve the cached document as it is; nothing is written.
    ServeCached,
    /// Revalidate the cached document with `If-None-Match: etag`.
    Revalidate { etag: String },
    /// Fetch the document unconditionally.
    Fetch,
}

pub open spec fn spec_first_step_kind(
    cached: Option<(u64, Option<Seq<char>>, Option<u64>)>,
    now: u64,
    ttl: u64,
    max_stale: u64,
) -> int {
    match cached {
        None => 2,
        Some((fetched_at, etag, retry)) => if spec_is_fresh(fetched_at, now, ttl) || (
        spec_retry_deferred(retry, now) && spec_usable_stale(fetched_at, now, max_stale)) {
            0
        } else if etag.is_some() {
            1
        } else {
            2
        },
    }
}

pub open spec fn record_key(r: CachedMetadataRecord) -> (u64, Option<Seq<char>>, Option<u64>) {
    (
        r.fetched_at,
        match r.etag {
            Some(e) => Some(e@),
            None => None,
        },
        r.stale_retry_after,
    )
}

pub open spec fn step_kind(s: MetadataStep) -> int {
    match s {
        MetadataStep::ServeCached => 0,
        MetadataStep::Revalidate { .. } => 1,
        MetadataStep::Fetch => 2,
    }
}

/// Decides the first move: a fresh record, or a stale but usable one whose
/// retry is deferred, is served; a record with an ETag is revalidated; in
/// every other case the document is fetched.
pub fn metadata_first_step(
    cached: Option<&CachedMetadataRecord>,
    now: u64,
    ttl: u64,
    max_stale: u64,
) -> (r: MetadataStep)
    ensures
        step_kind(r) == spec_first_step_kind(
            match cached {
                Some(c) => Some(record_key(*c)),
                None => None,
            },
            now,
            ttl,
            max_stale,
        ),
        r matches MetadataStep::Revalidate { etag } ==> (cached matches Some(c) && c.etag matches Some(
            e,
        ) && etag@ == e@),
{
    match cached {
        None => MetadataStep::Fetch,
        Some(c) => {
            if metadata_record_is_fresh_at(c, now, ttl) {
                return MetadataStep::ServeCached;
            }
            if metadata_record_retry_deferred_at(c, now) && metadata_record_is_usable_stale_at(
                c,
                now,
                max_stale,
            ) {
                return MetadataStep::ServeCached;
            }
            match &c.etag {
                Some(e) => MetadataStep::Revalidate { etag: e.clone() },
                None => MetadataStep::Fetch,
            }
        },
    }
}

/// A deferred retry never lets too-old metadata through: a record that is
/// neither fresh nor usable stale is never served, whatever its retry time.
pub proof fn law_deferral_respects_max_stale(
    fetched_at: u64,
    etag: Option<Seq<char>>,
    retry: Option<u64>,
    now: u64,
    ttl: u64,
    max_stale: u64,
)
    requires
        !spec_is_fresh(fetched_at, now, ttl),
        !spec_usable_stale(fetched_at, now, max_stale),
    ensures
        spec_first_step_kind(Some((fetched_at, etag, retry)), now, ttl, max_stale) != 0,
{
}

/// A failed refresh sets a cooldown: the record written after it (same
/// fetch time and ETag, retry after `now + retry_ttl`) is served from the
/// cache, with no request, at every later moment before the retry time
/// while it stays usable stale.
pub proof fn law_failed_refresh_defers_retry(
    fetched_at: u64,
    etag: Option<Seq<char>>,
    now: u64,
    later: u64,
    ttl: u64,
    max_stale: u64,
    retry_ttl: u64,
)
    requires
        now <= later,
        later < spec_saturating_add(now, retry_ttl),
        spec_usable_stale(fetched_at, later, max_stale),
    ensures
        spec_first_step_kind(
            Some((fetched_at, etag, Some(spec_saturating_add(now, retry_ttl)))),
            later,
            ttl,
            max_stale,
        ) == 0,
{
}

/// What a successful fetch writes is served back: a record stamped fetched
/// at `now` (a real time, not zero) is fresh at `now` under any TTL.
pub proof fn law_fetched_record_served_fresh(
    now: u64,
    etag: Option<Seq<char>>,
    ttl: u64,
    max_stale: u64,
)
    requires
        now != 0,
    ensures
        spec_first_step_kind(Some((now, etag, None::<u64>)), now, ttl, max_stale) == 0,
{
}

/// What is written back to the shared cache along with the metadata that is
/// returned.
#[derive(Debug, Clone, PartialEq, Eq)]
pub struct MetadataWrite {
    pub fetched_at: u64,
    pub etag: Option<String>,
    pub stale_retry_after: Option<u64>,
}

/// The outcome of a revalidation request.
pub enum RevalidateOutcome {
    NotModified,
    Modified { metadata: PackageMetadata, etag: String },
    Failed,
}

/// The outcome of an unconditional fetch.
pub enum FetchOutcome {
    Fetched { metadata: PackageMetadata, etag: Option<String> },
    Failed { message: String },
}

pub open spec fn write_view(w: Option<MetadataWrite>) -> Option<(u64, Option<Seq<char>>, Option<u64>)> {
    match w {
        Some(w) => Some((w.fetched_at, opt_string_view(w.etag), w.stale_retry_after)),
        None => None,
    }
}

/// The error text when a revalidation fails and the cached copy is too old.
pub open spec fn spec_too_old_message(package: Seq<char>) -> Seq<char> {
    "npm metadata refresh failed for '"@ + package
        + "' and cached metadata is too old to reuse"@
}

/// The error text when a fetch fails and no cached copy may be served.
pub open spec fn spec_fetch_failed_message(package: Seq<char>, err: Seq<char>) -> Seq<char> {
    "failed to fetch metadata for '"@ + package + "': "@ + err
}

/// Settles a revalidation of `cached` (whose ETag is `etag`): not modified
/// serves the cached document and stamps it fetched now; modified serves and
/// stores the new document; a failure serves the cached document only while
/// it is usable stale, and then defers the next retry.
/// Returns the document to serve (or the error) and what to write with it.
pub fn metadata_after_revalidate(
    package: &str,
    cached: CachedMetadataRecord,
    etag: String,
    outcome: RevalidateOutcome,
    now: u64,
    max_stale: u64,
    retry_ttl: u64,
) -> (r: (Result<PackageMetadata, String>, Option<MetadataWrite>))
    ensures
        match outcome {
            RevalidateOutcome::NotModified => r.0 == Ok::<PackageMetadata, String>(cached.metadata)
                && write_view(r.1) == Some((now, Some(etag@), None::<u64>)),
            RevalidateOutcome::Modified { metadata, etag: new_etag } => r.0 == Ok::<
                PackageMetadata,
                String,
            >(metadata) && write_view(r.1) == Some((now, Some(new_etag@), None::<u64>)),
            RevalidateOutcome::Failed => if spec_usable_stale(cached.fetched_at, now, max_stale) {
                r.0 == Ok::<PackageMetadata, String>(cached.metadata) && write_view(r.1) == Some(
                    (
                        cached.fetched_at,
                        opt_string_view(cached.etag),
                        Some(spec_saturating_add(now, retry_ttl)),
                    ),
                )
            } else {
                r.0 is Err && r.0->Err_0@ == spec_too_old_message(package@) && r.1.is_none()
            },
        },
{
    match outcome {
        RevalidateOutcome::NotModified => {
            let w = MetadataWrite { fetched_at: now, etag: Some(etag), stale_retry_after: None };
            (Ok(cached.metadata), Some(w))
        },
        RevalidateOutcome::Modified { metadata, etag: new_etag } => {
            let w = MetadataWrite { fetched_at: now, etag: Some(new_etag), stale_retry_after: None };
            (Ok(metadata), Some(w))
        },
        RevalidateOutcome::Failed => {
            if !metadata_record_is_usable_stale_at(&cached, now, max_stale) {
                let mut msg = str_to_string("npm metadata refresh failed for '");
                string_append(&mut msg, package);
                string_append(&mut msg, "' and cached metadata is too old to reuse");
                return (Err(msg), None);
            }
            let w = MetadataWrite {
                fetched_at: cached.fetched_at,
                etag: cached.etag,
                stale_retry_after: Some(next_stale_retry_after_at(now, retry_ttl)),
            };
            (Ok(cached.metadata), Some(w))
        },
    }
}

/// Settles an unconditional fetch: a fetched document is served and stored
/// as fetched now; on failure a usable stale cached document is served with
/// its next retry deferred, and otherwise the fetch error is reported.
pub fn metadata_after_fetch(
    package: &str,
    cached: Option<CachedMetadataRecord>,
    outcome: FetchOutcome,
    now: u64,
    max_stale: u64,
    retry_ttl: u64,
) -> (r: (Result<PackageMetadata, String>, Option<MetadataWrite>))
    ensures
        match outcome {
            FetchOutcome::Fetched { metadata, etag } => r.0 == Ok::<PackageMetadata, String>(metadata)
                && write_view(r.1) == Some((now, opt_string_view(etag), None::<u64>)),
            FetchOutcome::Failed { message } => match cached {
                Some(c) => if spec_usable_stale(c.fetched_at, now, max_stale) {
                    r.0 == Ok::<PackageMetadata, String>(c.metadata) && write_view(r.1) == Some(
                        (c.fetched_at, opt_string_view(c.etag), Some(spec_saturating_add(now, retry_ttl))),
                    )
                } else {
                    r.0 is Err && r.0->Err_0@ == spec_fetch_failed_message(package@, message@)
                        && r.1.is_none()
                },
                None => r.0 is Err && r.0->Err_0@ == spec_fetch_failed_message(package@, message@)
                    && r.1.is_none(),
            },
        },
{
    match outcome {
        FetchOutcome::Fetched { metadata, etag } => {
            let w = MetadataWrite { fetched_at: now, etag, stale_retry_after: None };
            (Ok(metadata), Some(w))
        },
        FetchOutcome::Failed { message } => {
            if let Some(c) = cached {
                if metadata_record_is_usable_stale_at(&c, now, max_stale) {
                    let w = MetadataWrite {
                        fetched_at: c.fetched_at,
                        etag: c.etag,
                        stale_retry_after: Some(next_stale_retry_after_at(now, retry_ttl)),
                    };
                    return (Ok(c.metadata), Some(w));
                }
            }
            let mut msg = str_to_string("failed to fetch metadata for '");
            string_append(&mut msg, package);
            string_append(&mut msg, "': ");
            string_append(&mut msg, message.as_str());
            (Err(msg), None)
        },
    }
}

/// The envelope stored for `metadata` with the given bookkeeping.
pub fn metadata_envelope(
    metadata: PackageMetadata,
    etag: Option<String>,
    fetched_at: u64,
    stale_retry_after: Option<u64>,
) -> (r: CachedMetadataEnvelope)
    ensures
        r.metadata == metadata,
        r.fetched_at == fetched_at,
        r.etag == etag,
        r.stale_retry_after == stale_retry_after,
{
    CachedMetadataEnvelope { fetched_at, etag, stale_retry_after, metadata }
}

/// The record a cached document yields: an envelope keeps its bookkeeping,
/// a bare legacy document gets none (`fetched_at == 0`).
pub fn record_from_envelope(envelope: CachedMetadataEnvelope) -> (r: CachedMetadataRecord)
    ensures
        r.metadata == envelope.metadata,
        r.fetched_at == envelope.fetched_at,
        r.etag == envelope.etag,
        r.stale_retry_after == envelope.stale_retry_after,
{
    CachedMetadataRecord {
        fetched_at: envelope.fetched_at,
        etag: envelope.etag,
        stale_retry_after: envelope.stale_retry_after,
        metadata: envelope.metadata,
    }
}

/// See [`record_from_envelope`]: a legacy document without an envelope.
pub fn record_from_legacy(metadata: PackageMetadata) -> (r: CachedMetadataRecord)
    ensures
        r.metadata == metadata,
        r.fetched_at == 0,
        r.etag.is_none(),
        r.stale_retry_after.is_none(),
{
    CachedMetadataRecord { fetched_at: 0, etag: None, stale_retry_after: None, metadata }
}

} // verus!
